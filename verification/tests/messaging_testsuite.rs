use fallegji::auth::{Role, Uid, User};
use fallegji::messaging::{
    absorb_messages, created_notice, db_file_name, find_local_user, joined_notice, record_message, union_messages, Chat,
    Message,
};
use std::collections::HashMap;

fn wire(m: &Message) -> Vec<u8> {
    let mut obj = serde_json::Map::new();
    obj.insert("id".to_string(), serde_json::Value::from(m.get_id()));
    obj.insert("sender_id".to_string(), serde_json::Value::from(m.get_sender_id()));
    obj.insert("contents".to_string(), serde_json::Value::from(m.get_contents()));
    obj.insert("sent_at".to_string(), serde_json::Value::from(m.get_sent_at()));
    serde_json::to_vec(&serde_json::Value::Object(obj)).unwrap()
}

fn unwire(bytes: &[u8]) -> Message {
    let v: serde_json::Value = serde_json::from_slice(bytes).unwrap();
    let mut m = Message::new(
        v["id"].as_i64().unwrap() as i32,
        v["sender_id"].as_u64().unwrap(),
        v["contents"].as_str().unwrap().to_string(),
    );
    m.set_date(v["sent_at"].as_i64().unwrap());
    m
}

/// Message: construction, getters, setters, serde roundtrip.
#[test]
fn test_message() {
    let mut m = Message::new(5, 42, "hi".to_string());
    assert_eq!(m.get_id(), 5);
    assert_eq!(m.get_sender_id(), 42);
    assert_eq!(m.get_contents(), "hi");
    assert!(m.get_sent_at() > 0, "new() stamps a real time");

    m.set_date(12345);
    assert_eq!(m.get_sent_at(), 12345);

    // Serde roundtrip (wire format for msg packets).
    let bytes = wire(&m);
    let back: Message = unwire(&bytes);
    assert_eq!(m, back);
}

fn msg(sender: u64, at: i64, text: &str) -> Message {
    Message::from_row(sender, at, text.to_string())
}

#[test]
fn received_messages_are_kept_once() {
    let mut hist = vec![msg(1, 10, "a")];
    assert!(record_message(&mut hist, msg(2, 11, "b")));
    assert!(!record_message(&mut hist, msg(2, 11, "b")));
    // Same sender and time but other contents is another message.
    assert!(record_message(&mut hist, msg(2, 11, "c")));
    assert_eq!(hist.len(), 3);
}

#[test]
fn absorbing_keeps_everything_sorted() {
    let mut hist = vec![msg(5, 30, "late"), msg(1, 10, "early")];
    absorb_messages(&mut hist, vec![msg(2, 20, "mid"), msg(1, 10, "early"), msg(0, 20, "mid0")]);
    let order: Vec<String> = hist.iter().map(|m| m.get_contents()).collect();
    assert_eq!(order, vec!["early", "mid0", "mid", "late"]);
}

#[test]
fn union_of_sync_batches() {
    let batches = vec![vec![msg(1, 1, "x"), msg(2, 2, "y")], vec![msg(2, 2, "y"), msg(3, 3, "z")]];
    let mut local = Message::new(9, 4, "w".to_string());
    local.set_date(4);
    let out = union_messages(&batches, &vec![local, msg(1, 1, "x")]);
    let texts: Vec<String> = out.iter().map(|m| m.get_contents()).collect();
    assert_eq!(texts, vec!["x", "y", "z", "w"]);
    assert!(out.iter().all(|m| m.get_id() == -1));
}

#[test]
fn chat_notices_and_files() {
    assert_eq!(created_notice("room", "ann"), "Chat 'room' created by ann");
    assert_eq!(joined_notice("bob"), "bob joined the chat");
    assert_eq!(db_file_name("u", "msgtest"), "u__msgtest.db");
}

#[test]
fn finding_the_local_user() {
    let a = User::new("k1".to_string(), "ann".to_string(), Uid::from(1));
    let b = User::new("k2".to_string(), "bob".to_string(), Uid::from(1));
    let a2 = User::new("k3".to_string(), "ann".to_string(), Uid::from(2));
    let users = vec![a.copy(), b.copy(), a2.copy()];
    assert_eq!(find_local_user(&users, "ann"), a2.get_id());
    assert_eq!(find_local_user(&users, "bob"), b.get_id());
    assert_eq!(find_local_user(&users, "cat"), 0);
}

#[test]
fn the_admin_of_a_chat() {
    let mut admin = User::new("k".to_string(), "boss".to_string(), Uid::from(1));
    admin.set_role(Role::Admin);
    let id = admin.get_id();
    let mut members = HashMap::new();
    members.insert(0, User::sys());
    members.insert(id, admin);
    let chat = Chat { message_history: Vec::new(), members, current_user: User::sys() };
    assert_eq!(chat.get_admin(), Some(id));
    let mut members = HashMap::new();
    members.insert(0, User::sys());
    let chat = Chat { message_history: Vec::new(), members, current_user: User::sys() };
    assert_eq!(chat.get_admin(), None);
}
