use fallegji::auth::{Role, Uid, User};
use fallegji::config::{section_chat, ChatChoice};
use fallegji::connection::peer::{pickable_interfaces, InterfaceInfo, IpAddress};
use fallegji::messaging::local_is_admin;
use fallegji::ui_screens::{
    crowd_line, status_line, typing_line, HomeAction, HomeForm, PanelAction, RequestPanel, ResendTimer,
    ScreenKey,
};

fn chats(names: &[&str]) -> ChatChoice {
    ChatChoice::from_sections(names.iter().map(|s| s.to_string()).collect())
}

#[test]
fn home_focus_moves_through_the_forms() {
    let mut f = HomeForm::new();
    let mut c = chats(&["a @ x"]);
    f.key(&mut c, ScreenKey::Char('j', false), false);
    assert_eq!((f.section, f.field), (1, 0));
    f.key(&mut c, ScreenKey::Down(false), false);
    f.key(&mut c, ScreenKey::Down(false), false);
    f.key(&mut c, ScreenKey::Down(false), false);
    assert_eq!((f.section, f.field), (2, 0));
    f.key(&mut c, ScreenKey::Up(false), false);
    assert_eq!((f.section, f.field), (1, 2));
    f.key(&mut c, ScreenKey::Char('k', true), false);
    assert_eq!((f.section, f.field), (1, 1));
}

#[test]
fn home_list_cycles_and_deletes_on_a_second_press() {
    let mut f = HomeForm::new();
    let mut c = chats(&["a @ x", "b @ y", "c @ z"]);
    f.key(&mut c, ScreenKey::Left, false);
    assert_eq!(c.choice, 2);
    f.key(&mut c, ScreenKey::Char('l', false), false);
    assert_eq!(c.choice, 0);
    assert_eq!(f.key(&mut c, ScreenKey::Char('d', false), false), HomeAction::Nothing);
    assert_eq!(f.marked, Some(0));
    assert_eq!(f.key(&mut c, ScreenKey::Delete, false), HomeAction::DeleteChosen);
    assert_eq!(f.marked, None);
    assert_eq!(f.key(&mut c, ScreenKey::Enter, false), HomeAction::OpenChosen);
    assert_eq!(f.key(&mut c, ScreenKey::Char('q', true), false), HomeAction::Quit);
}

#[test]
fn home_create_form_checks_each_field() {
    let mut f = HomeForm::new();
    let mut c = chats(&["me @ room"]);
    f.key(&mut c, ScreenKey::Down(false), false);
    for ch in "room".chars() {
        f.key(&mut c, ScreenKey::Char(ch, false), false);
    }
    assert_eq!(f.chat_name.iter().collect::<String>(), "room");
    f.key(&mut c, ScreenKey::Enter, false);
    assert_eq!(f.field, 1);
    for ch in "me".chars() {
        f.key(&mut c, ScreenKey::Char(ch, false), false);
    }
    assert!(f.combo_taken(&c.available));
    assert!(!f.chat_name_ok(&c.available));
    f.key(&mut c, ScreenKey::Enter, false);
    assert_eq!(f.field, 2);
    for ch in "1.2.3.4:5".chars() {
        f.key(&mut c, ScreenKey::Char(ch, false), false);
    }
    assert_eq!(f.key(&mut c, ScreenKey::Enter, true), HomeAction::Nothing);
    f.key(&mut c, ScreenKey::Up(false), false);
    f.key(&mut c, ScreenKey::Backspace, false);
    f.key(&mut c, ScreenKey::Backspace, false);
    f.key(&mut c, ScreenKey::Char('y', false), false);
    f.key(&mut c, ScreenKey::Char('o', false), false);
    assert!(!f.combo_taken(&c.available));
    f.key(&mut c, ScreenKey::Down(false), false);
    assert_eq!(f.key(&mut c, ScreenKey::Enter, true), HomeAction::Create);
    assert_eq!(f.key(&mut c, ScreenKey::Enter, false), HomeAction::Nothing);
}

#[test]
fn home_join_form() {
    let mut f = HomeForm::new();
    let mut c = chats(&[]);
    f.section = 2;
    f.key(&mut c, ScreenKey::Char('u', false), false);
    f.key(&mut c, ScreenKey::Enter, false);
    assert_eq!(f.field, 1);
    f.key(&mut c, ScreenKey::Char('1', false), false);
    assert_eq!(f.rendezvous, vec!['1']);
    assert_eq!(f.key(&mut c, ScreenKey::Enter, true), HomeAction::Join);
}

#[test]
fn request_panel_moves_and_answers() {
    let mut p = RequestPanel::new();
    assert_eq!(p.key(3, ScreenKey::Enter), PanelAction::ToChat);
    p.key(3, ScreenKey::Up(true));
    assert_eq!(p.section, 1);
    p.key(3, ScreenKey::Char('j', false));
    p.key(3, ScreenKey::Down(false));
    p.key(3, ScreenKey::Down(false));
    assert_eq!(p.index, 2);
    p.key(3, ScreenKey::Left);
    assert_eq!(p.key(3, ScreenKey::Enter), PanelAction::Answer(2, true));
    p.answered(2);
    assert_eq!(p.index, 1);
    p.key(2, ScreenKey::Char('l', false));
    assert_eq!(p.key(2, ScreenKey::Enter), PanelAction::Answer(1, false));
    assert_eq!(p.key(2, ScreenKey::Char('q', false)), PanelAction::ToChat);
}

#[test]
fn resend_pauses_cycle_three_six_nine_thirty() {
    let mut t = ResendTimer::new();
    let mut now = 0u64;
    let mut pauses = Vec::new();
    for _ in 0..5 {
        assert!(t.press(now));
        pauses.push(t.ready_at - now);
        assert!(!t.press(now + 1));
        now = t.ready_at;
    }
    assert_eq!(pauses, vec![3000, 6000, 9000, 30000, 3000]);
}

#[test]
fn typing_indicator_lists_the_names() {
    let one: String = typing_line(&vec!["ann".to_string()]).iter().collect();
    assert_eq!(one, "ann is typing");
    let three: String =
        typing_line(&vec!["a".to_string(), "b".to_string(), "c".to_string()]).iter().collect();
    assert_eq!(three, "a, b and c are typing");
    let two: String = typing_line(&vec!["a".to_string(), "b".to_string()]).iter().collect();
    assert_eq!(two, "a and b are typing");
}

#[test]
fn interfaces_offered_are_ipv4_and_not_loopback() {
    let ifs = vec![
        InterfaceInfo { name: "lo".to_string(), ip: IpAddress::V4(0x7f00_0001), loopback: true },
        InterfaceInfo { name: "eth0".to_string(), ip: IpAddress::V6(1), loopback: false },
        InterfaceInfo { name: "wlan0".to_string(), ip: IpAddress::V4(0xc0a8_0102), loopback: false },
    ];
    let picked = pickable_interfaces(&ifs);
    assert_eq!(picked.len(), 1);
    assert_eq!(picked[0].0, "wlan0");
    assert!(matches!(picked[0].1, IpAddress::V4(0xc0a8_0102)));
}

#[test]
fn section_names_give_their_chat() {
    assert_eq!(section_chat("me @ room"), "room");
    assert_eq!(section_chat("a @ b @ c"), "c");
    assert_eq!(section_chat("plain"), "plain");
}

#[test]
fn the_local_admin_is_found_by_name_and_role() {
    let mut admin = User::new("aa".to_string(), "ann".to_string(), Uid::from(1));
    admin.set_role(Role::Admin);
    let mut member = User::new("bb".to_string(), "bob".to_string(), Uid::from(2));
    member.set_role(Role::Member);
    let users = vec![admin, member];
    assert!(local_is_admin(&users, "ann"));
    assert!(!local_is_admin(&users, "bob"));
    assert!(!local_is_admin(&users, "cid"));
}

#[test]
fn status_line_priorities() {
    let names = vec!["zoe".to_string()];
    let none: Vec<String> = vec![];
    let s = |v: Vec<char>| v.into_iter().collect::<String>();
    assert_eq!(s(status_line(&names, true, 3, true)), "zoe is typing");
    assert_eq!(s(status_line(&none, true, 3, true)), "");
    assert_eq!(s(status_line(&none, false, 1, true)), "1 request waiting");
    assert_eq!(s(status_line(&none, false, 12, true)), "12 requests waiting");
    assert_eq!(s(status_line(&none, false, 0, true)), "connected to peers");
    assert_eq!(s(status_line(&none, false, 0, false)), "");
    assert_eq!(s(crowd_line(7)), "7 ppl are typing");
}
