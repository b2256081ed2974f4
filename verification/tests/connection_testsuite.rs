use fallegji::connection::dbsync::{
    accepted_frame_len, choose_version, frame_sync, length_prefix, pack_component, should_resync, split_sync,
    unpack_component, DbSyncBuf, SyncFrameError,
};
use fallegji::connection::dispatch::{open_with_any, route, Route};
use fallegji::connection::peer::{addr_pair, IpAddress, KeyGen, Peer, PeerError, SockAddr, LOCALHOST_V4};
use fallegji::connection::peermap::{admit_newcomer, dialable, PeerMap, PeerSlot};
use fallegji::connection::ratelimit::{limit, RateLimiter, RATE_PER_MIN};
use fallegji::connection::rendezvous::{
    ack_for, address_table, admin_entry, entries_of_others, handle_request, join_request_text, parse_ack,
    parse_ack_bytes, parse_join_request, parse_join_text, queue_request, rendezvous_route, seen_addrs,
    PendingRequest, RendezvousRoute, RequestAction,
};
use fallegji::connection::roster::{pick_addrs, rebuild_members, restore_roster, sort_msg_rows, sort_peer_rows, sort_user_rows};
use fallegji::connection::{
    decode, encode, encode_with_nonce, FrameError, AVP_HD, DBR_HD, DBS_HD, EVI_HD, HBT_HD, KCK_HD, MSG_HD, NWP_HD,
    OWN_HD, REJ_HD, TYP_HD,
};
use fallegji::auth::{Authentication, Role, Uid, User};
use fallegji::messaging::Message;
use std::collections::HashMap;
use chacha20poly1305::aead::{Aead, KeyInit};

type Key = [u8; 32];

fn v4(a: u8, b: u8, c: u8, d: u8, port: u16) -> SockAddr {
    SockAddr::V4 { ip: u32::from_be_bytes([a, b, c, d]), port }
}

fn message_json(m: &Message) -> Vec<u8> {
    let mut obj = serde_json::Map::new();
    obj.insert("id".to_string(), serde_json::Value::from(m.get_id()));
    obj.insert("sender_id".to_string(), serde_json::Value::from(m.get_sender_id()));
    obj.insert("contents".to_string(), serde_json::Value::from(m.get_contents()));
    obj.insert("sent_at".to_string(), serde_json::Value::from(m.get_sent_at()));
    serde_json::to_vec(&serde_json::Value::Object(obj)).unwrap()
}

fn message_from_json(bytes: &[u8]) -> (i64, u64, String, i64) {
    let v: serde_json::Value = serde_json::from_slice(bytes).unwrap();
    (
        v["id"].as_i64().unwrap(),
        v["sender_id"].as_u64().unwrap(),
        v["contents"].as_str().unwrap().to_string(),
        v["sent_at"].as_i64().unwrap(),
    )
}

fn fresh_peer(id: i32, port: u16) -> (Peer, [u8; 32]) {
    let (public, secret) = Peer::keypairgen().unwrap();
    let addrs = [SockAddr::V4 { ip: LOCALHOST_V4, port }, SockAddr::V4 { ip: LOCALHOST_V4, port }];
    (Peer::from_parts(id, None, addrs, public, None, None), secret)
}

/// Crypto: keypair gen, shared-key agreement, encode/decode roundtrip + compression + tamper.
#[test]
fn test_crypto() {
    // Keypair gen: distinct keys, correct length.
    let (pub1, prv1) = Peer::keypairgen().unwrap();
    assert_eq!(pub1.len(), 32);
    assert_eq!(prv1.len(), 32);
    let (pub2, _) = Peer::keypairgen().unwrap();
    assert_ne!(pub1, pub2);

    // Shared-key agreement: both sides derive the same key. (The peers are made from fresh
    // key pairs: `Peer::new_out` also needs a network interface, which a test host may lack.)
    let (peer_a, prv_a) = fresh_peer(1, 8080);
    let (peer_b, prv_b) = fresh_peer(2, 8081);
    let shared1 = peer_a.shrdkeygen(prv_b);
    let shared2 = peer_b.shrdkeygen(prv_a);
    assert_eq!(shared1.as_slice(), shared2.as_slice());
    assert_eq!(shared1.as_slice().len(), 32);

    let key: &Key = b"super-secret-32-byte-key!!-12345";
    let wrong_key: &Key = b"wrong-key-does-not-match-1234567";

    // --- encode/decode: Message roundtrips (uncompressed path) ---
    let test_messages = [
        Message::new(1, 12345, "Hello peer-to-peer world!".to_string()),
        Message::new(2, 0, "".to_string()),
        Message::new(3, 999, "🔥 Complex chars: emojis & unicode 🔥".to_string()),
    ];

    for original in test_messages.iter() {
        let plain = message_json(original);
        let encrypted = encode(key, MSG_HD, &plain).expect("Encode failed");
        // 1B header + plaintext + 12B nonce + 16B tag
        let plaintext_len = plain.len();
        assert_eq!(encrypted.len(), 1 + plaintext_len + 12 + 16);

        let (header, bytes) = decode(key, &encrypted).expect("Decode failed");
        assert_eq!(header, MSG_HD);
        let decrypted = message_from_json(&bytes);
        assert_eq!(original.get_id() as i64, decrypted.0);
        assert_eq!(original.get_sender_id(), decrypted.1);
        assert_eq!(original.get_contents(), decrypted.2);
        assert_eq!(original.get_sent_at(), decrypted.3);
    }

    // --- encode/decode: String roundtrips ---
    let test_strings = ["hello world".to_string(), "".to_string(), "🔥 unicode test 🔥".to_string()];

    for original in test_strings.iter() {
        let encrypted = encode(key, MSG_HD, &serde_json::to_vec(original).unwrap()).expect("Encode failed");
        let (header, bytes) = decode(key, &encrypted).expect("Decode failed");
        assert_eq!(header, MSG_HD);
        let decrypted: String = serde_json::from_slice(&bytes).expect("Deserialize failed");
        assert_eq!(original, &decrypted);
    }

    // --- enzip/decode: DB-sync path. listen always decodes; DBS_HD body is decompressed. ---
    let test_messages = [
        Message::new(1, 12345, "Hello peer-to-peer world!".to_string()),
        Message::new(2, 0, "".to_string()),
        Message::new(3, 999, "🔥 Complex chars: emojis & unicode 🔥".to_string()),
    ];

    for original in test_messages.iter() {
        // DBS_HD → encode compresses, decode decompresses, transparently
        let zipped = encode(key, DBS_HD, &message_json(original)).expect("Encode failed");
        let (header, body) = decode(key, &zipped).expect("Decode failed");
        assert_eq!(header, DBS_HD);
        let decrypted = message_from_json(&body);
        assert_eq!(original.get_id() as i64, decrypted.0);
        assert_eq!(original.get_contents(), decrypted.2);
    }

    // DBS_HD (compressed) smaller than MSG_HD (raw) for compressible data
    let repetitive = serde_json::to_vec(&"aaaa".repeat(1000)).unwrap();
    let raw_len = encode(key, MSG_HD, &repetitive).unwrap().len();
    let zip_len = encode(key, DBS_HD, &repetitive).unwrap().len();
    assert!(zip_len < raw_len);

    // --- Security: wrong key, empty, too short all fail at decode ---
    let mut msg = Message::new(999, 999, "tamper test".to_string());
    msg.set_contents("security test".to_string());
    let encrypted = encode(key, MSG_HD, &message_json(&msg)).unwrap();
    assert!(decode(wrong_key, &encrypted).is_err());
    assert!(decode(key, &[]).is_err());
    assert!(decode(key, &encrypted[..11]).is_err());
}

#[test]
fn frame_round_trip_with_fixed_nonce() {
    let key = [9u8; 32];
    let nonce = [1u8; 12];
    let f = encode_with_nonce(&key, &nonce, HBT_HD, b"null").unwrap();
    assert_eq!(&f[..12], &nonce);
    assert_eq!(f.len(), 12 + 1 + 4 + 16);
    assert_eq!(decode(&key, &f), Ok((HBT_HD, b"null".to_vec())));
    // Same nonce, same key, same packet: the same frame.
    assert_eq!(encode_with_nonce(&key, &nonce, HBT_HD, b"null").unwrap(), f);
}

#[test]
fn frame_errors() {
    let key = [3u8; 32];
    assert_eq!(decode(&key, &[0u8; 11]), Err(FrameError::TooShort));
    let f = encode(&key, MSG_HD, b"hi").unwrap();
    let mut tampered = f.clone();
    let last = tampered.len() - 1;
    tampered[last] ^= 1;
    assert_eq!(decode(&key, &tampered), Err(FrameError::DecryptionFailed));
    assert_eq!(decode(&[4u8; 32], &f), Err(FrameError::DecryptionFailed));

    // A sealed empty plaintext has no header byte.
    let cipher = chacha20poly1305::ChaCha20Poly1305::new(chacha20poly1305::Key::from_slice(&key));
    let nonce = [0u8; 12];
    let sealed = cipher.encrypt(chacha20poly1305::Nonce::from_slice(&nonce), &b""[..]).unwrap();
    let mut frame = nonce.to_vec();
    frame.extend_from_slice(&sealed);
    assert_eq!(decode(&key, &frame), Err(FrameError::MissingHeader));

    // A compressed body announcing more than the cap is refused before decompression.
    let mut bomb = vec![DBS_HD];
    bomb.extend_from_slice(&(9u32 * 1024 * 1024).to_le_bytes());
    bomb.extend_from_slice(&[0u8; 8]);
    let sealed = cipher.encrypt(chacha20poly1305::Nonce::from_slice(&nonce), &bomb[..]).unwrap();
    let mut frame = nonce.to_vec();
    frame.extend_from_slice(&sealed);
    assert_eq!(decode(&key, &frame), Err(FrameError::SizeCapExceeded));

    // A malformed compressed body.
    let mut junk = vec![AVP_HD];
    junk.extend_from_slice(&[5u8, 0, 0]);
    let sealed = cipher.encrypt(chacha20poly1305::Nonce::from_slice(&nonce), &junk[..]).unwrap();
    let mut frame = nonce.to_vec();
    frame.extend_from_slice(&sealed);
    assert_eq!(decode(&key, &frame), Err(FrameError::DecompressionFailed));
}

#[test]
fn compressed_headers() {
    let key = [5u8; 32];
    for h in [DBS_HD, NWP_HD, DBR_HD, AVP_HD] {
        let body = vec![b'x'; 4000];
        let f = encode(&key, h, &body).unwrap();
        assert!(f.len() < 12 + 1 + 4000 + 16);
        assert_eq!(decode(&key, &f), Ok((h, body)));
    }
    for h in [MSG_HD, HBT_HD, TYP_HD, KCK_HD, EVI_HD, OWN_HD, REJ_HD] {
        let f = encode(&key, h, b"abc").unwrap();
        assert_eq!(f.len(), 12 + 1 + 3 + 16);
        assert_eq!(decode(&key, &f), Ok((h, b"abc".to_vec())));
    }
}

#[test]
fn sync_payload_round_trip() {
    let payload = frame_sync(b"msgs", b"", b"peers!");
    assert_eq!(&payload[..4], &[0, 0, 0, 4]);
    assert_eq!(payload.len(), 4 + 4 + 4 + 0 + 4 + 6);
    assert_eq!(split_sync(&payload), Ok((b"msgs".to_vec(), Vec::new(), b"peers!".to_vec())));
    assert_eq!(split_sync(&payload[..3]), Err(SyncFrameError::Truncated));
    assert_eq!(split_sync(&payload[..6]), Err(SyncFrameError::ShortComponent));
    assert_eq!(split_sync(&[]), Err(SyncFrameError::Truncated));
}

#[test]
fn stream_length_prefix() {
    assert_eq!(length_prefix(0x0102_0304), [1, 2, 3, 4]);
    assert_eq!(accepted_frame_len([0, 0x80, 0, 0]), Some(8 * 1024 * 1024));
    assert_eq!(accepted_frame_len([0, 0x80, 0, 1]), None);
    assert_eq!(accepted_frame_len([0, 0, 1, 0]), Some(256));
}

#[test]
fn sync_winner() {
    let a = b"A".to_vec();
    let b = b"B".to_vec();
    let mine = b"M".to_vec();
    // The admin's copy wins when present.
    assert_eq!(choose_version(&vec![a.clone(), b.clone()], &mine, Some(1), false), b);
    // An out-of-range rank is ignored; the admin keeps its own.
    assert_eq!(choose_version(&vec![a.clone()], &mine, Some(5), true), mine);
    // Otherwise the most common version wins (the last of those tied, ours being last).
    assert_eq!(choose_version(&vec![a.clone(), b.clone(), b.clone()], &mine, None, false), b);
    assert_eq!(choose_version(&vec![a.clone(), b.clone()], &mine, None, false), mine);
    assert_eq!(choose_version(&vec![a.clone(), a.clone(), mine.clone(), b.clone()], &mine, None, false), mine);
    assert_eq!(choose_version(&vec![], &mine, None, false), mine);
}

#[test]
fn sync_buffer_round() {
    let mut buf = DbSyncBuf::new();
    assert!(!buf.pending());
    assert!(!buf.stash(b"m1".to_vec(), b"u1".to_vec(), b"p1".to_vec(), false, 2, 1000));
    assert!(buf.pending());
    assert!(!buf.due(2199));
    assert!(buf.due(2200));
    assert!(buf.stash(b"m2".to_vec(), b"u2".to_vec(), b"p2".to_vec(), false, 2, 1500));
    let round = buf.take();
    assert_eq!(round.msgs, vec![b"m1".to_vec(), b"m2".to_vec()]);
    assert_eq!(round.usrs, vec![b"u1".to_vec(), b"u2".to_vec()]);
    assert_eq!(round.admin_rank, None);
    assert!(!buf.pending());
    // A sync from the admin decides at once, and is remembered as the admin's.
    assert!(buf.stash(b"m".to_vec(), b"u".to_vec(), b"p".to_vec(), true, 5, 10));
    assert_eq!(buf.take().admin_rank, Some(0));
}

#[test]
fn resync_decision() {
    assert!(!should_resync(b"u", b"u", b"p", b"p", 3, 3));
    assert!(should_resync(b"u", b"v", b"p", b"p", 3, 3));
    assert!(should_resync(b"u", b"u", b"p", b"q", 3, 3));
    assert!(should_resync(b"u", b"u", b"p", b"p", 4, 3));
}

#[test]
fn join_handshake() {
    let pubkey = [7u8; 32];
    let admin = [0xabu8; 32];
    let addrs = "127.0.0.1:5000,192.168.1.5:5000";
    let req = join_request_text("alice", addrs, &pubkey, 1000);
    assert_eq!(req, format!("alice[{}]{};1000fallegji", addrs, "07".repeat(32)));
    let parsed = parse_join_text(&req).expect("request reads back");
    assert_eq!(parsed.name, "alice");
    assert_eq!(parsed.addr_text, addrs);
    assert_eq!(parsed.pubkey, pubkey);
    assert_eq!(parsed.uid, 1000);
    let ack = ack_for(&parsed.addr_text, &parsed.name, &admin);
    assert_eq!(ack, format!("received[({}, alice)]{}fallegji", addrs, "ab".repeat(32)));
    assert_eq!(parse_ack(&ack, addrs, "alice"), Some(admin));
    assert_eq!(parse_ack(&ack, addrs, "bob"), None);
    assert_eq!(parse_ack(&ack, "127.0.0.1:5000", "alice"), None);
    assert_eq!(parse_ack_bytes(ack.as_bytes(), addrs, "alice"), Some(admin));
    assert!(parse_join_request(req.as_bytes()).is_some());
}

#[test]
fn join_request_edge_cases() {
    let hex = "07".repeat(32);
    // Surrounding white space after the bracket is trimmed; a missing or unreadable id is 0.
    let r = parse_join_text(&format!("bob[1.2.3.4:5]  {}fallegji \n", hex)).unwrap();
    assert_eq!(r.uid, 0);
    assert_eq!(r.name, "bob");
    let r = parse_join_text(&format!("bob[x]{};notanumberfallegji", hex)).unwrap();
    assert_eq!(r.uid, 0);
    let r = parse_join_text(&format!("bob[x]{};+42fallegji", hex)).unwrap();
    assert_eq!(r.uid, 42);
    let r = parse_join_text(&format!("bob[x]{};4294967296fallegji", hex)).unwrap();
    assert_eq!(r.uid, 0);
    // Upper-case hex reads too.
    let r = parse_join_text(&format!("bob[x]{}fallegji", "AB".repeat(32))).unwrap();
    assert_eq!(r.pubkey, [0xab; 32]);
    // Refusals: no brackets, brackets the wrong way round, no marker, short key, bad hex.
    assert!(parse_join_text(&format!("bob{}fallegji", hex)).is_none());
    assert!(parse_join_text(&format!("bob]x[{}fallegji", hex)).is_none());
    assert!(parse_join_text(&format!("bob[x]{}", hex)).is_none());
    assert!(parse_join_text(&format!("bob[x]{}fallegji", "07".repeat(31))).is_none());
    assert!(parse_join_text(&format!("bob[x]{}zzfallegji", "07".repeat(31))).is_none());
    // Invalid UTF-8 bytes become replacement characters and the request still reads.
    let mut bytes = b"b\xffb[x]".to_vec();
    bytes.extend_from_slice(hex.as_bytes());
    bytes.extend_from_slice(b"fallegji");
    assert_eq!(parse_join_request(&bytes).unwrap().name, "b\u{FFFD}b");
}

#[test]
fn admin_handles_requests() {
    let mine = [1u8; 32];
    let known = vec![[2u8; 32]];
    let addrs = [v4(127, 0, 0, 1, 4000), v4(10, 0, 0, 9, 4000)];
    let text = join_request_text("carol", "a", &[3u8; 32], 5);
    let req = parse_join_text(&text).unwrap();
    let mut queue: Vec<PendingRequest> = Vec::new();
    assert_eq!(handle_request(true, &mut queue, &req, addrs, &mine, &known), RequestAction::Queue);
    assert_eq!(queue.len(), 1);
    assert_eq!(queue[0].name, "carol");
    assert_eq!(queue[0].uid, 5);
    // The same key again only refreshes the addresses.
    let addrs2 = [v4(127, 0, 0, 1, 4001), v4(10, 0, 0, 9, 4001)];
    assert_eq!(handle_request(true, &mut queue, &req, addrs2, &mine, &known), RequestAction::Queue);
    assert_eq!(queue.len(), 1);
    assert_eq!(queue[0].addrs, addrs2);
    // Our own key is ignored; a known peer's key means reconnecting.
    let own = parse_join_text(&join_request_text("me", "a", &mine, 1)).unwrap();
    assert_eq!(handle_request(true, &mut queue, &own, addrs, &mine, &known), RequestAction::Ignore);
    let old = parse_join_text(&join_request_text("dan", "a", &[2u8; 32], 1)).unwrap();
    assert_eq!(handle_request(true, &mut queue, &old, addrs, &mine, &known), RequestAction::Reconnect);
    assert_eq!(queue.len(), 1);
    let other = PendingRequest { addrs, name: "eve".to_string(), pubkey: [4u8; 32], uid: 9 };
    queue_request(&mut queue, other);
    assert_eq!(queue.len(), 2);
    // A node that is not the admin answers no request.
    let fresh = parse_join_text(&join_request_text("fay", "a", &[5u8; 32], 2)).unwrap();
    assert_eq!(handle_request(false, &mut queue, &fresh, addrs, &mine, &known), RequestAction::Ignore);
    assert_eq!(handle_request(false, &mut queue, &old, addrs, &mine, &known), RequestAction::Ignore);
    assert_eq!(queue.len(), 2);
}

#[test]
fn handshake_bytes_keep_any_name() {
    let key = [7u8; 32];
    let text = join_request_text("é 李", "127.0.0.1:1,10.0.0.2:1", &key, 42);
    let req = parse_join_request(text.as_bytes()).unwrap();
    assert_eq!(req.name, "é 李");
    assert_eq!(req.addr_text, "127.0.0.1:1,10.0.0.2:1");
    assert_eq!(req.pubkey, key);
    assert_eq!(req.uid, 42);
    let admin = [9u8; 32];
    let ack = ack_for(&req.addr_text, &req.name, &admin);
    assert_eq!(parse_ack_bytes(ack.as_bytes(), "127.0.0.1:1,10.0.0.2:1", "é 李"), Some(admin));
}

#[test]
fn newcomer_addresses() {
    let given = [v4(127, 0, 0, 1, 6000), v4(192, 168, 1, 7, 6001)];
    let sender = IpAddress::V4(u32::from_be_bytes([81, 2, 3, 4]));
    assert_eq!(seen_addrs(sender, given), [v4(81, 2, 3, 4, 6001), v4(192, 168, 1, 7, 6001)]);
    let v6 = IpAddress::V6(1);
    assert_eq!(
        seen_addrs(v6, given),
        [SockAddr::V6 { ip: 1, port: 6001, flowinfo: 0, scope_id: 0 }, given[1]]
    );
}

#[test]
fn address_tables() {
    let me = [1u8; 32];
    let a = v4(1, 1, 1, 1, 1);
    let b = v4(2, 2, 2, 2, 2);
    let table = vec![([2u8; 32], [a, a]), (me, [b, b]), ([3u8; 32], [b, a])];
    assert_eq!(entries_of_others(&table, &me), vec![([2u8; 32], [a, a]), ([3u8; 32], [b, a])]);
    let mine = [v4(127, 0, 0, 1, 9), b];
    let out = address_table(&table, &me, mine);
    assert_eq!(out.len(), 3);
    assert_eq!(out[2], (me, mine));
    assert_eq!(rendezvous_route(OWN_HD), RendezvousRoute::Reconnect);
    assert_eq!(rendezvous_route(AVP_HD), RendezvousRoute::Exchange);
    assert_eq!(rendezvous_route(EVI_HD), RendezvousRoute::Evicted);
    assert_eq!(rendezvous_route(MSG_HD), RendezvousRoute::Ignore);
}

#[test]
fn admin_entry_shares_key() {
    let (admin_peer, admin_secret) = fresh_peer(1, 7000);
    let (_, my_secret) = Peer::keypairgen().unwrap();
    let rendezvous = v4(127, 0, 0, 1, 7000);
    let slot = admin_entry(rendezvous, admin_peer.get_pubkey(), &my_secret);
    assert_eq!(slot.peer.get_addrs(), [rendezvous, rendezvous]);
    assert_eq!(slot.peer.get_user_id(), None);
    assert_eq!(slot.stream, None);
    // The admin derives the same key from our public key.
    let me_as_peer = Peer::from_parts(-1, None, [rendezvous, rendezvous], x25519_public(&my_secret), None, None);
    assert_eq!(me_as_peer.shrdkeygen(admin_secret), slot.key);
}

fn x25519_public(secret: &[u8; 32]) -> [u8; 32] {
    x25519_dalek::PublicKey::from(&x25519_dalek::StaticSecret::from(*secret)).to_bytes()
}

#[test]
fn rate_limits() {
    assert_eq!(RATE_PER_MIN, 100);
    assert_eq!(limit(MSG_HD), Some((60, 100)));
    assert_eq!(limit(DBS_HD), Some((60, 50)));
    assert_eq!(limit(KCK_HD), Some((60, 20)));
    assert_eq!(limit(HBT_HD), Some((1, 1)));
    assert_eq!(limit(NWP_HD), None);
    let mut rl = RateLimiter::new();
    for _ in 0..100 {
        assert!(rl.recv_ok(7, MSG_HD, 0));
    }
    assert!(!rl.recv_ok(7, MSG_HD, 59_999));
    // Another peer, another type: counted apart.
    assert!(rl.recv_ok(8, MSG_HD, 1));
    assert!(rl.recv_ok(7, TYP_HD, 1));
    assert!(!rl.recv_ok(7, TYP_HD, 999));
    // A new window opens once the old one has run its length.
    assert!(rl.recv_ok(7, MSG_HD, 60_000));
    assert!(rl.recv_ok(7, TYP_HD, 1001));
    // Unlimited types are always taken.
    for _ in 0..1000 {
        assert!(rl.recv_ok(7, REJ_HD, 0));
    }
}

#[test]
fn routing() {
    let mut rl = RateLimiter::new();
    assert_eq!(route(&mut rl, 5, NWP_HD, false, None, None, 0), Route::AcceptChat);
    assert_eq!(route(&mut rl, 5, NWP_HD, true, None, None, 0), Route::Ignore);
    assert_eq!(route(&mut rl, 5, REJ_HD, true, None, None, 0), Route::Rejected);
    assert_eq!(route(&mut rl, 5, MSG_HD, false, None, None, 0), Route::Ignore);
    assert_eq!(route(&mut rl, 5, MSG_HD, true, None, None, 0), Route::Message);
    assert_eq!(route(&mut rl, 5, HBT_HD, true, None, None, 0), Route::Heartbeat);
    assert_eq!(route(&mut rl, 5, HBT_HD, true, None, None, 10), Route::Ignore);
    assert_eq!(route(&mut rl, 5, TYP_HD, true, None, None, 0), Route::Typing);
    assert_eq!(route(&mut rl, 5, DBS_HD, true, None, None, 0), Route::DbSync);
    assert_eq!(route(&mut rl, 5, DBR_HD, true, None, None, 0), Route::DbReq);
    assert_eq!(route(&mut rl, 5, OWN_HD, false, None, None, 0), Route::OwnAddrs);
    assert_eq!(route(&mut rl, 5, AVP_HD, false, None, None, 0), Route::AddrTable);
    assert_eq!(route(&mut rl, 5, KCK_HD, true, Some(5), Some(9), 0), Route::Kick(9));
    assert_eq!(route(&mut rl, 5, KCK_HD, true, Some(6), Some(9), 0), Route::Ignore);
    assert_eq!(route(&mut rl, 5, KCK_HD, true, Some(5), None, 0), Route::Ignore);
    assert_eq!(route(&mut rl, 5, 0x00, true, None, None, 0), Route::Ignore);
}

#[test]
fn finding_the_sender() {
    let keys = vec![[1u8; 32], [2u8; 32], [3u8; 32]];
    let f = encode(&[2u8; 32], MSG_HD, b"x").unwrap();
    let (i, h, body) = open_with_any(&keys, &f).unwrap();
    assert_eq!((i, h, body), (1, MSG_HD, b"x".to_vec()));
    assert!(open_with_any(&vec![[9u8; 32]], &f).is_none());
}

fn peer_with(uid: u64, pubkey: [u8; 32], addrs: [SockAddr; 2]) -> Peer {
    Peer::from_parts(3, Some(uid), addrs, pubkey, Some(100), None)
}

#[test]
fn peer_map_lifecycle() {
    let secret = [5u8; 32];
    let a = [v4(127, 0, 0, 1, 1), v4(10, 0, 0, 1, 1)];
    let b = [v4(127, 0, 0, 1, 2), v4(10, 0, 0, 2, 2)];
    let mut map = PeerMap::new();
    let p1 = peer_with(11, [11u8; 32], a);
    let key1 = p1.shrdkeygen(secret);
    map.insert(11, PeerSlot { peer: p1, key: key1, stream: None });
    map.insert(12, PeerSlot { peer: peer_with(12, [12u8; 32], b), key: [0u8; 32], stream: Some(77) });
    assert_eq!(map.entries().len(), 2);
    assert_eq!(map.dial_list(Some(12)), vec![(11, a)]);
    assert_eq!(map.send_targets(Some(11)), vec![(12, [0u8; 32], 77)]);
    assert_eq!(map.keys_except(Some(11)), vec![[0u8; 32]]);
    assert_eq!(map.address_entries(None).len(), 2);
    // Attaching a stream returns the channel key; a second stream is refused.
    assert_eq!(map.attach(11, 78), Some(key1));
    assert_eq!(map.attach(11, 79), None);
    assert!(map.dial_list(None).is_empty());
    // Heartbeats, typing, presence.
    assert_eq!(map.heartbeat(11, 1000), Some((3, true)));
    assert_eq!(map.heartbeat(11, 1001), Some((3, false)));
    assert_eq!(map.heartbeat(99, 1001), None);
    map.typing(11, 5);
    assert_eq!(map.get(11).unwrap().peer.get_last_seen_typing(), Some(5));
    assert_eq!(map.online_count(None, 1002), 1);
    assert_eq!(map.reached_and_synced(Some(12), 1002, false), Some(1));
    assert_eq!(map.reached_and_synced(Some(12), 1002, true), None);
    assert_eq!(map.reached_and_synced(Some(12), 5000, false), None);
    // A broken stream is dropped only when it is still the peer's.
    map.detach(11, 1);
    assert_eq!(map.get(11).unwrap().stream, Some(78));
    map.detach(11, 78);
    assert_eq!(map.get(11).unwrap().stream, None);
    assert_eq!(map.get(11).unwrap().peer.get_last_heartbeat(), None);
    // Reconnecting by key: new addresses, no stream.
    assert!(map.reconnect(&[12u8; 32], a));
    assert_eq!(map.get(12).unwrap().peer.get_addrs(), a);
    assert_eq!(map.get(12).unwrap().stream, None);
    assert!(!map.reconnect(&[13u8; 32], a));
    assert!(map.readdress_key(&[11u8; 32], b));
    map.readdress(12, b);
    assert_eq!(map.get(12).unwrap().peer.get_addrs(), b);
    // The database request goes to the admin when linked, else the first linked peer.
    map.attach(12, 90);
    assert_eq!(map.db_req_target(Some(12), Some(11)).map(|t| t.0), Some(12));
    assert_eq!(map.db_req_target(Some(11), None).map(|t| t.0), Some(12));
    assert_eq!(map.db_req_target(None, Some(12)), None);
}

#[test]
fn peer_map_rebuild() {
    let secret = [8u8; 32];
    let my_public = x25519_public(&secret);
    let a = [v4(127, 0, 0, 1, 1), v4(10, 0, 0, 1, 1)];
    let b = [v4(127, 0, 0, 1, 2), v4(10, 0, 0, 2, 2)];
    let bound = v4(10, 0, 0, 9, 4444);
    let mut old = PeerMap::new();
    let mut p = peer_with(21, [21u8; 32], a);
    p.set_last_heartbeat(Some(500));
    old.insert(21, PeerSlot { peer: p, key: [0u8; 32], stream: Some(1) });
    old.insert(22, PeerSlot { peer: peer_with(22, [22u8; 32], a), key: [0u8; 32], stream: Some(2) });
    // From the database: 21 unchanged, 22 moved, 23 new, one unlinked, and ourselves.
    let db = vec![
        Peer::from_parts(1, Some(21), a, [21u8; 32], None, None),
        Peer::from_parts(2, Some(22), b, [22u8; 32], None, None),
        Peer::from_parts(3, Some(23), b, [23u8; 32], Some(9), None),
        Peer::from_parts(4, None, b, [24u8; 32], None, None),
        Peer::from_parts(5, Some(30), b, my_public, None, None),
    ];
    let new = old.rebuild(&db, Some(30), &secret, bound);
    let e = new.entries();
    assert_eq!(e.iter().map(|x| x.0).collect::<Vec<_>>(), vec![21, 22, 23, 30]);
    let s21 = new.get(21).unwrap();
    assert_eq!(s21.stream, Some(1));
    assert_eq!(s21.peer.get_last_heartbeat(), Some(500));
    assert_eq!(s21.key, db[0].shrdkeygen(secret));
    assert_eq!(new.get(22).unwrap().stream, None);
    assert_eq!(new.get(23).unwrap().peer.get_last_heartbeat(), Some(9));
    let me = new.get(30).unwrap();
    assert_eq!(me.peer.get_addrs(), [v4(127, 0, 0, 1, 4444), bound]);
    assert_eq!(me.peer.get_id(), -1);
    assert_eq!(me.stream, None);
    assert_eq!(PeerMap::from_linked(&db, &secret).entries().len(), 4);
}

#[test]
fn dial_only_foreign_addresses() {
    let own = [v4(127, 0, 0, 1, 1), v4(10, 0, 0, 1, 1)];
    assert_eq!(dialable(own, own), vec![]);
    assert_eq!(dialable([own[0], v4(10, 0, 0, 2, 1)], own), vec![v4(10, 0, 0, 2, 1)]);
}

#[test]
fn newcomer_is_a_member() {
    let (_, secret) = Peer::keypairgen().unwrap();
    let addrs = [v4(127, 0, 0, 1, 1), v4(10, 0, 0, 1, 1)];
    let (user, slot) = admit_newcomer(addrs, [6u8; 32], "zoe".to_string(), Uid::from(3), &secret, 42);
    assert_eq!(user.get_role(), Some(Role::Member));
    assert_eq!(user.get_id(), User::gen_id(hex::encode([6u8; 32]), "zoe", Uid::from(3)));
    assert_eq!(slot.peer.get_user_id(), Some(user.get_id()));
    assert_eq!(slot.stream, Some(42));
}

#[test]
fn peer_construction() {
    let secret = [1u8; 32];
    let pubkey = x25519_public(&secret);
    let addrs = [v4(127, 0, 0, 1, 8080), v4(192, 168, 1, 5, 8080)];
    let uid = Uid::from(10);
    let user_id = User::new(hex::encode(pubkey), "TestPeer".to_string(), uid).get_id();
    let p = Peer::new_in(2, "TestPeer".to_string(), uid, user_id, addrs, pubkey, Some(1111), Some(1234567890)).unwrap();
    assert_eq!(p.get_id(), 2);
    assert_eq!(p.get_user_id(), Some(user_id));
    assert_eq!(p.get_addrs(), addrs);
    assert_eq!(p.get_addr(), addrs[1]);
    assert_eq!(p.get_last_heartbeat(), Some(1234567890));
    assert_eq!(p.get_last_seen_typing(), Some(1111));
    assert_eq!(
        Peer::new_in(2, "x".to_string(), uid, 999, addrs, pubkey, None, None).err(),
        Some(PeerError::InvalidKeyOrUser)
    );
    let mut q = fresh_peer(-1, 8080).0;
    assert_eq!(q.get_addrs()[0], SockAddr::V4 { ip: LOCALHOST_V4, port: 8080 });
    // Without a non-loopback IPv4 interface there are no local addresses to give a new peer.
    match Peer::new_out(1, 8080) {
        Ok((p, secret)) => {
            assert_eq!(p.get_addrs()[0], SockAddr::V4 { ip: LOCALHOST_V4, port: 8080 });
            assert_eq!(p.get_addrs()[1].port(), 8080);
            assert_eq!(p.get_pubkey(), x25519_public(&secret));
        },
        Err(e) => assert_eq!(e, PeerError::NoInterface),
    }
    q.set_id(10);
    q.set_id(20);
    assert_eq!(q.get_id(), 10);
    assert!(q.set_user_id("TestPeer".to_string(), 1, uid).is_err());
    assert!(!q.is_online_at(0));
    q.set_last_heartbeat(Some(100));
    assert!(q.is_online_at(102));
    assert!(!q.is_online_at(103));
    q.set_last_seen_typing(Some(100));
    assert!(q.is_typing_at(100));
    assert!(!q.is_typing_at(101));
    assert_eq!(addr_pair(&vec![addrs[0]]), Some([addrs[0], addrs[0]]));
    assert_eq!(addr_pair(&vec![]), None);
}

#[test]
fn linking_a_peer_to_its_user() {
    let secret = [2u8; 32];
    let pubkey = x25519_public(&secret);
    let uid = Uid::from(4);
    let good = User::new(hex::encode(pubkey), "amy".to_string(), uid).get_id();
    let addrs = [v4(127, 0, 0, 1, 1), v4(127, 0, 0, 1, 1)];
    let mut p = Peer::from_parts(1, None, addrs, pubkey, None, None);
    assert_eq!(p.set_user_id("amy".to_string(), good ^ 1, uid), Err(PeerError::InvalidKeyOrUser));
    assert_eq!(p.set_user_id("amy".to_string(), good, uid), Ok(()));
    assert_eq!(p.get_user_id(), Some(good));
    assert_eq!(p.set_user_id("amy".to_string(), good, uid), Err(PeerError::UserIdAlreadySet));
}

#[test]
fn roster_rows_in_canonical_order() {
    let users = vec![(3u64, "c".to_string(), None, 1u32), (1, "a".to_string(), Some("admin".to_string()), 1), (3, "d".to_string(), None, 2)];
    let sorted = sort_user_rows(users);
    assert_eq!(sorted.iter().map(|u| u.1.clone()).collect::<Vec<_>>(), vec!["a", "c", "d"]);
    let peers = vec![(Some(5u64), ["x".to_string(), "y".to_string()], [0u8; 32]), (None, ["z".to_string(), "w".to_string()], [1u8; 32])];
    let sorted = sort_peer_rows(peers);
    assert_eq!(sorted[0].0, None);
    let msgs = vec![(2u64, 10i64, "b".to_string()), (1, 10, "a".to_string()), (9, -5, "z".to_string())];
    let sorted = sort_msg_rows(msgs);
    assert_eq!(sorted.iter().map(|m| m.2.clone()).collect::<Vec<_>>(), vec!["z", "a", "b"]);
}

#[test]
fn equal_roster_states_sort_alike() {
    // Rows equal in time and sender (or unlinked peers) are ordered by the rest of the row,
    // so the order in which a database lists them does not show.
    let a = vec![(4u64, 10i64, "yes".to_string()), (4, 10, "no".to_string()), (3, 10, "zz".to_string())];
    let b = vec![(4u64, 10i64, "no".to_string()), (3, 10, "zz".to_string()), (4, 10, "yes".to_string())];
    let sa = sort_msg_rows(a);
    assert_eq!(sa, sort_msg_rows(b));
    assert_eq!(sa.iter().map(|m| m.2.clone()).collect::<Vec<_>>(), vec!["zz", "no", "yes"]);
    let p1 = (None, ["b".to_string(), "b".to_string()], [1u8; 32]);
    let p2 = (None, ["a".to_string(), "c".to_string()], [2u8; 32]);
    let p3 = (Some(1u64), ["z".to_string(), "z".to_string()], [0u8; 32]);
    let sp = sort_peer_rows(vec![p1.clone(), p3.clone(), p2.clone()]);
    assert_eq!(sp, sort_peer_rows(vec![p3.clone(), p2.clone(), p1.clone()]));
    assert_eq!(sp, vec![p2, p1, p3]);
    let u1 = (3u64, "c".to_string(), None, 1u32);
    let u2 = (3u64, "c".to_string(), Some("member".to_string()), 1u32);
    let su = sort_user_rows(vec![u2.clone(), u1.clone()]);
    assert_eq!(su, sort_user_rows(vec![u1.clone(), u2.clone()]));
}

#[test]
fn picking_addresses() {
    let cur = [v4(1, 1, 1, 1, 1), v4(1, 1, 1, 1, 1)];
    let listed = [v4(2, 2, 2, 2, 2), v4(2, 2, 2, 2, 2)];
    assert_eq!(pick_addrs(5, Some(5), Some((cur, false)), Some(listed)), Some(cur));
    assert_eq!(pick_addrs(5, None, Some((cur, true)), Some(listed)), Some(cur));
    assert_eq!(pick_addrs(5, None, Some((cur, false)), Some(listed)), Some(listed));
    assert_eq!(pick_addrs(5, None, Some((cur, false)), None), Some(cur));
    assert_eq!(pick_addrs(5, Some(5), None, Some(listed)), Some(listed));
    assert_eq!(pick_addrs(5, None, None, None), None);
}

#[test]
fn restoring_the_roster() {
    let a = [v4(1, 1, 1, 1, 1), v4(1, 1, 1, 1, 1)];
    let rows = vec![(Some(7u64), Some(a), [7u8; 32]), (None, Some(a), [8u8; 32]), (Some(9), None, [9u8; 32])];
    let users = vec![
        (7u64, "gil".to_string(), Some("ADMIN".to_string()), 3u32),
        (9, "nobody".to_string(), None, 1),
        (7, "gil2".to_string(), Some("boss".to_string()), 3),
    ];
    let (peers, restored) = restore_roster(&rows, &users, &HashMap::new(), None);
    assert_eq!(peers.len(), 1);
    assert_eq!(peers[0].get_user_id(), Some(7));
    assert_eq!(peers[0].get_id(), -1);
    assert_eq!(restored.len(), 3);
    assert_eq!(restored[0].get_name(), "gil");
    assert_eq!(restored[0].get_role(), Some(Role::Admin));
    assert_eq!(restored[0].get_id(), User::gen_id(hex::encode([7u8; 32]), "gil", Uid::from(3)));
    assert_eq!(restored[1].get_role(), None);
    assert_eq!(restored[2].get_id(), 0);
    let members = rebuild_members(restored);
    assert_eq!(members.len(), 3);
    assert_eq!(members.get(&0).unwrap().get_name(), "System");
}

#[test]
fn sync_components_unpack_to_their_rows() {
    let rows = b"[[1,2,\"hello\"],[3,4,\"again and again and again\"]]".to_vec();
    let packed = pack_component(&rows);
    assert_eq!(&packed[..4], &(rows.len() as u32).to_le_bytes());
    assert_eq!(unpack_component(&packed), Some(rows));
    assert_eq!(unpack_component(&[1, 0]), None);
}

fn out_peer(id: i32, port: u16) -> (Peer, [u8; 32]) {
    match Peer::new_out(id, port) {
        Ok(made) => made,
        Err(e) => {
            assert_eq!(e, PeerError::NoInterface);
            fresh_peer(id, port)
        }
    }
}

/// Peer lifecycle: creation (new_out/new_in), getters, setters, presence windows.
#[test]
fn test_peer() {
    // new_out: fresh local peer (on a host with no non-loopback interface, new_out refuses with
    // NoInterface, and a peer on the loopback address stands in).
    let (peer, prvkey) = out_peer(1, 9000);
    assert_eq!(peer.get_id(), 1);
    assert_eq!(peer.get_user_id(), None);
    assert_eq!(peer.get_addr().port(), 9000);
    assert_eq!(peer.get_last_heartbeat(), None);
    assert_eq!(peer.get_last_seen_typing(), None);
    assert_ne!(peer.get_addr(), SockAddr::V4 { ip: 0, port: 9000 });
    assert_eq!(peer.get_pubkey().len(), 32);
    assert_eq!(prvkey.len(), 32);

    // new_in: imported peer, valid + invalid user_id.
    let name = "TestPeer".to_string();
    let uid = Uid::from(10);
    let addrs = [v4(127, 0, 0, 1, 8080), v4(192, 168, 1, 5, 8080)];
    let pubkey = x25519_public(&[1u8; 32]);
    let user_id = User::new(hex::encode(pubkey), name.clone(), uid).get_id();
    let imported = Peer::new_in(2, name, uid, user_id, addrs, pubkey, Some(1111), Some(1234567890))
        .expect("valid new_in");
    assert_eq!(imported.get_id(), 2);
    assert_eq!(imported.get_user_id(), Some(user_id));
    assert_eq!(imported.get_addrs(), addrs, "all addresses preserved");
    assert_eq!(imported.get_addr(), addrs[1], "get_addr returns the LAN one");
    assert_eq!(imported.get_last_heartbeat(), Some(1234567890));
    assert_eq!(imported.get_last_seen_typing(), Some(1111));
    assert!(Peer::new_in(2, "x".to_string(), uid, 999, addrs, pubkey, None, None).is_err(), "bad user_id rejected");

    // setters.
    let (mut peer, _) = out_peer(-1, 8080);
    peer.set_id(10);
    assert_eq!(peer.get_id(), 10);
    peer.set_id(20); // id only settable while < 0
    assert_eq!(peer.get_id(), 10);
    let new_addrs = [v4(127, 0, 0, 1, 9090), v4(192, 168, 1, 1, 9090)];
    peer.set_addrs(new_addrs);
    assert_eq!(peer.get_addrs(), new_addrs);
    peer.set_last_heartbeat(Some(1));
    assert_eq!(peer.get_last_heartbeat(), Some(1));
    peer.set_last_seen_typing(Some(2));
    assert_eq!(peer.get_last_seen_typing(), Some(2));

    // presence windows: is_online (3s), is_typing (1s); never-seen gives false.
    let now = std::time::SystemTime::now().duration_since(std::time::UNIX_EPOCH).unwrap().as_secs() as i64;
    let (mut p, _) = out_peer(1, 9000);
    assert!(!p.is_online() && !p.is_typing());
    p.set_last_heartbeat(Some(now));
    assert!(p.is_online());
    p.set_last_heartbeat(Some(now - 10));
    assert!(!p.is_online());
    p.set_last_seen_typing(Some(now));
    assert!(p.is_typing());
    p.set_last_seen_typing(Some(now - 10));
    assert!(!p.is_typing());
}
