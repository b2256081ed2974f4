//! The rendezvous handshake: the plain-text join request a newcomer sends to a chat's
//! admin, the admin's acknowledgement, and what the admin does with a request.
//!
//! A request reads `name[addresses]pubkey;uidfallegji`, an acknowledgement
//! `received[(addresses, name)]adminpubkeyfallegji`; keys are lower-case hex.
use vstd::prelude::*;
use vstd::utf8::{encode_utf8, encode_utf8_decode_utf8, encode_utf8_valid_utf8};
use crate::connection::dbsync::bytes_equal;
use crate::connection::peer::{IpAddress, KeyGen, Peer, PeerView, SockAddr, channel_key, port_of, sock_of};
use crate::connection::peermap::{PeerSlot, SlotView};
use crate::connection::frame::{AVP_HD, EVI_HD, OWN_HD};
use crate::crypto::{hex_decode, hex_decoded_text, hex_encode, hex_encoded, is_hex_char, lemma_hex_chars, lemma_hex_roundtrip};
use crate::text::{
    chars_of, decimal_string, decimal_text, ends_with, find_char, index_of, is_space,
    lemma_decimal_parses, lemma_index_of, lemma_index_of_first, parse_u32, parsed_u32,
    push_char, string_of, strip_suffix, trim_bounds, trim_end, trim_start, trimmed, index_of_pair,
    find_pair, same_chars, text_of_bytes, lossy_text, lemma_index_of_pair, lemma_decimal_digits,
    lemma_index_of_none, lemma_strip_suffix, lemma_trimmed_fixed, is_digit,
};

verus! {

broadcast use vstd::string::group_string_axioms;

/// The word every handshake text ends with.
pub open spec fn marker() -> Seq<char> {
    seq!['f', 'a', 'l', 'l', 'e', 'g', 'j', 'i']
}

/// The word an acknowledgement starts with.
pub open spec fn received() -> Seq<char> {
    seq!['r', 'e', 'c', 'e', 'i', 'v', 'e', 'd']
}

/// The characters of `marker()`.
fn marker_chars() -> (res: Vec<char>)
    ensures
        res@ == marker(),
{
    let v = vec!['f', 'a', 'l', 'l', 'e', 'g', 'j', 'i'];
    assert(v@ =~= marker());
    v
}

/// A bracketed text cut in three: what precedes the first `[`, what lies between it and the
/// first `]`, and the rest with surrounding white space trimmed; nothing when a bracket is
/// missing or the first `]` does not follow the first `[`.
pub open spec fn bracketed(t: Seq<char>) -> Option<(Seq<char>, Seq<char>, Seq<char>)> {
    match (index_of(t, '['), index_of(t, ']')) {
        (Some(start), Some(end)) => if start < end {
            Some((t.subrange(0, start), t.subrange(start + 1, end), trimmed(t.subrange(end + 1, t.len() as int))))
        } else {
            None
        },
        _ => None,
    }
}

/// The key text and account id of a request's body: split at the first `;`, the id read as
/// a decimal number (0 when it does not read as one, or when there is no `;`).
pub open spec fn key_and_uid(body: Seq<char>) -> (Seq<char>, u32) {
    match index_of(body, ';') {
        Some(i) => (body.subrange(0, i), match parsed_u32(body.subrange(i + 1, body.len() as int)) {
            Some(u) => u,
            None => 0,
        }),
        None => (body, 0),
    }
}

/// The 32-byte public key hex text stands for.
pub open spec fn public_key_of(hex: Seq<char>) -> Option<Seq<u8>> {
    match hex_decoded_text(hex) {
        Some(k) => if k.len() == 32 {
            Some(k)
        } else {
            None
        },
        None => None,
    }
}

/// What a join request says.
pub struct JoinFields {
    pub name: Seq<char>,
    pub addr_text: Seq<char>,
    pub pubkey: Seq<u8>,
    pub uid: u32,
}

/// What a join request text says, if it is one.
pub open spec fn join_fields(t: Seq<char>) -> Option<JoinFields> {
    match bracketed(t) {
        None => None,
        Some((name, addr_text, tail)) => match strip_suffix(tail, marker()) {
            None => None,
            Some(body) => match public_key_of(key_and_uid(body).0) {
                Some(pk) => Some(JoinFields { name, addr_text, pubkey: pk, uid: key_and_uid(body).1 }),
                None => None,
            },
        },
    }
}

/// A join request as the admin reads it: the newcomer's name, its address list as written,
/// its public key and account id.
pub struct JoinRequest {
    pub name: String,
    pub addr_text: String,
    pub pubkey: [u8; 32],
    pub uid: u32,
}

impl View for JoinRequest {
    type V = JoinFields;

    open spec fn view(&self) -> JoinFields {
        JoinFields { name: self.name@, addr_text: self.addr_text@, pubkey: self.pubkey@, uid: self.uid }
    }
}

/// The 32 bytes of a vector of that length.
pub fn to_array32(b: &Vec<u8>) -> (res: [u8; 32])
    requires
        b@.len() == 32,
    ensures
        res@ == b@,
{
    let mut out = [0u8; 32];
    let mut i: usize = 0;
    while i < 32
        invariant
            b@.len() == 32,
            i <= 32,
            forall|j: int| 0 <= j < i ==> out@[j] == b@[j],
        decreases 32 - i,
    {
        out.set(i, b[i]);
        i = i + 1;
    }
    assert(out@ =~= b@);
    out
}

/// Reads the public key that the hex text `v[from..to]` stands for.
fn read_public_key(v: &Vec<char>, from: usize, to: usize) -> (res: Option<[u8; 32]>)
    requires
        from <= to <= v@.len(),
    ensures
        match public_key_of(v@.subrange(from as int, to as int)) {
            Some(k) => res matches Some(a) && a@ == k,
            None => res is None,
        },
{
    let hex = string_of(v, from, to);
    match hex_decode(hex.as_str()) {
        Some(bytes) => if bytes.len() == 32 {
            Some(to_array32(&bytes))
        } else {
            None
        },
        None => None,
    }
}

/// Cuts `v` as `bracketed` does: the positions of the first `[` and `]` and the bounds of
/// the trimmed rest.
fn cut_bracketed(v: &Vec<char>) -> (res: Option<(usize, usize, usize, usize)>)
    ensures
        match bracketed(v@) {
            Some((head, inner, tail)) => res matches Some((start, end, a, b)) && start < end
                && end + 1 <= a <= b <= v@.len() && head == v@.subrange(0, start as int)
                && inner == v@.subrange(start + 1, end as int) && tail == v@.subrange(a as int, b as int),
            None => res is None,
        },
{
    let n = v.len();
    assert(v@.subrange(0, n as int) =~= v@);
    let start = match find_char(v, 0, n, '[') {
        Some(s) => s,
        None => return None,
    };
    let end = match find_char(v, 0, n, ']') {
        Some(e) => e,
        None => return None,
    };
    if start >= end {
        proof {
            lemma_index_of(v@, '[');
            lemma_index_of(v@, ']');
        }
        return None;
    }
    let (a, b) = trim_bounds(v, end + 1, n);
    assert(index_of(v@, '[') == Some(start as int));
    assert(index_of(v@, ']') == Some(end as int));
    Some((start, end, a, b))
}

/// Splits the body `v[from..to]` as `key_and_uid` does: where the key text ends, and the id.
fn split_key_and_uid(v: &Vec<char>, from: usize, to: usize) -> (res: (usize, u32))
    requires
        from <= to <= v@.len(),
    ensures
        from <= res.0 <= to,
        key_and_uid(v@.subrange(from as int, to as int)) == (v@.subrange(from as int, res.0 as int), res.1),
{
    let ghost body = v@.subrange(from as int, to as int);
    match find_char(v, from, to, ';') {
        Some(i) => {
            let u = match parse_u32(v, i + 1, to) {
                Some(u) => u,
                None => 0,
            };
            proof {
                assert(body.subrange(0, i - from) =~= v@.subrange(from as int, i as int));
                assert(body.subrange(i - from + 1, body.len() as int) =~= v@.subrange(i + 1, to as int));
            }
            (i, u)
        },
        None => (to, 0u32),
    }
}

/// Reads a join request from its text (the admin's side of `rcv_requests`).
pub fn parse_join_text(text: &str) -> (res: Option<JoinRequest>)
    ensures
        match join_fields(text@) {
            Some(f) => res matches Some(r) && r@ == f,
            None => res is None,
        },
{
    let v = chars_of(text);
    let (start, end, a, b) = match cut_bracketed(&v) {
        Some(c) => c,
        None => return None,
    };
    let mk = marker_chars();
    if !ends_with(&v, a, b, &mk) {
        return None;
    }
    let body_end = b - mk.len();
    let ghost tail = v@.subrange(a as int, b as int);
    let ghost body = v@.subrange(a as int, body_end as int);
    assert(strip_suffix(tail, marker()) == Some(body)) by {
        assert(tail.subrange(0, tail.len() - marker().len()) =~= body);
    }
    let (key_end, uid) = split_key_and_uid(&v, a, body_end);
    let pubkey = match read_public_key(&v, a, key_end) {
        Some(k) => k,
        None => return None,
    };
    Some(JoinRequest { name: string_of(&v, 0, start), addr_text: string_of(&v, start + 1, end), pubkey, uid })
}

/// The text of a join request (`snd_requests`).
pub open spec fn request_text(name: Seq<char>, addr_text: Seq<char>, pubkey: Seq<u8>, uid: u32) -> Seq<char> {
    name + seq!['['] + addr_text + seq![']'] + hex_encoded(pubkey) + seq![';'] + decimal_text(uid as nat) + marker()
}

/// The text of the admin's acknowledgement of a request.
pub open spec fn ack_text(addr_text: Seq<char>, name: Seq<char>, admin_pubkey: Seq<u8>) -> Seq<char> {
    received() + seq!['[', '('] + addr_text + seq![',', ' '] + name + seq![')', ']'] + hex_encoded(admin_pubkey) + marker()
}

/// Writes a join request: `name[addr_text]pubkey;uidfallegji`.
pub fn join_request_text(name: &str, addr_text: &str, pubkey: &[u8; 32], uid: u32) -> (res: String)
    ensures
        res@ == request_text(name@, addr_text@, pubkey@, uid),
{
    let mut s = name.to_owned();
    push_char(&mut s, '[');
    s.append(addr_text);
    push_char(&mut s, ']');
    let hex = hex_encode(pubkey.as_slice());
    s.append(hex.as_str());
    push_char(&mut s, ';');
    let digits = decimal_string(uid as u64);
    s.append(digits.as_str());
    let mk = marker_chars();
    let tail = string_of(&mk, 0, mk.len());
    assert(mk@.subrange(0, mk@.len() as int) =~= marker());
    s.append(tail.as_str());
    s
}

/// Writes the acknowledgement of a request: `received[(addr_text, name)]adminkeyfallegji`.
pub fn ack_for(addr_text: &str, name: &str, admin_pubkey: &[u8; 32]) -> (res: String)
    ensures
        res@ == ack_text(addr_text@, name@, admin_pubkey@),
{
    let word = vec!['r', 'e', 'c', 'e', 'i', 'v', 'e', 'd', '[', '('];
    let mut s = string_of(&word, 0, word.len());
    assert(word@.subrange(0, word@.len() as int) =~= received() + seq!['[', '(']);
    s.append(addr_text);
    push_char(&mut s, ',');
    push_char(&mut s, ' ');
    s.append(name);
    push_char(&mut s, ')');
    push_char(&mut s, ']');
    let hex = hex_encode(admin_pubkey.as_slice());
    s.append(hex.as_str());
    let mk = marker_chars();
    let tail = string_of(&mk, 0, mk.len());
    assert(mk@.subrange(0, mk@.len() as int) =~= marker());
    s.append(tail.as_str());
    assert(s@ =~= ack_text(addr_text@, name@, admin_pubkey@));
    s
}

/// The admin key an acknowledgement carries, when it acknowledges the request of the member
/// with these addresses and name: the text must be `received[(addrs, name)]keyfallegji`, the
/// tuple split at its first `, `, both halves equal to what the member sent.
pub open spec fn acked_key(reply: Seq<char>, my_addrs: Seq<char>, name: Seq<char>) -> Option<Seq<u8>> {
    match bracketed(reply) {
        None => None,
        Some((prefix, tuple, tail)) => match strip_suffix(tail, marker()) {
            None => None,
            Some(hex) => if prefix == received() && tuple.len() >= 2 && tuple[0] == '(' && tuple.last() == ')' {
                let inner = tuple.subrange(1, tuple.len() - 1);
                match index_of_pair(inner, ',', ' ') {
                    Some(k) => if inner.subrange(0, k) == my_addrs && inner.subrange(k + 2, inner.len() as int) == name {
                        public_key_of(hex)
                    } else {
                        None
                    },
                    None => None,
                }
            } else {
                None
            },
        },
    }
}

/// Reads the admin's key from an acknowledgement of this member's request (`snd_requests`);
/// `None` when the text is no acknowledgement of it.
pub fn parse_ack(reply: &str, my_addrs: &str, name: &str) -> (res: Option<[u8; 32]>)
    ensures
        match acked_key(reply@, my_addrs@, name@) {
            Some(k) => res matches Some(a) && a@ == k,
            None => res is None,
        },
{
    let v = chars_of(reply);
    let (start, end, a, b) = match cut_bracketed(&v) {
        Some(c) => c,
        None => return None,
    };
    let mk = marker_chars();
    if !ends_with(&v, a, b, &mk) {
        return None;
    }
    let hex_end = b - mk.len();
    let ghost tail = v@.subrange(a as int, b as int);
    assert(strip_suffix(tail, marker()) == Some(v@.subrange(a as int, hex_end as int))) by {
        assert(tail.subrange(0, tail.len() - marker().len()) =~= v@.subrange(a as int, hex_end as int));
    }
    let word = vec!['r', 'e', 'c', 'e', 'i', 'v', 'e', 'd'];
    assert(word@ =~= received());
    if !same_chars(&v, 0, start, &word) {
        return None;
    }
    let ghost tuple = v@.subrange(start + 1, end as int);
    if end - start < 3 || v[start + 1] != '(' || v[end - 1] != ')' {
        return None;
    }
    let ghost inner = tuple.subrange(1, tuple.len() - 1);
    assert(inner =~= v@.subrange(start + 2, end - 1));
    let k = match find_pair(&v, start + 2, end - 1, ',', ' ') {
        Some(k) => k,
        None => return None,
    };
    proof {
        lemma_index_of_pair(inner, ',', ' ');
        assert(inner.subrange(0, k - (start + 2)) =~= v@.subrange(start + 2, k as int));
        assert(inner.subrange(k - (start + 2) + 2, inner.len() as int) =~= v@.subrange(k + 2, end - 1));
    }
    let mine = chars_of(my_addrs);
    let who = chars_of(name);
    if !same_chars(&v, start + 2, k, &mine) || !same_chars(&v, k + 2, end - 1, &who) {
        return None;
    }
    read_public_key(&v, a, hex_end)
}

/// Reads a join request from the bytes of a datagram (made text as `from_utf8_lossy` does:
/// valid UTF-8 is read as the text it encodes).
pub fn parse_join_request(payload: &[u8]) -> (res: Option<JoinRequest>)
    ensures
        match join_fields(lossy_text(payload@)) {
            Some(f) => res matches Some(r) && r@ == f,
            None => res is None,
        },
{
    let text = text_of_bytes(payload);
    parse_join_text(text.as_str())
}

/// Reads the admin's key from the bytes of a datagram answering this member's request.
pub fn parse_ack_bytes(payload: &[u8], my_addrs: &str, name: &str) -> (res: Option<[u8; 32]>)
    ensures
        match acked_key(lossy_text(payload@), my_addrs@, name@) {
            Some(k) => res matches Some(a) && a@ == k,
            None => res is None,
        },
{
    let text = text_of_bytes(payload);
    parse_ack(text.as_str(), my_addrs, name)
}

/// The hex text of a key ends a handshake text unchanged by trimming and stripping.
proof fn lemma_key_tail(hex: Seq<char>, mid: Seq<char>)
    requires
        hex.len() > 0,
        is_hex_char(hex[0]),
    ensures
        strip_suffix(trimmed(hex + mid + marker()), marker()) == Some(hex + mid),
{
    let t = hex + mid + marker();
    assert(t[0] == hex[0]);
    assert(t.last() == 'i');
    lemma_trimmed_fixed(t);
    assert(hex + mid + marker() =~= (hex + mid) + marker());
    lemma_strip_suffix(hex + mid, marker());
}

/// A member's join request reads back, at the admin, as what the member put in it.
proof fn lemma_request_reads_back(name: Seq<char>, addrs: Seq<char>, pubkey: Seq<u8>, uid: u32)
    requires
        pubkey.len() == 32,
        !name.contains('['),
        !name.contains(']'),
        !addrs.contains(']'),
    ensures
        join_fields(request_text(name, addrs, pubkey, uid)) == Some(JoinFields { name, addr_text: addrs, pubkey, uid }),
{
    let h = hex_encoded(pubkey);
    let d = decimal_text(uid as nat);
    let t = request_text(name, addrs, pubkey, uid);
    let l = name.len() as int;
    let m = l + 1 + addrs.len();
    let tail = h + seq![';'] + d + marker();
    assert(t =~= name + (seq!['['] + addrs + (seq![']'] + tail)));
    assert forall|j: int| 0 <= j < l implies t[j] != '[' by {
        assert(t[j] == name[j]);
    }
    lemma_index_of_first(t, '[', l);
    assert forall|j: int| 0 <= j < m implies t[j] != ']' by {
        if j < l {
            assert(t[j] == name[j]);
        } else if j > l {
            assert(t[j] == addrs[j - l - 1]);
        }
    }
    lemma_index_of_first(t, ']', m);
    assert(t.subrange(0, l) =~= name);
    assert(t.subrange(l + 1, m) =~= addrs);
    assert(t.subrange(m + 1, t.len() as int) =~= tail);
    lemma_hex_chars(pubkey);
    assert(is_hex_char(h[0]));
    lemma_key_tail(h, seq![';'] + d);
    assert(h + seq![';'] + d + marker() =~= h + (seq![';'] + d) + marker());
    let body = h + (seq![';'] + d);
    assert forall|j: int| 0 <= j < h.len() implies body[j] != ';' by {
        assert(body[j] == h[j]);
        assert(is_hex_char(h[j]));
    }
    lemma_index_of_first(body, ';', h.len() as int);
    assert(body.subrange(0, h.len() as int) =~= h);
    assert(body.subrange(h.len() as int + 1, body.len() as int) =~= d);
    lemma_decimal_parses(uid);
    lemma_hex_roundtrip(pubkey);
}

/// Where the brackets of an acknowledgement fall: after `received`, around the tuple.
proof fn lemma_ack_bracketed(addrs: Seq<char>, name: Seq<char>, admin_pubkey: Seq<u8>)
    requires
        !name.contains(']'),
        !addrs.contains(']'),
    ensures
        bracketed(ack_text(addrs, name, admin_pubkey)) == Some((
            received(),
            seq!['('] + (addrs + seq![',', ' '] + name) + seq![')'],
            trimmed(hex_encoded(admin_pubkey) + marker()),
        )),
{
    let r = ack_text(addrs, name, admin_pubkey);
    let a = addrs.len() as int;
    let n = name.len() as int;
    let inner = addrs + seq![',', ' '] + name;
    let tuple = seq!['('] + inner + seq![')'];
    let tail = hex_encoded(admin_pubkey) + marker();
    assert(r =~= received() + (seq!['['] + (tuple + (seq![']'] + tail))));
    let e = 9 + tuple.len() as int;
    assert forall|j: int| 0 <= j < 8 implies r[j] != '[' by {
        assert(r[j] == received()[j]);
    }
    lemma_index_of_first(r, '[', 8);
    assert forall|j: int| 0 <= j < e implies r[j] != ']' by {
        if j < 8 {
            assert(r[j] == received()[j]);
        } else if j > 8 {
            assert(r[j] == tuple[j - 9]);
            if 1 <= j - 9 < 1 + a {
                assert(tuple[j - 9] == addrs[j - 10]);
            } else if 3 + a <= j - 9 < 3 + a + n {
                assert(tuple[j - 9] == name[j - 12 - a]);
            }
        }
    }
    lemma_index_of_first(r, ']', e);
    assert(r.subrange(0, 8) =~= received());
    assert(r.subrange(9, e) =~= tuple);
    assert(r.subrange(e + 1, r.len() as int) =~= tail);
}

/// The tuple of an acknowledgement splits, at its first `, `, into the addresses and the name.
proof fn lemma_ack_tuple(addrs: Seq<char>, name: Seq<char>)
    requires
        index_of_pair(addrs, ',', ' ') is None,
    ensures
        ({
            let tuple = seq!['('] + (addrs + seq![',', ' '] + name) + seq![')'];
            let inner = tuple.subrange(1, tuple.len() - 1);
            &&& tuple.len() >= 2 && tuple[0] == '(' && tuple.last() == ')'
            &&& index_of_pair(inner, ',', ' ') == Some(addrs.len() as int)
            &&& inner.subrange(0, addrs.len() as int) == addrs
            &&& inner.subrange(addrs.len() as int + 2, inner.len() as int) == name
        }),
{
    let a = addrs.len() as int;
    let inner = addrs + seq![',', ' '] + name;
    let tuple = seq!['('] + inner + seq![')'];
    assert(tuple.subrange(1, tuple.len() - 1) =~= inner);
    lemma_index_of_pair(addrs, ',', ' ');
    lemma_index_of_pair(inner, ',', ' ');
    assert(inner[a] == ',' && inner[a + 1] == ' ');
    assert forall|j: int| 0 <= j < a implies !(inner[j] == ',' && #[trigger] inner[j + 1] == ' ') by {
        assert(inner[j] == addrs[j]);
        if j + 1 < a {
            assert(inner[j + 1] == addrs[j + 1]);
        }
    }
    assert(inner.subrange(0, a) =~= addrs);
    assert(inner.subrange(a + 2, inner.len() as int) =~= name);
}

/// The admin's acknowledgement of a request is taken, by the member that sent it, for an
/// acknowledgement of its own request, and yields the admin's key.
proof fn lemma_ack_reads_back(addrs: Seq<char>, name: Seq<char>, admin_pubkey: Seq<u8>)
    requires
        admin_pubkey.len() == 32,
        !name.contains(']'),
        !addrs.contains(']'),
        index_of_pair(addrs, ',', ' ') is None,
    ensures
        acked_key(ack_text(addrs, name, admin_pubkey), addrs, name) == Some(admin_pubkey),
{
    let h = hex_encoded(admin_pubkey);
    lemma_ack_bracketed(addrs, name, admin_pubkey);
    lemma_ack_tuple(addrs, name);
    lemma_hex_chars(admin_pubkey);
    assert(is_hex_char(h[0]));
    assert(h + Seq::<char>::empty() + marker() =~= h + marker());
    assert(h + Seq::<char>::empty() =~= h);
    lemma_key_tail(h, Seq::<char>::empty());
    lemma_hex_roundtrip(admin_pubkey);
}

/// The join handshake: a request that a member writes reads back, at the admin, as the
/// member's name, address list, key and account id; and the admin's acknowledgement of it
/// is accepted by that member as its own and yields the admin's key. (Names and address
/// lists must not hold the brackets and separators the texts are cut at.)
pub proof fn law_join_handshake(name: Seq<char>, addrs: Seq<char>, pubkey: Seq<u8>, uid: u32, admin_pubkey: Seq<u8>)
    requires
        pubkey.len() == 32,
        admin_pubkey.len() == 32,
        !name.contains('['),
        !name.contains(']'),
        !addrs.contains(']'),
        index_of_pair(addrs, ',', ' ') is None,
    ensures
        join_fields(request_text(name, addrs, pubkey, uid)) == Some(JoinFields { name, addr_text: addrs, pubkey, uid }),
        ({
            let f = join_fields(request_text(name, addrs, pubkey, uid))->0;
            acked_key(ack_text(f.addr_text, f.name, admin_pubkey), addrs, name) == Some(admin_pubkey)
        }),
{
    lemma_request_reads_back(name, addrs, pubkey, uid);
    lemma_ack_reads_back(addrs, name, admin_pubkey);
}

/// The join handshake on the wire: the UTF-8 bytes of a request that a member writes read
/// back, at the admin, as the member's name (whatever its characters), address list, key and
/// account id; and the UTF-8 bytes of the admin's acknowledgement yield, at that member, the
/// admin's key. (Names and address lists must not hold the brackets and separators the texts
/// are cut at.)
pub proof fn law_join_handshake_bytes(name: Seq<char>, addrs: Seq<char>, pubkey: Seq<u8>, uid: u32, admin_pubkey: Seq<u8>)
    requires
        pubkey.len() == 32,
        admin_pubkey.len() == 32,
        !name.contains('['),
        !name.contains(']'),
        !addrs.contains(']'),
        index_of_pair(addrs, ',', ' ') is None,
    ensures
        join_fields(lossy_text(encode_utf8(request_text(name, addrs, pubkey, uid))))
            == Some(JoinFields { name, addr_text: addrs, pubkey, uid }),
        acked_key(lossy_text(encode_utf8(ack_text(addrs, name, admin_pubkey))), addrs, name) == Some(admin_pubkey),
{
    law_join_handshake(name, addrs, pubkey, uid, admin_pubkey);
    let req = request_text(name, addrs, pubkey, uid);
    let ack = ack_text(addrs, name, admin_pubkey);
    encode_utf8_valid_utf8(req);
    encode_utf8_decode_utf8(req);
    encode_utf8_valid_utf8(ack);
    encode_utf8_decode_utf8(ack);
}

/// The addresses the admin records for a newcomer: the IP its request came from with the
/// port of the second address it gave, then that second address.
pub open spec fn request_addrs(sender_ip: IpAddress, given: [SockAddr; 2]) -> [SockAddr; 2] {
    [sock_of(sender_ip, port_of(given[1])), given[1]]
}

/// The addresses the admin records for a newcomer (see `request_addrs`).
pub fn seen_addrs(sender_ip: IpAddress, given: [SockAddr; 2]) -> (res: [SockAddr; 2])
    ensures
        res == request_addrs(sender_ip, given),
{
    [SockAddr::new(sender_ip, given[1].port()), given[1]]
}

/// A newcomer waiting for the admin's approval.
#[derive(Debug, Clone)]
pub struct PendingRequest {
    pub addrs: [SockAddr; 2],
    pub name: String,
    pub pubkey: [u8; 32],
    pub uid: u32,
}

/// What a pending request looks like to a contract.
pub struct PendingView {
    pub addrs: [SockAddr; 2],
    pub name: Seq<char>,
    pub pubkey: Seq<u8>,
    pub uid: u32,
}

impl View for PendingRequest {
    type V = PendingView;

    open spec fn view(&self) -> PendingView {
        PendingView { addrs: self.addrs, name: self.name@, pubkey: self.pubkey@, uid: self.uid }
    }
}

/// The views of the requests of a queue.
pub open spec fn pending_views(q: Seq<PendingRequest>) -> Seq<PendingView> {
    q.map_values(|r: PendingRequest| r@)
}

/// Whether no key waits twice in a queue.
pub open spec fn keys_distinct(q: Seq<PendingView>) -> bool {
    forall|i: int, j: int| 0 <= i < j < q.len() ==> q[i].pubkey != q[j].pubkey
}

/// Where a key waits in a queue, if it does.
pub open spec fn queued_at(q: Seq<PendingView>, pubkey: Seq<u8>) -> Option<int> {
    if exists|i: int| 0 <= i < q.len() && q[i].pubkey == pubkey {
        Some(choose|i: int| 0 <= i < q.len() && q[i].pubkey == pubkey)
    } else {
        None
    }
}

/// The queue once a request is queued: a key already waiting has its addresses replaced by
/// the new ones (nothing else of it changes); a new key joins at the end.
pub open spec fn queued(q: Seq<PendingView>, r: PendingView) -> Seq<PendingView> {
    match queued_at(q, r.pubkey) {
        Some(i) => q.update(i, PendingView { addrs: r.addrs, ..q[i] }),
        None => q.push(r),
    }
}

/// Queues a newcomer's request (see `queued`). No key ever waits twice.
pub fn queue_request(requests: &mut Vec<PendingRequest>, req: PendingRequest)
    requires
        keys_distinct(pending_views(old(requests)@)),
    ensures
        keys_distinct(pending_views(final(requests)@)),
        pending_views(final(requests)@) == queued(pending_views(old(requests)@), req@),
{
    let ghost q = pending_views(requests@);
    let mut i: usize = 0;
    while i < requests.len()
        invariant
            i <= requests@.len(),
            requests@ == old(requests)@,
            q == pending_views(requests@),
            keys_distinct(q),
            forall|j: int| 0 <= j < i ==> requests@[j].pubkey@ != req.pubkey@,
        decreases requests@.len() - i,
    {
        if bytes_equal(requests[i].pubkey.as_slice(), req.pubkey.as_slice()) {
            proof {
                assert(q[i as int].pubkey == req@.pubkey);
                assert(queued_at(q, req@.pubkey) == Some(i as int)) by {
                    let k = choose|k: int| 0 <= k < q.len() && q[k].pubkey == req@.pubkey;
                    if k != i {
                        if k < i {
                            assert(requests@[k].pubkey@ != req.pubkey@);
                        }
                    }
                }
            }
            let mut entry = requests[i].clone_request();
            entry.addrs = req.addrs;
            let ghost before = requests@;
            requests.set(i, entry);
            proof {
                let want = queued(q, req@);
                assert(want == q.update(i as int, PendingView { addrs: req.addrs, ..q[i as int] }));
                assert(entry@ == PendingView { addrs: req.addrs, ..q[i as int] });
                assert forall|j: int| 0 <= j < q.len() implies #[trigger] pending_views(requests@)[j] == want[j] by {
                    if j != i {
                        assert(requests@[j] == before[j]);
                    }
                }
                assert(pending_views(requests@) =~= want);
            }
            return;
        }
        i = i + 1;
    }
    proof {
        assert forall|j: int| 0 <= j < q.len() implies q[j].pubkey != req@.pubkey by {
            assert(q[j] == requests@[j]@);
        }
    }
    requests.push(req);
    proof {
        assert(pending_views(requests@) =~= q.push(req@));
    }
}

impl PendingRequest {
    /// A copy of the request.
    pub fn clone_request(&self) -> (res: Self)
        ensures
            res@ == self@,
    {
        PendingRequest { addrs: self.addrs, name: self.name.clone(), pubkey: self.pubkey, uid: self.uid }
    }
}

/// What the admin does with a request that reads well.
#[derive(Debug, Clone, Copy, PartialEq, Eq, Structural)]
pub enum RequestAction {
    /// This node is not the admin, or the request carries the admin's own key.
    Ignore,
    /// The key belongs to a known peer: reconnect to it at the new addresses.
    Reconnect,
    /// A newcomer: queue the request and acknowledge it.
    Queue,
}

/// What a node does with a request carrying `pubkey`, given whether it is the chat's admin,
/// its own key and the keys of the peers it knows: only the admin answers requests.
pub open spec fn request_action(is_admin: bool, pubkey: Seq<u8>, my_pubkey: Seq<u8>, known: Seq<[u8; 32]>) -> RequestAction {
    if !is_admin || pubkey == my_pubkey {
        RequestAction::Ignore
    } else if exists|i: int| 0 <= i < known.len() && known[i]@ == pubkey {
        RequestAction::Reconnect
    } else {
        RequestAction::Queue
    }
}

/// Decides what to do with a request (`rcv_requests`) and, for a newcomer, queues it. A node
/// that is not the admin queues nothing. The caller then reconnects to a known peer, or sends
/// `ack_for` the request.
pub fn handle_request(
    is_admin: bool,
    requests: &mut Vec<PendingRequest>,
    req: &JoinRequest,
    addrs: [SockAddr; 2],
    my_pubkey: &[u8; 32],
    known: &Vec<[u8; 32]>,
) -> (res: RequestAction)
    requires
        keys_distinct(pending_views(old(requests)@)),
    ensures
        res == request_action(is_admin, req.pubkey@, my_pubkey@, known@),
        !is_admin ==> res == RequestAction::Ignore && final(requests)@ == old(requests)@,
        keys_distinct(pending_views(final(requests)@)),
        res == RequestAction::Queue ==> pending_views(final(requests)@) == queued(
            pending_views(old(requests)@),
            PendingView { addrs, name: req.name@, pubkey: req.pubkey@, uid: req.uid },
        ),
        res != RequestAction::Queue ==> final(requests)@ == old(requests)@,
{
    if !is_admin || bytes_equal(req.pubkey.as_slice(), my_pubkey.as_slice()) {
        return RequestAction::Ignore;
    }
    let mut i: usize = 0;
    while i < known.len()
        invariant
            i <= known@.len(),
            is_admin,
            req.pubkey@ != my_pubkey@,
            requests@ == old(requests)@,
            keys_distinct(pending_views(old(requests)@)),
            forall|j: int| 0 <= j < i ==> known@[j]@ != req.pubkey@,
        decreases known@.len() - i,
    {
        if bytes_equal(known[i].as_slice(), req.pubkey.as_slice()) {
            return RequestAction::Reconnect;
        }
        i = i + 1;
    }
    let pending = PendingRequest { addrs, name: req.name.clone(), pubkey: req.pubkey, uid: req.uid };
    queue_request(requests, pending);
    RequestAction::Queue
}

/// The entries of an address table whose key is not `my_pubkey`, in order.
pub open spec fn others(table: Seq<([u8; 32], [SockAddr; 2])>, my_pubkey: Seq<u8>) -> Seq<([u8; 32], [SockAddr; 2])>
    decreases table.len(),
{
    if table.len() == 0 {
        Seq::empty()
    } else {
        let rest = others(table.drop_last(), my_pubkey);
        if table.last().0@ != my_pubkey {
            rest.push(table.last())
        } else {
            rest
        }
    }
}

/// The entries of an address table that are not this node's own (the peers to reconnect to,
/// or to tell about): none of them carries `my_pubkey`.
pub fn entries_of_others(table: &Vec<([u8; 32], [SockAddr; 2])>, my_pubkey: &[u8; 32]) -> (res: Vec<([u8; 32], [SockAddr; 2])>)
    ensures
        res@ == others(table@, my_pubkey@),
        forall|i: int| 0 <= i < res@.len() ==> (#[trigger] res@[i]).0@ != my_pubkey@,
{
    let mut out: Vec<([u8; 32], [SockAddr; 2])> = Vec::new();
    let mut i: usize = 0;
    while i < table.len()
        invariant
            i <= table@.len(),
            out@ == others(table@.subrange(0, i as int), my_pubkey@),
            forall|k: int| 0 <= k < out@.len() ==> (#[trigger] out@[k]).0@ != my_pubkey@,
        decreases table@.len() - i,
    {
        let e = table[i];
        assert(table@.subrange(0, i + 1).drop_last() =~= table@.subrange(0, i as int));
        if !bytes_equal(e.0.as_slice(), my_pubkey.as_slice()) {
            out.push(e);
        }
        i = i + 1;
    }
    assert(table@.subrange(0, i as int) =~= table@);
    out
}

/// The address table a node hands out (`AVP` replies, `fallback_send`): every other peer's key
/// and addresses, then its own key and addresses, last.
pub fn address_table(known: &Vec<([u8; 32], [SockAddr; 2])>, my_pubkey: &[u8; 32], my_addrs: [SockAddr; 2]) -> (res: Vec<([u8; 32], [SockAddr; 2])>)
    ensures
        res@ == others(known@, my_pubkey@).push((*my_pubkey, my_addrs)),
{
    let mut out = entries_of_others(known, my_pubkey);
    out.push((*my_pubkey, my_addrs));
    out
}

/// The entry a member makes for its chat's admin once the admin acknowledged its request
/// (`snd_requests`, under user id 0): the admin reached at the rendezvous address, known by
/// its key only, with the channel key to it and no stream yet.
pub fn admin_entry(rendezvous: SockAddr, admin_pubkey: [u8; 32], secret: &[u8; 32]) -> (res: PeerSlot)
    ensures
        res@ == (SlotView {
            peer: PeerView {
                id: -1i32,
                user_id: None,
                addrs: [rendezvous, rendezvous],
                pubkey: admin_pubkey@,
                last_heartbeat: None,
                last_seen_typing: None,
            },
            key: channel_key(secret@, admin_pubkey@),
            stream: None,
        }),
{
    let peer = Peer::from_parts(-1, None, [rendezvous, rendezvous], admin_pubkey, None, None);
    let key = peer.shrdkeygen(*secret);
    PeerSlot { peer, key, stream: None }
}

/// What the holder of the rendezvous address does with a datagram it could open with a
/// peer's key (`rcv_requests`).
#[derive(Debug, Clone, Copy, PartialEq, Eq, Structural)]
pub enum RendezvousRoute {
    /// The peer's own addresses: reconnect to it there.
    Reconnect,
    /// An address table: reconnect to the peers in it, and answer with ours.
    Exchange,
    /// The admin is back: hand the rendezvous address over, answer with our addresses.
    Evicted,
    /// Nothing to do.
    Ignore,
}

/// What the holder of the rendezvous address does with an opened datagram of type `header`.
pub fn rendezvous_route(header: u8) -> (res: RendezvousRoute)
    ensures
        res == (if header == OWN_HD {
            RendezvousRoute::Reconnect
        } else if header == AVP_HD {
            RendezvousRoute::Exchange
        } else if header == EVI_HD {
            RendezvousRoute::Evicted
        } else {
            RendezvousRoute::Ignore
        }),
{
    if header == OWN_HD {
        RendezvousRoute::Reconnect
    } else if header == AVP_HD {
        RendezvousRoute::Exchange
    } else if header == EVI_HD {
        RendezvousRoute::Evicted
    } else {
        RendezvousRoute::Ignore
    }
}

} // verus!
