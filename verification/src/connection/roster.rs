//! The chat's roster as a database sync settles it: the canonical order rows travel in, the
//! addresses kept for each peer, the users and peers restored from the chosen rows, and the
//! member list rebuilt from them.
use vstd::prelude::*;
use std::collections::HashMap;
use crate::auth::{Role, Uid, User, UserView, derived_id, parsed_role};
use crate::connection::peer::{Peer, PeerView, SockAddr};
use crate::crypto::{hex_encode, hex_encoded};
use crate::order::{codes_of, codes_sorted, ints, law_sorted_codes_unique, sort_by_codes};
use crate::text::chars_of;

verus! {

broadcast use vstd::std_specs::hash::group_hash_axioms;

/// A user as it travels in a sync: id, name, role text, account id.
pub type UserRow = (u64, String, Option<String>, u32);

/// A peer as it travels in a sync: user id, the two addresses as text, public key.
pub type PeerRow = (Option<u64>, [String; 2], [u8; 32]);

/// A message as it travels in a sync: sender, timestamp, contents.
pub type MsgRow = (u64, i64, String);

/// The code points of a text, as integers.
pub open spec fn char_ints(t: Seq<char>) -> Seq<int> {
    t.map_values(|c: char| (c as u32) as int)
}

/// The bytes of a key, as integers.
pub open spec fn byte_ints(b: Seq<u8>) -> Seq<int> {
    b.map_values(|x: u8| x as int)
}

/// A variable-length part of a code: its length, then its entries.
pub open spec fn field(t: Seq<int>) -> Seq<int> {
    seq![t.len() as int] + t
}

/// The code a message row is ordered by: timestamp, sender, then the contents.
pub open spec fn msg_row_code(r: MsgRow) -> Seq<int> {
    seq![r.1 as int, r.0 as int] + char_ints(r.2@)
}

/// The code of a role text: none first, then the text.
pub open spec fn role_code(role: Option<String>) -> Seq<int> {
    match role {
        None => seq![0int],
        Some(t) => seq![1int] + field(char_ints(t@)),
    }
}

/// The code a user row is ordered by: id, then name, role and account id.
pub open spec fn user_row_code(r: UserRow) -> Seq<int> {
    seq![r.0 as int] + field(char_ints(r.1@)) + role_code(r.2) + seq![r.3 as int]
}

/// The code of a peer's user id: unlinked first, then by id.
pub open spec fn link_code(u: Option<u64>) -> Seq<int> {
    match u {
        None => seq![0int],
        Some(id) => seq![1int, id as int],
    }
}

/// The code a peer row is ordered by: user id (unlinked first), then the two addresses and the
/// key.
pub open spec fn peer_row_code(r: PeerRow) -> Seq<int> {
    link_code(r.0) + field(char_ints(r.1[0]@)) + field(char_ints(r.1[1]@)) + byte_ints(r.2@)
}

/// What a message row holds: sender, timestamp, contents.
pub open spec fn msg_row_view(r: MsgRow) -> (u64, i64, Seq<char>) {
    (r.0, r.1, r.2@)
}

/// What a user row holds: id, name, role text, account id.
pub open spec fn user_row_view(r: UserRow) -> (u64, Seq<char>, Option<Seq<char>>, u32) {
    (
        r.0,
        r.1@,
        match r.2 {
            None => None,
            Some(t) => Some(t@),
        },
        r.3,
    )
}

/// What a peer row holds: user id, the two addresses, the key.
pub open spec fn peer_row_view(r: PeerRow) -> (Option<u64>, Seq<char>, Seq<char>, Seq<u8>) {
    (r.0, r.1[0]@, r.1[1]@, r.2@)
}

/// Equal prefixes of equal length split equal sequences alike.
proof fn lemma_prefix_split(x1: Seq<int>, r1: Seq<int>, x2: Seq<int>, r2: Seq<int>)
    requires
        x1.len() == x2.len(),
        x1 + r1 == x2 + r2,
    ensures
        x1 == x2,
        r1 == r2,
{
    assert(x1 =~= (x1 + r1).take(x1.len() as int));
    assert(x2 =~= (x2 + r2).take(x2.len() as int));
    assert(r1 =~= (x1 + r1).skip(x1.len() as int));
    assert(r2 =~= (x2 + r2).skip(x2.len() as int));
}

/// A field is read back from the front of a code.
proof fn lemma_field_split(t1: Seq<int>, r1: Seq<int>, t2: Seq<int>, r2: Seq<int>)
    requires
        field(t1) + r1 == field(t2) + r2,
    ensures
        t1 == t2,
        r1 == r2,
{
    assert((field(t1) + r1)[0] == t1.len());
    assert((field(t2) + r2)[0] == t2.len());
    lemma_prefix_split(field(t1), r1, field(t2), r2);
    lemma_prefix_split(seq![t1.len() as int], t1, seq![t2.len() as int], t2);
}

/// Texts with the same code points are the same.
proof fn lemma_char_ints_injective(a: Seq<char>, b: Seq<char>)
    requires
        char_ints(a) == char_ints(b),
    ensures
        a == b,
{
    assert(a.len() == char_ints(a).len());
    assert(b.len() == char_ints(b).len());
    assert forall|i: int| 0 <= i < a.len() implies a[i] == b[i] by {
        assert(char_ints(a)[i] == char_ints(b)[i]);
        assert(char_ints(a)[i] == (a[i] as u32) as int);
        assert(char_ints(b)[i] == (b[i] as u32) as int);
        vstd::utf8::char_u32_cast(a[i], a[i] as u32);
        vstd::utf8::char_u32_cast(b[i], b[i] as u32);
    }
    assert(a =~= b);
}

/// Keys with the same bytes are the same.
proof fn lemma_byte_ints_injective(a: Seq<u8>, b: Seq<u8>)
    requires
        byte_ints(a) == byte_ints(b),
    ensures
        a == b,
{
    assert(a.len() == byte_ints(a).len());
    assert(b.len() == byte_ints(b).len());
    assert forall|i: int| 0 <= i < a.len() implies a[i] == b[i] by {
        assert(byte_ints(a)[i] == byte_ints(b)[i]);
        assert(byte_ints(a)[i] == a[i] as int);
        assert(byte_ints(b)[i] == b[i] as int);
    }
    assert(a =~= b);
}

/// A message row's code gives back what the row holds.
pub proof fn lemma_msg_row_code_injective(a: MsgRow, b: MsgRow)
    requires
        msg_row_code(a) == msg_row_code(b),
    ensures
        msg_row_view(a) == msg_row_view(b),
{
    lemma_prefix_split(seq![a.1 as int, a.0 as int], char_ints(a.2@), seq![b.1 as int, b.0 as int], char_ints(b.2@));
    assert(seq![a.1 as int, a.0 as int][0] == seq![b.1 as int, b.0 as int][0]);
    assert(seq![a.1 as int, a.0 as int][1] == seq![b.1 as int, b.0 as int][1]);
    lemma_char_ints_injective(a.2@, b.2@);
}

/// A user row's code gives back what the row holds.
pub proof fn lemma_user_row_code_injective(a: UserRow, b: UserRow)
    requires
        user_row_code(a) == user_row_code(b),
    ensures
        user_row_view(a) == user_row_view(b),
{
    let ta = field(char_ints(a.1@)) + role_code(a.2) + seq![a.3 as int];
    let tb = field(char_ints(b.1@)) + role_code(b.2) + seq![b.3 as int];
    assert(user_row_code(a) =~= seq![a.0 as int] + ta);
    assert(user_row_code(b) =~= seq![b.0 as int] + tb);
    lemma_prefix_split(seq![a.0 as int], ta, seq![b.0 as int], tb);
    assert(seq![a.0 as int][0] == seq![b.0 as int][0]);
    let ra = role_code(a.2) + seq![a.3 as int];
    let rb = role_code(b.2) + seq![b.3 as int];
    assert(ta =~= field(char_ints(a.1@)) + ra);
    assert(tb =~= field(char_ints(b.1@)) + rb);
    lemma_field_split(char_ints(a.1@), ra, char_ints(b.1@), rb);
    lemma_char_ints_injective(a.1@, b.1@);
    assert(ra[0] == rb[0]);
    match (a.2, b.2) {
        (None, None) => {
            lemma_prefix_split(seq![0int], seq![a.3 as int], seq![0int], seq![b.3 as int]);
            assert(seq![a.3 as int][0] == seq![b.3 as int][0]);
        },
        (Some(x), Some(y)) => {
            let xa = field(char_ints(x@)) + seq![a.3 as int];
            let yb = field(char_ints(y@)) + seq![b.3 as int];
            assert(ra =~= seq![1int] + xa);
            assert(rb =~= seq![1int] + yb);
            lemma_prefix_split(seq![1int], xa, seq![1int], yb);
            lemma_field_split(char_ints(x@), seq![a.3 as int], char_ints(y@), seq![b.3 as int]);
            lemma_char_ints_injective(x@, y@);
            assert(seq![a.3 as int][0] == seq![b.3 as int][0]);
        },
        _ => {},
    }
}

/// A peer row's code gives back what the row holds.
pub proof fn lemma_peer_row_code_injective(a: PeerRow, b: PeerRow)
    requires
        peer_row_code(a) == peer_row_code(b),
    ensures
        peer_row_view(a) == peer_row_view(b),
{
    let ta = field(char_ints(a.1[0]@)) + (field(char_ints(a.1[1]@)) + byte_ints(a.2@));
    let tb = field(char_ints(b.1[0]@)) + (field(char_ints(b.1[1]@)) + byte_ints(b.2@));
    assert(peer_row_code(a) =~= link_code(a.0) + ta);
    assert(peer_row_code(b) =~= link_code(b.0) + tb);
    assert(link_code(a.0)[0] == (link_code(a.0) + ta)[0]);
    assert(link_code(b.0)[0] == (link_code(b.0) + tb)[0]);
    assert(link_code(a.0).len() == link_code(b.0).len());
    lemma_prefix_split(link_code(a.0), ta, link_code(b.0), tb);
    match (a.0, b.0) {
        (Some(x), Some(y)) => {
            assert(link_code(a.0)[1] == link_code(b.0)[1]);
        },
        _ => {},
    }
    lemma_field_split(char_ints(a.1[0]@), field(char_ints(a.1[1]@)) + byte_ints(a.2@), char_ints(b.1[0]@), field(char_ints(b.1[1]@)) + byte_ints(b.2@));
    lemma_field_split(char_ints(a.1[1]@), byte_ints(a.2@), char_ints(b.1[1]@), byte_ints(b.2@));
    lemma_char_ints_injective(a.1[0]@, b.1[0]@);
    lemma_char_ints_injective(a.1[1]@, b.1[1]@);
    lemma_byte_ints_injective(a.2@, b.2@);
}

/// Appends the code points of `t` to `out`.
fn push_chars(out: &mut Vec<i128>, t: &str)
    ensures
        ints(final(out)@) == ints(old(out)@) + char_ints(t@),
{
    let v = chars_of(t);
    let mut i: usize = 0;
    while i < v.len()
        invariant
            i <= v@.len(),
            v@ == t@,
            ints(out@) == ints(old(out)@) + char_ints(t@).take(i as int),
        decreases v@.len() - i,
    {
        let ghost prev = out@;
        let c = v[i];
        let code = c as u32;
        out.push(code as i128);
        assert(ints(out@) =~= ints(prev).push(code as int));
        assert(char_ints(t@).take(i + 1) =~= char_ints(t@).take(i as int).push(code as int));
        i = i + 1;
        assert(ints(out@) =~= ints(old(out)@) + char_ints(t@).take(i as int));
    }
    assert(char_ints(t@).take(i as int) =~= char_ints(t@));
}

/// Appends the field of `t` (its length, then its code points) to `out`.
fn push_field(out: &mut Vec<i128>, t: &str)
    ensures
        ints(final(out)@) == ints(old(out)@) + field(char_ints(t@)),
{
    let n = chars_of(t).len();
    out.push(n as i128);
    push_chars(out, t);
    assert(ints(out@) =~= ints(old(out)@) + field(char_ints(t@)));
}

/// The code of a message row (see `msg_row_code`).
fn msg_code(r: &MsgRow) -> (res: Vec<i128>)
    ensures
        ints(res@) == msg_row_code(*r),
{
    let mut out: Vec<i128> = Vec::new();
    out.push(r.1 as i128);
    out.push(r.0 as i128);
    push_chars(&mut out, r.2.as_str());
    assert(ints(out@) =~= msg_row_code(*r));
    out
}

/// The code of a user row (see `user_row_code`).
fn user_code(r: &UserRow) -> (res: Vec<i128>)
    ensures
        ints(res@) == user_row_code(*r),
{
    let mut out: Vec<i128> = Vec::new();
    out.push(r.0 as i128);
    assert(ints(out@) =~= seq![r.0 as int]);
    push_field(&mut out, r.1.as_str());
    let ghost mid = ints(out@);
    assert(mid =~= seq![r.0 as int] + field(char_ints(r.1@)));
    match &r.2 {
        None => out.push(0),
        Some(t) => {
            out.push(1);
            push_field(&mut out, t.as_str());
        },
    }
    assert(ints(out@) =~= mid + role_code(r.2));
    out.push(r.3 as i128);
    assert(ints(out@) =~= user_row_code(*r));
    out
}

/// The code of a peer row (see `peer_row_code`).
fn peer_code(r: &PeerRow) -> (res: Vec<i128>)
    ensures
        ints(res@) == peer_row_code(*r),
{
    let mut out: Vec<i128> = Vec::new();
    match r.0 {
        None => out.push(0),
        Some(u) => {
            out.push(1);
            out.push(u as i128);
        },
    }
    assert(ints(out@) =~= link_code(r.0));
    push_field(&mut out, r.1[0].as_str());
    push_field(&mut out, r.1[1].as_str());
    let ghost mid = ints(out@);
    let mut i: usize = 0;
    while i < 32
        invariant
            i <= 32,
            r.2@.len() == 32,
            ints(out@) == mid + byte_ints(r.2@).take(i as int),
        decreases 32 - i,
    {
        let ghost prev = out@;
        let b = r.2[i];
        assert(b == r.2@[i as int]);
        out.push(b as i128);
        assert(ints(out@) =~= ints(prev).push(b as int));
        assert(byte_ints(r.2@).take(i + 1) =~= byte_ints(r.2@).take(i as int).push(b as int));
        i = i + 1;
        assert(ints(out@) =~= mid + byte_ints(r.2@).take(i as int));
    }
    assert(byte_ints(r.2@).take(32) =~= byte_ints(r.2@));
    assert(ints(out@) =~= peer_row_code(*r));
    out
}

/// User rows in the order they travel in: by the row's code (id first, then name, role and
/// account id), so that the same users always travel in the same order.
pub fn sort_user_rows(rows: Vec<UserRow>) -> (res: Vec<UserRow>)
    ensures
        codes_sorted(codes_of(res@, |r: UserRow| user_row_code(r))),
        codes_of(res@, |r: UserRow| user_row_code(r)).to_multiset() == codes_of(rows@, |r: UserRow| user_row_code(r)).to_multiset(),
        res@.to_multiset() == rows@.to_multiset(),
{
    let mut codes: Vec<Vec<i128>> = Vec::new();
    let mut i: usize = 0;
    while i < rows.len()
        invariant
            i <= rows@.len(),
            codes@.len() == i,
            forall|k: int| 0 <= k < i ==> ints(#[trigger] codes@[k]@) == user_row_code(rows@[k]),
        decreases rows@.len() - i,
    {
        codes.push(user_code(&rows[i]));
        i = i + 1;
    }
    sort_by_codes(rows, codes, Ghost(|r: UserRow| user_row_code(r)))
}

/// Peer rows in the order they travel in: by the row's code (unlinked peers first, then by
/// user id, then addresses and key), so that the same peers always travel in the same order.
pub fn sort_peer_rows(rows: Vec<PeerRow>) -> (res: Vec<PeerRow>)
    ensures
        codes_sorted(codes_of(res@, |r: PeerRow| peer_row_code(r))),
        codes_of(res@, |r: PeerRow| peer_row_code(r)).to_multiset() == codes_of(rows@, |r: PeerRow| peer_row_code(r)).to_multiset(),
        res@.to_multiset() == rows@.to_multiset(),
{
    let mut codes: Vec<Vec<i128>> = Vec::new();
    let mut i: usize = 0;
    while i < rows.len()
        invariant
            i <= rows@.len(),
            codes@.len() == i,
            forall|k: int| 0 <= k < i ==> ints(#[trigger] codes@[k]@) == peer_row_code(rows@[k]),
        decreases rows@.len() - i,
    {
        codes.push(peer_code(&rows[i]));
        i = i + 1;
    }
    sort_by_codes(rows, codes, Ghost(|r: PeerRow| peer_row_code(r)))
}

/// Message rows in the order they travel in: by the row's code (timestamp, then sender, then
/// contents), so that the same messages always travel in the same order.
pub fn sort_msg_rows(rows: Vec<MsgRow>) -> (res: Vec<MsgRow>)
    ensures
        codes_sorted(codes_of(res@, |r: MsgRow| msg_row_code(r))),
        codes_of(res@, |r: MsgRow| msg_row_code(r)).to_multiset() == codes_of(rows@, |r: MsgRow| msg_row_code(r)).to_multiset(),
        res@.to_multiset() == rows@.to_multiset(),
{
    let mut codes: Vec<Vec<i128>> = Vec::new();
    let mut i: usize = 0;
    while i < rows.len()
        invariant
            i <= rows@.len(),
            codes@.len() == i,
            forall|k: int| 0 <= k < i ==> ints(#[trigger] codes@[k]@) == msg_row_code(rows@[k]),
        decreases rows@.len() - i,
    {
        codes.push(msg_code(&rows[i]));
        i = i + 1;
    }
    sort_by_codes(rows, codes, Ghost(|r: MsgRow| msg_row_code(r)))
}

/// Rows in canonical order are determined by what they hold: two message lists sorted by
/// their codes, whose codes form the same multiset, hold the same messages in the same order.
/// (A row's code is made of what the row holds alone, and gives it back.)
pub proof fn law_msg_rows_canonical(a: Seq<MsgRow>, b: Seq<MsgRow>)
    requires
        codes_sorted(codes_of(a, |r: MsgRow| msg_row_code(r))),
        codes_sorted(codes_of(b, |r: MsgRow| msg_row_code(r))),
        codes_of(a, |r: MsgRow| msg_row_code(r)).to_multiset() == codes_of(b, |r: MsgRow| msg_row_code(r)).to_multiset(),
    ensures
        a.len() == b.len(),
        forall|i: int| 0 <= i < a.len() ==> msg_row_view(#[trigger] a[i]) == msg_row_view(b[i]),
{
    let ca = codes_of(a, |r: MsgRow| msg_row_code(r));
    let cb = codes_of(b, |r: MsgRow| msg_row_code(r));
    law_sorted_codes_unique(ca, cb);
    assert(a.len() == ca.len() && b.len() == cb.len());
    assert forall|i: int| 0 <= i < a.len() implies msg_row_view(#[trigger] a[i]) == msg_row_view(b[i]) by {
        assert(ca[i] == cb[i]);
        lemma_msg_row_code_injective(a[i], b[i]);
    }
}

/// The same for user rows: sorted by their codes, with the same multiset of codes, they hold
/// the same users in the same order.
pub proof fn law_user_rows_canonical(a: Seq<UserRow>, b: Seq<UserRow>)
    requires
        codes_sorted(codes_of(a, |r: UserRow| user_row_code(r))),
        codes_sorted(codes_of(b, |r: UserRow| user_row_code(r))),
        codes_of(a, |r: UserRow| user_row_code(r)).to_multiset() == codes_of(b, |r: UserRow| user_row_code(r)).to_multiset(),
    ensures
        a.len() == b.len(),
        forall|i: int| 0 <= i < a.len() ==> user_row_view(#[trigger] a[i]) == user_row_view(b[i]),
{
    let ca = codes_of(a, |r: UserRow| user_row_code(r));
    let cb = codes_of(b, |r: UserRow| user_row_code(r));
    law_sorted_codes_unique(ca, cb);
    assert(a.len() == ca.len() && b.len() == cb.len());
    assert forall|i: int| 0 <= i < a.len() implies user_row_view(#[trigger] a[i]) == user_row_view(b[i]) by {
        assert(ca[i] == cb[i]);
        lemma_user_row_code_injective(a[i], b[i]);
    }
}

/// The same for peer rows: sorted by their codes, with the same multiset of codes, they hold
/// the same peers in the same order.
pub proof fn law_peer_rows_canonical(a: Seq<PeerRow>, b: Seq<PeerRow>)
    requires
        codes_sorted(codes_of(a, |r: PeerRow| peer_row_code(r))),
        codes_sorted(codes_of(b, |r: PeerRow| peer_row_code(r))),
        codes_of(a, |r: PeerRow| peer_row_code(r)).to_multiset() == codes_of(b, |r: PeerRow| peer_row_code(r)).to_multiset(),
    ensures
        a.len() == b.len(),
        forall|i: int| 0 <= i < a.len() ==> peer_row_view(#[trigger] a[i]) == peer_row_view(b[i]),
{
    let ca = codes_of(a, |r: PeerRow| peer_row_code(r));
    let cb = codes_of(b, |r: PeerRow| peer_row_code(r));
    law_sorted_codes_unique(ca, cb);
    assert(a.len() == ca.len() && b.len() == cb.len());
    assert forall|i: int| 0 <= i < a.len() implies peer_row_view(#[trigger] a[i]) == peer_row_view(b[i]) by {
        assert(ca[i] == cb[i]);
        lemma_peer_row_code_injective(a[i], b[i]);
    }
}

/// The addresses kept for the peer of user `uid` after a sync, given what the peer map holds
/// for it now (`current`: addresses and whether a stream to it is open) and what the chosen
/// rows list (`listed`). This node's own addresses, and those of a peer it is connected to,
/// are kept; otherwise the listed ones win. Either falls back on the other.
pub open spec fn picked_addrs(
    uid: u64,
    me: Option<u64>,
    current: Option<([SockAddr; 2], bool)>,
    listed: Option<[SockAddr; 2]>,
) -> Option<[SockAddr; 2]> {
    let keep_current = me == Some(uid) || (current matches Some((_, linked)) && linked);
    let cur = match current {
        Some((a, _)) => Some(a),
        None => None,
    };
    if keep_current {
        if cur is Some { cur } else { listed }
    } else {
        if listed is Some { listed } else { cur }
    }
}

/// The addresses kept for the peer of user `uid` (see `picked_addrs`).
pub fn pick_addrs(
    uid: u64,
    me: Option<u64>,
    current: Option<([SockAddr; 2], bool)>,
    listed: Option<[SockAddr; 2]>,
) -> (res: Option<[SockAddr; 2]>)
    ensures
        res == picked_addrs(uid, me, current, listed),
{
    let keep_current = me == Some(uid) || match current {
        Some((_, linked)) => linked,
        None => false,
    };
    let cur = match current {
        Some((a, _)) => Some(a),
        None => None,
    };
    if keep_current {
        if cur.is_some() { cur } else { listed }
    } else {
        if listed.is_some() { listed } else { cur }
    }
}

/// What the peer map holds for user `uid`, if anything.
pub open spec fn current_of(current: Map<u64, ([SockAddr; 2], bool)>, uid: u64) -> Option<([SockAddr; 2], bool)> {
    if current.contains_key(uid) {
        Some(current[uid])
    } else {
        None
    }
}

/// A chosen peer row with its listed addresses read (`None` when they do not read).
pub type ListedPeer = (Option<u64>, Option<[SockAddr; 2]>, [u8; 32]);

/// The peers a sync restores, in row order: one per row linked to a user for which addresses
/// can be picked; no row id yet, never heard from.
pub open spec fn restored_peers(
    rows: Seq<ListedPeer>,
    current: Map<u64, ([SockAddr; 2], bool)>,
    me: Option<u64>,
) -> Seq<PeerView>
    decreases rows.len(),
{
    if rows.len() == 0 {
        Seq::empty()
    } else {
        let rest = restored_peers(rows.drop_last(), current, me);
        let r = rows.last();
        match r.0 {
            None => rest,
            Some(uid) => match picked_addrs(uid, me, current_of(current, uid), r.1) {
                None => rest,
                Some(a) => rest.push(PeerView {
                    id: -1i32,
                    user_id: Some(uid),
                    addrs: a,
                    pubkey: r.2@,
                    last_heartbeat: None,
                    last_seen_typing: None,
                }),
            },
        }
    }
}

/// The key of each user among restored peers (the last peer of a user gives it).
pub open spec fn restored_keys(peers: Seq<PeerView>) -> Map<u64, Seq<u8>>
    decreases peers.len(),
{
    if peers.len() == 0 {
        Map::empty()
    } else {
        restored_keys(peers.drop_last()).insert(peers.last().user_id->0, peers.last().pubkey)
    }
}

/// The role a row's role text gives: none when there is no text or it names no role.
pub open spec fn role_of(text: Option<String>) -> Option<Role> {
    match text {
        Some(t) => match parsed_role(t@) {
            Ok(r) => Some(r),
            Err(_) => None,
        },
        None => None,
    }
}

/// The user a row restores with the key of its peer: the id derived anew from the key, the
/// name and the account id.
pub open spec fn restored_user(r: UserRow, key: Seq<u8>) -> UserView {
    UserView { id: derived_id(hex_encoded(key), r.1@, r.3), name: r.1@, role: role_of(r.2), uid: r.3 }
}

/// The users a sync restores, in row order: one per row whose id has a restored key.
pub open spec fn restored_users(rows: Seq<UserRow>, keys: Map<u64, Seq<u8>>) -> Seq<UserView>
    decreases rows.len(),
{
    if rows.len() == 0 {
        Seq::empty()
    } else {
        let rest = restored_users(rows.drop_last(), keys);
        if keys.contains_key(rows.last().0) {
            rest.push(restored_user(rows.last(), keys[rows.last().0]))
        } else {
            rest
        }
    }
}

/// The system user's view.
pub open spec fn system_user() -> UserView {
    UserView { id: 0, name: seq!['S', 'y', 's', 't', 'e', 'm'], role: None, uid: 0 }
}

/// The views of peers.
pub open spec fn peer_views(s: Seq<Peer>) -> Seq<PeerView> {
    s.map_values(|p: Peer| p@)
}

/// The views of users.
pub open spec fn user_views(s: Seq<User>) -> Seq<UserView> {
    s.map_values(|u: User| u@)
}

/// The peers a sync restores from the chosen rows (see `restored_peers`), with the key map
/// built alongside them.
fn restore_peers(
    rows: &Vec<ListedPeer>,
    current: &HashMap<u64, ([SockAddr; 2], bool)>,
    me: Option<u64>,
) -> (res: (Vec<Peer>, HashMap<u64, [u8; 32]>))
    ensures
        peer_views(res.0@) == restored_peers(rows@, current@, me),
        res.1@.map_values(|k: [u8; 32]| k@) == restored_keys(restored_peers(rows@, current@, me)),
{
    let mut peers: Vec<Peer> = Vec::new();
    let mut keys: HashMap<u64, [u8; 32]> = HashMap::new();
    let mut i: usize = 0;
    while i < rows.len()
        invariant
            i <= rows@.len(),
            peer_views(peers@) == restored_peers(rows@.subrange(0, i as int), current@, me),
            keys@.map_values(|k: [u8; 32]| k@) == restored_keys(peer_views(peers@)),
        decreases rows@.len() - i,
    {
        let (user_id, listed, pk) = rows[i];
        assert(rows@.subrange(0, i + 1).drop_last() =~= rows@.subrange(0, i as int));
        if let Some(uid) = user_id {
            let cur = match current.get(&uid) {
                Some(c) => Some(*c),
                None => None,
            };
            assert(cur == current_of(current@, uid));
            if let Some(a) = pick_addrs(uid, me, cur, listed) {
                let ghost before = peer_views(peers@);
                let ghost before_keys = keys@;
                keys.insert(uid, pk);
                peers.push(Peer::from_parts(-1, Some(uid), a, pk, None, None));
                proof {
                    assert(peer_views(peers@) =~= before.push(peers@.last()@));
                    assert(peer_views(peers@).drop_last() =~= before);
                    assert(keys@.map_values(|k: [u8; 32]| k@) =~= before_keys.map_values(|k: [u8; 32]| k@).insert(uid, pk@));
                }
            }
        }
        i = i + 1;
    }
    assert(rows@.subrange(0, i as int) =~= rows@);
    (peers, keys)
}

/// The users a sync restores from the chosen rows with the restored keys (see
/// `restored_users`), then the system user.
fn restore_users(rows: &Vec<UserRow>, keys: &HashMap<u64, [u8; 32]>) -> (res: Vec<User>)
    ensures
        user_views(res@) == restored_users(rows@, keys@.map_values(|k: [u8; 32]| k@)).push(system_user()),
{
    let ghost km = keys@.map_values(|k: [u8; 32]| k@);
    let mut users: Vec<User> = Vec::new();
    let mut i: usize = 0;
    while i < rows.len()
        invariant
            i <= rows@.len(),
            km == keys@.map_values(|k: [u8; 32]| k@),
            user_views(users@) == restored_users(rows@.subrange(0, i as int), km),
        decreases rows@.len() - i,
    {
        let row = &rows[i];
        assert(rows@.subrange(0, i + 1).drop_last() =~= rows@.subrange(0, i as int));
        assert(rows@.subrange(0, i + 1).last() == rows@[i as int]);
        match keys.get(&row.0) {
            Some(pk) => {
                let key = hex_encode(pk.as_slice());
                let mut u = User::new(key, row.1.clone(), Uid::from(row.3));
                match &row.2 {
                    Some(text) => match Role::from_str(text.as_str()) {
                        Ok(r) => u.set_role(r),
                        Err(_) => {},
                    },
                    None => {},
                }
                let ghost before = user_views(users@);
                users.push(u);
                proof {
                    assert(km.contains_key(row.0) && km[row.0] == pk@);
                    assert(u@ == restored_user(*row, km[row.0]));
                    assert(user_views(users@) =~= before.push(u@));
                }
            },
            None => {
                assert(!km.contains_key(row.0));
            },
        }
        i = i + 1;
    }
    assert(rows@.subrange(0, i as int) =~= rows@);
    let ghost before = user_views(users@);
    users.push(User::sys());
    assert(user_views(users@) =~= before.push(system_user()));
    users
}

/// Restores peers and users from the rows a sync chose (`decide_sync`): the peers of the
/// linked rows with their picked addresses, then the users whose id has such a peer (their
/// ids derived anew from its key), then the system user.
pub fn restore_roster(
    peer_rows: &Vec<ListedPeer>,
    user_rows: &Vec<UserRow>,
    current: &HashMap<u64, ([SockAddr; 2], bool)>,
    me: Option<u64>,
) -> (res: (Vec<Peer>, Vec<User>))
    ensures
        peer_views(res.0@) == restored_peers(peer_rows@, current@, me),
        user_views(res.1@) == restored_users(user_rows@, restored_keys(restored_peers(peer_rows@, current@, me))).push(
            system_user(),
        ),
{
    let (peers, keys) = restore_peers(peer_rows, current, me);
    let users = restore_users(user_rows, &keys);
    (peers, users)
}

/// The member list of a chat holding `users`: the system user under id 0, then each user under
/// its id (a later user of the same id replaces an earlier one).
pub open spec fn member_map(users: Seq<UserView>) -> Map<u64, UserView>
    decreases users.len(),
{
    if users.len() == 0 {
        Map::empty().insert(0u64, system_user())
    } else {
        member_map(users.drop_last()).insert(users.last().id, users.last())
    }
}

/// Rebuilds a chat's member list from its users (see `member_map`).
pub fn rebuild_members(users: Vec<User>) -> (res: HashMap<u64, User>)
    ensures
        res@.map_values(|u: User| u@) == member_map(user_views(users@)),
{
    let mut members: HashMap<u64, User> = HashMap::new();
    members.insert(0, User::sys());
    assert(members@.map_values(|u: User| u@) =~= member_map(user_views(users@.subrange(0, 0))));
    let mut i: usize = 0;
    while i < users.len()
        invariant
            i <= users@.len(),
            members@.map_values(|u: User| u@) == member_map(user_views(users@.subrange(0, i as int))),
        decreases users@.len() - i,
    {
        let u = users[i].copy();
        let ghost before = members@;
        members.insert(u.get_id(), u);
        proof {
            let pre = user_views(users@.subrange(0, i as int));
            assert(user_views(users@.subrange(0, i + 1)) =~= pre.push(users@[i as int]@));
            assert(user_views(users@.subrange(0, i + 1)).drop_last() =~= pre);
            assert(members@.map_values(|u: User| u@) =~= before.map_values(|u: User| u@).insert(u@.id, u@));
        }
        i = i + 1;
    }
    assert(users@.subrange(0, i as int) =~= users@);
    members
}

} // verus!
