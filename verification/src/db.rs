//! The rules of the chat's database, apart from the database engine: which stored rows make
//! valid users and peers, and what a wholesale save of users, peers and messages changes.
use vstd::prelude::*;
use crate::auth::{Authentication, Role, Uid, User, UserView, derived_id, parsed_role};
use crate::connection::dbsync::bytes_equal;
use crate::connection::peer::{Peer, PeerView, SockAddr};
use crate::connection::rendezvous::to_array32;
use crate::crypto::{hex_encode, hex_encoded};
use crate::messaging::{Message, MessageView, append_unseen, has_ident, ident, lemma_append_unseen_keeps};
use crate::order::views;
use crate::text::{chars_of, decimal_string, decimal_text, parse_u64, parsed_u64};

verus! {

/// The role stored text names, when there is one.
pub open spec fn stored_role(text: Option<Seq<char>>) -> Option<Role> {
    match text {
        Some(t) => match parsed_role(t) {
            Ok(r) => Some(r),
            Err(_) => None,
        },
        None => None,
    }
}

/// Views an optional text.
pub open spec fn opt_chars(o: Option<String>) -> Option<Seq<char>> {
    match o {
        Some(t) => Some(t@),
        None => None,
    }
}

/// The user a stored row makes (`load_all_users`), given the public key of its peer: the user
/// its key, name and account id make, with the stored role, kept only when its id is the
/// stored one.
pub open spec fn row_user(id: u64, pubkey: Seq<u8>, name: Seq<char>, role: Option<Seq<char>>, uid: u32) -> Option<UserView> {
    if derived_id(hex_encoded(pubkey), name, uid) == id {
        Some(UserView { id, name, role: stored_role(role), uid })
    } else {
        None
    }
}

/// The user a stored row makes (see `row_user`). The id is stored as text and must read as a
/// number, and a stored role must name a role: the chat gives up on a database where they do
/// not.
pub fn user_from_row(id_text: &str, pubkey: &[u8], name: String, role: Option<String>, uid: u32) -> (res: Option<User>)
    requires
        parsed_u64(id_text@) is Some,
        role matches Some(r) ==> parsed_role(r@) is Ok,
    ensures
        match row_user(parsed_u64(id_text@)->0, pubkey@, name@, opt_chars(role), uid) {
            Some(v) => res matches Some(u) && u@ == v,
            None => res is None,
        },
{
    let digits = chars_of(id_text);
    assert(digits@.subrange(0, digits@.len() as int) =~= digits@);
    let id = match parse_u64(&digits, 0, digits.len()) {
        Some(n) => n,
        None => return None,
    };
    let key = hex_encode(pubkey);
    let mut user = User::new(key.clone(), name, Uid::from(uid));
    match &role {
        Some(text) => match Role::from_str(text.as_str()) {
            Ok(r) => user.set_role(r),
            Err(_) => {},
        },
        None => {},
    }
    if user.ver_id(key, id) {
        Some(user)
    } else {
        None
    }
}

/// The peer a stored row makes (`load_all_peers`), given its user's name and account id and
/// its addresses as read: kept only when the addresses read, the key has 32 bytes and the
/// stored user id is the one its key, name and account id make. It has not been seen typing.
pub open spec fn row_peer(
    id: i32,
    user_id: u64,
    name: Seq<char>,
    uid: u32,
    addrs: Option<[SockAddr; 2]>,
    pubkey: Seq<u8>,
    last_heartbeat: Option<i64>,
) -> Option<PeerView> {
    match addrs {
        Some(a) => if pubkey.len() == 32 && derived_id(hex_encoded(pubkey), name, uid) == user_id {
            Some(PeerView { id, user_id: Some(user_id), addrs: a, pubkey, last_heartbeat, last_seen_typing: None })
        } else {
            None
        },
        None => None,
    }
}

/// The peer a stored row makes (see `row_peer`).
pub fn peer_from_row(
    id: i32,
    user_id: u64,
    name: String,
    uid: Uid,
    addrs: Option<[SockAddr; 2]>,
    pubkey: &[u8],
    last_heartbeat: Option<i64>,
) -> (res: Option<Peer>)
    ensures
        match row_peer(id, user_id, name@, uid@, addrs, pubkey@, last_heartbeat) {
            Some(v) => res matches Some(p) && p@ == v,
            None => res is None,
        },
{
    let a = match addrs {
        Some(a) => a,
        None => return None,
    };
    if pubkey.len() != 32 {
        return None;
    }
    let v = crate::connection::frame::slice_to_vec(pubkey);
    let key = to_array32(&v);
    match Peer::new_in(id, name, uid, user_id, a, key, None, last_heartbeat) {
        Ok(p) => Some(p),
        Err(_) => None,
    }
}

/// The stored id text of a user: its id in decimal.
pub open spec fn id_text(u: UserView) -> Seq<char> {
    decimal_text(u.id as nat)
}

/// The views of a list of strings.
pub open spec fn texts_of(v: Seq<String>) -> Seq<Seq<char>> {
    v.map_values(|t: String| t@)
}

/// What saving a set of users does to the stored ones (`save_all_users`): the users whose
/// id is stored are updated, the stored ids not among the users are deleted, the other users
/// are inserted. Positions refer to the lists given.
pub struct UserPlan {
    pub update: Vec<usize>,
    pub delete: Vec<usize>,
    pub insert: Vec<usize>,
}

/// The positions `0..n` that satisfy `p`, in order.
pub open spec fn positions(n: int, p: spec_fn(int) -> bool) -> Seq<usize>
    decreases n,
{
    if n <= 0 {
        Seq::empty()
    } else {
        let acc = positions(n - 1, p);
        if p(n - 1) {
            acc.push((n - 1) as usize)
        } else {
            acc
        }
    }
}

/// Whether some user of `users` has the stored id text `t`.
pub open spec fn has_user_id(users: Seq<UserView>, t: Seq<char>) -> bool {
    exists|i: int| 0 <= i < users.len() && id_text(#[trigger] users[i]) == t
}

/// Whether the text `t` is among `existing`.
pub open spec fn has_text(existing: Seq<Seq<char>>, t: Seq<char>) -> bool {
    existing.contains(t)
}

/// Whether a string is among a list of strings.
fn contains_text(list: &Vec<String>, t: &String) -> (res: bool)
    ensures
        res == has_text(texts_of(list@), t@),
{
    let mut i: usize = 0;
    while i < list.len()
        invariant
            i <= list@.len(),
            forall|j: int| 0 <= j < i ==> list@[j]@ != t@,
        decreases list@.len() - i,
    {
        if list[i] == *t {
            assert(texts_of(list@)[i as int] == t@);
            return true;
        }
        i = i + 1;
    }
    proof {
        if has_text(texts_of(list@), t@) {
            let k = choose|k: int| 0 <= k < texts_of(list@).len() && texts_of(list@)[k] == t@;
            assert(list@[k]@ == t@);
        }
    }
    false
}

/// Plans saving `users` over the stored ids `existing` (see `UserPlan`).
pub fn plan_user_save(existing: &Vec<String>, users: &Vec<User>) -> (res: UserPlan)
    ensures
        res.update@ == positions(users@.len() as int, |i: int| has_text(texts_of(existing@), id_text(users@[i]@))),
        res.insert@ == positions(users@.len() as int, |i: int| !has_text(texts_of(existing@), id_text(users@[i]@))),
        res.delete@ == positions(existing@.len() as int, |i: int| !has_user_id(views(users@), existing@[i]@)),
{
    let ghost known = |i: int| has_text(texts_of(existing@), id_text(users@[i]@));
    let ghost fresh = |i: int| !has_text(texts_of(existing@), id_text(users@[i]@));
    let mut ids: Vec<String> = Vec::new();
    let mut update: Vec<usize> = Vec::new();
    let mut insert: Vec<usize> = Vec::new();
    let mut i: usize = 0;
    while i < users.len()
        invariant
            i <= users@.len(),
            ids@.len() == i,
            forall|k: int| 0 <= k < i ==> (#[trigger] ids@[k])@ == id_text(users@[k]@),
            known == (|i: int| has_text(texts_of(existing@), id_text(users@[i]@))),
            fresh == (|i: int| !has_text(texts_of(existing@), id_text(users@[i]@))),
            update@ == positions(i as int, known),
            insert@ == positions(i as int, fresh),
        decreases users@.len() - i,
    {
        let t = decimal_string(users[i].get_id());
        if contains_text(existing, &t) {
            update.push(i);
        } else {
            insert.push(i);
        }
        ids.push(t);
        i = i + 1;
    }
    let ghost gone = |i: int| !has_user_id(views(users@), existing@[i]@);
    let mut delete: Vec<usize> = Vec::new();
    let mut j: usize = 0;
    while j < existing.len()
        invariant
            j <= existing@.len(),
            ids@.len() == users@.len(),
            forall|k: int| 0 <= k < users@.len() ==> (#[trigger] ids@[k])@ == id_text(users@[k]@),
            gone == (|i: int| !has_user_id(views(users@), existing@[i]@)),
            delete@ == positions(j as int, gone),
        decreases existing@.len() - j,
    {
        let found = contains_text(&ids, &existing[j]);
        proof {
            if found {
                let k = choose|k: int| 0 <= k < texts_of(ids@).len() && texts_of(ids@)[k] == existing@[j as int]@;
                assert(id_text(views(users@)[k]) == existing@[j as int]@);
            } else {
                if has_user_id(views(users@), existing@[j as int]@) {
                    let k = choose|k: int| 0 <= k < views(users@).len() && id_text(#[trigger] views(users@)[k]) == existing@[j as int]@;
                    assert(texts_of(ids@)[k] == existing@[j as int]@);
                }
            }
        }
        if !found {
            delete.push(j);
        }
        j = j + 1;
    }
    UserPlan { update, delete, insert }
}

/// What saving a set of peers does to the stored ones (`save_all_peers`), matched by public
/// key: stored keys not among the peers are deleted; each peer is updated when its key is
/// stored and inserted otherwise. Positions refer to the lists given.
pub struct PeerPlan {
    pub delete: Vec<usize>,
    pub update: Vec<usize>,
    pub insert: Vec<usize>,
}

/// Whether some peer of `peers` has public key `k`.
pub open spec fn has_peer_key(peers: Seq<PeerView>, k: Seq<u8>) -> bool {
    exists|i: int| 0 <= i < peers.len() && (#[trigger] peers[i]).pubkey == k
}

/// Whether the key `k` is among `existing`.
pub open spec fn has_key(existing: Seq<Vec<u8>>, k: Seq<u8>) -> bool {
    exists|i: int| 0 <= i < existing.len() && (#[trigger] existing[i])@ == k
}

/// Whether a key is among stored keys.
fn contains_key(existing: &Vec<Vec<u8>>, k: &[u8]) -> (res: bool)
    ensures
        res == has_key(existing@, k@),
{
    let mut i: usize = 0;
    while i < existing.len()
        invariant
            i <= existing@.len(),
            forall|j: int| 0 <= j < i ==> existing@[j]@ != k@,
        decreases existing@.len() - i,
    {
        if bytes_equal(existing[i].as_slice(), k) {
            return true;
        }
        i = i + 1;
    }
    false
}

/// Plans saving `peers` over the stored keys `existing` (see `PeerPlan`).
pub fn plan_peer_save(existing: &Vec<Vec<u8>>, peers: &Vec<Peer>) -> (res: PeerPlan)
    ensures
        res.delete@ == positions(existing@.len() as int, |i: int| !has_peer_key(views(peers@), existing@[i]@)),
        res.update@ == positions(peers@.len() as int, |i: int| has_key(existing@, peers@[i]@.pubkey)),
        res.insert@ == positions(peers@.len() as int, |i: int| !has_key(existing@, peers@[i]@.pubkey)),
{
    let ghost gone = |i: int| !has_peer_key(views(peers@), existing@[i]@);
    let ghost known = |i: int| has_key(existing@, peers@[i]@.pubkey);
    let ghost fresh = |i: int| !has_key(existing@, peers@[i]@.pubkey);
    let mut keys: Vec<Vec<u8>> = Vec::new();
    let mut update: Vec<usize> = Vec::new();
    let mut insert: Vec<usize> = Vec::new();
    let mut i: usize = 0;
    while i < peers.len()
        invariant
            i <= peers@.len(),
            keys@.len() == i,
            forall|k: int| 0 <= k < i ==> (#[trigger] keys@[k])@ == peers@[k]@.pubkey,
            known == (|i: int| has_key(existing@, peers@[i]@.pubkey)),
            fresh == (|i: int| !has_key(existing@, peers@[i]@.pubkey)),
            update@ == positions(i as int, known),
            insert@ == positions(i as int, fresh),
        decreases peers@.len() - i,
    {
        let pk = peers[i].get_pubkey();
        if contains_key(existing, pk.as_slice()) {
            update.push(i);
        } else {
            insert.push(i);
        }
        keys.push(crate::connection::frame::slice_to_vec(pk.as_slice()));
        i = i + 1;
    }
    let mut delete: Vec<usize> = Vec::new();
    let mut j: usize = 0;
    while j < existing.len()
        invariant
            j <= existing@.len(),
            keys@.len() == peers@.len(),
            forall|k: int| 0 <= k < peers@.len() ==> (#[trigger] keys@[k])@ == peers@[k]@.pubkey,
            gone == (|i: int| !has_peer_key(views(peers@), existing@[i]@)),
            delete@ == positions(j as int, gone),
        decreases existing@.len() - j,
    {
        let found = contains_key(&keys, existing[j].as_slice());
        proof {
            if found {
                let k = choose|k: int| 0 <= k < keys@.len() && (#[trigger] keys@[k])@ == existing@[j as int]@;
                assert(views(peers@)[k].pubkey == existing@[j as int]@);
            } else {
                if has_peer_key(views(peers@), existing@[j as int]@) {
                    let k = choose|k: int| 0 <= k < views(peers@).len() && (#[trigger] views(peers@)[k]).pubkey == existing@[j as int]@;
                    assert(keys@[k]@ == existing@[j as int]@);
                }
            }
        }
        if !found {
            delete.push(j);
        }
        j = j + 1;
    }
    PeerPlan { delete, update, insert }
}

/// The messages a save inserts (`save_all_messages`): in order, each one that is not the same
/// message as a stored one or as one inserted before it. Messages are never deleted.
pub fn plan_message_save(stored: &Vec<Message>, incoming: &Vec<Message>) -> (res: Vec<Message>)
    ensures
        views(stored@) + views(res@) == append_unseen(views(stored@), views(incoming@)),
{
    let mut all: Vec<Message> = Vec::new();
    let mut i: usize = 0;
    while i < stored.len()
        invariant
            i <= stored@.len(),
            views(all@) == views(stored@.subrange(0, i as int)),
        decreases stored@.len() - i,
    {
        let ghost before = views(all@);
        all.push(stored[i].copy());
        assert(views(all@) =~= before.push(stored@[i as int]@));
        assert(views(stored@.subrange(0, i + 1)) =~= views(stored@.subrange(0, i as int)).push(stored@[i as int]@));
        i = i + 1;
    }
    assert(stored@.subrange(0, i as int) =~= stored@);
    let mut fresh: Vec<Message> = Vec::new();
    let mut k: usize = 0;
    assert(views(incoming@.subrange(0, 0)) =~= Seq::<MessageView>::empty());
    assert(views(fresh@) =~= Seq::<MessageView>::empty());
    while k < incoming.len()
        invariant
            k <= incoming@.len(),
            views(all@) == views(stored@) + views(fresh@),
            views(all@) == append_unseen(views(stored@), views(incoming@.subrange(0, k as int))),
        decreases incoming@.len() - k,
    {
        let ghost pre = views(incoming@.subrange(0, k as int));
        assert(views(incoming@.subrange(0, k + 1)) =~= pre.push(incoming@[k as int]@));
        assert(views(incoming@.subrange(0, k + 1)).drop_last() =~= pre);
        let m = incoming[k].copy();
        let ghost before_all = views(all@);
        let ghost before_fresh = views(fresh@);
        proof {
            let one = seq![incoming@[k as int]@];
            assert(one.drop_last() =~= Seq::<MessageView>::empty());
            assert(append_unseen(before_all, Seq::<MessageView>::empty()) == before_all);
            assert(append_unseen(before_all, one) == (if has_ident(before_all, incoming@[k as int]@) {
                before_all
            } else {
                before_all.push(incoming@[k as int]@)
            }));
        }
        if crate::messaging::record_message(&mut all, m) {
            fresh.push(incoming[k].copy());
            assert(views(fresh@) =~= before_fresh.push(incoming@[k as int]@));
            assert(views(all@) =~= before_all.push(incoming@[k as int]@));
        } else {
            assert(views(all@) =~= before_all);
        }
        k = k + 1;
    }
    assert(incoming@.subrange(0, k as int) =~= incoming@);
    fresh
}

/// Taking in messages that all are already there changes nothing.
proof fn lemma_append_seen(kept: Seq<MessageView>, incoming: Seq<MessageView>)
    requires
        forall|i: int| 0 <= i < incoming.len() ==> has_ident(kept, #[trigger] incoming[i]),
    ensures
        append_unseen(kept, incoming) == kept,
    decreases incoming.len(),
{
    if incoming.len() > 0 {
        let rest = incoming.drop_last();
        assert forall|i: int| 0 <= i < rest.len() implies has_ident(kept, #[trigger] rest[i]) by {
            assert(rest[i] == incoming[i]);
        }
        lemma_append_unseen_seen_last(kept, incoming);
        lemma_append_seen(kept, rest);
    }
}

/// The last incoming message is already kept.
proof fn lemma_append_unseen_seen_last(kept: Seq<MessageView>, incoming: Seq<MessageView>)
    requires
        incoming.len() > 0,
        forall|i: int| 0 <= i < incoming.len() ==> has_ident(kept, #[trigger] incoming[i]),
    ensures
        has_ident(kept, incoming.last()),
{
    assert(has_ident(kept, incoming[incoming.len() - 1]));
}

/// Saving messages is idempotent: saving the same messages again, over what the first save
/// stored, inserts nothing. So a second `plan_message_save` of the same messages, over the
/// table the first one left, plans no insert.
pub proof fn law_message_save_idempotent(stored: Seq<MessageView>, incoming: Seq<MessageView>)
    ensures
        append_unseen(append_unseen(stored, incoming), incoming) == append_unseen(stored, incoming),
        forall|again: Seq<MessageView>|
            #![trigger append_unseen(stored, incoming) + again]
            append_unseen(stored, incoming) + again == append_unseen(append_unseen(stored, incoming), incoming)
                ==> again.len() == 0,
{
    lemma_append_unseen_keeps(stored, incoming);
    lemma_append_seen(append_unseen(stored, incoming), incoming);
    let first = append_unseen(stored, incoming);
    assert forall|again: Seq<MessageView>|
        first + again == append_unseen(first, incoming) implies again.len() == 0 by {
        assert((first + again).len() == first.len() + again.len());
    }
}

/// The role text of an optional role, as a user's row stores it.
pub open spec fn role_column(role: Option<Role>) -> Option<Seq<char>> {
    match role {
        Some(r) => Some(crate::auth::role_text(r)),
        None => None,
    }
}

/// A user stored as a row loads back as the same user, role included: a row holding the
/// user's id, name, account id and the text of its role, under the key its id was made from,
/// gives that user. And a row whose role text names a role (in any case) loads a user with
/// that role. A row whose id is not the one its key, name and account id make loads nothing.
pub proof fn law_user_row_reads_back(u: UserView, pubkey: Seq<u8>, text: Seq<char>, r: Role, other_id: u64)
    requires
        u.id == derived_id(hex_encoded(pubkey), u.name, u.uid),
        other_id != u.id,
    ensures
        row_user(other_id, pubkey, u.name, role_column(u.role), u.uid) is None,
        row_user(u.id, pubkey, u.name, role_column(u.role), u.uid) == Some(u),
        parsed_role(text) == Ok::<Role, crate::auth::RoleError>(r) ==> row_user(u.id, pubkey, u.name, Some(text), u.uid)
            == Some(UserView { role: Some(r), ..u }),
{
    if let Some(r0) = u.role {
        crate::auth::law_role_text_reads_back(r0);
    }
}

/// A linked peer stored as a row loads back as the same peer, except that it has not been seen
/// typing; a row whose user id is not the one its key, name and account id make, or whose
/// addresses do not read, loads nothing.
pub proof fn law_peer_row_reads_back(v: PeerView, user_id: u64, name: Seq<char>, uid: u32, other_id: u64)
    requires
        v.user_id == Some(user_id),
        v.pubkey.len() == 32,
        user_id == derived_id(hex_encoded(v.pubkey), name, uid),
        other_id != user_id,
    ensures
        row_peer(v.id, user_id, name, uid, Some(v.addrs), v.pubkey, v.last_heartbeat)
            == Some(PeerView { last_seen_typing: None, ..v }),
        row_peer(v.id, other_id, name, uid, Some(v.addrs), v.pubkey, v.last_heartbeat) is None,
        row_peer(v.id, user_id, name, uid, None, v.pubkey, v.last_heartbeat) is None,
{
}

/// Which positions `positions` lists: those below `n` that satisfy `p`, each once, in order.
pub proof fn lemma_positions(n: int, p: spec_fn(int) -> bool)
    requires
        n <= usize::MAX + 1,
    ensures
        forall|k: int| 0 <= k < n ==> (#[trigger] positions(n, p).contains(k as usize) <==> p(k)),
        forall|j: int| 0 <= j < positions(n, p).len() ==> (#[trigger] positions(n, p)[j] as int) < n
            && p(positions(n, p)[j] as int),
    decreases n,
{
    if n > 0 {
        lemma_positions(n - 1, p);
        let acc = positions(n - 1, p);
        assert forall|k: int| 0 <= k < n implies (#[trigger] positions(n, p).contains(k as usize) <==> p(k)) by {
            if p(n - 1) {
                if k < n - 1 {
                    if positions(n, p).contains(k as usize) {
                        let j = choose|j: int| 0 <= j < positions(n, p).len() && positions(n, p)[j] == k as usize;
                        if j < acc.len() {
                            assert(acc[j] == k as usize);
                        }
                    }
                    if acc.contains(k as usize) {
                        let j = choose|j: int| 0 <= j < acc.len() && acc[j] == k as usize;
                        assert(positions(n, p)[j] == k as usize);
                    }
                } else {
                    assert(positions(n, p)[acc.len() as int] == (n - 1) as usize);
                }
            } else {
                if k == n - 1 && acc.contains(k as usize) {
                    let j = choose|j: int| 0 <= j < acc.len() && acc[j] == k as usize;
                }
            }
        }
    }
}

/// Saving users leaves the table holding exactly their ids: every user is either updated (its
/// id is stored) or inserted, never both; and the ids that are kept (not deleted) together
/// with those inserted are exactly the ids of the users saved.
pub proof fn law_user_save_leaves_their_ids(
    existing: Seq<String>,
    users: Seq<User>,
    update: Seq<usize>,
    delete: Seq<usize>,
    insert: Seq<usize>,
    t: Seq<char>,
)
    requires
        existing.len() <= usize::MAX,
        users.len() <= usize::MAX,
        update == positions(users.len() as int, |i: int| has_text(texts_of(existing), id_text(users[i]@))),
        insert == positions(users.len() as int, |i: int| !has_text(texts_of(existing), id_text(users[i]@))),
        delete == positions(existing.len() as int, |i: int| !has_user_id(views(users), existing[i]@)),
    ensures
        forall|i: int| 0 <= i < users.len() ==> (update.contains(i as usize) <==> !(#[trigger] insert.contains(i as usize))),
        ((exists|j: int| 0 <= j < existing.len() && !delete.contains(j as usize) && (#[trigger] existing[j])@ == t)
            || (exists|i: int| 0 <= i < users.len() && insert.contains(i as usize) && id_text((#[trigger] users[i])@) == t))
            <==> has_user_id(views(users), t),
{
    let known = |i: int| has_text(texts_of(existing), id_text(users[i]@));
    let fresh = |i: int| !has_text(texts_of(existing), id_text(users[i]@));
    let gone = |i: int| !has_user_id(views(users), existing[i]@);
    lemma_positions(users.len() as int, known);
    lemma_positions(users.len() as int, fresh);
    lemma_positions(existing.len() as int, gone);
    assert forall|i: int| 0 <= i < users.len() implies (update.contains(i as usize) <==> !(#[trigger] insert.contains(i as usize))) by {
        assert(update.contains(i as usize) == known(i));
        assert(insert.contains(i as usize) == fresh(i));
    }
    if exists|j: int| 0 <= j < existing.len() && !delete.contains(j as usize) && (#[trigger] existing[j])@ == t {
        let j = choose|j: int| 0 <= j < existing.len() && !delete.contains(j as usize) && (#[trigger] existing[j])@ == t;
        assert(!gone(j));
    }
    if exists|i: int| 0 <= i < users.len() && insert.contains(i as usize) && id_text((#[trigger] users[i])@) == t {
        let i = choose|i: int| 0 <= i < users.len() && insert.contains(i as usize) && id_text((#[trigger] users[i])@) == t;
        assert(views(users)[i] == users[i]@);
    }
    if has_user_id(views(users), t) {
        let i = choose|i: int| 0 <= i < views(users).len() && id_text(#[trigger] views(users)[i]) == t;
        assert(views(users)[i] == users[i]@);
        if has_text(texts_of(existing), t) {
            let j = choose|j: int| 0 <= j < texts_of(existing).len() && texts_of(existing)[j] == t;
            assert(existing[j]@ == t);
            assert(!gone(j));
        } else {
            assert(fresh(i));
        }
    }
}

/// Saving peers leaves the table holding exactly their keys: every peer is either updated (its
/// key is stored) or inserted, never both; and the keys that are kept (not deleted) together
/// with those inserted are exactly the keys of the peers saved.
pub proof fn law_peer_save_leaves_their_keys(
    existing: Seq<Vec<u8>>,
    peers: Seq<Peer>,
    update: Seq<usize>,
    delete: Seq<usize>,
    insert: Seq<usize>,
    k: Seq<u8>,
)
    requires
        existing.len() <= usize::MAX,
        peers.len() <= usize::MAX,
        delete == positions(existing.len() as int, |i: int| !has_peer_key(views(peers), existing[i]@)),
        update == positions(peers.len() as int, |i: int| has_key(existing, peers[i]@.pubkey)),
        insert == positions(peers.len() as int, |i: int| !has_key(existing, peers[i]@.pubkey)),
    ensures
        forall|i: int| 0 <= i < peers.len() ==> (update.contains(i as usize) <==> !(#[trigger] insert.contains(i as usize))),
        ((exists|j: int| 0 <= j < existing.len() && !delete.contains(j as usize) && (#[trigger] existing[j])@ == k)
            || (exists|i: int| 0 <= i < peers.len() && insert.contains(i as usize) && (#[trigger] peers[i])@.pubkey == k))
            <==> has_peer_key(views(peers), k),
{
    let known = |i: int| has_key(existing, peers[i]@.pubkey);
    let fresh = |i: int| !has_key(existing, peers[i]@.pubkey);
    let gone = |i: int| !has_peer_key(views(peers), existing[i]@);
    lemma_positions(peers.len() as int, known);
    lemma_positions(peers.len() as int, fresh);
    lemma_positions(existing.len() as int, gone);
    assert forall|i: int| 0 <= i < peers.len() implies (update.contains(i as usize) <==> !(#[trigger] insert.contains(i as usize))) by {
        assert(update.contains(i as usize) == known(i));
        assert(insert.contains(i as usize) == fresh(i));
    }
    if exists|j: int| 0 <= j < existing.len() && !delete.contains(j as usize) && (#[trigger] existing[j])@ == k {
        let j = choose|j: int| 0 <= j < existing.len() && !delete.contains(j as usize) && (#[trigger] existing[j])@ == k;
        assert(!gone(j));
    }
    if exists|i: int| 0 <= i < peers.len() && insert.contains(i as usize) && (#[trigger] peers[i])@.pubkey == k {
        let i = choose|i: int| 0 <= i < peers.len() && insert.contains(i as usize) && (#[trigger] peers[i])@.pubkey == k;
        assert(views(peers)[i] == peers[i]@);
    }
    if has_peer_key(views(peers), k) {
        let i = choose|i: int| 0 <= i < views(peers).len() && (#[trigger] views(peers)[i]).pubkey == k;
        assert(views(peers)[i] == peers[i]@);
        if has_key(existing, k) {
            let j = choose|j: int| 0 <= j < existing.len() && (#[trigger] existing[j])@ == k;
            assert(!gone(j));
        } else {
            assert(fresh(i));
        }
    }
}

} // verus!
