//! Messages and the chat's in-memory state: its history and its members.
//!
//! Messages are additive: nothing here ever drops one. Two messages are the same message
//! when they have the same sender, timestamp and contents; the history keeps one of each and
//! is ordered by timestamp, then sender.
use vstd::prelude::*;
use std::collections::HashMap;
use crate::auth::{Role, User};
use crate::order::{sort_by_keys, stably_sorted, views};
use vstd::std_specs::iter::IteratorSpec;

verus! {

/// What a message looks like to a contract.
pub struct MessageView {
    pub id: i32,
    pub sender_id: u64,
    pub contents: Seq<char>,
    pub sent_at: i64,
}

/// A chat message.
#[derive(Debug, Clone, PartialEq, Eq)]
pub struct Message {
    id: i32,
    sender_id: u64,
    contents: String,
    sent_at: i64,
}

impl View for Message {
    type V = MessageView;

    closed spec fn view(&self) -> MessageView {
        MessageView { id: self.id, sender_id: self.sender_id, contents: self.contents@, sent_at: self.sent_at }
    }
}

/// What makes two messages the same message: sender, timestamp and contents.
pub open spec fn ident(m: MessageView) -> (u64, i64, Seq<char>) {
    (m.sender_id, m.sent_at, m.contents)
}

/// The order of the history: by timestamp, then by sender (as one integer key).
pub open spec fn history_key(m: MessageView) -> int {
    m.sent_at as int * 0x1_0000_0000_0000_0000 + m.sender_id as int
}

/// Whether some message of `s` is the same message as `m`.
pub open spec fn has_ident(s: Seq<MessageView>, m: MessageView) -> bool {
    exists|i: int| 0 <= i < s.len() && ident(#[trigger] s[i]) == ident(m)
}

/// `seen`, then each message of `incoming` (in order) that is not the same message as one
/// already kept.
pub open spec fn append_unseen(seen: Seq<MessageView>, incoming: Seq<MessageView>) -> Seq<MessageView>
    decreases incoming.len(),
{
    if incoming.len() == 0 {
        seen
    } else {
        let acc = append_unseen(seen, incoming.drop_last());
        if has_ident(acc, incoming.last()) {
            acc
        } else {
            acc.push(incoming.last())
        }
    }
}

impl Message {
    /// A message stamped with the current time.
    pub fn new(id: i32, sender_id: u64, contents: String) -> (res: Self)
        ensures
            res@.id == id,
            res@.sender_id == sender_id,
            res@.contents == contents@,
    {
        let sent_at = crate::clock::unix_timestamp_now();
        Message { id, sender_id, contents, sent_at }
    }

    /// The message a synced row stands for: no local id (`-1`), with the row's timestamp.
    pub fn from_row(sender_id: u64, sent_at: i64, contents: String) -> (res: Self)
        ensures
            res@ == (MessageView { id: -1i32, sender_id, contents: contents@, sent_at }),
    {
        let mut m = Message::new(-1, sender_id, contents);
        m.set_date(sent_at);
        m
    }

    /// The message's local row id.
    pub fn get_id(&self) -> (res: i32)
        ensures
            res == self@.id,
    {
        self.id
    }

    /// The id of the user who sent it.
    pub fn get_sender_id(&self) -> (res: u64)
        ensures
            res == self@.sender_id,
    {
        self.sender_id
    }

    /// The text of the message.
    pub fn get_contents(&self) -> (res: String)
        ensures
            res@ == self@.contents,
    {
        self.contents.clone()
    }

    /// When it was sent.
    pub fn get_sent_at(&self) -> (res: i64)
        ensures
            res == self@.sent_at,
    {
        self.sent_at
    }

    /// Replaces the text; nothing else changes.
    pub fn set_contents(&mut self, contents: String)
        ensures
            final(self)@ == (MessageView { contents: contents@, ..old(self)@ }),
    {
        self.contents = contents;
    }

    /// Replaces the timestamp; nothing else changes.
    pub fn set_date(&mut self, date: i64)
        ensures
            final(self)@ == (MessageView { sent_at: date, ..old(self)@ }),
    {
        self.sent_at = date;
    }

    /// A copy of the message.
    pub(crate) fn copy(&self) -> (res: Self)
        ensures
            res@ == self@,
    {
        Message { id: self.id, sender_id: self.sender_id, contents: self.contents.clone(), sent_at: self.sent_at }
    }

    /// The history key of the message.
    fn key(&self) -> (res: i128)
        ensures
            res as int == history_key(self@),
    {
        self.sent_at as i128 * 0x1_0000_0000_0000_0000 + self.sender_id as i128
    }

    /// Whether two messages are the same message.
    fn same_as(&self, other: &Message) -> (res: bool)
        ensures
            res == (ident(self@) == ident(other@)),
    {
        self.sender_id == other.sender_id && self.sent_at == other.sent_at && self.contents == other.contents
    }
}

/// Whether some message of `s` is the same message as `m`.
fn contains_ident(s: &Vec<Message>, m: &Message) -> (res: bool)
    ensures
        res == has_ident(views(s@), m@),
{
    let mut i: usize = 0;
    while i < s.len()
        invariant
            i <= s@.len(),
            forall|j: int| 0 <= j < i ==> ident(#[trigger] s@[j]@) != ident(m@),
        decreases s@.len() - i,
    {
        if s[i].same_as(m) {
            assert(views(s@)[i as int] == s@[i as int]@);
            return true;
        }
        i = i + 1;
    }
    proof {
        assert forall|j: int| 0 <= j < views(s@).len() implies ident(#[trigger] views(s@)[j]) != ident(m@) by {
            assert(views(s@)[j] == s@[j]@);
        }
    }
    false
}

/// Everything in `seen` is still in `append_unseen(seen, incoming)`, in place, and every
/// message of `incoming` is there as the same message.
pub proof fn lemma_append_unseen_keeps(seen: Seq<MessageView>, incoming: Seq<MessageView>)
    ensures
        append_unseen(seen, incoming).len() >= seen.len(),
        forall|i: int| 0 <= i < seen.len() ==> #[trigger] append_unseen(seen, incoming)[i] == seen[i],
        forall|i: int| 0 <= i < incoming.len() ==> has_ident(append_unseen(seen, incoming), #[trigger] incoming[i]),
    decreases incoming.len(),
{
    if incoming.len() > 0 {
        let rest = incoming.drop_last();
        lemma_append_unseen_keeps(seen, rest);
        let acc = append_unseen(seen, rest);
        let res = append_unseen(seen, incoming);
        assert forall|i: int| 0 <= i < incoming.len() implies has_ident(res, #[trigger] incoming[i]) by {
            if i < incoming.len() - 1 {
                assert(incoming[i] == rest[i]);
                assert(has_ident(acc, rest[i]));
                let j = choose|j: int| 0 <= j < acc.len() && ident(#[trigger] acc[j]) == ident(rest[i]);
                assert(res[j] == acc[j]);
            } else if !has_ident(acc, incoming.last()) {
                assert(res[acc.len() as int] == incoming.last());
            } else {
                let j = choose|j: int| 0 <= j < acc.len() && ident(#[trigger] acc[j]) == ident(incoming.last());
                assert(res[j] == acc[j]);
            }
        }
    }
}

/// Adds a received message to the history unless the same message is already there
/// (`read_msg`); says whether it was added.
pub fn record_message(history: &mut Vec<Message>, msg: Message) -> (added: bool)
    ensures
        added == !has_ident(views(old(history)@), msg@),
        views(final(history)@) == append_unseen(views(old(history)@), seq![msg@]),
{
    let ghost before = views(history@);
    assert(seq![msg@].drop_last() =~= Seq::<MessageView>::empty());
    assert(append_unseen(before, Seq::<MessageView>::empty()) == before);
    if contains_ident(history, &msg) {
        false
    } else {
        history.push(msg);
        assert(views(history@) =~= before.push(msg@));
        true
    }
}

/// Takes in the messages of a reloaded database (`read_db_sync`, `decide_sync`): each one the
/// history lacks is appended, then the history is sorted stably by timestamp and sender.
///
/// Nothing already in the history is lost, and every reloaded message ends up in it.
pub fn absorb_messages(history: &mut Vec<Message>, reloaded: Vec<Message>)
    ensures
        stably_sorted(views(final(history)@), append_unseen(views(old(history)@), views(reloaded@)), |m: MessageView| history_key(m)),
        forall|i: int| 0 <= i < old(history)@.len() ==> views(final(history)@).contains(#[trigger] old(history)@[i]@),
        forall|i: int| 0 <= i < reloaded@.len() ==> has_ident(views(final(history)@), #[trigger] reloaded@[i]@),
{
    let ghost start = views(history@);
    let ghost incoming = views(reloaded@);
    let mut i: usize = 0;
    while i < reloaded.len()
        invariant
            i <= reloaded@.len(),
            incoming == views(reloaded@),
            views(history@) == append_unseen(start, incoming.take(i as int)),
        decreases reloaded@.len() - i,
    {
        let m = reloaded[i].copy();
        proof {
            assert(incoming.take(i + 1).drop_last() =~= incoming.take(i as int));
            assert(incoming.take(i + 1).last() == m@);
        }
        let ghost before = views(history@);
        if !contains_ident(history, &m) {
            history.push(m);
            assert(views(history@) =~= before.push(m@));
        }
        proof {
            assert(views(history@) == append_unseen(start, incoming.take(i + 1)));
        }
        i = i + 1;
    }
    assert(incoming.take(reloaded@.len() as int) =~= incoming);
    let ghost merged = history@;
    let mut items: Vec<Message> = Vec::new();
    let mut keys: Vec<i128> = Vec::new();
    std::mem::swap(&mut items, history);
    let mut j: usize = 0;
    while j < items.len()
        invariant
            j <= items@.len(),
            items@ == merged,
            keys@.len() == j,
            forall|k: int| 0 <= k < j ==> keys@[k] as int == history_key(#[trigger] items@[k]@),
        decreases items@.len() - j,
    {
        let k = items[j].key();
        keys.push(k);
        j = j + 1;
    }
    let ghost key = |m: MessageView| history_key(m);
    let sorted = sort_by_keys(items, keys, Ghost(|m: Message| key(m@)));
    *history = sorted;
    proof {
        crate::order::lemma_stably_sorted_views(history@, merged, key);
        lemma_append_unseen_keeps(start, incoming);
        crate::order::lemma_stably_sorted_members(views(history@), views(merged), key);
        assert forall|i: int| 0 <= i < reloaded@.len() implies has_ident(views(history@), #[trigger] reloaded@[i]@) by {
            assert(incoming[i] == reloaded@[i]@);
            let j = choose|j: int| 0 <= j < views(merged).len() && ident(#[trigger] views(merged)[j]) == ident(incoming[i]);
            assert(views(merged).contains(views(merged)[j]));
            let k = choose|k: int| 0 <= k < views(history@).len() && views(history@)[k] == views(merged)[j];
            assert(ident(views(history@)[k]) == ident(reloaded@[i]@));
        }
        assert forall|i: int| 0 <= i < old(history)@.len() implies views(history@).contains(#[trigger] old(history)@[i]@) by {
            assert(start[i] == old(history)@[i]@);
            assert(views(merged)[i] == start[i]);
            assert(views(merged).contains(views(merged)[i]));
        }
    }
}

/// The same message without its local row id (`-1`), as rows travel between peers.
pub open spec fn unnumbered(m: MessageView) -> MessageView {
    MessageView { id: -1i32, ..m }
}

/// The messages without their local row ids.
pub open spec fn unnumbered_all(s: Seq<MessageView>) -> Seq<MessageView> {
    s.map_values(|m: MessageView| unnumbered(m))
}

/// The message lists of a sync round, by their views.
pub open spec fn batch_views(batches: Seq<Vec<Message>>) -> Seq<Seq<MessageView>> {
    batches.map_values(|b: Vec<Message>| views(b@))
}

/// The batches of a sync round merged: each batch in turn, without row ids, adding the
/// messages not already kept.
pub open spec fn merged_batches(batches: Seq<Seq<MessageView>>) -> Seq<MessageView>
    decreases batches.len(),
{
    if batches.len() == 0 {
        Seq::empty()
    } else {
        append_unseen(merged_batches(batches.drop_last()), unnumbered_all(batches.last()))
    }
}

/// The merge of a sync round: the batches (see `merged_batches`), then the local history's
/// messages not already kept, all without row ids.
pub open spec fn merged_round(batches: Seq<Seq<MessageView>>, history: Seq<MessageView>) -> Seq<MessageView> {
    append_unseen(merged_batches(batches), unnumbered_all(history))
}

/// Merges the message sets of a sync round (`decide_sync`): every message of every batch, then
/// of the local history, in that order, keeping the first of each set of same messages, each
/// without its local row id. New messages are never dropped.
pub fn union_messages(batches: &Vec<Vec<Message>>, history: &Vec<Message>) -> (res: Vec<Message>)
    ensures
        forall|b: int, i: int|
            0 <= b < batches@.len() && 0 <= i < batches@[b]@.len() ==> has_ident(views(res@), #[trigger] batches@[b]@[i]@),
        forall|i: int| 0 <= i < history@.len() ==> has_ident(views(res@), #[trigger] history@[i]@),
        forall|i: int, j: int| 0 <= i < j < res@.len() ==> ident(#[trigger] res@[i]@) != ident(#[trigger] res@[j]@),
        forall|i: int| 0 <= i < res@.len() ==> (#[trigger] res@[i])@.id == -1,
        views(res@) == merged_round(batch_views(batches@), views(history@)),
{
    let mut res: Vec<Message> = Vec::new();
    let mut b: usize = 0;
    while b < batches.len()
        invariant
            b <= batches@.len(),
            forall|c: int, i: int|
                0 <= c < b && 0 <= i < batches@[c]@.len() ==> has_ident(views(res@), #[trigger] batches@[c]@[i]@),
            forall|i: int, j: int| 0 <= i < j < res@.len() ==> ident(#[trigger] res@[i]@) != ident(#[trigger] res@[j]@),
            forall|i: int| 0 <= i < res@.len() ==> (#[trigger] res@[i])@.id == -1,
            views(res@) == merged_batches(batch_views(batches@.take(b as int))),
        decreases batches@.len() - b,
    {
        let ghost before = views(res@);
        add_unseen_unnumbered(&mut res, &batches[b]);
        proof {
            assert(batch_views(batches@.take(b + 1)).drop_last() =~= batch_views(batches@.take(b as int)));
            assert(batch_views(batches@.take(b + 1)).last() == views(batches@[b as int]@));
            assert forall|c: int, i: int|
                0 <= c < b + 1 && 0 <= i < batches@[c]@.len() implies has_ident(views(res@), #[trigger] batches@[c]@[i]@) by {
                if c < b {
                    assert(has_ident(before, batches@[c]@[i]@));
                }
            }
        }
        b = b + 1;
    }
    assert(batches@.take(b as int) =~= batches@);
    let ghost before = views(res@);
    add_unseen_unnumbered(&mut res, history);
    proof {
        assert forall|c: int, i: int|
            0 <= c < batches@.len() && 0 <= i < batches@[c]@.len() implies has_ident(views(res@), #[trigger] batches@[c]@[i]@) by {
            assert(has_ident(before, batches@[c]@[i]@));
        }
    }
    res
}

/// Appends, without row ids, the messages of `batch` that `res` lacks (keeping the first of
/// each set of same messages).
fn add_unseen_unnumbered(res: &mut Vec<Message>, batch: &Vec<Message>)
    requires
        forall|i: int, j: int| 0 <= i < j < old(res)@.len() ==> ident(#[trigger] old(res)@[i]@) != ident(#[trigger] old(res)@[j]@),
        forall|i: int| 0 <= i < old(res)@.len() ==> (#[trigger] old(res)@[i])@.id == -1,
    ensures
        forall|i: int, j: int| 0 <= i < j < final(res)@.len() ==> ident(#[trigger] final(res)@[i]@) != ident(#[trigger] final(res)@[j]@),
        forall|i: int| 0 <= i < final(res)@.len() ==> (#[trigger] final(res)@[i])@.id == -1,
        forall|i: int| 0 <= i < batch@.len() ==> has_ident(views(final(res)@), #[trigger] batch@[i]@),
        forall|m: MessageView| has_ident(views(old(res)@), m) ==> has_ident(views(final(res)@), m),
        views(final(res)@) == append_unseen(views(old(res)@), unnumbered_all(views(batch@))),
{
    let ghost start = res@;
    let mut i: usize = 0;
    while i < batch.len()
        invariant
            i <= batch@.len(),
            res@.len() >= start.len(),
            forall|k: int| 0 <= k < start.len() ==> res@[k] == start[k],
            forall|a: int, c: int| 0 <= a < c < res@.len() ==> ident(#[trigger] res@[a]@) != ident(#[trigger] res@[c]@),
            forall|k: int| 0 <= k < res@.len() ==> (#[trigger] res@[k])@.id == -1,
            forall|k: int| 0 <= k < i ==> has_ident(views(res@), #[trigger] batch@[k]@),
            views(res@) == append_unseen(views(start), unnumbered_all(views(batch@.take(i as int)))),
        decreases batch@.len() - i,
    {
        let m = &batch[i];
        let ghost before = res@;
        proof {
            let pre = unnumbered_all(views(batch@.take(i as int)));
            let now = unnumbered_all(views(batch@.take(i + 1)));
            assert(now.drop_last() =~= pre);
            assert(now.last() == unnumbered(batch@[i as int]@));
            assert(has_ident(views(before), unnumbered(m@)) == has_ident(views(before), m@));
        }
        if !contains_ident(res, m) {
            let fresh = Message::from_row(m.get_sender_id(), m.get_sent_at(), m.get_contents());
            res.push(fresh);
            proof {
                assert(res@[before.len() as int] == fresh);
                assert forall|a: int, c: int| 0 <= a < c < res@.len() implies ident(#[trigger] res@[a]@) != ident(#[trigger] res@[c]@) by {
                    if c == before.len() {
                        assert(views(before)[a] == before[a]@);
                    }
                }
                assert forall|k: int| 0 <= k < i + 1 implies has_ident(views(res@), #[trigger] batch@[k]@) by {
                    if k < i {
                        let j = choose|j: int| 0 <= j < views(before).len() && ident(#[trigger] views(before)[j]) == ident(batch@[k]@);
                        assert(views(res@)[j] == views(before)[j]);
                    } else {
                        assert(views(res@)[before.len() as int] == fresh@);
                    }
                }
            }
        } else {
            proof {
                assert(has_ident(views(res@), batch@[i as int]@));
            }
        }
        i = i + 1;
    }
    assert(batch@.take(i as int) =~= batch@);
    proof {
        assert forall|m: MessageView| has_ident(views(start), m) implies has_ident(views(res@), m) by {
            let j = choose|j: int| 0 <= j < views(start).len() && ident(#[trigger] views(start)[j]) == ident(m);
            assert(views(res@)[j] == views(start)[j]);
        }
    }
}

/// The chat's in-memory state: its history, its members by user id, and the local user.
pub struct Chat {
    pub message_history: Vec<Message>,
    pub members: HashMap<u64, User>,
    pub current_user: User,
}

impl Chat {
    /// The id of a member whose role is admin, if any member is an admin. Which admin, when
    /// there are several, depends on the map's order.
    pub fn get_admin(&self) -> (res: Option<u64>)
        ensures
            res matches Some(id) ==> self.members@.contains_key(id) && self.members@[id]@.role == Some(Role::Admin),
            res is None ==> forall|id: u64| #[trigger] self.members@.contains_key(id) ==> self.members@[id]@.role != Some(Role::Admin),
    {
        broadcast use vstd::std_specs::hash::group_hash_axioms;
        let ghost m = self.members@;
        let ghost pairs = vstd::std_specs::hash::spec_hash_map_iter(&self.members).remaining();
        let mut found: Option<u64> = None;
        for entry in it: self.members.iter()
            invariant
                it.seq() == pairs,
                found is None ==> forall|i: int| 0 <= i < it.index() ==> (*it.seq()[i].1)@.role != Some(Role::Admin),
                found matches Some(id) ==> m.contains_key(id) && m[id]@.role == Some(Role::Admin),
                it.seq().len() == m.dom().len(),
                forall|i: int| #![trigger it.seq()[i]] 0 <= i < it.seq().len() ==> m.contains_key(*it.seq()[i].0) && m[*it.seq()[i].0] == *it.seq()[i].1,
                forall|k: u64| #[trigger] m.contains_key(k) ==> it.seq().contains((&k, &m[k])),
        {
            if found.is_none() {
                let (id, user) = entry;
                if let Some(Role::Admin) = user.get_role() {
                    found = Some(*id);
                }
            }
        }
        proof {
            if found is None {
                assert forall|id: u64| #[trigger] m.contains_key(id) implies m[id]@.role != Some(Role::Admin) by {
                    assert(pairs.contains((&id, &m[id])));
                    let i = choose|i: int| 0 <= i < pairs.len() && pairs[i] == (&id, &m[id]);
                }
            }
        }
        found
    }
}

/// The notice a new chat starts with: `Chat '<chat>' created by <user>`.
pub open spec fn created_text(chat_name: Seq<char>, user_name: Seq<char>) -> Seq<char> {
    seq!['C', 'h', 'a', 't', ' ', '\''] + chat_name + seq!['\'', ' ', 'c', 'r', 'e', 'a', 't', 'e', 'd', ' ', 'b', 'y', ' ']
        + user_name
}

/// The notice a joiner posts: `<user> joined the chat`.
pub open spec fn joined_text(user_name: Seq<char>) -> Seq<char> {
    user_name + seq![' ', 'j', 'o', 'i', 'n', 'e', 'd', ' ', 't', 'h', 'e', ' ', 'c', 'h', 'a', 't']
}

/// The database file of a user's chat: `<user>__<chat>.db`.
pub open spec fn db_file_text(user_name: Seq<char>, chat_name: Seq<char>) -> Seq<char> {
    user_name + seq!['_', '_'] + chat_name + seq!['.', 'd', 'b']
}

/// The notice a new chat starts with (`Chat::new`).
pub fn created_notice(chat_name: &str, user_name: &str) -> (res: String)
    ensures
        res@ == created_text(chat_name@, user_name@),
{
    let head = "Chat '";
    let mid = "' created by ";
    proof {
        reveal_strlit("Chat '");
        reveal_strlit("' created by ");
    }
    let mut s = head.to_owned();
    s.append(chat_name);
    s.append(mid);
    s.append(user_name);
    assert(s@ =~= created_text(chat_name@, user_name@));
    s
}

/// The notice a joiner posts (`send_join`).
pub fn joined_notice(user_name: &str) -> (res: String)
    ensures
        res@ == joined_text(user_name@),
{
    let tail = " joined the chat";
    proof {
        reveal_strlit(" joined the chat");
    }
    let mut s = user_name.to_owned();
    s.append(tail);
    assert(s@ =~= joined_text(user_name@));
    s
}

/// The database file of a user's chat (`Chat::new`, `join`, `old`).
pub fn db_file_name(user_name: &str, chat_name: &str) -> (res: String)
    ensures
        res@ == db_file_text(user_name@, chat_name@),
{
    let sep = "__";
    let ext = ".db";
    proof {
        reveal_strlit("__");
        reveal_strlit(".db");
    }
    let mut s = user_name.to_owned();
    s.append(sep);
    s.append(chat_name);
    s.append(ext);
    assert(s@ =~= db_file_text(user_name@, chat_name@));
    s
}

/// The id of the local user among a chat's users (`Chat::old`): the last user with that name,
/// else 0.
pub open spec fn local_user_id(users: Seq<crate::auth::UserView>, name: Seq<char>) -> u64
    decreases users.len(),
{
    if users.len() == 0 {
        0
    } else if users.last().name == name {
        users.last().id
    } else {
        local_user_id(users.drop_last(), name)
    }
}

/// The id of the local user among a chat's users (see `local_user_id`).
pub fn find_local_user(users: &Vec<User>, name: &str) -> (res: u64)
    ensures
        res == local_user_id(views(users@), name@),
{
    let wanted = name.to_owned();
    let mut i = users.len();
    assert(users@.subrange(0, i as int) =~= users@);
    while i > 0
        invariant
            i <= users@.len(),
            wanted@ == name@,
            forall|j: int| i <= j < users@.len() ==> (#[trigger] users@[j])@.name != name@,
            local_user_id(views(users@), name@) == local_user_id(views(users@.subrange(0, i as int)), name@),
        decreases i,
    {
        let ghost pre = views(users@.subrange(0, i as int));
        assert(pre.drop_last() =~= views(users@.subrange(0, i - 1)));
        if users[i - 1].get_name() == wanted {
            return users[i - 1].get_id();
        }
        i = i - 1;
    }
    assert(views(users@.subrange(0, 0)) =~= Seq::<crate::auth::UserView>::empty());
    0
}

/// Whether the local user, by name, is an admin of the chat: some user of that name has the
/// admin role (how a saved chat is reopened: as its admin, or as a member).
pub fn local_is_admin(users: &Vec<User>, name: &str) -> (res: bool)
    ensures
        res == exists|i: int| 0 <= i < users@.len() && (#[trigger] users@[i])@.name == name@ && users@[i]@.role
            == Some(Role::Admin),
{
    let wanted = name.to_owned();
    let mut i: usize = 0;
    while i < users.len()
        invariant
            i <= users@.len(),
            wanted@ == name@,
            forall|j: int| 0 <= j < i ==> !((#[trigger] users@[j])@.name == name@ && users@[j]@.role == Some(Role::Admin)),
        decreases users@.len() - i,
    {
        if users[i].get_name() == wanted && users[i].get_role() == Some(Role::Admin) {
            return true;
        }
        i = i + 1;
    }
    false
}

} // verus!
