//! The peer map: for each user of the chat, its peer, the key of the channel to it and the
//! stream open to it (named by a handle; the streams themselves live with the network code).
//!
//! Entries are kept in a sequence with at most one entry per user id; an entry is found by
//! scanning from the front, which is one of the orders a hash map may be walked in.
use vstd::prelude::*;
use crate::connection::peer::{KeyGen, LOCALHOST_V4, Peer, PeerView, SockAddr, channel_key, online_at, port_of};
use crate::crypto::{Key, hex_encode, hex_encoded, x25519_public, x25519_public_key};
use crate::auth::{Role, Uid, User, UserView, derived_id};
use crate::connection::dbsync::bytes_equal;

verus! {

/// What the peer map holds for a user: the peer, the channel key, and the handle of the
/// stream open to it, if one is.
#[derive(Debug, Clone, Copy)]
pub struct PeerSlot {
    pub peer: Peer,
    pub key: Key,
    pub stream: Option<u64>,
}

/// What an entry of the peer map looks like to a contract.
pub struct SlotView {
    pub peer: PeerView,
    pub key: Seq<u8>,
    pub stream: Option<u64>,
}

impl View for PeerSlot {
    type V = SlotView;

    open spec fn view(&self) -> SlotView {
        SlotView { peer: self.peer@, key: self.key@, stream: self.stream }
    }
}

/// The views of entries.
pub open spec fn slot_views(s: Seq<(u64, PeerSlot)>) -> Seq<(u64, SlotView)> {
    s.map_values(|e: (u64, PeerSlot)| (e.0, e.1@))
}

/// The position of the entry of `uid`, if any.
pub open spec fn position_of<V>(s: Seq<(u64, V)>, uid: u64) -> Option<int>
    decreases s.len(),
{
    if s.len() == 0 {
        None
    } else if s[0].0 == uid {
        Some(0)
    } else {
        match position_of(s.drop_first(), uid) {
            Some(i) => Some(i + 1),
            None => None,
        }
    }
}

/// What `position_of` finds: the first entry of the user, or none at all.
pub proof fn lemma_position_of<V>(s: Seq<(u64, V)>, uid: u64)
    ensures
        position_of(s, uid) matches Some(i) ==> 0 <= i < s.len() && s[i].0 == uid && forall|j: int| 0 <= j < i ==> s[j].0 != uid,
        position_of(s, uid) is None ==> forall|j: int| 0 <= j < s.len() ==> s[j].0 != uid,
    decreases s.len(),
{
    if s.len() > 0 && s[0].0 != uid {
        lemma_position_of(s.drop_first(), uid);
        assert forall|j: int| 1 <= j < s.len() implies s[j] == s.drop_first()[j - 1] by {}
    }
}

/// The entry of `uid`, if any.
pub open spec fn slot_of<V>(s: Seq<(u64, V)>, uid: u64) -> Option<V> {
    match position_of(s, uid) {
        Some(i) => Some(s[i].1),
        None => None,
    }
}

/// The entries once `slot` is stored for `uid` (`HashMap::insert`): an entry of the user is
/// replaced in place, else the new one is appended.
pub open spec fn stored<V>(s: Seq<(u64, V)>, uid: u64, slot: V) -> Seq<(u64, V)> {
    match position_of(s, uid) {
        Some(i) => s.update(i, (uid, slot)),
        None => s.push((uid, slot)),
    }
}

/// Whether no user has two entries.
pub open spec fn uids_distinct<V>(s: Seq<(u64, V)>) -> bool {
    forall|i: int, j: int| 0 <= i < j < s.len() ==> s[i].0 != s[j].0
}

/// Storing keeps the users distinct, makes the stored slot the user's, and leaves every other
/// user's entry as it was.
pub proof fn lemma_stored<V>(s: Seq<(u64, V)>, uid: u64, slot: V)
    requires
        uids_distinct(s),
    ensures
        uids_distinct(stored(s, uid, slot)),
        slot_of(stored(s, uid, slot), uid) == Some(slot),
        forall|u: u64| u != uid ==> #[trigger] slot_of(stored(s, uid, slot), u) == slot_of(s, u),
{
    lemma_position_of(s, uid);
    let t = stored(s, uid, slot);
    assert forall|i: int, j: int| 0 <= i < j < t.len() implies t[i].0 != t[j].0 by {
        if position_of(s, uid) is None && j == s.len() {
        } else {
        }
    }
    let k = match position_of(s, uid) {
        Some(i) => i,
        None => s.len() as int,
    };
    assert(t[k].0 == uid);
    assert forall|j: int| 0 <= j < k implies t[j].0 != uid by {}
    lemma_position_of(t, uid);
    if position_of(t, uid) is Some {
        assert(position_of(t, uid) == Some(k));
    }
    assert forall|u: u64| u != uid implies #[trigger] slot_of(t, u) == slot_of(s, u) by {
        lemma_position_of(s, u);
        lemma_position_of(t, u);
        if position_of(s, u) is Some {
            let p = position_of(s, u)->0;
            assert(t[p] == s[p]);
            if position_of(t, u) is Some {
                let q = position_of(t, u)->0;
                if q < p {
                    assert(t[q] == s[q]);
                } else if q > p {
                }
            }
        } else {
            if position_of(t, u) is Some {
                let q = position_of(t, u)->0;
                if q < s.len() {
                    assert(t[q] == s[q] || q == k);
                }
            }
        }
    }
}

/// The peer map.
pub struct PeerMap {
    slots: Vec<(u64, PeerSlot)>,
}

impl View for PeerMap {
    type V = Seq<(u64, SlotView)>;

    closed spec fn view(&self) -> Seq<(u64, SlotView)> {
        slot_views(self.slots@)
    }
}

impl PeerMap {
    /// Whether no user has two entries.
    pub open spec fn wf(&self) -> bool {
        uids_distinct(self@)
    }

    /// An empty peer map.
    pub fn new() -> (res: Self)
        ensures
            res.wf(),
            res@.len() == 0,
    {
        let res = PeerMap { slots: Vec::new() };
        assert(res@ =~= Seq::<(u64, SlotView)>::empty());
        res
    }

    /// Where the entry of `uid` is in the sequence of entries.
    fn find(&self, uid: u64) -> (res: Option<usize>)
        ensures
            match position_of(self@, uid) {
                Some(i) => res is Some && res->0 == i,
                None => res is None,
            },
            res matches Some(i) ==> i < self.slots@.len(),
    {
        proof {
            lemma_position_of(self@, uid);
        }
        let mut i: usize = 0;
        while i < self.slots.len()
            invariant
                i <= self.slots@.len(),
                self@ == slot_views(self.slots@),
                forall|j: int| 0 <= j < i ==> self@[j].0 != uid,
            decreases self.slots@.len() - i,
        {
            if self.slots[i].0 == uid {
                proof {
                    lemma_position_of(self@, uid);
                    assert(self@[i as int].0 == uid);
                }
                return Some(i);
            }
            i = i + 1;
        }
        proof {
            lemma_position_of(self@, uid);
            if position_of(self@, uid) is Some {
                let k = position_of(self@, uid)->0;
                assert(self@[k].0 != uid);
            }
        }
        None
    }

    /// The entry of `uid`, if any.
    pub fn get(&self, uid: u64) -> (res: Option<PeerSlot>)
        ensures
            match slot_of(self@, uid) {
                Some(v) => res matches Some(x) && x@ == v,
                None => res is None,
            },
    {
        match self.find(uid) {
            Some(i) => Some(self.slots[i].1),
            None => None,
        }
    }

    /// Stores `slot` for `uid` (see `stored`).
    pub fn insert(&mut self, uid: u64, slot: PeerSlot)
        requires
            old(self).wf(),
        ensures
            final(self).wf(),
            final(self)@ == stored(old(self)@, uid, slot@),
    {
        proof {
            lemma_stored(self@, uid, slot@);
        }
        match self.find(uid) {
            Some(i) => {
                self.slots.set(i, (uid, slot));
                assert(self@ =~= old(self)@.update(i as int, (uid, slot@)));
            },
            None => {
                self.slots.push((uid, slot));
                assert(self@ =~= old(self)@.push((uid, slot@)));
            },
        }
    }

    /// All entries, in order (`peer_list`).
    pub fn entries(&self) -> (res: Vec<(u64, PeerSlot)>)
        ensures
            slot_views(res@) == self@,
    {
        let mut out: Vec<(u64, PeerSlot)> = Vec::new();
        let mut i: usize = 0;
        while i < self.slots.len()
            invariant
                i <= self.slots@.len(),
                out@ == self.slots@.subrange(0, i as int),
            decreases self.slots@.len() - i,
        {
            out.push(self.slots[i]);
            i = i + 1;
            assert(out@ =~= self.slots@.subrange(0, i as int));
        }
        assert(self.slots@.subrange(0, i as int) =~= self.slots@);
        out
    }
}

/// The position of the first entry holding a peer with public key `pubkey`, if any.
pub open spec fn key_position(s: Seq<(u64, SlotView)>, pubkey: Seq<u8>) -> Option<int>
    decreases s.len(),
{
    if s.len() == 0 {
        None
    } else if s[0].1.peer.pubkey == pubkey {
        Some(0)
    } else {
        match key_position(s.drop_first(), pubkey) {
            Some(i) => Some(i + 1),
            None => None,
        }
    }
}

/// What `key_position` finds: the first entry with the key, or none at all.
pub proof fn lemma_key_position(s: Seq<(u64, SlotView)>, pubkey: Seq<u8>)
    ensures
        key_position(s, pubkey) matches Some(i) ==> 0 <= i < s.len() && s[i].1.peer.pubkey == pubkey
            && forall|j: int| 0 <= j < i ==> s[j].1.peer.pubkey != pubkey,
        key_position(s, pubkey) is None ==> forall|j: int| 0 <= j < s.len() ==> s[j].1.peer.pubkey != pubkey,
    decreases s.len(),
{
    if s.len() > 0 && s[0].1.peer.pubkey != pubkey {
        lemma_key_position(s.drop_first(), pubkey);
        assert forall|j: int| 1 <= j < s.len() implies s[j] == s.drop_first()[j - 1] by {}
    }
}

/// The first entry holding a peer with public key `pubkey`, if any.
pub open spec fn slot_with_key(s: Seq<(u64, SlotView)>, pubkey: Seq<u8>) -> Option<SlotView> {
    match key_position(s, pubkey) {
        Some(i) => Some(s[i].1),
        None => None,
    }
}

/// A peer as the rebuilt map keeps it, and the stream kept for it: the old entry with its
/// key lends it the presence it had recorded, and its stream when the addresses are unchanged.
pub open spec fn carried(p: PeerView, prev: Option<SlotView>) -> (PeerView, Option<u64>) {
    match prev {
        None => (p, None),
        Some(ps) => (
            PeerView { last_heartbeat: ps.peer.last_heartbeat, last_seen_typing: ps.peer.last_seen_typing, ..p },
            if ps.peer.addrs == p.addrs { ps.stream } else { None },
        ),
    }
}

/// The entries a rebuild makes of the database's peers, in order: each peer linked to a user
/// other than this node's gets an entry under its user id, with the channel key derived from
/// `secret` (a later peer of the same user replaces an earlier one).
pub open spec fn rebuilt(old: Seq<(u64, SlotView)>, db: Seq<PeerView>, me: Option<u64>, secret: Seq<u8>) -> Seq<(u64, SlotView)>
    decreases db.len(),
{
    if db.len() == 0 {
        Seq::empty()
    } else {
        let acc = rebuilt(old, db.drop_last(), me, secret);
        let p = db.last();
        match p.user_id {
            None => acc,
            Some(uid) => if me == Some(uid) {
                acc
            } else {
                let c = carried(p, slot_with_key(old, p.pubkey));
                stored(acc, uid, SlotView { peer: c.0, key: channel_key(secret, p.pubkey), stream: c.1 })
            },
        }
    }
}

/// The entries once this node's own entry is added (when it has a user): its public key, the
/// addresses its old entry had (else loopback and `bound`), its channel key and old stream.
pub open spec fn with_self(acc: Seq<(u64, SlotView)>, old: Seq<(u64, SlotView)>, me: Option<u64>, secret: Seq<u8>, bound: SockAddr) -> Seq<(u64, SlotView)> {
    match me {
        None => acc,
        Some(my_id) => {
            let my_pubkey = x25519_public_key(secret);
            let prev = slot_with_key(old, my_pubkey);
            let addrs = match prev {
                Some(ps) => ps.peer.addrs,
                None => [SockAddr::V4 { ip: LOCALHOST_V4, port: port_of(bound) }, bound],
            };
            stored(acc, my_id, SlotView {
                peer: PeerView { id: -1i32, user_id: Some(my_id), addrs, pubkey: my_pubkey, last_heartbeat: None, last_seen_typing: None },
                key: channel_key(secret, my_pubkey),
                stream: match prev {
                    Some(ps) => ps.stream,
                    None => None,
                },
            })
        },
    }
}

/// The views of peers.
pub open spec fn peers_view(s: Seq<Peer>) -> Seq<PeerView> {
    s.map_values(|p: Peer| p@)
}

impl PeerMap {
    /// The first entry holding a peer with public key `pubkey`.
    fn find_key(&self, pubkey: &[u8; 32]) -> (res: Option<usize>)
        ensures
            match key_position(self@, pubkey@) {
                Some(i) => res is Some && res->0 == i,
                None => res is None,
            },
            res matches Some(i) ==> i < self.slots@.len(),
    {
        let mut i: usize = 0;
        while i < self.slots.len()
            invariant
                i <= self.slots@.len(),
                self@ == slot_views(self.slots@),
                forall|j: int| 0 <= j < i ==> self@[j].1.peer.pubkey != pubkey@,
            decreases self.slots@.len() - i,
        {
            if bytes_equal(self.slots[i].1.peer.get_pubkey().as_slice(), pubkey.as_slice()) {
                proof {
                    lemma_key_position(self@, pubkey@);
                    assert(self@[i as int].1.peer.pubkey == pubkey@);
                }
                return Some(i);
            }
            i = i + 1;
        }
        proof {
            lemma_key_position(self@, pubkey@);
            if key_position(self@, pubkey@) is Some {
                let k = key_position(self@, pubkey@)->0;
                assert(self@[k].1.peer.pubkey != pubkey@);
            }
        }
        None
    }

    /// The peer map rebuilt from the database's peers (`rebuild_peermap`): see `rebuilt` and
    /// `with_self`. Streams to peers whose addresses did not change stay open.
    pub fn rebuild(&self, db_peers: &Vec<Peer>, me: Option<u64>, secret: &[u8; 32], bound: SockAddr) -> (res: PeerMap)
        requires
            self.wf(),
        ensures
            res.wf(),
            res@ == with_self(rebuilt(self@, peers_view(db_peers@), me, secret@), self@, me, secret@, bound),
    {
        let mut out = PeerMap::new();
        let mut i: usize = 0;
        while i < db_peers.len()
            invariant
                i <= db_peers@.len(),
                out.wf(),
                out@ == rebuilt(self@, peers_view(db_peers@.subrange(0, i as int)), me, secret@),
            decreases db_peers@.len() - i,
        {
            let p = db_peers[i];
            assert(peers_view(db_peers@.subrange(0, i + 1)).drop_last() =~= peers_view(db_peers@.subrange(0, i as int)));
            assert(peers_view(db_peers@.subrange(0, i + 1)).last() == p@);
            if let Some(uid) = p.get_user_id() {
                if me != Some(uid) {
                    let key = p.shrdkeygen(*secret);
                    let mut peer = p;
                    let stream = match self.find_key(&p.get_pubkey()) {
                        Some(k) => {
                            let prev = self.slots[k].1;
                            peer.set_last_heartbeat(prev.peer.get_last_heartbeat());
                            peer.set_last_seen_typing(prev.peer.get_last_seen_typing());
                            if addrs_equal(&prev.peer.get_addrs(), &p.get_addrs()) {
                                prev.stream
                            } else {
                                None
                            }
                        },
                        None => None,
                    };
                    let slot = PeerSlot { peer, key, stream };
                    out.insert(uid, slot);
                }
            }
            i = i + 1;
        }
        assert(db_peers@.subrange(0, i as int) =~= db_peers@);
        if let Some(my_id) = me {
            let my_pubkey = x25519_public(secret);
            let prev = match self.find_key(&my_pubkey) {
                Some(k) => Some(self.slots[k].1),
                None => None,
            };
            let addrs = match prev {
                Some(ps) => ps.peer.get_addrs(),
                None => [SockAddr::localhost(bound.port()), bound],
            };
            let me_peer = Peer::from_parts(-1, Some(my_id), addrs, my_pubkey, None, None);
            let key = me_peer.shrdkeygen(*secret);
            let stream = match prev {
                Some(ps) => ps.stream,
                None => None,
            };
            out.insert(my_id, PeerSlot { peer: me_peer, key, stream });
        }
        out
    }
}

/// Whether two address pairs are the same.
pub fn addrs_equal(a: &[SockAddr; 2], b: &[SockAddr; 2]) -> (res: bool)
    ensures
        res == (*a == *b),
{
    let r = a[0] == b[0] && a[1] == b[1];
    proof {
        vstd::array::axiom_array_ext_equal(*a, *b);
        if a[0] == b[0] && a[1] == b[1] {
            assert(a@ =~= b@);
        }
    }
    r
}

/// An entry with its peer's addresses replaced.
pub open spec fn readdressed(v: SlotView, addrs: [SockAddr; 2]) -> SlotView {
    SlotView { peer: PeerView { addrs, ..v.peer }, ..v }
}

/// An entry whose peer must be dialled anew: new addresses, no presence, no stream.
pub open spec fn redialled(v: SlotView, addrs: [SockAddr; 2]) -> SlotView {
    SlotView {
        peer: PeerView { addrs, last_heartbeat: None, last_seen_typing: None, ..v.peer },
        stream: None,
        ..v
    }
}

/// An entry whose stream broke: no stream, no presence.
pub open spec fn unlinked(v: SlotView) -> SlotView {
    SlotView { peer: PeerView { last_heartbeat: None, last_seen_typing: None, ..v.peer }, stream: None, ..v }
}

impl PeerMap {
    /// Rewrites the entry at position `i`; the users stay distinct.
    fn rewrite(&mut self, i: usize, slot: PeerSlot)
        requires
            old(self).wf(),
            i < old(self)@.len(),
            slot.peer@.user_id == old(self)@[i as int].1.peer.user_id,
        ensures
            final(self).wf(),
            final(self)@ == old(self)@.update(i as int, (old(self)@[i as int].0, slot@)),
    {
        let uid = self.slots[i].0;
        self.slots.set(i, (uid, slot));
        assert(self@ =~= old(self)@.update(i as int, (uid, slot@)));
    }

    /// A known peer announced new addresses (`reconnect_peer`): the first entry with its key
    /// takes them and loses its presence and stream, so that it is dialled anew. Says whether
    /// there was such an entry.
    pub fn reconnect(&mut self, pubkey: &[u8; 32], addrs: [SockAddr; 2]) -> (res: bool)
        requires
            old(self).wf(),
        ensures
            final(self).wf(),
            match key_position(old(self)@, pubkey@) {
                None => !res && final(self)@ == old(self)@,
                Some(i) => res && final(self)@ == old(self)@.update(i, (old(self)@[i].0, redialled(old(self)@[i].1, addrs))),
            },
    {
        match self.find_key(pubkey) {
            None => false,
            Some(i) => {
                let mut slot = self.slots[i].1;
                slot.peer.set_addrs(addrs);
                slot.peer.set_last_heartbeat(None);
                slot.peer.set_last_seen_typing(None);
                slot.stream = None;
                self.rewrite(i, slot);
                true
            },
        }
    }

    /// An address table named a peer by its key (`AVP`): the first entry with that key takes
    /// the addresses. Says whether there was such an entry.
    pub fn readdress_key(&mut self, pubkey: &[u8; 32], addrs: [SockAddr; 2]) -> (res: bool)
        requires
            old(self).wf(),
        ensures
            final(self).wf(),
            match key_position(old(self)@, pubkey@) {
                None => !res && final(self)@ == old(self)@,
                Some(i) => res && final(self)@ == old(self)@.update(i, (old(self)@[i].0, readdressed(old(self)@[i].1, addrs))),
            },
    {
        match self.find_key(pubkey) {
            None => false,
            Some(i) => {
                let mut slot = self.slots[i].1;
                slot.peer.set_addrs(addrs);
                self.rewrite(i, slot);
                true
            },
        }
    }

    /// A peer announced its own addresses (`OWN`): its entry takes them.
    pub fn readdress(&mut self, uid: u64, addrs: [SockAddr; 2])
        requires
            old(self).wf(),
        ensures
            final(self).wf(),
            match position_of(old(self)@, uid) {
                None => final(self)@ == old(self)@,
                Some(i) => final(self)@ == old(self)@.update(i, (uid, readdressed(old(self)@[i].1, addrs))),
            },
    {
        match self.find(uid) {
            None => {},
            Some(i) => {
                let mut slot = self.slots[i].1;
                slot.peer.set_addrs(addrs);
                proof {
                    lemma_position_of(self@, uid);
                }
                self.rewrite(i, slot);
            },
        }
    }

    /// A stream to user `uid` was opened (`connect_peers`): it is kept, and the channel key
    /// returned, when the user still has an entry without a stream; otherwise nothing changes.
    pub fn attach(&mut self, uid: u64, handle: u64) -> (res: Option<Key>)
        requires
            old(self).wf(),
        ensures
            final(self).wf(),
            match slot_of(old(self)@, uid) {
                Some(v) => if v.stream is None {
                    res matches Some(k) && k@ == v.key && final(self)@ == stored(old(self)@, uid, SlotView { stream: Some(handle), ..v })
                } else {
                    res is None && final(self)@ == old(self)@
                },
                None => res is None && final(self)@ == old(self)@,
            },
    {
        match self.find(uid) {
            None => None,
            Some(i) => {
                let mut slot = self.slots[i].1;
                if slot.stream.is_some() {
                    return None;
                }
                slot.stream = Some(handle);
                proof {
                    lemma_position_of(self@, uid);
                }
                self.rewrite(i, slot);
                Some(slot.key)
            },
        }
    }

    /// Writing to the stream `handle` of user `uid` failed (`send_heartbeat`): when it is still
    /// the user's stream, the entry loses it and its presence.
    pub fn detach(&mut self, uid: u64, handle: u64)
        requires
            old(self).wf(),
        ensures
            final(self).wf(),
            match slot_of(old(self)@, uid) {
                Some(v) => if v.stream == Some(handle) {
                    final(self)@ == stored(old(self)@, uid, unlinked(v))
                } else {
                    final(self)@ == old(self)@
                },
                None => final(self)@ == old(self)@,
            },
    {
        match self.find(uid) {
            None => {},
            Some(i) => {
                let mut slot = self.slots[i].1;
                if slot.stream == Some(handle) {
                    slot.stream = None;
                    slot.peer.set_last_heartbeat(None);
                    slot.peer.set_last_seen_typing(None);
                    proof {
                        lemma_position_of(self@, uid);
                    }
                    self.rewrite(i, slot);
                }
            },
        }
    }

    /// A heartbeat from user `uid` at `now_secs` (`read_heartbeat`): its peer is heard from now.
    /// Returns the peer's row id and whether it has just come online (it was not online).
    pub fn heartbeat(&mut self, uid: u64, now_secs: i64) -> (res: Option<(i32, bool)>)
        requires
            old(self).wf(),
        ensures
            final(self).wf(),
            match slot_of(old(self)@, uid) {
                Some(v) => res == Some((v.peer.id, !online_at(v.peer.last_heartbeat, now_secs)))
                    && final(self)@ == stored(old(self)@, uid, SlotView { peer: PeerView { last_heartbeat: Some(now_secs), ..v.peer }, ..v }),
                None => res is None && final(self)@ == old(self)@,
            },
    {
        match self.find(uid) {
            None => None,
            Some(i) => {
                let mut slot = self.slots[i].1;
                let was_online = slot.peer.is_online_at(now_secs);
                slot.peer.set_last_heartbeat(Some(now_secs));
                proof {
                    lemma_position_of(self@, uid);
                }
                self.rewrite(i, slot);
                Some((slot.peer.get_id(), !was_online))
            },
        }
    }

    /// A typing notice from user `uid` at `now_secs`, Unix seconds (`read_typing`).
    pub fn typing(&mut self, uid: u64, now_secs: i64)
        requires
            old(self).wf(),
        ensures
            final(self).wf(),
            match slot_of(old(self)@, uid) {
                Some(v) => final(self)@ == stored(old(self)@, uid, SlotView { peer: PeerView { last_seen_typing: Some(now_secs), ..v.peer }, ..v }),
                None => final(self)@ == old(self)@,
            },
    {
        match self.find(uid) {
            None => {},
            Some(i) => {
                let mut slot = self.slots[i].1;
                slot.peer.set_last_seen_typing(Some(now_secs));
                proof {
                    lemma_position_of(self@, uid);
                }
                self.rewrite(i, slot);
            },
        }
    }
}

/// The users to dial (`connect_peers`): every other user whose entry has no stream, with its
/// peer's addresses, in order.
pub open spec fn to_dial(s: Seq<(u64, SlotView)>, me: Option<u64>) -> Seq<(u64, [SockAddr; 2])>
    decreases s.len(),
{
    if s.len() == 0 {
        Seq::empty()
    } else {
        let acc = to_dial(s.drop_last(), me);
        let e = s.last();
        if me != Some(e.0) && e.1.stream is None {
            acc.push((e.0, e.1.peer.addrs))
        } else {
            acc
        }
    }
}

/// Where frames to everyone go (`send_msg`, `send_heartbeat`, ...): every other user whose
/// entry has a stream, with its channel key and stream, in order.
pub open spec fn targets(s: Seq<(u64, SlotView)>, me: Option<u64>) -> Seq<(u64, Seq<u8>, u64)>
    decreases s.len(),
{
    if s.len() == 0 {
        Seq::empty()
    } else {
        let acc = targets(s.drop_last(), me);
        let e = s.last();
        if me != Some(e.0) && e.1.stream is Some {
            acc.push((e.0, e.1.key, e.1.stream->0))
        } else {
            acc
        }
    }
}

/// The channel keys of every other user, in order.
pub open spec fn keys_of_others(s: Seq<(u64, SlotView)>, me: Option<u64>) -> Seq<Seq<u8>>
    decreases s.len(),
{
    if s.len() == 0 {
        Seq::empty()
    } else {
        let acc = keys_of_others(s.drop_last(), me);
        if me != Some(s.last().0) {
            acc.push(s.last().1.key)
        } else {
            acc
        }
    }
}

/// The public keys and addresses of every other user (of every user when `me` is `None`).
pub open spec fn addresses_of_others(s: Seq<(u64, SlotView)>, me: Option<u64>) -> Seq<(Seq<u8>, [SockAddr; 2])>
    decreases s.len(),
{
    if s.len() == 0 {
        Seq::empty()
    } else {
        let acc = addresses_of_others(s.drop_last(), me);
        if me != Some(s.last().0) {
            acc.push((s.last().1.peer.pubkey, s.last().1.peer.addrs))
        } else {
            acc
        }
    }
}

/// Whether the stream of every other user online at `now_secs` is open, in the entries.
pub open spec fn online_others(s: Seq<(u64, SlotView)>, me: Option<u64>, now_secs: i64) -> Seq<bool>
    decreases s.len(),
{
    if s.len() == 0 {
        Seq::empty()
    } else {
        let acc = online_others(s.drop_last(), me, now_secs);
        let e = s.last();
        if me != Some(e.0) && online_at(e.1.peer.last_heartbeat, now_secs) {
            acc.push(e.1.stream is Some)
        } else {
            acc
        }
    }
}

/// "Met up and synced" (`reached_and_synced`): no database sync is under way, some other user
/// is online, and every other user online has an open stream; then the number of them.
pub open spec fn met_up(s: Seq<(u64, SlotView)>, me: Option<u64>, now_secs: i64, sync_pending: bool) -> Option<usize> {
    let online = online_others(s, me, now_secs);
    if !sync_pending && online.len() > 0 && (forall|i: int| 0 <= i < online.len() ==> #[trigger] online[i]) {
        Some(online.len() as usize)
    } else {
        None
    }
}

/// The views of address table entries.
pub open spec fn table_view(t: Seq<([u8; 32], [SockAddr; 2])>) -> Seq<(Seq<u8>, [SockAddr; 2])> {
    t.map_values(|e: ([u8; 32], [SockAddr; 2])| (e.0@, e.1))
}

/// The views of target entries.
pub open spec fn targets_view(t: Seq<(u64, Key, u64)>) -> Seq<(u64, Seq<u8>, u64)> {
    t.map_values(|e: (u64, Key, u64)| (e.0, e.1@, e.2))
}

/// The views of keys.
pub open spec fn keys_view(t: Seq<Key>) -> Seq<Seq<u8>> {
    t.map_values(|k: Key| k@)
}

impl PeerMap {
    /// The users to dial (see `to_dial`).
    pub fn dial_list(&self, me: Option<u64>) -> (res: Vec<(u64, [SockAddr; 2])>)
        ensures
            res@ == to_dial(self@, me),
    {
        let mut out: Vec<(u64, [SockAddr; 2])> = Vec::new();
        let mut i: usize = 0;
        while i < self.slots.len()
            invariant
                i <= self.slots@.len(),
                self@ == slot_views(self.slots@),
                out@ == to_dial(self@.subrange(0, i as int), me),
            decreases self.slots@.len() - i,
        {
            let (uid, slot) = self.slots[i];
            assert(self@.subrange(0, i + 1).drop_last() =~= self@.subrange(0, i as int));
            if me != Some(uid) && slot.stream.is_none() {
                out.push((uid, slot.peer.get_addrs()));
            }
            i = i + 1;
        }
        assert(self@.subrange(0, i as int) =~= self@);
        out
    }

    /// Where frames to everyone go (see `targets`).
    pub fn send_targets(&self, me: Option<u64>) -> (res: Vec<(u64, Key, u64)>)
        ensures
            targets_view(res@) == targets(self@, me),
    {
        let mut out: Vec<(u64, Key, u64)> = Vec::new();
        let mut i: usize = 0;
        while i < self.slots.len()
            invariant
                i <= self.slots@.len(),
                self@ == slot_views(self.slots@),
                targets_view(out@) == targets(self@.subrange(0, i as int), me),
            decreases self.slots@.len() - i,
        {
            let (uid, slot) = self.slots[i];
            assert(self@.subrange(0, i + 1).drop_last() =~= self@.subrange(0, i as int));
            if me != Some(uid) {
                if let Some(h) = slot.stream {
                    let ghost before = targets_view(out@);
                    out.push((uid, slot.key, h));
                    assert(targets_view(out@) =~= before.push((uid, slot.key@, h)));
                }
            }
            i = i + 1;
        }
        assert(self@.subrange(0, i as int) =~= self@);
        out
    }

    /// The channel keys of every other user (see `keys_of_others`).
    pub fn keys_except(&self, me: Option<u64>) -> (res: Vec<Key>)
        ensures
            keys_view(res@) == keys_of_others(self@, me),
    {
        let mut out: Vec<Key> = Vec::new();
        let mut i: usize = 0;
        while i < self.slots.len()
            invariant
                i <= self.slots@.len(),
                self@ == slot_views(self.slots@),
                keys_view(out@) == keys_of_others(self@.subrange(0, i as int), me),
            decreases self.slots@.len() - i,
        {
            let (uid, slot) = self.slots[i];
            assert(self@.subrange(0, i + 1).drop_last() =~= self@.subrange(0, i as int));
            if me != Some(uid) {
                let ghost before = keys_view(out@);
                out.push(slot.key);
                assert(keys_view(out@) =~= before.push(slot.key@));
            }
            i = i + 1;
        }
        assert(self@.subrange(0, i as int) =~= self@);
        out
    }

    /// The public keys and addresses of every other user (see `addresses_of_others`).
    pub fn address_entries(&self, me: Option<u64>) -> (res: Vec<([u8; 32], [SockAddr; 2])>)
        ensures
            table_view(res@) == addresses_of_others(self@, me),
    {
        let mut out: Vec<([u8; 32], [SockAddr; 2])> = Vec::new();
        let mut i: usize = 0;
        while i < self.slots.len()
            invariant
                i <= self.slots@.len(),
                self@ == slot_views(self.slots@),
                table_view(out@) == addresses_of_others(self@.subrange(0, i as int), me),
            decreases self.slots@.len() - i,
        {
            let (uid, slot) = self.slots[i];
            assert(self@.subrange(0, i + 1).drop_last() =~= self@.subrange(0, i as int));
            if me != Some(uid) {
                let ghost before = table_view(out@);
                out.push((slot.peer.get_pubkey(), slot.peer.get_addrs()));
                assert(table_view(out@) =~= before.push((slot.peer@.pubkey, slot.peer@.addrs)));
            }
            i = i + 1;
        }
        assert(self@.subrange(0, i as int) =~= self@);
        out
    }

    /// Whether the stream of each other user online at `now_secs` is open.
    fn online_links(&self, me: Option<u64>, now_secs: i64) -> (res: Vec<bool>)
        ensures
            res@ == online_others(self@, me, now_secs),
    {
        let mut out: Vec<bool> = Vec::new();
        let mut i: usize = 0;
        while i < self.slots.len()
            invariant
                i <= self.slots@.len(),
                self@ == slot_views(self.slots@),
                out@ == online_others(self@.subrange(0, i as int), me, now_secs),
            decreases self.slots@.len() - i,
        {
            let (uid, slot) = self.slots[i];
            assert(self@.subrange(0, i + 1).drop_last() =~= self@.subrange(0, i as int));
            if me != Some(uid) && slot.peer.is_online_at(now_secs) {
                out.push(slot.stream.is_some());
            }
            i = i + 1;
        }
        assert(self@.subrange(0, i as int) =~= self@);
        out
    }

    /// "Met up and synced" (see `met_up`).
    pub fn reached_and_synced(&self, me: Option<u64>, now_secs: i64, sync_pending: bool) -> (res: Option<usize>)
        ensures
            res == met_up(self@, me, now_secs, sync_pending),
    {
        if sync_pending {
            return None;
        }
        let online = self.online_links(me, now_secs);
        if online.len() == 0 {
            return None;
        }
        let mut i: usize = 0;
        while i < online.len()
            invariant
                i <= online@.len(),
                online@ == online_others(self@, me, now_secs),
                !sync_pending,
                online@.len() > 0,
                forall|j: int| 0 <= j < i ==> #[trigger] online@[j],
            decreases online@.len() - i,
        {
            if !online[i] {
                return None;
            }
            i = i + 1;
        }
        Some(online.len())
    }

    /// How many other users are online at `now_secs` (`read_db_sync`).
    pub fn online_count(&self, me: Option<u64>, now_secs: i64) -> (res: usize)
        ensures
            res == online_others(self@, me, now_secs).len(),
    {
        self.online_links(me, now_secs).len()
    }

    /// Where a database request goes (`send_db_req`): the admin, when its entry has a stream;
    /// else the first other user whose entry has one.
    pub fn db_req_target(&self, admin: Option<u64>, me: Option<u64>) -> (res: Option<(u64, Key, u64)>)
        ensures
            ({
                let admin_linked = match admin {
                    Some(a) => slot_of(self@, a) matches Some(v) && v.stream is Some,
                    None => false,
                };
                if admin_linked {
                    res matches Some(t) && t.0 == admin->0 && t.1@ == slot_of(self@, admin->0)->0.key
                        && t.2 == slot_of(self@, admin->0)->0.stream->0
                } else if targets(self@, me).len() > 0 {
                    res matches Some(t) && (t.0, t.1@, t.2) == targets(self@, me)[0]
                } else {
                    res is None
                }
            }),
    {
        if let Some(a) = admin {
            if let Some(slot) = self.get(a) {
                if let Some(h) = slot.stream {
                    return Some((a, slot.key, h));
                }
            }
        }
        let all = self.send_targets(me);
        if all.len() > 0 {
            Some(all[0])
        } else {
            None
        }
    }
}

/// Whether an address is not one of this node's own.
pub open spec fn foreign(a: SockAddr, own: [SockAddr; 2]) -> bool {
    a != own[0] && a != own[1]
}

/// The addresses of a pair that are not among this node's own, in order.
pub open spec fn dialable_of(addrs: [SockAddr; 2], own: [SockAddr; 2]) -> Seq<SockAddr> {
    (if foreign(addrs[0], own) { seq![addrs[0]] } else { Seq::empty() }) + (if foreign(addrs[1], own) {
        seq![addrs[1]]
    } else {
        Seq::empty()
    })
}

/// The addresses of a pair that are not among this node's own (`connect_peers` dials only
/// these, and skips a peer when none is left).
pub fn dialable(addrs: [SockAddr; 2], own: [SockAddr; 2]) -> (res: Vec<SockAddr>)
    ensures
        res@ == dialable_of(addrs, own),
{
    let mut out: Vec<SockAddr> = Vec::new();
    if addrs[0] != own[0] && addrs[0] != own[1] {
        out.push(addrs[0]);
    }
    if addrs[1] != own[0] && addrs[1] != own[1] {
        out.push(addrs[1]);
    }
    assert(out@ =~= dialable_of(addrs, own));
    out
}

/// No node sends frames to itself or dials itself: its own user is among neither the send
/// targets nor the users to dial, and only users without a stream are dialled.
pub proof fn law_never_to_itself(s: Seq<(u64, SlotView)>, me: u64)
    ensures
        forall|i: int| 0 <= i < targets(s, Some(me)).len() ==> (#[trigger] targets(s, Some(me))[i]).0 != me,
        forall|i: int| 0 <= i < to_dial(s, Some(me)).len() ==> (#[trigger] to_dial(s, Some(me))[i]).0 != me,
        forall|i: int| 0 <= i < to_dial(s, Some(me)).len() ==> slot_of(s, (#[trigger] to_dial(s, Some(me))[i]).0) is Some,
    decreases s.len(),
{
    if s.len() > 0 {
        let t = s.drop_last();
        law_never_to_itself(t, me);
        lemma_position_of(s, s.last().0);
        assert forall|i: int| 0 <= i < targets(s, Some(me)).len() implies (#[trigger] targets(s, Some(me))[i]).0 != me by {
            if i < targets(t, Some(me)).len() {
                assert(targets(s, Some(me))[i] == targets(t, Some(me))[i]);
            }
        }
        assert forall|i: int| 0 <= i < to_dial(s, Some(me)).len() implies (#[trigger] to_dial(s, Some(me))[i]).0 != me by {
            if i < to_dial(t, Some(me)).len() {
                assert(to_dial(s, Some(me))[i] == to_dial(t, Some(me))[i]);
            }
        }
        assert forall|i: int| 0 <= i < to_dial(s, Some(me)).len() implies slot_of(s, (#[trigger] to_dial(s, Some(me))[i]).0) is Some by {
            let u = to_dial(s, Some(me))[i].0;
            lemma_position_of(s, u);
            if i < to_dial(t, Some(me)).len() {
                assert(to_dial(s, Some(me))[i] == to_dial(t, Some(me))[i]);
                lemma_position_of(t, u);
                let k = position_of(t, u)->0;
                assert(s[k] == t[k]);
            }
        }
    }
}

/// The entries a chat reopened from its database starts with (`Chat::old`): each peer linked
/// to a user, under that user's id, with its channel key and no stream yet.
pub open spec fn linked_entries(db: Seq<PeerView>, secret: Seq<u8>) -> Seq<(u64, SlotView)>
    decreases db.len(),
{
    if db.len() == 0 {
        Seq::empty()
    } else {
        let acc = linked_entries(db.drop_last(), secret);
        let p = db.last();
        match p.user_id {
            None => acc,
            Some(uid) => stored(acc, uid, SlotView { peer: p, key: channel_key(secret, p.pubkey), stream: None }),
        }
    }
}

impl PeerMap {
    /// The peer map a chat reopened from its database starts with (see `linked_entries`).
    pub fn from_linked(db_peers: &Vec<Peer>, secret: &[u8; 32]) -> (res: PeerMap)
        ensures
            res.wf(),
            res@ == linked_entries(peers_view(db_peers@), secret@),
    {
        let mut out = PeerMap::new();
        let mut i: usize = 0;
        while i < db_peers.len()
            invariant
                i <= db_peers@.len(),
                out.wf(),
                out@ == linked_entries(peers_view(db_peers@.subrange(0, i as int)), secret@),
            decreases db_peers@.len() - i,
        {
            let p = db_peers[i];
            assert(peers_view(db_peers@.subrange(0, i + 1)).drop_last() =~= peers_view(db_peers@.subrange(0, i as int)));
            assert(peers_view(db_peers@.subrange(0, i + 1)).last() == p@);
            if let Some(uid) = p.get_user_id() {
                let key = p.shrdkeygen(*secret);
                out.insert(uid, PeerSlot { peer: p, key, stream: None });
            }
            i = i + 1;
        }
        assert(db_peers@.subrange(0, i as int) =~= db_peers@);
        out
    }
}

/// The user and the peer-map entry of a newcomer the admin lets in (`send_newpeer`): a member
/// whose id is derived from its key (in hex), name and account id; its peer, linked to that
/// id and never heard from, reached over the stream `handle`; the channel key to it.
pub fn admit_newcomer(addrs: [SockAddr; 2], pubkey: [u8; 32], name: String, uid: Uid, secret: &[u8; 32], handle: u64) -> (res: (User, PeerSlot))
    ensures
        res.0@ == (UserView {
            id: derived_id(hex_encoded(pubkey@), name@, uid@),
            name: name@,
            role: Some(Role::Member),
            uid: uid@,
        }),
        res.1@ == (SlotView {
            peer: PeerView {
                id: -1i32,
                user_id: Some(res.0@.id),
                addrs,
                pubkey: pubkey@,
                last_heartbeat: None,
                last_seen_typing: None,
            },
            key: channel_key(secret@, pubkey@),
            stream: Some(handle),
        }),
{
    let key_text = hex_encode(pubkey.as_slice());
    let mut joiner = User::new(key_text, name, uid);
    joiner.set_role(Role::Member);
    let peer = Peer::from_parts(-1, Some(joiner.get_id()), addrs, pubkey, None, None);
    let key = peer.shrdkeygen(*secret);
    (joiner, PeerSlot { peer, key, stream: Some(handle) })
}

} // verus!
