//! Anti-flood: a per-peer, per-packet-type cap on what is accepted from the wire.
use vstd::prelude::*;
use crate::connection::frame::{AVP_HD, DBR_HD, DBS_HD, HBT_HD, KCK_HD, MSG_HD, OWN_HD, TYP_HD};

verus! {

/// Chat messages accepted per peer per minute.
pub const RATE_PER_MIN: u32 = 100;

/// The window (in seconds) and the cap of a packet type; `None` for unlimited types.
/// Messages 100 a minute; database syncs and requests 50 a minute; address relays and kicks
/// 20 a minute; heartbeats and typing notices one a second.
pub open spec fn limit_of(header: u8) -> Option<(u64, u32)> {
    if header == MSG_HD {
        Some((60, RATE_PER_MIN))
    } else if header == DBS_HD || header == DBR_HD {
        Some((60, 50))
    } else if header == AVP_HD || header == OWN_HD || header == KCK_HD {
        Some((60, 20))
    } else if header == HBT_HD || header == TYP_HD {
        Some((1, 1))
    } else {
        None
    }
}

/// The window and cap of a packet type (see `limit_of`).
pub fn limit(header: u8) -> (res: Option<(u64, u32)>)
    ensures
        res == limit_of(header),
{
    if header == MSG_HD {
        Some((60, RATE_PER_MIN))
    } else if header == DBS_HD || header == DBR_HD {
        Some((60, 50))
    } else if header == AVP_HD || header == OWN_HD || header == KCK_HD {
        Some((60, 20))
    } else if header == HBT_HD || header == TYP_HD {
        Some((1, 1))
    } else {
        None
    }
}

/// The count of one (peer, packet type): when its window started (milliseconds of a monotonic
/// clock) and how many packets were accepted in it.
#[derive(Debug, Clone, Copy, PartialEq, Eq, Structural)]
pub struct RateEntry {
    pub peer_id: u64,
    pub header: u8,
    pub window_start: u64,
    pub count: u32,
}

/// The window start and count recorded for (`peer_id`, `header`), if any.
pub open spec fn lookup(entries: Seq<RateEntry>, peer_id: u64, header: u8) -> Option<(u64, u32)>
    decreases entries.len(),
{
    if entries.len() == 0 {
        None
    } else if entries.last().peer_id == peer_id && entries.last().header == header {
        Some((entries.last().window_start, entries.last().count))
    } else {
        lookup(entries.drop_last(), peer_id, header)
    }
}

/// Whether no (peer, packet type) is recorded twice.
pub open spec fn keys_unique(entries: Seq<RateEntry>) -> bool {
    forall|i: int, j: int|
        0 <= i < j < entries.len() ==> !(entries[i].peer_id == entries[j].peer_id && entries[i].header == entries[j].header)
}

/// Whether every recorded count is within the cap of its packet type.
pub open spec fn within_caps(entries: Seq<RateEntry>) -> bool {
    forall|i: int| 0 <= i < entries.len() ==> match limit_of((#[trigger] entries[i]).header) {
        Some((_, cap)) => entries[i].count <= cap,
        None => true,
    }
}

/// The entry a window in effect at `now_ms` starts from: a fresh window when none is recorded
/// or the recorded one has run its length, else the recorded one.
pub open spec fn current_window(recorded: Option<(u64, u32)>, window_secs: u64, now_ms: u64) -> (u64, u32) {
    match recorded {
        None => (now_ms, 0),
        Some((start, count)) => if now_ms >= start && now_ms - start >= window_secs * 1000 {
            (now_ms, 0)
        } else {
            (start, count)
        },
    }
}

/// Whether a packet of type `header` from `peer_id` is accepted at `now_ms`, given what is recorded.
pub open spec fn accepts(entries: Seq<RateEntry>, peer_id: u64, header: u8, now_ms: u64) -> bool {
    match limit_of(header) {
        None => true,
        Some((w, cap)) => current_window(lookup(entries, peer_id, header), w, now_ms).1 < cap,
    }
}

/// How counting a packet of type `header` from `peer_id` at `now_ms` changes the counts:
/// unlimited types change nothing; otherwise the (peer, type) count is the current window's,
/// plus one when the packet is accepted; no other count changes.
pub open spec fn counted(before: Seq<RateEntry>, after: Seq<RateEntry>, peer_id: u64, header: u8, now_ms: u64) -> bool {
    &&& limit_of(header) is None ==> after == before
    &&& limit_of(header) matches Some((w, cap)) ==> {
        let (start, count) = current_window(lookup(before, peer_id, header), w, now_ms);
        lookup(after, peer_id, header) == Some((start, if accepts(before, peer_id, header, now_ms) { (count + 1) as u32 } else { count }))
    }
    &&& forall|p: u64, h: u8| !(p == peer_id && h == header) ==> lookup(after, p, h) == lookup(before, p, h)
}

/// Per-(peer, packet type) receive counts.
pub struct RateLimiter {
    entries: Vec<RateEntry>,
}

impl View for RateLimiter {
    type V = Seq<RateEntry>;

    closed spec fn view(&self) -> Seq<RateEntry> {
        self.entries@
    }
}

impl RateLimiter {
    /// Whether the counts are well formed: one entry per (peer, packet type), each within its cap.
    pub open spec fn wf(&self) -> bool {
        keys_unique(self@) && within_caps(self@)
    }

    /// No packet counted yet.
    pub fn new() -> (res: Self)
        ensures
            res.wf(),
            res@.len() == 0,
    {
        RateLimiter { entries: Vec::new() }
    }

    /// Counts a packet of type `header` from `peer_id` at `now_ms` and says whether to accept
    /// it (`recv_ok`): unlimited types are always accepted; otherwise the packet opens a fresh
    /// window when the last one has run its length, and is accepted while the window's count
    /// is under the cap. Keyed by the authenticated peer, so spoofing a sender id does not help.
    ///
    /// The counts stay within their caps: a window never accepts more than its cap.
    pub fn recv_ok(&mut self, peer_id: u64, header: u8, now_ms: u64) -> (ok: bool)
        requires
            old(self).wf(),
        ensures
            final(self).wf(),
            ok == accepts(old(self)@, peer_id, header, now_ms),
            counted(old(self)@, final(self)@, peer_id, header, now_ms),
    {
        let (window, cap) = match limit(header) {
            None => return true,
            Some(l) => l,
        };
        let ghost old_entries = self.entries@;
        let mut idx: usize = 0;
        let mut found = false;
        while idx < self.entries.len() && !found
            invariant
                idx <= self.entries@.len(),
                self.entries@ == old_entries,
                found ==> idx < self.entries@.len() && self.entries@[idx as int].peer_id == peer_id
                    && self.entries@[idx as int].header == header,
                forall|j: int| 0 <= j < idx ==> !(#[trigger] self.entries@[j].peer_id == peer_id && self.entries@[j].header == header),
            decreases self.entries@.len() - idx + (if found { 0int } else { 1int }),
        {
            if self.entries[idx].peer_id == peer_id && self.entries[idx].header == header {
                found = true;
            } else {
                idx = idx + 1;
            }
        }
        proof {
            lemma_lookup_position(old_entries, peer_id, header, idx as int, found);
        }
        let (start, count) = if found {
            let e = self.entries[idx];
            if now_ms >= e.window_start && now_ms - e.window_start >= window * 1000 {
                (now_ms, 0u32)
            } else {
                (e.window_start, e.count)
            }
        } else {
            (now_ms, 0u32)
        };
        let ok = count < cap;
        let new_count = if ok { count + 1 } else { count };
        let entry = RateEntry { peer_id, header, window_start: start, count: new_count };
        if found {
            self.entries.set(idx, entry);
        } else {
            self.entries.push(entry);
        }
        proof {
            lemma_lookup_after_write(old_entries, self.entries@, idx as int, found, entry);
            assert forall|i: int| 0 <= i < self.entries@.len() implies match limit_of((#[trigger] self.entries@[i]).header) {
                Some((_, c)) => self.entries@[i].count <= c,
                None => true,
            } by {
                if i != idx {
                    assert(self.entries@[i] == old_entries[i]);
                }
            }
        }
        ok
    }
}

/// The scan for (`peer_id`, `header`) stops at the recorded entry, or finds none.
proof fn lemma_lookup_position(entries: Seq<RateEntry>, peer_id: u64, header: u8, idx: int, found: bool)
    requires
        keys_unique(entries),
        0 <= idx <= entries.len(),
        found ==> idx < entries.len() && entries[idx].peer_id == peer_id && entries[idx].header == header,
        !found ==> idx == entries.len(),
        forall|j: int| 0 <= j < idx ==> !(#[trigger] entries[j].peer_id == peer_id && entries[j].header == header),
    ensures
        found ==> lookup(entries, peer_id, header) == Some((entries[idx].window_start, entries[idx].count)),
        !found ==> lookup(entries, peer_id, header) is None,
    decreases entries.len(),
{
    if entries.len() > 0 {
        let last = entries.len() - 1;
        if found && idx == last {
        } else {
            if found {
                assert(!(entries[last].peer_id == peer_id && entries[last].header == header));
            } else {
                assert(!(entries[last].peer_id == peer_id && entries[last].header == header));
            }
            let rest = entries.drop_last();
            assert forall|j: int| 0 <= j < (if found { idx } else { rest.len() as int }) implies !(#[trigger] rest[j].peer_id == peer_id && rest[j].header == header) by {
                assert(rest[j] == entries[j]);
            }
            lemma_lookup_position(rest, peer_id, header, if found { idx } else { rest.len() as int }, found);
        }
    }
}

/// Writing the entry of one key (in place or appended) changes the lookup of that key only,
/// and keeps the keys unique.
proof fn lemma_lookup_after_write(old_entries: Seq<RateEntry>, new_entries: Seq<RateEntry>, idx: int, found: bool, e: RateEntry)
    requires
        keys_unique(old_entries),
        found ==> 0 <= idx < old_entries.len() && old_entries[idx].peer_id == e.peer_id && old_entries[idx].header == e.header
            && new_entries == old_entries.update(idx, e),
        !found ==> new_entries == old_entries.push(e) && lookup(old_entries, e.peer_id, e.header) is None,
    ensures
        keys_unique(new_entries),
        lookup(new_entries, e.peer_id, e.header) == Some((e.window_start, e.count)),
        forall|p: u64, h: u8| !(p == e.peer_id && h == e.header) ==> lookup(new_entries, p, h) == lookup(old_entries, p, h),
    decreases old_entries.len(),
{
    if !found {
        assert(new_entries.drop_last() =~= old_entries);
        assert forall|p: u64, h: u8| !(p == e.peer_id && h == e.header) implies lookup(new_entries, p, h) == lookup(old_entries, p, h) by {
        }
        assert forall|i: int, j: int|
            0 <= i < j < new_entries.len() implies !(new_entries[i].peer_id == new_entries[j].peer_id
            && new_entries[i].header == new_entries[j].header) by {
            if j == old_entries.len() {
                lemma_lookup_none(old_entries, e.peer_id, e.header, i);
            }
        }
    } else {
        let last = old_entries.len() - 1;
        if idx == last {
            assert(new_entries.drop_last() =~= old_entries.drop_last());
            assert forall|p: u64, h: u8| !(p == e.peer_id && h == e.header) implies lookup(new_entries, p, h) == lookup(old_entries, p, h) by {
            }
        } else {
            assert(new_entries.drop_last() =~= old_entries.drop_last().update(idx, e));
            assert(!(old_entries[last].peer_id == e.peer_id && old_entries[last].header == e.header));
            lemma_lookup_after_write(old_entries.drop_last(), new_entries.drop_last(), idx, true, e);
            assert(new_entries.last() == old_entries.last());
            assert forall|p: u64, h: u8| !(p == e.peer_id && h == e.header) implies lookup(new_entries, p, h) == lookup(old_entries, p, h) by {
                assert(lookup(new_entries.drop_last(), p, h) == lookup(old_entries.drop_last(), p, h));
                assert(new_entries.len() == old_entries.len());
            }
        }
        assert forall|i: int, j: int|
            0 <= i < j < new_entries.len() implies !(new_entries[i].peer_id == new_entries[j].peer_id
            && new_entries[i].header == new_entries[j].header) by {
            assert(!(old_entries[i].peer_id == old_entries[j].peer_id && old_entries[i].header == old_entries[j].header));
        }
    }
}

/// No entry carries a key whose lookup finds nothing.
proof fn lemma_lookup_none(entries: Seq<RateEntry>, peer_id: u64, header: u8, i: int)
    requires
        lookup(entries, peer_id, header) is None,
        0 <= i < entries.len(),
    ensures
        !(entries[i].peer_id == peer_id && entries[i].header == header),
    decreases entries.len(),
{
    if i < entries.len() - 1 {
        lemma_lookup_none(entries.drop_last(), peer_id, header, i);
    }
}


/// The cap of a limited packet type.
pub open spec fn cap_of(header: u8) -> int {
    match limit_of(header) {
        Some((_, cap)) => cap as int,
        None => 0,
    }
}

/// The window (in seconds) of a limited packet type.
pub open spec fn window_of(header: u8) -> int {
    match limit_of(header) {
        Some((w, _)) => w as int,
        None => 0,
    }
}

/// A packet as the limiter sees it: sender, packet type, arrival time (milliseconds).
pub type Arrival = (u64, u8, u64);

/// Whether `states` is what a limiter goes through counting `calls` in turn, with `oks` the
/// answers it gives (see `recv_ok`).
pub open spec fn counted_run(states: Seq<Seq<RateEntry>>, calls: Seq<Arrival>, oks: Seq<bool>) -> bool {
    &&& states.len() == calls.len() + 1
    &&& oks.len() == calls.len()
    &&& forall|k: int|
        0 <= k < calls.len() ==> counted(states[k], states[k + 1], calls[k].0, calls[k].1, #[trigger] calls[k].2)
            && oks[k] == accepts(states[k], calls[k].0, calls[k].1, calls[k].2)
}

/// How many of `calls` from `peer_id` of type `header` were accepted.
pub open spec fn accepted_from(calls: Seq<Arrival>, oks: Seq<bool>, peer_id: u64, header: u8) -> nat
    decreases calls.len(),
{
    if calls.len() == 0 || oks.len() < calls.len() {
        0
    } else {
        let k = calls.len() - 1;
        accepted_from(calls.drop_last(), oks.take(k), peer_id, header) + if calls[k].0 == peer_id
            && calls[k].1 == header && oks[k] {
            1nat
        } else {
            0nat
        }
    }
}

/// One packet within a window: counting it moves the count of (`peer_id`, `header`) on by one
/// exactly when it is a packet of that pair and is accepted, which it is while the count is under
/// the cap.
proof fn lemma_window_step(
    before: Seq<RateEntry>,
    after: Seq<RateEntry>,
    call: Arrival,
    ok: bool,
    peer_id: u64,
    header: u8,
    start: u64,
    c: int,
)
    requires
        counted(before, after, call.0, call.1, call.2),
        ok == accepts(before, call.0, call.1, call.2),
        limit_of(header) is Some,
        0 <= c <= cap_of(header),
        lookup(before, peer_id, header) == Some((start, c as u32)),
        call.0 == peer_id && call.1 == header ==> start <= call.2 && call.2 - start < window_of(header) * 1000,
    ensures
        call.0 == peer_id && call.1 == header ==> ok == (c < cap_of(header)),
        ({
            let c1 = c + if call.0 == peer_id && call.1 == header && ok { 1int } else { 0int };
            c1 <= cap_of(header) && lookup(after, peer_id, header) == Some((start, c1 as u32))
        }),
{
}

/// Within one window: when the count of (`peer_id`, `header`) stands at `start`, `c0` and every
/// packet of that pair in a run arrives before the window has run its length, each such packet
/// is accepted exactly when fewer than the cap were accepted before it in the window, and the
/// window's count ends as `c0` plus the packets accepted; packets of other (peer, type) pairs do
/// not count. So a window never accepts more than its cap.
pub proof fn law_window_counts(
    states: Seq<Seq<RateEntry>>,
    calls: Seq<Arrival>,
    oks: Seq<bool>,
    peer_id: u64,
    header: u8,
    start: u64,
    c0: u32,
)
    requires
        counted_run(states, calls, oks),
        limit_of(header) is Some,
        lookup(states[0], peer_id, header) == Some((start, c0)),
        c0 <= cap_of(header),
        forall|k: int|
            0 <= k < calls.len() && calls[k].0 == peer_id && calls[k].1 == header ==> start <= #[trigger] calls[k].2
                && calls[k].2 - start < window_of(header) * 1000,
    ensures
        lookup(states.last(), peer_id, header) == Some((start, (c0 + accepted_from(calls, oks, peer_id, header)) as u32)),
        c0 + accepted_from(calls, oks, peer_id, header) <= cap_of(header),
        forall|k: int|
            0 <= k < calls.len() && calls[k].0 == peer_id && calls[k].1 == header ==> #[trigger] oks[k] == (c0
                + accepted_from(calls.take(k), oks.take(k), peer_id, header) < cap_of(header)),
    decreases calls.len(),
{
    let cap = cap_of(header);
    if calls.len() == 0 {
    } else {
        let n = calls.len() - 1;
        let sp = states.take(n + 1);
        let cp = calls.drop_last();
        let op = oks.take(n);
        assert(counted_run(sp, cp, op)) by {
            assert forall|k: int| 0 <= k < cp.len() implies counted(sp[k], sp[k + 1], cp[k].0, cp[k].1, #[trigger] cp[k].2)
                && op[k] == accepts(sp[k], cp[k].0, cp[k].1, cp[k].2) by {
                assert(calls[k].2 == cp[k].2);
            }
        }
        assert forall|k: int| 0 <= k < cp.len() && cp[k].0 == peer_id && cp[k].1 == header implies start <= #[trigger] cp[k].2
            && cp[k].2 - start < window_of(header) * 1000 by {
            assert(calls[k].2 == cp[k].2);
        }
        law_window_counts(sp, cp, op, peer_id, header, start, c0);
        let a = accepted_from(cp, op, peer_id, header);
        assert(sp.last() == states[n]);
        assert(calls.drop_last() == cp);
        lemma_window_step(states[n], states[n + 1], calls[n], oks[n], peer_id, header, start, c0 + a);
        assert forall|k: int| 0 <= k < calls.len() && calls[k].0 == peer_id && calls[k].1 == header implies #[trigger] oks[k]
            == (c0 + accepted_from(calls.take(k), oks.take(k), peer_id, header) < cap) by {
            if k < n {
                assert(cp[k] == calls[k]);
                assert(op[k] == oks[k]);
                assert(cp.take(k) =~= calls.take(k));
                assert(op.take(k) =~= oks.take(k));
                assert(cp[k].2 == calls[k].2);
            } else {
                assert(calls.take(k) =~= cp);
                assert(oks.take(k) =~= op);
            }
        }
    }
}

/// A packet of a limited type that arrives when no window is open for its (peer, type), or
/// `window_of` seconds or more after the open one began, opens a new window at its arrival and
/// is accepted as the first packet of it.
pub proof fn law_window_reopens(before: Seq<RateEntry>, after: Seq<RateEntry>, peer_id: u64, header: u8, now_ms: u64)
    requires
        counted(before, after, peer_id, header, now_ms),
        limit_of(header) is Some,
        match lookup(before, peer_id, header) {
            None => true,
            Some((start, _)) => now_ms >= start && now_ms - start >= window_of(header) * 1000,
        },
    ensures
        accepts(before, peer_id, header, now_ms),
        lookup(after, peer_id, header) == Some((now_ms, 1u32)),
{
}

/// The caps a peer's packets are held to, by type: chat messages 100 a minute; database syncs
/// and database requests alike 50 a minute; address relays, own-address notices and kicks 20
/// a minute; heartbeats and typing notices one a second.
pub proof fn law_caps_by_type(h: u8)
    ensures
        h == MSG_HD ==> limit_of(h) == Some((60u64, 100u32)),
        h == DBS_HD || h == DBR_HD ==> limit_of(h) == Some((60u64, 50u32)),
        h == AVP_HD || h == OWN_HD || h == KCK_HD ==> limit_of(h) == Some((60u64, 20u32)),
        h == HBT_HD || h == TYP_HD ==> limit_of(h) == Some((1u64, 1u32)),
        limit_of(DBR_HD) == limit_of(DBS_HD),
        cap_of(DBR_HD) == 50 && window_of(DBR_HD) == 60,
{
}

} // verus!
