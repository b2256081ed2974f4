//! Database-sync payloads: the length prefix of stream frames, the three-component sync
//! frame, canonical row order, and the merge that decides what a sync leaves behind.
use vstd::prelude::*;
use crate::connection::frame::{MAX_FRAME, append_bytes};
use crate::crypto::{le_u32, lz4_compress, lz4_compressed, lz4_decompress, lz4_decompressed, opt_bytes};

verus! {

/// The four big-endian bytes of `n` as a u32 (the length prefix written before each frame).
pub open spec fn be_u32_bytes(n: nat) -> Seq<u8> {
    let m = n % 0x1_0000_0000;
    seq![(m / 0x100_0000) as u8, (m / 0x1_0000 % 0x100) as u8, (m / 0x100 % 0x100) as u8, (m % 0x100) as u8]
}

/// The unsigned value of four bytes read big-endian.
pub open spec fn be_u32(b: Seq<u8>) -> nat
    recommends
        b.len() >= 4,
{
    (b[0] as nat * 0x100_0000 + b[1] as nat * 0x1_0000 + b[2] as nat * 0x100 + b[3] as nat) as nat
}

/// The prefix written before a frame of `len` bytes on a stream: the length as a big-endian
/// u32 (truncated to 32 bits, as the wire format does).
pub fn length_prefix(len: usize) -> (res: [u8; 4])
    ensures
        res@ == be_u32_bytes(len as nat),
{
    let m: u64 = (len as u64) % 0x1_0000_0000;
    let res = [(m / 0x100_0000) as u8, (m / 0x1_0000 % 0x100) as u8, (m / 0x100 % 0x100) as u8, (m % 0x100) as u8];
    assert(res@ =~= be_u32_bytes(len as nat));
    res
}

/// Reads the length prefix of an incoming frame; `None` when it announces more than
/// `MAX_FRAME` bytes, which ends the connection.
pub fn accepted_frame_len(prefix: [u8; 4]) -> (res: Option<usize>)
    ensures
        res is Some <==> be_u32(prefix@) <= MAX_FRAME,
        res matches Some(n) ==> n == be_u32(prefix@),
{
    let n: u64 = prefix[0] as u64 * 0x100_0000 + prefix[1] as u64 * 0x1_0000 + prefix[2] as u64 * 0x100
        + prefix[3] as u64;
    if n > MAX_FRAME as u64 {
        None
    } else {
        Some(n as usize)
    }
}

/// A length-framed component: its length as a big-endian u32, then its bytes.
pub open spec fn framed(blob: Seq<u8>) -> Seq<u8> {
    be_u32_bytes(blob.len()) + blob
}

/// The sync payload: messages, users and peers, each length-framed, in that order.
pub open spec fn sync_payload(msgs: Seq<u8>, usrs: Seq<u8>, pirs: Seq<u8>) -> Seq<u8> {
    framed(msgs) + framed(usrs) + framed(pirs)
}

/// Why a sync payload could not be split.
#[derive(Debug, Clone, Copy, PartialEq, Eq, Structural)]
pub enum SyncFrameError {
    /// Fewer than four bytes where a length should be.
    Truncated,
    /// A length that runs past the end of the payload.
    ShortComponent,
}

/// Reads one length-framed component starting at `at`: the component and where the next starts.
#[verifier::opaque]
pub open spec fn component_at(s: Seq<u8>, at: int) -> Result<(Seq<u8>, int), SyncFrameError> {
    if at + 4 > s.len() {
        Err(SyncFrameError::Truncated)
    } else {
        let len = be_u32(s.subrange(at, at + 4));
        if at + 4 + len > s.len() {
            Err(SyncFrameError::ShortComponent)
        } else {
            Ok((s.subrange(at + 4, at + 4 + len), at + 4 + len))
        }
    }
}

/// The three components of a sync payload (trailing bytes are ignored), or the first error.
pub open spec fn split_payload(s: Seq<u8>) -> Result<(Seq<u8>, Seq<u8>, Seq<u8>), SyncFrameError> {
    match component_at(s, 0) {
        Err(e) => Err(e),
        Ok((a, i)) => match component_at(s, i) {
            Err(e) => Err(e),
            Ok((b, j)) => match component_at(s, j) {
                Err(e) => Err(e),
                Ok((c, _)) => Ok((a, b, c)),
            },
        },
    }
}

/// Appends one length-framed component.
fn push_component(out: &mut Vec<u8>, blob: &[u8])
    ensures
        final(out)@ == old(out)@ + framed(blob@),
{
    let prefix = length_prefix(blob.len());
    append_bytes(out, prefix.as_slice());
    append_bytes(out, blob);
    assert(final(out)@ =~= old(out)@ + framed(blob@));
}

/// A sync component as it travels: its rows' bytes LZ4-compressed, their length in front
/// (`lz4_flex::compress_prepend_size`); for rows whose length fits a u32, unpacking gives them
/// back.
pub fn pack_component(rows: &[u8]) -> (res: Vec<u8>)
    ensures
        res@ == lz4_compressed(rows@),
        rows@.len() <= u32::MAX ==> le_u32(res@) == rows@.len() && lz4_decompressed(res@) == Some(rows@),
{
    lz4_compress(rows)
}

/// The rows' bytes of a received sync component (`lz4_flex::decompress_size_prepended`); none
/// when the component is malformed or shorter than its length prefix.
pub fn unpack_component(blob: &[u8]) -> (res: Option<Vec<u8>>)
    ensures
        opt_bytes(res) == lz4_decompressed(blob@),
        blob@.len() < 4 ==> res is None,
        res matches Some(v) ==> v@.len() <= le_u32(blob@),
{
    lz4_decompress(blob)
}

/// Builds the sync payload from the three compressed components (`send_db_sync`).
///
/// Whenever each component is shorter than 2^32 bytes, splitting the payload gives the
/// three components back.
pub fn frame_sync(msgs: &[u8], usrs: &[u8], pirs: &[u8]) -> (res: Vec<u8>)
    ensures
        res@ == sync_payload(msgs@, usrs@, pirs@),
        msgs@.len() <= u32::MAX && usrs@.len() <= u32::MAX && pirs@.len() <= u32::MAX
            ==> split_payload(res@) == Ok::<(Seq<u8>, Seq<u8>, Seq<u8>), SyncFrameError>((msgs@, usrs@, pirs@)),
{
    let mut out: Vec<u8> = Vec::new();
    push_component(&mut out, msgs);
    push_component(&mut out, usrs);
    push_component(&mut out, pirs);
    proof {
        assert(out@ =~= sync_payload(msgs@, usrs@, pirs@));
        if msgs@.len() <= u32::MAX && usrs@.len() <= u32::MAX && pirs@.len() <= u32::MAX {
            lemma_framed_read(msgs@, usrs@, pirs@);
        }
    }
    out
}

/// The big-endian bytes of a 32-bit length read back as that length.
proof fn lemma_be_roundtrip(n: nat)
    requires
        n <= u32::MAX,
    ensures
        be_u32(be_u32_bytes(n)) == n,
{
}

/// A framed component is read back from wherever it stands in a payload.
proof fn lemma_component_read(p: Seq<u8>, x: Seq<u8>, q: Seq<u8>)
    requires
        x.len() <= u32::MAX,
    ensures
        component_at(p + framed(x) + q, p.len() as int) == Ok::<(Seq<u8>, int), SyncFrameError>((x, p.len() + 4 + x.len() as int)),
{
    reveal(component_at);
    let s = p + framed(x) + q;
    let at = p.len() as int;
    lemma_be_roundtrip(x.len());
    assert(s.subrange(at, at + 4) =~= be_u32_bytes(x.len()));
    assert(s.subrange(at + 4, at + 4 + x.len()) =~= x);
}

/// Reading the three framed components back out of a payload.
proof fn lemma_framed_read(a: Seq<u8>, b: Seq<u8>, c: Seq<u8>)
    requires
        a.len() <= u32::MAX,
        b.len() <= u32::MAX,
        c.len() <= u32::MAX,
    ensures
        split_payload(sync_payload(a, b, c)) == Ok::<(Seq<u8>, Seq<u8>, Seq<u8>), SyncFrameError>((a, b, c)),
{
    let s = sync_payload(a, b, c);
    let e: Seq<u8> = Seq::empty();
    let i: int = 4 + a.len() as int;
    let j: int = i + 4 + b.len() as int;
    lemma_component_read(e, a, framed(b) + framed(c));
    assert(e + framed(a) + (framed(b) + framed(c)) =~= s);
    lemma_component_read(framed(a), b, framed(c));
    assert(framed(a) + framed(b) + framed(c) =~= s);
    lemma_component_read(framed(a) + framed(b), c, e);
    assert(framed(a) + framed(b) + framed(c) + e =~= s);
    assert(component_at(s, 0) == Ok::<(Seq<u8>, int), SyncFrameError>((a, i)));
    assert(component_at(s, i) == Ok::<(Seq<u8>, int), SyncFrameError>((b, j)));
    assert(component_at(s, j) == Ok::<(Seq<u8>, int), SyncFrameError>((c, j + 4 + c.len() as int)));
}

/// Reads one component starting at `at` (exec counterpart of `component_at`).
fn read_component(s: &[u8], at: usize) -> (res: Result<(Vec<u8>, usize), SyncFrameError>)
    requires
        at <= s@.len(),
    ensures
        match res {
            Ok((v, next)) => component_at(s@, at as int) == Ok::<(Seq<u8>, int), SyncFrameError>((v@, next as int)) && next <= s@.len(),
            Err(e) => component_at(s@, at as int) == Err::<(Seq<u8>, int), SyncFrameError>(e),
        },
{
    reveal(component_at);
    if s.len() - at < 4 {
        return Err(SyncFrameError::Truncated);
    }
    let len: usize = (s[at] as u64 * 0x100_0000 + s[at + 1] as u64 * 0x1_0000 + s[at + 2] as u64 * 0x100
        + s[at + 3] as u64) as usize;
    assert(s@.subrange(at as int, at + 4)[0] == s@[at as int]);
    assert(s@.subrange(at as int, at + 4)[1] == s@[at + 1]);
    assert(s@.subrange(at as int, at + 4)[2] == s@[at + 2]);
    assert(s@.subrange(at as int, at + 4)[3] == s@[at + 3]);
    if s.len() - at - 4 < len {
        return Err(SyncFrameError::ShortComponent);
    }
    let start = at + 4;
    let end = start + len;
    let part = &s[start..end];
    Ok((crate::connection::frame::slice_to_vec(part), end))
}

/// Splits a sync payload into its three components (`read_db_sync`), refusing a payload
/// that stops before a length or before the end of a component.
pub fn split_sync(payload: &[u8]) -> (res: Result<(Vec<u8>, Vec<u8>, Vec<u8>), SyncFrameError>)
    ensures
        match res {
            Ok((a, b, c)) => split_payload(payload@) == Ok::<(Seq<u8>, Seq<u8>, Seq<u8>), SyncFrameError>((a@, b@, c@)),
            Err(e) => split_payload(payload@) == Err::<(Seq<u8>, Seq<u8>, Seq<u8>), SyncFrameError>(e),
        },
{
    let (a, i) = match read_component(payload, 0) {
        Ok(x) => x,
        Err(e) => return Err(e),
    };
    let (b, j) = match read_component(payload, i) {
        Ok(x) => x,
        Err(e) => return Err(e),
    };
    let (c, _) = match read_component(payload, j) {
        Ok(x) => x,
        Err(e) => return Err(e),
    };
    Ok((a, b, c))
}

} // verus!

verus! {

/// How many entries of `pool`, among the first `n`, equal `x`.
pub open spec fn count_among(pool: Seq<Seq<u8>>, x: Seq<u8>, n: int) -> nat
    decreases n,
{
    if n <= 0 {
        0
    } else {
        count_among(pool, x, n - 1) + if pool[n - 1] == x {
            1nat
        } else {
            0nat
        }
    }
}

/// How many entries of `pool` equal `x`.
pub open spec fn occurrences(pool: Seq<Seq<u8>>, x: Seq<u8>) -> nat {
    count_among(pool, x, pool.len() as int)
}

/// Among the first `n` entries, the last index whose entry occurs most often in the whole pool
/// (ties go to the later entry, as `Iterator::max_by_key` does).
pub open spec fn best_index(pool: Seq<Seq<u8>>, n: int) -> int
    decreases n,
{
    if n <= 1 {
        0
    } else {
        let b = best_index(pool, n - 1);
        if occurrences(pool, pool[n - 1]) >= occurrences(pool, pool[b]) {
            n - 1
        } else {
            b
        }
    }
}

/// The most common entry of a non-empty pool (the last one of those tied for most common).
pub open spec fn plurality(pool: Seq<Seq<u8>>) -> Seq<u8> {
    pool[best_index(pool, pool.len() as int)]
}

/// The version of a roster component that a sync round adopts: the admin's copy when one
/// arrived, else our own copy if we are the admin, else the most common version among the
/// received copies and ours.
pub open spec fn chosen_version(
    received: Seq<Seq<u8>>,
    mine: Seq<u8>,
    admin_rank: Option<u8>,
    i_am_admin: bool,
) -> Seq<u8> {
    if admin_rank is Some && (admin_rank->0 as int) < received.len() {
        received[admin_rank->0 as int]
    } else if i_am_admin {
        mine
    } else {
        plurality(received.push(mine))
    }
}

/// The index found by `best_index` is in range and no entry occurs more often than its entry.
proof fn lemma_best_index(pool: Seq<Seq<u8>>, n: int)
    requires
        1 <= n <= pool.len(),
    ensures
        0 <= best_index(pool, n) < n,
        forall|i: int| 0 <= i < n ==> occurrences(pool, #[trigger] pool[i]) <= occurrences(pool, pool[best_index(pool, n)]),
    decreases n,
{
    if n > 1 {
        lemma_best_index(pool, n - 1);
    }
}

/// The most common entry is in the pool and occurs at least as often as any other entry.
pub proof fn law_plurality_is_most_common(pool: Seq<Seq<u8>>)
    requires
        pool.len() > 0,
    ensures
        pool.contains(plurality(pool)),
        forall|x: Seq<u8>| pool.contains(x) ==> occurrences(pool, x) <= occurrences(pool, plurality(pool)),
{
    lemma_best_index(pool, pool.len() as int);
    assert(pool[best_index(pool, pool.len() as int)] == plurality(pool));
}

/// Whether two byte slices are equal.
pub fn bytes_equal(a: &[u8], b: &[u8]) -> (res: bool)
    ensures
        res == (a@ == b@),
{
    if a.len() != b.len() {
        return false;
    }
    let mut i: usize = 0;
    while i < a.len()
        invariant
            a@.len() == b@.len(),
            i <= a@.len(),
            forall|j: int| 0 <= j < i ==> a@[j] == b@[j],
        decreases a@.len() - i,
    {
        if a[i] != b[i] {
            return false;
        }
        i = i + 1;
    }
    assert(a@ =~= b@);
    true
}

/// Counts the entries of `pool` equal to `x`.
fn count_equal(pool: &Vec<Vec<u8>>, x: &[u8], Ghost(seqs): Ghost<Seq<Seq<u8>>>) -> (res: u64)
    requires
        seqs.len() == pool@.len(),
        forall|i: int| 0 <= i < pool@.len() ==> #[trigger] seqs[i] == pool@[i]@,
        pool@.len() < u64::MAX,
    ensures
        res == occurrences(seqs, x@),
{
    let mut n: u64 = 0;
    let mut i: usize = 0;
    while i < pool.len()
        invariant
            seqs.len() == pool@.len(),
            forall|k: int| 0 <= k < pool@.len() ==> #[trigger] seqs[k] == pool@[k]@,
            pool@.len() < u64::MAX,
            i <= pool@.len(),
            n == count_among(seqs, x@, i as int),
            n <= i,
        decreases pool@.len() - i,
    {
        if bytes_equal(pool[i].as_slice(), x) {
            n = n + 1;
        }
        i = i + 1;
    }
    n
}

/// Picks the version of a roster component a sync round adopts (`decide_sync`): the admin's
/// copy when it arrived (`admin_rank` indexes `received`), else ours if we are the admin, else
/// the most common version among the received copies and ours.
pub fn choose_version(received: &Vec<Vec<u8>>, mine: &Vec<u8>, admin_rank: Option<u8>, i_am_admin: bool) -> (res: Vec<u8>)
    requires
        received@.len() < u32::MAX,
    ensures
        res@ == chosen_version(received@.map_values(|b: Vec<u8>| b@), mine@, admin_rank, i_am_admin),
{
    let ghost seqs = received@.map_values(|b: Vec<u8>| b@);
    if let Some(i) = admin_rank {
        if (i as usize) < received.len() {
            return crate::connection::frame::slice_to_vec(received[i as usize].as_slice());
        }
    }
    if i_am_admin {
        return crate::connection::frame::slice_to_vec(mine.as_slice());
    }
    let mut pool: Vec<Vec<u8>> = Vec::new();
    let mut k: usize = 0;
    while k < received.len()
        invariant
            k <= received@.len(),
            seqs == received@.map_values(|b: Vec<u8>| b@),
            pool@.len() == k,
            forall|j: int| 0 <= j < k ==> #[trigger] pool@[j]@ == received@[j]@,
        decreases received@.len() - k,
    {
        pool.push(crate::connection::frame::slice_to_vec(received[k].as_slice()));
        k = k + 1;
    }
    pool.push(crate::connection::frame::slice_to_vec(mine.as_slice()));
    let ghost all = seqs.push(mine@);
    assert forall|j: int| 0 <= j < pool@.len() implies #[trigger] all[j] == pool@[j]@ by {
        if j < received@.len() {
            assert(seqs[j] == received@[j]@);
        }
    }
    let mut best: usize = 0;
    let mut best_count = count_equal(&pool, pool[0].as_slice(), Ghost(all));
    let mut i: usize = 1;
    while i < pool.len()
        invariant
            1 <= i <= pool@.len(),
            all.len() == pool@.len(),
            pool@.len() < u64::MAX,
            forall|j: int| 0 <= j < pool@.len() ==> #[trigger] all[j] == pool@[j]@,
            best as int == best_index(all, i as int),
            best < pool@.len(),
            best_count == occurrences(all, all[best as int]),
        decreases pool@.len() - i,
    {
        let c = count_equal(&pool, pool[i].as_slice(), Ghost(all));
        if c >= best_count {
            best = i;
            best_count = c;
        }
        i = i + 1;
    }
    crate::connection::frame::slice_to_vec(pool[best].as_slice())
}

} // verus!

verus! {

/// How long the first sync of a round may wait for the others before the round is decided.
pub const SYNC_COOLDOWN_MS: u64 = 1200;

/// What a buffer of received syncs looks like to a contract.
pub struct DbSyncBufView {
    pub msgs: Seq<Seq<u8>>,
    pub usrs: Seq<Seq<u8>>,
    pub pirs: Seq<Seq<u8>>,
    pub admin_rank: Option<u8>,
    pub rcv_count: u8,
    pub first_at: Option<u64>,
}

/// The syncs received in the current round, waiting to be decided: the three components of
/// each, which entry (if any) came from the admin, how many arrived, and when the first did
/// (in milliseconds of a monotonic clock).
pub struct DbSyncBuf {
    msgs: Vec<Vec<u8>>,
    usrs: Vec<Vec<u8>>,
    pirs: Vec<Vec<u8>>,
    admin_rank: Option<u8>,
    rcv_count: u8,
    first_at: Option<u64>,
}

/// The received syncs of a decided round.
pub struct SyncRound {
    pub msgs: Vec<Vec<u8>>,
    pub usrs: Vec<Vec<u8>>,
    pub pirs: Vec<Vec<u8>>,
    pub admin_rank: Option<u8>,
}

/// Views a list of byte vectors.
pub open spec fn blob_views(v: Seq<Vec<u8>>) -> Seq<Seq<u8>> {
    v.map_values(|b: Vec<u8>| b@)
}

impl View for DbSyncBuf {
    type V = DbSyncBufView;

    closed spec fn view(&self) -> DbSyncBufView {
        DbSyncBufView {
            msgs: blob_views(self.msgs@),
            usrs: blob_views(self.usrs@),
            pirs: blob_views(self.pirs@),
            admin_rank: self.admin_rank,
            rcv_count: self.rcv_count,
            first_at: self.first_at,
        }
    }
}

impl DbSyncBuf {
    /// An empty buffer: no round in progress.
    pub fn new() -> (res: Self)
        ensures
            res@.msgs.len() == 0,
            res@.usrs.len() == 0,
            res@.pirs.len() == 0,
            res@.admin_rank is None,
            res@.rcv_count == 0,
            res@.first_at is None,
    {
        DbSyncBuf { msgs: Vec::new(), usrs: Vec::new(), pirs: Vec::new(), admin_rank: None, rcv_count: 0, first_at: None }
    }

    /// Stashes a received sync (`read_db_sync`) and says whether the round should be decided
    /// now: when it came from the admin, or when as many syncs arrived as peers are online.
    /// The first sync of a round starts its clock; the admin's entry is remembered by its
    /// position (counted in a byte, as the wire format does).
    pub fn stash(&mut self, msgs: Vec<u8>, usrs: Vec<u8>, pirs: Vec<u8>, from_admin: bool, online: usize, now_ms: u64) -> (trigger: bool)
        ensures
            final(self)@.msgs == old(self)@.msgs.push(msgs@),
            final(self)@.usrs == old(self)@.usrs.push(usrs@),
            final(self)@.pirs == old(self)@.pirs.push(pirs@),
            final(self)@.rcv_count == (old(self)@.rcv_count + 1) % 256,
            final(self)@.first_at == if old(self)@.rcv_count == 0 { Some(now_ms) } else { old(self)@.first_at },
            final(self)@.admin_rank == if from_admin {
                Some((old(self)@.msgs.len() % 256) as u8)
            } else {
                old(self)@.admin_rank
            },
            trigger == (from_admin || (online > 0 && final(self)@.rcv_count >= online)),
    {
        #[verifier::truncate]
        let idx = (self.msgs.len() % 256) as u8;
        let ghost m0 = self.msgs@;
        let ghost u0 = self.usrs@;
        let ghost p0 = self.pirs@;
        self.msgs.push(msgs);
        self.usrs.push(usrs);
        self.pirs.push(pirs);
        assert(blob_views(self.msgs@) =~= blob_views(m0).push(self.msgs@.last()@));
        assert(blob_views(self.usrs@) =~= blob_views(u0).push(self.usrs@.last()@));
        assert(blob_views(self.pirs@) =~= blob_views(p0).push(self.pirs@.last()@));
        if self.rcv_count == 0 {
            self.first_at = Some(now_ms);
        }
        self.rcv_count = self.rcv_count.wrapping_add(1);
        if from_admin {
            self.admin_rank = Some(idx);
        }
        from_admin || (online > 0 && self.rcv_count as usize >= online)
    }

    /// Empties the buffer (`decide_sync`), handing over everything the round received.
    pub fn take(&mut self) -> (round: SyncRound)
        ensures
            blob_views(round.msgs@) == old(self)@.msgs,
            blob_views(round.usrs@) == old(self)@.usrs,
            blob_views(round.pirs@) == old(self)@.pirs,
            round.admin_rank == old(self)@.admin_rank,
            final(self)@.msgs.len() == 0,
            final(self)@.usrs.len() == 0,
            final(self)@.pirs.len() == 0,
            final(self)@.admin_rank is None,
            final(self)@.rcv_count == 0,
            final(self)@.first_at is None,
    {
        self.rcv_count = 0;
        self.first_at = None;
        let mut msgs: Vec<Vec<u8>> = Vec::new();
        let mut usrs: Vec<Vec<u8>> = Vec::new();
        let mut pirs: Vec<Vec<u8>> = Vec::new();
        std::mem::swap(&mut msgs, &mut self.msgs);
        std::mem::swap(&mut usrs, &mut self.usrs);
        std::mem::swap(&mut pirs, &mut self.pirs);
        let admin_rank = self.admin_rank;
        self.admin_rank = None;
        assert(blob_views(self.msgs@) =~= Seq::<Seq<u8>>::empty());
        assert(blob_views(self.usrs@) =~= Seq::<Seq<u8>>::empty());
        assert(blob_views(self.pirs@) =~= Seq::<Seq<u8>>::empty());
        SyncRound { msgs, usrs, pirs, admin_rank }
    }

    /// Whether a round is in progress (some sync arrived and is not decided yet).
    pub fn pending(&self) -> (res: bool)
        ensures
            res == self@.first_at is Some,
    {
        self.first_at.is_some()
    }

    /// Whether the round has waited its cooldown and should be decided (`listen`'s timer):
    /// a round is in progress and `SYNC_COOLDOWN_MS` have passed since its first sync.
    pub fn due(&self, now_ms: u64) -> (res: bool)
        ensures
            res == (self@.first_at is Some && now_ms >= self@.first_at->0 && now_ms - self@.first_at->0 >= SYNC_COOLDOWN_MS),
    {
        match self.first_at {
            Some(t) => now_ms >= t && now_ms - t >= SYNC_COOLDOWN_MS,
            None => false,
        }
    }
}

/// Whether a sync round changed our side enough that we re-broadcast our database: the
/// adopted roster differs from ours, or we learned messages.
pub fn should_resync(chosen_usrs: &[u8], my_usrs: &[u8], chosen_pirs: &[u8], my_pirs: &[u8], merged_count: usize, my_count: usize) -> (res: bool)
    ensures
        res == (chosen_usrs@ != my_usrs@ || chosen_pirs@ != my_pirs@ || merged_count > my_count),
{
    !bytes_equal(chosen_usrs, my_usrs) || !bytes_equal(chosen_pirs, my_pirs) || merged_count > my_count
}

} // verus!
