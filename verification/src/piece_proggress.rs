use vstd::prelude::*;

use crate::codec::bytes_equal;
use crate::digest::{sha1_digest, sha1_of};

verus! {

/// The size of one requested block.
pub open spec fn block_size() -> int {
    16384int
}

/// How many blocks a piece of `total` bytes splits into (the last may be short).
pub open spec fn block_count(total: int) -> int {
    if total % block_size() == 0 {
        total / block_size()
    } else {
        total / block_size() + 1
    }
}

/// The `(offset, length)` request for block `b` of a piece of `total` bytes;
/// the offset is truncated to 32 bits as the wire format has it.
pub open spec fn block_request(total: int, b: int) -> (u32, u32) {
    let offset = b * block_size();
    let length = if block_size() <= total - offset {
        block_size()
    } else {
        total - offset
    };
    (offset as u32, length as u32)
}

/// The blocks below `n` that are neither received nor requested, in increasing order.
pub open spec fn free_blocks(received: Seq<bool>, requested: Seq<bool>, n: int) -> Seq<int>
    decreases n,
{
    if n <= 0 {
        Seq::empty()
    } else {
        let prev = free_blocks(received, requested, n - 1);
        if !received[n - 1] && !requested[n - 1] {
            prev.push(n - 1)
        } else {
            prev
        }
    }
}

/// How many blocks one call of `next_requests(max_requests)` hands out when
/// `available` blocks are free: at least one if any is free, at most `max_requests`
/// otherwise.
pub open spec fn grant_count(available: int, max_requests: int) -> int {
    let cap = if max_requests < 1 {
        1
    } else {
        max_requests
    };
    if available < cap {
        available
    } else {
        cap
    }
}

/// A free block below `n` is one that is neither received nor requested.
proof fn lemma_free_blocks_contains(received: Seq<bool>, requested: Seq<bool>, n: int, b: int)
    requires
        0 <= n <= received.len(),
        n <= requested.len(),
    ensures
        free_blocks(received, requested, n).contains(b) == (0 <= b < n && !received[b]
            && !requested[b]),
    decreases n,
{
    if n > 0 {
        lemma_free_blocks_contains(received, requested, n - 1, b);
        let prev = free_blocks(received, requested, n - 1);
        if !received[n - 1] && !requested[n - 1] {
            if prev.contains(b) {
                let j = choose|j: int| 0 <= j < prev.len() && prev[j] == b;
                assert(prev.push(n - 1)[j] == b);
            }
            if b == n - 1 {
                assert(prev.push(n - 1)[prev.len() as int] == b);
            }
            let cur = prev.push(n - 1);
            if cur.contains(b) && b != n - 1 {
                let j = choose|j: int| 0 <= j < cur.len() && #[trigger] cur[j] == b;
                assert(prev[j] == b);
            }
        }
    }
}

/// The free blocks below `n` are increasing and lie below `n`.
proof fn lemma_free_blocks_sorted(received: Seq<bool>, requested: Seq<bool>, n: int)
    requires
        0 <= n <= received.len(),
        n <= requested.len(),
    ensures
        forall|j: int|
            0 <= j < free_blocks(received, requested, n).len() ==> 0 <= #[trigger] free_blocks(
                received,
                requested,
                n,
            )[j] < n,
        forall|j1: int, j2: int|
            0 <= j1 < j2 < free_blocks(received, requested, n).len() ==> free_blocks(
                received,
                requested,
                n,
            )[j1] < free_blocks(received, requested, n)[j2],
    decreases n,
{
    if n > 0 {
        lemma_free_blocks_sorted(received, requested, n - 1);
        let prev = free_blocks(received, requested, n - 1);
        let cur = free_blocks(received, requested, n);
        if !received[n - 1] && !requested[n - 1] {
            assert(cur == prev.push(n - 1));
            assert forall|j1: int, j2: int| 0 <= j1 < j2 < cur.len() implies cur[j1] < cur[j2] by {
                if j2 == prev.len() {
                    assert(prev[j1] < n - 1);
                } else {
                    assert(cur[j1] == prev[j1] && cur[j2] == prev[j2]);
                }
            }
            assert forall|j: int| 0 <= j < cur.len() implies 0 <= #[trigger] cur[j] < n by {
                if j < prev.len() {
                    assert(cur[j] == prev[j]);
                }
            }
        } else {
            assert(cur == prev);
        }
    }
}

/// The free blocks below `m` are the first ones of those below any `n >= m`.
proof fn lemma_free_blocks_prefix(received: Seq<bool>, requested: Seq<bool>, m: int, n: int)
    requires
        0 <= m <= n <= received.len(),
        n <= requested.len(),
    ensures
        free_blocks(received, requested, m).len() <= free_blocks(received, requested, n).len(),
        free_blocks(received, requested, n).take(
            free_blocks(received, requested, m).len() as int,
        ) == free_blocks(received, requested, m),
    decreases n - m,
{
    if m < n {
        lemma_free_blocks_prefix(received, requested, m, n - 1);
        let a = free_blocks(received, requested, m);
        let p = free_blocks(received, requested, n - 1);
        if !received[n - 1] && !requested[n - 1] {
            assert(p.push(n - 1).take(a.len() as int) =~= p.take(a.len() as int));
        }
    } else {
        assert(free_blocks(received, requested, n).take(
            free_blocks(received, requested, n).len() as int,
        ) =~= free_blocks(received, requested, n));
    }
}

/// Every block of a piece starts inside it.
proof fn lemma_block_starts_inside(total: int, b: int)
    requires
        0 <= total,
        0 <= b < block_count(total),
    ensures
        0 <= b * block_size() < total,
{
    assert(0 <= b * 16384 < total) by (nonlinear_arith)
        requires
            0 <= total,
            0 <= b,
            (total % 16384 == 0 && b < total / 16384) || (total % 16384 != 0 && b < total
                / 16384 + 1),
    ;
}

/// The blocks that `next_requests(max_requests)` hands out from bookkeeping `p`.
pub open spec fn granted_blocks(p: PieceProgress, max_requests: int) -> Seq<int> {
    p.free().take(grant_count(p.free().len() as int, max_requests))
}

/// How `mark_block(begin, block)` changes bookkeeping `old` into `new`: an accepted
/// block is copied into place, its slot marked received and its length counted;
/// anything else changes nothing.
pub open spec fn after_mark(old: PieceProgress, begin: int, block: Seq<u8>, new: PieceProgress) -> bool {
    &&& new.wf()
    &&& old.accepts(begin, block.len() as int) ==> {
        &&& new.data@ == old.data@.subrange(0, begin) + block + old.data@.subrange(
            begin + block.len(),
            old.total_length as int,
        )
        &&& new.received_blocks@ == old.received_blocks@.update(begin / block_size(), true)
        &&& new.received == old.received + block.len()
        &&& new.index == old.index
        &&& new.total_length == old.total_length
        &&& new.block_size == old.block_size
        &&& new.requested_blocks == old.requested_blocks
    }
    &&& !old.accepts(begin, block.len() as int) ==> new == old
}

/// How `next_requests(max_requests)` changes bookkeeping `old` into `new` and what
/// it returns: the requests for the granted blocks, in order, now marked requested.
pub open spec fn after_next_requests(
    old: PieceProgress,
    max_requests: int,
    new: PieceProgress,
    r: Seq<(u32, u32)>,
) -> bool {
    let granted = granted_blocks(old, max_requests);
    &&& new.wf()
    &&& new.index == old.index
    &&& new.total_length == old.total_length
    &&& new.block_size == old.block_size
    &&& new.data == old.data
    &&& new.received_blocks == old.received_blocks
    &&& new.received == old.received
    &&& r.len() == granted.len()
    &&& forall|j: int|
        0 <= j < r.len() ==> #[trigger] r[j] == block_request(old.total_length as int, granted[j])
    &&& forall|b: int|
        0 <= b < new.requested_blocks@.len() ==> #[trigger] new.requested_blocks@[b] == (
        old.requested_blocks@[b] || granted.contains(b))
}

/// Download bookkeeping for one piece: its bytes, and which blocks were
/// received and requested.
pub struct PieceProgress {
    pub index: u32,
    pub total_length: usize,
    pub block_size: usize,
    pub data: Vec<u8>,
    pub received_blocks: Vec<bool>,
    pub requested_blocks: Vec<bool>,
    pub received: usize,
}

impl PieceProgress {
    pub const BLOCK_SIZE: usize = 16 * 1024;

    pub const MAX_PIPELINE: usize = 5;

    /// The bookkeeping is consistent: block size, buffer length and block counts
    /// agree with the piece length.
    pub open spec fn wf(&self) -> bool {
        &&& self.block_size == block_size()
        &&& self.data@.len() == self.total_length
        &&& self.received_blocks@.len() == block_count(self.total_length as int)
        &&& self.requested_blocks@.len() == block_count(self.total_length as int)
    }

    /// The blocks still to request, in increasing order.
    pub open spec fn free(&self) -> Seq<int> {
        free_blocks(
            self.received_blocks@,
            self.requested_blocks@,
            self.received_blocks@.len() as int,
        )
    }

    /// Fresh bookkeeping for piece `index` of `total_length` bytes: all zero, nothing
    /// received or requested.
    pub fn new(index: u32, total_length: usize) -> (r: Self)
        ensures
            r.wf(),
            r.index == index,
            r.total_length == total_length,
            r.data@ == Seq::new(total_length as nat, |i: int| 0u8),
            r.received_blocks@ == Seq::new(
                block_count(total_length as int) as nat,
                |i: int| false,
            ),
            r.requested_blocks@ == Seq::new(
                block_count(total_length as int) as nat,
                |i: int| false,
            ),
            r.received == 0,
    {
        let num_blocks = if total_length % PieceProgress::BLOCK_SIZE == 0 {
            total_length / PieceProgress::BLOCK_SIZE
        } else {
            total_length / PieceProgress::BLOCK_SIZE + 1
        };
        Self {
            index,
            total_length,
            block_size: PieceProgress::BLOCK_SIZE,
            data: vec![0u8; total_length],
            received_blocks: vec![false; num_blocks],
            requested_blocks: vec![false; num_blocks],
            received: 0,
        }
    }

    /// Whether `mark_block(begin, block)` with a block of `len` bytes stores it: it
    /// fits in the piece and its block was not received yet.
    pub open spec fn accepts(&self, begin: int, len: int) -> bool {
        &&& begin + len <= self.total_length
        &&& !self.received_blocks@[begin / block_size()]
    }

    /// The inputs on which `mark_block` runs without a panic: no overflow, and a
    /// block that fits the piece has a slot in the bookkeeping.
    pub open spec fn mark_in_bounds(&self, begin: int, len: int) -> bool {
        &&& begin + len <= usize::MAX
        &&& begin + len <= self.total_length ==> {
            &&& begin / block_size() < self.received_blocks@.len()
            &&& !self.received_blocks@[begin / block_size()] ==> self.received + len
                <= usize::MAX
        }
    }

    /// Stores `block` at offset `begin` if it fits the piece and its block (the
    /// one holding `begin`) was not received yet; otherwise changes nothing.
    pub fn mark_block(&mut self, begin: usize, block: &[u8])
        requires
            old(self).wf(),
            old(self).mark_in_bounds(begin as int, block@.len() as int),
        ensures
            after_mark(*old(self), begin as int, block@, *final(self)),
            final(self).data@.len() == old(self).data@.len(),
            old(self).accepts(begin as int, block@.len() as int) ==> {
                &&& final(self).data@.subrange(begin as int, begin + block@.len()) == block@
                &&& forall|j: int|
                    0 <= j < old(self).data@.len() && !(begin <= j < begin + block@.len())
                        ==> #[trigger] final(self).data@[j] == old(self).data@[j]
            },
    {
        let block_index = begin / self.block_size;
        if begin + block.len() <= self.total_length && !self.received_blocks[block_index] {
            let ghost before = self.data@;
            let mut i: usize = 0;
            while i < block.len()
                invariant
                    old(self).wf(),
                    old(self).mark_in_bounds(begin as int, block@.len() as int),
                    old(self).accepts(begin as int, block@.len() as int),
                    block_index == begin as int / block_size(),
                    self.index == old(self).index,
                    self.total_length == old(self).total_length,
                    self.block_size == old(self).block_size,
                    self.received_blocks == old(self).received_blocks,
                    self.requested_blocks == old(self).requested_blocks,
                    self.received == old(self).received,
                    before == old(self).data@,
                    begin + block@.len() <= before.len(),
                    self.data@.len() == before.len(),
                    i <= block@.len(),
                    forall|j: int|
                        0 <= j < before.len() ==> #[trigger] self.data@[j] == if begin <= j < begin
                            + i {
                            block@[j - begin]
                        } else {
                            before[j]
                        },
                decreases block@.len() - i,
            {
                self.data.set(begin + i, block[i]);
                i = i + 1;
            }
            assert(self.data@ =~= before.subrange(0, begin as int) + block@ + before.subrange(
                begin + block@.len(),
                before.len() as int,
            ));
            self.received_blocks.set(block_index, true);
            self.received = self.received + block.len();
        }
        proof {
            assert(after_mark(*old(self), begin as int, block@, *self));
            lemma_mark_places_block(*old(self), begin as int, block@, *self);
        }
    }

    /// Hands out up to `max_requests` (at least one) of the blocks that are neither
    /// received nor requested, lowest first, as `(offset, length)` requests, and
    /// marks them requested.
    pub fn next_requests(&mut self, max_requests: usize) -> (r: Vec<(u32, u32)>)
        requires
            old(self).wf(),
        ensures
            after_next_requests(*old(self), max_requests as int, *final(self), r@),
    {
        let ghost recv = self.received_blocks@;
        let ghost req0 = self.requested_blocks@;
        let ghost cap: int = if max_requests < 1 {
            1
        } else {
            max_requests as int
        };
        let mut requests: Vec<(u32, u32)> = Vec::new();
        let num_blocks = self.received_blocks.len();
        let mut i: usize = 0;
        let ghost mut stop: int = num_blocks as int;
        proof {
            lemma_free_blocks_sorted(recv, req0, num_blocks as int);
        }
        while i < num_blocks
            invariant_except_break
                requests@.len() < cap,
            invariant
                requests@.len() <= cap,
                old(self).wf(),
                self.wf(),
                self.index == old(self).index,
                self.total_length == old(self).total_length,
                self.block_size == old(self).block_size,
                self.data == old(self).data,
                self.received_blocks == old(self).received_blocks,
                self.received == old(self).received,
                recv == old(self).received_blocks@,
                req0 == old(self).requested_blocks@,
                num_blocks == recv.len(),
                cap == (if max_requests < 1 {
                    1
                } else {
                    max_requests as int
                }),
                i <= num_blocks,
                requests@.len() == free_blocks(recv, req0, i as int).len(),
                forall|j: int|
                    0 <= j < requests@.len() ==> #[trigger] requests@[j] == block_request(
                        self.total_length as int,
                        free_blocks(recv, req0, i as int)[j],
                    ),
                forall|b: int|
                    0 <= b < num_blocks ==> #[trigger] self.requested_blocks@[b] == (req0[b] || (b
                        < i && !recv[b])),
            ensures
                i <= num_blocks,
                requests@.len() == free_blocks(recv, req0, i as int).len(),
                requests@.len() <= cap,
                requests@.len() < cap ==> i == num_blocks,
                forall|j: int|
                    0 <= j < requests@.len() ==> #[trigger] requests@[j] == block_request(
                        self.total_length as int,
                        free_blocks(recv, req0, i as int)[j],
                    ),
                forall|b: int|
                    0 <= b < num_blocks ==> #[trigger] self.requested_blocks@[b] == (req0[b] || (b
                        < i && !recv[b])),
            decreases num_blocks - i,
        {
            if !self.received_blocks[i] && !self.requested_blocks[i] {
                proof {
                    lemma_block_starts_inside(self.total_length as int, i as int);
                }
                self.requested_blocks.set(i, true);
                let start = i * self.block_size;
                let offset = start as u32;
                let rest = self.total_length - start;
                let length = if self.block_size <= rest {
                    self.block_size as u32
                } else {
                    rest as u32
                };
                requests.push((offset, length));
                assert(free_blocks(recv, req0, i + 1) == free_blocks(recv, req0, i as int).push(
                    i as int,
                ));
                if requests.len() >= max_requests {
                    i = i + 1;
                    break;
                }
            }
            i = i + 1;
        }
        proof {
            let f = free_blocks(recv, req0, num_blocks as int);
            let g = free_blocks(recv, req0, i as int);
            lemma_free_blocks_prefix(recv, req0, i as int, num_blocks as int);
            lemma_free_blocks_sorted(recv, req0, i as int);
            let k = grant_count(f.len() as int, max_requests as int);
            assert(old(self).free() == f);
            assert(k == g.len());
            assert(f.take(k) == g);
            assert forall|b: int|
                0 <= b < num_blocks implies #[trigger] self.requested_blocks@[b] == (req0[b]
                || g.contains(b)) by {
                lemma_free_blocks_contains(recv, req0, i as int, b);
            }
        }
        requests
    }

    /// Whether the SHA-1 digest of the piece's bytes is `expected_hash`.
    pub fn verify(&self, expected_hash: &[u8]) -> (r: bool)
        ensures
            r == (sha1_of(self.data@) == expected_hash@),
    {
        let result = sha1_digest(self.data.as_slice());
        bytes_equal(result.as_slice(), expected_hash)
    }

    /// Whether at least as many bytes were received as the piece holds.
    pub fn is_complete(&self) -> (r: bool)
        ensures
            r == (self.received >= self.total_length),
    {
        self.received >= self.total_length
    }
}

} // verus!

verus! {

/// Blocks handed out by one `next_requests` call are never handed out by the
/// next one; for pieces whose offsets fit in 32 bits, no request of the second
/// call repeats the offset of a request of the first.
pub proof fn lemma_requests_never_repeat(
    p0: PieceProgress,
    max1: int,
    p1: PieceProgress,
    r1: Seq<(u32, u32)>,
    max2: int,
    p2: PieceProgress,
    r2: Seq<(u32, u32)>,
)
    requires
        p0.wf(),
        after_next_requests(p0, max1, p1, r1),
        after_next_requests(p1, max2, p2, r2),
    ensures
        forall|j: int, k: int|
            0 <= j < granted_blocks(p0, max1).len() && 0 <= k < granted_blocks(p1, max2).len()
                ==> granted_blocks(p0, max1)[j] != granted_blocks(p1, max2)[k],
        p0.total_length <= u32::MAX ==> forall|j: int, k: int|
            0 <= j < r1.len() && 0 <= k < r2.len() ==> r1[j].0 != r2[k].0,
{
    let g1 = granted_blocks(p0, max1);
    let g2 = granted_blocks(p1, max2);
    let n = p0.received_blocks@.len() as int;
    lemma_free_blocks_sorted(p0.received_blocks@, p0.requested_blocks@, n);
    lemma_free_blocks_sorted(p1.received_blocks@, p1.requested_blocks@, n);
    assert forall|j: int, k: int| 0 <= j < g1.len() && 0 <= k < g2.len() implies g1[j] != g2[k]
        && (p0.total_length <= u32::MAX ==> block_request(p0.total_length as int, g1[j]).0
        != block_request(p1.total_length as int, g2[k]).0) by {
        let b = g2[k];
        assert(p1.free()[k] == b);
        lemma_free_blocks_contains(p1.received_blocks@, p1.requested_blocks@, n, b);
        assert(p1.free().contains(b));
        assert(!p1.requested_blocks@[b]);
        assert(g1[j] == p0.free()[j]);
        assert(g1.contains(g1[j]));
        if g1[j] == b {
            assert(p1.requested_blocks@[b]);
        }
        if p0.total_length <= u32::MAX {
            lemma_block_starts_inside(p0.total_length as int, g1[j]);
            lemma_block_starts_inside(p0.total_length as int, b);
        }
    }
    assert forall|j: int, k: int| 0 <= j < r1.len() && 0 <= k < r2.len() implies (
    p0.total_length <= u32::MAX ==> r1[j].0 != r2[k].0) by {
        assert(r1[j] == block_request(p0.total_length as int, g1[j]));
        assert(r2[k] == block_request(p1.total_length as int, g2[k]));
    }
}

/// A block is stored at most once: once `mark_block` stored a block, no later
/// block starting in the same block slot is accepted, so `received` never
/// counts a slot twice.
pub proof fn lemma_block_stored_once(
    p: PieceProgress,
    begin: int,
    block: Seq<u8>,
    q: PieceProgress,
    begin2: int,
    len2: int,
)
    requires
        p.wf(),
        0 <= begin,
        0 <= begin2,
        p.mark_in_bounds(begin, block.len() as int),
        p.accepts(begin, block.len() as int),
        after_mark(p, begin, block, q),
        begin2 / block_size() == begin / block_size(),
    ensures
        !q.accepts(begin2, len2),
{
}

/// The bytes that the requests for blocks `0..n` of a piece of `total` bytes ask for.
pub open spec fn requested_length(total: int, n: int) -> int
    decreases n,
{
    if n <= 0 {
        0
    } else {
        requested_length(total, n - 1) + block_request(total, n - 1).1
    }
}

/// The requests for a piece's blocks ask for exactly its bytes: together they
/// cover the piece, so storing every requested block in full completes it.
pub proof fn lemma_requests_cover_piece(total: int)
    requires
        0 <= total <= u32::MAX,
    ensures
        requested_length(total, block_count(total)) == total,
{
    let n = block_count(total);
    assert(n * block_size() >= total && (n - 1) * block_size() < total || n == 0) by (nonlinear_arith)
        requires
            0 <= total,
            n == (if total % 16384 == 0 {
                total / 16384
            } else {
                total / 16384 + 1
            }),
    ;
    lemma_requested_length_prefix(total, n);
}

/// The requests for the first `k` blocks ask for the first `min(k * 16384, total)` bytes.
proof fn lemma_requested_length_prefix(total: int, k: int)
    requires
        0 <= total <= u32::MAX,
        0 <= k <= block_count(total),
    ensures
        requested_length(total, k) == if k * block_size() <= total {
            k * block_size()
        } else {
            total
        },
    decreases k,
{
    if k > 0 {
        lemma_requested_length_prefix(total, k - 1);
        lemma_block_starts_inside(total, k - 1);
        let start = (k - 1) * block_size();
        assert(0 <= start < total);
        let len = if block_size() <= total - start {
            block_size()
        } else {
            total - start
        };
        assert(0 < len <= u32::MAX);
        assert(block_request(total, k - 1).1 == len);
    }
}

/// Where `mark_block` writes: an accepted block lands at its own offset `begin`
/// (bytes `begin .. begin + len` become the block) and no other byte of the piece
/// changes; a refused block changes no byte.
pub proof fn lemma_mark_places_block(
    old: PieceProgress,
    begin: int,
    block: Seq<u8>,
    new: PieceProgress,
)
    requires
        old.wf(),
        0 <= begin,
        after_mark(old, begin, block, new),
    ensures
        new.data@.len() == old.data@.len(),
        old.accepts(begin, block.len() as int) ==> {
            &&& new.data@.subrange(begin, begin + block.len()) == block
            &&& forall|j: int|
                0 <= j < old.data@.len() && !(begin <= j < begin + block.len())
                    ==> #[trigger] new.data@[j] == old.data@[j]
            &&& new.received == old.received + block.len()
        },
        !old.accepts(begin, block.len() as int) ==> new.data@ == old.data@,
{
    if old.accepts(begin, block.len() as int) {
        let d = old.data@;
        let nd = new.data@;
        assert(nd.subrange(begin, begin + block.len()) =~= block);
        assert forall|j: int|
            0 <= j < d.len() && !(begin <= j < begin + block.len()) implies #[trigger] nd[j]
            == d[j] by {
            if j < begin {
                assert(nd[j] == d.subrange(0, begin)[j]);
            } else {
                assert(nd[j] == d.subrange(begin + block.len(), old.total_length as int)[j - begin
                    - block.len()]);
            }
        }
    }
}

} // verus!
