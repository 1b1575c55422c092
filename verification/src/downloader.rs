use vstd::prelude::*;

use crate::bitfield::{bit_count, bit_set, Bitfield};
use crate::codec::bytes_equal;
use crate::digest::sha1_of;
use crate::peer_connection::VerifiedPiece;

verus! {

/// The state of one piece of a download, as the contracts see it.
pub enum SlotState {
    /// Not started.
    Free,
    /// Being downloaded by one peer.
    Reserved,
    /// Downloaded: the piece's bytes.
    Stored(Seq<u8>),
}

/// Whether the search for a piece to download from a peer stops at index `i`:
/// the peer has piece `i` and it is not (or cannot be) taken in `slots`.
pub open spec fn stops_at(bits: Seq<u8>, slots: Seq<SlotState>, i: int) -> bool {
    &&& bit_set(bits, i)
    &&& (i >= slots.len() || slots[i] is Free)
}

/// The number of bytes held by the first `n` slots.
pub open spec fn stored_total(slots: Seq<SlotState>, n: int) -> int
    decreases n,
{
    if n <= 0 {
        0
    } else {
        stored_total(slots, n - 1) + match slots[n - 1] {
            SlotState::Stored(d) => d.len() as int,
            _ => 0,
        }
    }
}

/// The stored bytes of the first `n` slots one after another.
pub open spec fn concat_slots(slots: Seq<SlotState>, n: int) -> Seq<u8>
    decreases n,
{
    if n <= 0 {
        Seq::empty()
    } else {
        concat_slots(slots, n - 1) + match slots[n - 1] {
            SlotState::Stored(d) => d,
            _ => Seq::empty(),
        }
    }
}

/// Whether every slot holds a downloaded piece whose SHA-1 digest is its hash.
pub open spec fn all_verified(slots: Seq<SlotState>, hashes: Seq<Seq<u8>>) -> bool {
    &&& slots.len() == hashes.len()
    &&& forall|i: int|
        0 <= i < slots.len() ==> (#[trigger] slots[i] matches SlotState::Stored(d) && sha1_of(d)
            == hashes[i])
}

/// The outcome of looking for a piece to download from a peer.
pub enum Claim {
    /// This piece is now reserved for the peer.
    Claimed(u32),
    /// The peer has nothing that is still needed.
    Nothing,
    /// The peer announces a piece at this index, past the torrent's pieces.
    OutOfRange(usize),
}

/// What became of a download attempt of a claimed piece.
pub enum PieceOutcome {
    /// The piece arrived and passed its hash check.
    Downloaded(VerifiedPiece),
    /// The attempt took too long.
    TimedOut,
    /// The attempt failed.
    Failed,
}

/// What the peer's task does after an attempt was settled.
pub enum NextStep {
    /// The piece is stored; this many bytes were added. Go on with the next piece.
    Continue(usize),
    /// The piece was freed; pause, then go on.
    Pause,
    /// The piece was freed; stop working with this peer.
    Stop,
}

/// One piece's slot.
enum Slot {
    Free,
    Reserved,
    Stored(Vec<u8>),
}

/// The view of a slot.
spec fn slot_state(s: Slot) -> SlotState {
    match s {
        Slot::Free => SlotState::Free,
        Slot::Reserved => SlotState::Reserved,
        Slot::Stored(d) => SlotState::Stored(d@),
    }
}

/// The pieces of a torrent being downloaded, each free, reserved by a peer, or
/// downloaded, next to the piece hashes. A stored piece always passed its SHA-1
/// check against its hash.
pub struct PieceTable {
    pieces: Vec<Slot>,
    hashes: Vec<[u8; 20]>,
}

impl View for PieceTable {
    type V = Seq<SlotState>;

    closed spec fn view(&self) -> Seq<SlotState> {
        Seq::new(self.pieces@.len(), |i: int| slot_state(self.pieces@[i]))
    }
}

/// Whether `total_downloaded` bytes complete a torrent of `total_size` bytes
/// (the size taken as a `usize`).
pub fn download_finished(total_downloaded: usize, total_size: u64) -> (r: bool)
    ensures
        r == (total_downloaded >= total_size as usize),
{
    total_downloaded >= #[verifier::truncate] (total_size as usize)
}

impl PieceTable {
    /// One slot per hash, and every stored piece's SHA-1 digest is its hash.
    #[verifier::type_invariant]
    spec fn stored_pieces_verified(self) -> bool {
        &&& self.pieces@.len() == self.hashes@.len()
        &&& forall|i: int|
            0 <= i < self.pieces@.len() ==> (#[trigger] self.pieces@[i] matches Slot::Stored(d)
                ==> sha1_of(d@) == self.hashes@[i]@)
    }

    /// The piece hashes, one per slot.
    pub closed spec fn hashes_view(&self) -> Seq<Seq<u8>> {
        Seq::new(self.hashes@.len(), |i: int| self.hashes@[i]@)
    }

    /// The facts the type invariant gives about the views.
    proof fn lemma_views(&self)
        requires
            self.stored_pieces_verified(),
        ensures
            self@.len() == self.hashes_view().len(),
            forall|i: int|
                0 <= i < self@.len() ==> (#[trigger] self@[i] matches SlotState::Stored(d)
                    ==> sha1_of(d) == self.hashes_view()[i]),
    {
        assert forall|i: int|
            0 <= i < self@.len() && (#[trigger] self@[i] is Stored) implies sha1_of(
            self@[i]->Stored_0,
        ) == self.hashes_view()[i] by {
            assert(self@[i] == slot_state(self.pieces@[i]));
        }
    }

    /// Puts `slot` into slot `index`, keeping the hashes.
    fn replace_slot(&mut self, index: usize, slot: Slot)
        requires
            index < old(self).pieces@.len(),
            slot matches Slot::Stored(d) ==> sha1_of(d@) == old(self).hashes@[index as int]@,
        ensures
            final(self).pieces@ == old(self).pieces@.update(index as int, slot),
            final(self).hashes == old(self).hashes,
    {
        let mut taken = PieceTable { pieces: Vec::new(), hashes: Vec::new() };
        std::mem::swap(self, &mut taken);
        proof {
            use_type_invariant(&taken);
        }
        let PieceTable { pieces, hashes } = taken;
        let mut pieces = pieces;
        pieces.set(index, slot);
        *self = PieceTable { pieces, hashes };
    }

    /// A table of free slots, one per piece hash.
    pub fn new(piece_hashes: Vec<[u8; 20]>) -> (r: Self)
        ensures
            r@ == Seq::new(piece_hashes@.len(), |i: int| SlotState::Free),
            r.hashes_view() == Seq::new(piece_hashes@.len(), |i: int| piece_hashes@[i]@),
    {
        let num_pieces = piece_hashes.len();
        let mut pieces: Vec<Slot> = Vec::new();
        let mut i: usize = 0;
        while i < num_pieces
            invariant
                i <= num_pieces,
                pieces@.len() == i,
                forall|j: int| 0 <= j < i ==> #[trigger] pieces@[j] is Free,
            decreases num_pieces - i,
        {
            pieces.push(Slot::Free);
            i = i + 1;
        }
        let r = PieceTable { pieces, hashes: piece_hashes };
        assert(r@ =~= Seq::new(num_pieces as nat, |i: int| SlotState::Free));
        r
    }

    /// The number of pieces.
    pub fn len(&self) -> (r: usize)
        ensures
            r == self@.len(),
            r == self.hashes_view().len(),
    {
        proof {
            use_type_invariant(self);
        }
        self.pieces.len()
    }

    /// Finds the first piece, in index order, that the peer has and that is free,
    /// and reserves it. A piece the peer announces past the table, met before any
    /// such piece, is `OutOfRange`.
    pub fn claim_next(&mut self, bitfield: &Bitfield) -> (r: Claim)
        requires
            bit_count(bitfield@) <= usize::MAX,
        ensures
            final(self).hashes_view() == old(self).hashes_view(),
            match r {
                Claim::Claimed(k) => exists|i: int|
                    #![trigger stops_at(bitfield@, old(self)@, i)]
                    0 <= i < old(self)@.len() && stops_at(bitfield@, old(self)@, i) && (forall|j: int|
                        0 <= j < i ==> !stops_at(bitfield@, old(self)@, j)) && k
                        == #[verifier::truncate] (i as u32) && final(self)@ == old(self)@.update(
                        i,
                        SlotState::Reserved,
                    ),
                Claim::OutOfRange(i) => i >= old(self)@.len() && stops_at(
                    bitfield@,
                    old(self)@,
                    i as int,
                ) && (forall|j: int| 0 <= j < i ==> !stops_at(bitfield@, old(self)@, j))
                    && final(self)@ == old(self)@,
                Claim::Nothing => (forall|j: int| !stops_at(bitfield@, old(self)@, j))
                    && final(self)@ == old(self)@,
            },
    {
        proof {
            use_type_invariant(&*self);
        }
        let all = bitfield.iter();
        let mut k: usize = 0;
        while k < all.len()
            invariant
                self@ == old(self)@,
                self.hashes == old(self).hashes,
                self.pieces == old(self).pieces,
                all@.len() == bit_count(bitfield@),
                k <= all@.len(),
                forall|j: int|
                    0 <= j < all@.len() ==> #[trigger] all@[j] == (j as usize, bit_set(
                        bitfield@,
                        j,
                    )),
                forall|j: int| 0 <= j < k ==> !stops_at(bitfield@, self@, j),
            decreases all@.len() - k,
        {
            let (i, has) = all[k];
            assert(all@[k as int] == (k, bit_set(bitfield@, k as int)));
            if has {
                if i >= self.pieces.len() {
                    return Claim::OutOfRange(i);
                }
                let free = match self.pieces[i] {
                    Slot::Free => true,
                    _ => false,
                };
                if free {
                    let ghost before = self@;
                    self.replace_slot(i, Slot::Reserved);
                    proof {
                        assert(self@ =~= before.update(i as int, SlotState::Reserved));
                        assert(stops_at(bitfield@, before, i as int));
                    }
                    return Claim::Claimed(#[verifier::truncate] (i as u32));
                }
            }
            k = k + 1;
        }
        proof {
            assert forall|j: int| !stops_at(bitfield@, self@, j) by {
                if j >= bit_count(bitfield@) || j < 0 {
                    assert(!bit_set(bitfield@, j));
                }
            }
        }
        Claim::Nothing
    }

    /// Frees slot `index` so that another peer can take the piece.
    pub fn release(&mut self, index: usize)
        requires
            index < old(self)@.len(),
        ensures
            final(self).hashes_view() == old(self).hashes_view(),
            final(self)@ == old(self)@.update(index as int, SlotState::Free),
    {
        proof {
            use_type_invariant(&*self);
        }
        let ghost before = self@;
        self.replace_slot(index, Slot::Free);
        assert(self@ =~= before.update(index as int, SlotState::Free));
    }

    /// Stores a checked piece in slot `index` if it was checked against this
    /// slot's hash; otherwise frees the slot. Tells which happened.
    pub fn store(&mut self, index: usize, piece: VerifiedPiece) -> (r: bool)
        requires
            index < old(self)@.len(),
        ensures
            final(self).hashes_view() == old(self).hashes_view(),
            sha1_of(piece.data_view()) == piece.hash_view(),
            r == (piece.hash_view() == old(self).hashes_view()[index as int]),
            r ==> final(self)@ == old(self)@.update(
                index as int,
                SlotState::Stored(piece.data_view()),
            ),
            !r ==> final(self)@ == old(self)@.update(index as int, SlotState::Free),
    {
        proof {
            use_type_invariant(&*self);
        }
        let ghost before = self@;
        let ghost hv = self.hashes_view();
        let ghost pd = piece.data_view();
        let h = piece.hash();
        assert(self.hashes@[index as int]@ == hv[index as int]);
        if bytes_equal(h.as_slice(), self.hashes[index].as_slice()) {
            let data = piece.into_data();
            self.replace_slot(index, Slot::Stored(data));
            assert(self@ =~= before.update(index as int, SlotState::Stored(pd)));
            true
        } else {
            self.replace_slot(index, Slot::Free);
            assert(self@ =~= before.update(index as int, SlotState::Free));
            false
        }
    }

    /// Settles an attempt at piece `index`: a downloaded piece is stored and the
    /// peer goes on; after a time-out the piece is freed and the peer pauses;
    /// after a failure the piece is freed and the peer stops. Either way the slot
    /// no longer holds a reservation.
    pub fn settle(&mut self, index: usize, outcome: PieceOutcome) -> (r: NextStep)
        requires
            index < old(self)@.len(),
        ensures
            final(self).hashes_view() == old(self).hashes_view(),
            match outcome {
                PieceOutcome::Downloaded(piece) => if piece.hash_view()
                    == old(self).hashes_view()[index as int] {
                    r matches NextStep::Continue(n) && n == piece.data_view().len()
                        && final(self)@ == old(self)@.update(
                        index as int,
                        SlotState::Stored(piece.data_view()),
                    )
                } else {
                    r is Stop && final(self)@ == old(self)@.update(index as int, SlotState::Free)
                },
                PieceOutcome::TimedOut => r is Pause && final(self)@ == old(self)@.update(
                    index as int,
                    SlotState::Free,
                ),
                PieceOutcome::Failed => r is Stop && final(self)@ == old(self)@.update(
                    index as int,
                    SlotState::Free,
                ),
            },
            final(self)@[index as int] matches SlotState::Stored(d) ==> sha1_of(d)
                == final(self).hashes_view()[index as int],
            !(final(self)@[index as int] is Reserved),
    {
        match outcome {
            PieceOutcome::Downloaded(piece) => {
                let n = piece.len();
                if self.store(index, piece) {
                    NextStep::Continue(n)
                } else {
                    NextStep::Stop
                }
            },
            PieceOutcome::TimedOut => {
                self.release(index);
                NextStep::Pause
            },
            PieceOutcome::Failed => {
                self.release(index);
                NextStep::Stop
            },
        }
    }

    /// The number of bytes of all downloaded pieces, or `None` if the sum does
    /// not fit in a `usize`.
    pub fn downloaded_bytes(&self) -> (r: Option<usize>)
        ensures
            stored_total(self@, self@.len() as int) <= usize::MAX ==> r == Some(
                stored_total(self@, self@.len() as int) as usize,
            ),
            stored_total(self@, self@.len() as int) > usize::MAX ==> r is None,
    {
        let mut total: usize = 0;
        let mut i: usize = 0;
        while i < self.pieces.len()
            invariant
                i <= self@.len(),
                self@.len() == self.pieces@.len(),
                total == stored_total(self@, i as int),
            decreases self@.len() - i,
        {
            proof {
                lemma_stored_total_grows(self@, i as int + 1, self@.len() as int);
            }
            match &self.pieces[i] {
                Slot::Stored(d) => {
                    if total > usize::MAX - d.len() {
                        return None;
                    }
                    total = total + d.len();
                },
                _ => {},
            }
            i = i + 1;
        }
        Some(total)
    }

    /// All pieces' bytes in order, once every piece is downloaded; `None` while
    /// some piece is free or reserved. Every piece in the result passed its SHA-1
    /// check against its hash.
    pub fn assemble(&self) -> (r: Option<Vec<u8>>)
        ensures
            (forall|i: int| 0 <= i < self@.len() ==> #[trigger] self@[i] is Stored) ==> (r matches Some(
                data,
            ) && data@ == concat_slots(self@, self@.len() as int)),
            (exists|i: int| 0 <= i < self@.len() && !(#[trigger] self@[i] is Stored)) ==> r is None,
            r is Some ==> all_verified(self@, self.hashes_view()),
    {
        proof {
            use_type_invariant(self);
            self.lemma_views();
        }
        let mut full_data: Vec<u8> = Vec::new();
        let mut i: usize = 0;
        while i < self.pieces.len()
            invariant
                i <= self@.len(),
                self@.len() == self.pieces@.len(),
                forall|j: int| 0 <= j < i ==> #[trigger] self@[j] is Stored,
                full_data@ == concat_slots(self@, i as int),
            decreases self@.len() - i,
        {
            match &self.pieces[i] {
                Slot::Stored(block) => {
                    full_data.extend_from_slice(block.as_slice());
                    assert(full_data@ =~= concat_slots(self@, i as int + 1));
                },
                _ => {
                    assert(!(self@[i as int] is Stored));
                    return None;
                },
            }
            i = i + 1;
        }
        Some(full_data)
    }
}

/// Adding up more slots never gives less.
proof fn lemma_stored_total_grows(slots: Seq<SlotState>, m: int, n: int)
    requires
        0 <= m <= n <= slots.len(),
    ensures
        stored_total(slots, m) <= stored_total(slots, n),
    decreases n - m,
{
    if m < n {
        lemma_stored_total_grows(slots, m, n - 1);
    }
}

/// A reserved or finished piece is not handed out again: after `claim_next`
/// reserved slot `i` (or `store` filled it), no later search stops at `i`.
pub proof fn lemma_taken_piece_not_claimed_again(
    slots: Seq<SlotState>,
    i: int,
    taken: SlotState,
    bits: Seq<u8>,
)
    requires
        0 <= i < slots.len(),
        !(taken is Free),
    ensures
        !stops_at(bits, slots.update(i, taken), i),
{
}

/// Freeing a slot makes its piece available again to any peer that has it.
pub proof fn lemma_released_piece_claimable(slots: Seq<SlotState>, i: int, bits: Seq<u8>)
    requires
        0 <= i < slots.len(),
        bit_set(bits, i),
    ensures
        stops_at(bits, slots.update(i, SlotState::Free), i),
{
}

} // verus!
