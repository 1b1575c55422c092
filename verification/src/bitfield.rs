use vstd::prelude::*;

use crate::bitfield_lemmas::{byte_bit, lemma_or_sets_bit, lemma_zero_byte};

verus! {

/// Whether piece `index` is marked in `bytes`: bit `index` counted from the most
/// significant bit of the first byte. Indices past the bytes are never marked.
pub open spec fn bit_set(bytes: Seq<u8>, index: int) -> bool {
    &&& 0 <= index
    &&& index / 8 < bytes.len()
    &&& byte_bit(bytes[index / 8], (7 - index % 8) as u8)
}

/// The number of pieces a bitfield of these bytes describes.
pub open spec fn bit_count(bytes: Seq<u8>) -> int {
    (bytes.len() * 8) as int
}

/// A set of piece indices, one bit per piece, most significant bit first.
#[derive(Debug)]
pub struct Bitfield {
    bytes: Vec<u8>,
}

impl View for Bitfield {
    type V = Seq<u8>;

    closed spec fn view(&self) -> Seq<u8> {
        self.bytes@
    }
}

impl Bitfield {
    /// Creates a new Bitfield with enough bytes to hold `byte_len * 8` bits, all clear.
    pub fn new(byte_len: usize) -> (r: Self)
        ensures
            r@ == Seq::new(byte_len as nat, |i: int| 0u8),
            forall|i: int| !bit_set(r@, i),
    {
        let r = Self { bytes: vec![0u8; byte_len] };
        proof {
            assert forall|i: int| !bit_set(r@, i) by {
                if 0 <= i && i / 8 < r@.len() {
                    lemma_zero_byte((7 - i % 8) as u8);
                }
            }
        }
        r
    }

    /// Returns true if the bit at `index` is set.
    pub fn has_piece(&self, index: usize) -> (r: bool)
        ensures
            r == bit_set(self@, index as int),
    {
        let byte_index = index / 8;
        let bit_index = 7 - (index % 8);
        if byte_index < self.bytes.len() {
            let b = self.bytes[byte_index];
            (b >> (bit_index as u8)) & 1u8 == 1u8
        } else {
            false
        }
    }

    /// Sets the bit at `index` to 1; an index past the bytes changes nothing.
    pub fn set_piece(&mut self, index: usize)
        ensures
            final(self)@ == (if index / 8 < old(self)@.len() {
                old(self)@.update(
                    (index / 8) as int,
                    old(self)@[(index / 8) as int] | (1u8 << ((7 - index % 8) as u8)),
                )
            } else {
                old(self)@
            }),
            forall|i: int|
                bit_set(final(self)@, i) == (bit_set(old(self)@, i) || (i == index && index / 8
                    < old(self)@.len())),
    {
        let byte_index = index / 8;
        let bit_index = 7 - (index % 8);
        let ghost before = self@;
        if byte_index < self.bytes.len() {
            let b = self.bytes[byte_index];
            self.bytes.set(byte_index, b | (1u8 << (bit_index as u8)));
            proof {
                assert forall|i: int|
                    bit_set(self@, i) == (bit_set(old(self)@, i) || (i == index && index / 8
                        < old(self)@.len())) by {
                    if 0 <= i && i / 8 < before.len() {
                        if i / 8 == byte_index {
                            lemma_or_sets_bit(b, bit_index as u8, (7 - i % 8) as u8);
                            assert((i == index) == ((7 - i % 8) as u8 == bit_index as u8));
                        } else {
                            assert(self@[i / 8] == before[i / 8]);
                        }
                    }
                }
            }
        }
    }

    /// Construct a Bitfield from raw bytes.
    pub fn from_bytes(bytes: Vec<u8>) -> (r: Self)
        ensures
            r@ == bytes@,
    {
        Self { bytes }
    }

    /// Return the underlying bytes.
    pub fn to_bytes(&self) -> (r: Vec<u8>)
        ensures
            r@ == self@,
    {
        self.bytes.clone()
    }

    /// Every `(index, has_piece)` pair, in index order, for all `bytes * 8` bits.
    pub fn iter(&self) -> (r: Vec<(usize, bool)>)
        requires
            bit_count(self@) <= usize::MAX,
        ensures
            r@.len() == bit_count(self@),
            forall|i: int|
                0 <= i < r@.len() ==> #[trigger] r@[i] == (i as usize, bit_set(self@, i)),
    {
        let piece_count = self.bytes.len() * 8;
        let mut out: Vec<(usize, bool)> = Vec::new();
        let mut i: usize = 0;
        while i < piece_count
            invariant
                piece_count == bit_count(self@),
                i <= piece_count,
                out@.len() == i,
                forall|j: int| 0 <= j < i ==> #[trigger] out@[j] == (j as usize, bit_set(self@, j)),
            decreases piece_count - i,
        {
            let has = self.has_piece(i);
            out.push((i, has));
            i = i + 1;
        }
        out
    }

    /// The indices of set bits only, in increasing order.
    pub fn iter_set(&self) -> (r: Vec<usize>)
        requires
            bit_count(self@) <= usize::MAX,
        ensures
            forall|k: int| 0 <= k < r@.len() ==> bit_set(self@, #[trigger] r@[k] as int),
            forall|k1: int, k2: int| 0 <= k1 < k2 < r@.len() ==> r@[k1] < r@[k2],
            forall|i: int| #![trigger bit_set(self@, i)] bit_set(self@, i) ==> r@.contains(i as usize),
    {
        let all = self.iter();
        let mut out: Vec<usize> = Vec::new();
        let mut k: usize = 0;
        while k < all.len()
            invariant
                all@.len() == bit_count(self@),
                k <= all@.len(),
                forall|j: int|
                    0 <= j < all@.len() ==> #[trigger] all@[j] == (j as usize, bit_set(self@, j)),
                forall|m: int| 0 <= m < out@.len() ==> bit_set(self@, #[trigger] out@[m] as int),
                forall|m: int| 0 <= m < out@.len() ==> #[trigger] out@[m] < k,
                forall|m1: int, m2: int| 0 <= m1 < m2 < out@.len() ==> out@[m1] < out@[m2],
                forall|i: int| 0 <= i < k && bit_set(self@, i) ==> out@.contains(i as usize),
            decreases all@.len() - k,
        {
            let (idx, has) = all[k];
            assert(all@[k as int] == (k, bit_set(self@, k as int)));
            let ghost prev = out@;
            if has {
                out.push(idx);
                proof {
                    assert(out@[out@.len() - 1] == k);
                }
            }
            proof {
                assert forall|i: int| 0 <= i < k + 1 && bit_set(self@, i) implies out@.contains(
                    i as usize,
                ) by {
                    if i == k {
                        assert(out@[out@.len() - 1] == k);
                    } else {
                        assert(prev.contains(i as usize));
                        let j = choose|j: int| 0 <= j < prev.len() && prev[j] == i as usize;
                        assert(out@[j] == i as usize);
                    }
                }
            }
            k = k + 1;
        }
        proof {
            assert forall|i: int| #![trigger bit_set(self@, i)] bit_set(self@, i) implies out@.contains(
                i as usize,
            ) by {
                assert(i < bit_count(self@));
            }
        }
        out
    }
}

} // verus!
