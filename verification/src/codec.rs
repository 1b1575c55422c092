use vstd::prelude::*;

verus! {

/// The four big-endian bytes of `n`, most significant first.
pub open spec fn be_u32_bytes(n: u32) -> Seq<u8> {
    seq![
        (n / 0x100_0000) as u8,
        ((n / 0x1_0000) % 0x100) as u8,
        ((n / 0x100) % 0x100) as u8,
        (n % 0x100) as u8,
    ]
}

/// The number that the first four bytes of `b` spell in big-endian order.
pub open spec fn be_u32_value(b: Seq<u8>) -> u32 {
    (b[0] * 0x100_0000 + b[1] * 0x1_0000 + b[2] * 0x100 + b[3]) as u32
}

/// The number that two bytes spell in big-endian order.
pub open spec fn be_u16_value(hi: u8, lo: u8) -> u16 {
    (hi * 0x100 + lo) as u16
}

/// Encodes `n` as four big-endian bytes.
pub fn u32_to_be(n: u32) -> (r: [u8; 4])
    ensures
        r@ == be_u32_bytes(n),
{
    let r = [
        (n / 0x100_0000) as u8,
        ((n / 0x1_0000) % 0x100) as u8,
        ((n / 0x100) % 0x100) as u8,
        (n % 0x100) as u8,
    ];
    assert(r@ =~= be_u32_bytes(n));
    r
}

/// Decodes four big-endian bytes.
pub fn u32_from_be(b0: u8, b1: u8, b2: u8, b3: u8) -> (r: u32)
    ensures
        r == be_u32_value(seq![b0, b1, b2, b3]),
{
    b0 as u32 * 0x100_0000 + b1 as u32 * 0x1_0000 + b2 as u32 * 0x100 + b3 as u32
}

/// Decodes two big-endian bytes.
pub fn u16_from_be(hi: u8, lo: u8) -> (r: u16)
    ensures
        r == be_u16_value(hi, lo),
{
    hi as u16 * 0x100 + lo as u16
}

/// Decoding the big-endian bytes of a number gives the number back.
pub proof fn lemma_be_u32_roundtrip(n: u32)
    ensures
        be_u32_value(be_u32_bytes(n)) == n,
        be_u32_bytes(n).len() == 4,
{
    let b = be_u32_bytes(n);
    assert(b[0] * 0x100_0000 + b[1] * 0x1_0000 + b[2] * 0x100 + b[3] == n) by (nonlinear_arith)
        requires
            b[0] == n / 0x100_0000,
            b[1] == (n / 0x1_0000) % 0x100,
            b[2] == (n / 0x100) % 0x100,
            b[3] == n % 0x100,
            0 <= n <= 0xffff_ffff,
    ;
}

/// Encoding the number that four bytes spell gives the bytes back.
pub proof fn lemma_be_u32_bytes_of_value(b: Seq<u8>)
    requires
        b.len() == 4,
    ensures
        be_u32_bytes(be_u32_value(b)) == b,
{
    let v = b[0] * 0x100_0000 + b[1] * 0x1_0000 + b[2] * 0x100 + b[3];
    assert(v / 0x100_0000 == b[0] && (v / 0x1_0000) % 0x100 == b[1] && (v / 0x100) % 0x100 == b[2]
        && v % 0x100 == b[3]) by (nonlinear_arith)
        requires
            v == b[0] * 0x100_0000 + b[1] * 0x1_0000 + b[2] * 0x100 + b[3],
            0 <= b[0] < 0x100,
            0 <= b[1] < 0x100,
            0 <= b[2] < 0x100,
            0 <= b[3] < 0x100,
    ;
    assert(be_u32_bytes(be_u32_value(b)) =~= b);
}

/// Copies `data[from..to]` into a new vector.
pub fn copy_subrange(data: &[u8], from: usize, to: usize) -> (r: Vec<u8>)
    requires
        from <= to <= data@.len(),
    ensures
        r@ == data@.subrange(from as int, to as int),
{
    let mut out: Vec<u8> = Vec::new();
    let mut i: usize = from;
    while i < to
        invariant
            from <= i <= to <= data@.len(),
            out@ == data@.subrange(from as int, i as int),
        decreases to - i,
    {
        out.push(data[i]);
        i = i + 1;
        assert(out@ =~= data@.subrange(from as int, i as int));
    }
    out
}

} // verus!

verus! {

/// Whether two byte slices hold the same bytes.
pub fn bytes_equal(a: &[u8], b: &[u8]) -> (r: bool)
    ensures
        r == (a@ == b@),
{
    if a.len() != b.len() {
        return false;
    }
    let mut i: usize = 0;
    while i < a.len()
        invariant
            a@.len() == b@.len(),
            i <= a@.len(),
            forall|j: int| 0 <= j < i ==> a@[j] == b@[j],
        decreases a@.len() - i,
    {
        if a[i] != b[i] {
            return false;
        }
        i = i + 1;
    }
    assert(a@ =~= b@);
    true
}

/// Copies `N` bytes of `src` starting at `start` into an array.
pub fn copy_to_array<const N: usize>(src: &[u8], start: usize) -> (r: [u8; N])
    requires
        start + N <= src@.len(),
    ensures
        r@ == src@.subrange(start as int, start + N),
{
    let mut r: [u8; N] = vstd::array::array_fill_for_copy_types::<u8, N>(0u8);
    let n = src.len();
    let mut i: usize = 0;
    while i < N
        invariant
            start + N <= src@.len(),
            n == src@.len(),
            i <= N,
            r@.len() == N,
            forall|j: int| 0 <= j < i ==> r@[j] == src@[start + j],
        decreases N - i,
    {
        r[i] = src[start + i];
        i = i + 1;
    }
    assert(r@ =~= src@.subrange(start as int, start + N));
    r
}

} // verus!
