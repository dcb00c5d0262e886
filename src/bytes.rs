//! Fixed-width integers as 8-byte sequences, in both byte orders.

use vstd::prelude::*;

verus! {

/// The eight bytes of `n`, most significant first.
pub open spec fn be_bytes(n: u64) -> Seq<u8> {
    seq![
        (n >> 56u64) as u8,
        (n >> 48u64) as u8,
        (n >> 40u64) as u8,
        (n >> 32u64) as u8,
        (n >> 24u64) as u8,
        (n >> 16u64) as u8,
        (n >> 8u64) as u8,
        n as u8,
    ]
}

/// The eight bytes of `n`, least significant first.
pub open spec fn le_bytes(n: u64) -> Seq<u8> {
    seq![
        n as u8,
        (n >> 8u64) as u8,
        (n >> 16u64) as u8,
        (n >> 24u64) as u8,
        (n >> 32u64) as u8,
        (n >> 40u64) as u8,
        (n >> 48u64) as u8,
        (n >> 56u64) as u8,
    ]
}

/// The integer made of eight bytes, the most significant first.
pub open spec fn from_bytes_msb_first(b0: u8, b1: u8, b2: u8, b3: u8, b4: u8, b5: u8, b6: u8, b7: u8) -> u64 {
    (b0 as u64) << 56u64 | (b1 as u64) << 48u64 | (b2 as u64) << 40u64 | (b3 as u64) << 32u64
        | (b4 as u64) << 24u64 | (b5 as u64) << 16u64 | (b6 as u64) << 8u64 | (b7 as u64)
}

/// The integer whose big-endian bytes are the first eight of `b`.
pub open spec fn be_value(b: Seq<u8>) -> u64 {
    from_bytes_msb_first(b[0], b[1], b[2], b[3], b[4], b[5], b[6], b[7])
}

/// The integer whose little-endian bytes are the first eight of `b`.
pub open spec fn le_value(b: Seq<u8>) -> u64 {
    from_bytes_msb_first(b[7], b[6], b[5], b[4], b[3], b[2], b[1], b[0])
}

proof fn lemma_split_join(n: u64)
    ensures
        from_bytes_msb_first(
            (n >> 56u64) as u8,
            (n >> 48u64) as u8,
            (n >> 40u64) as u8,
            (n >> 32u64) as u8,
            (n >> 24u64) as u8,
            (n >> 16u64) as u8,
            (n >> 8u64) as u8,
            n as u8,
        ) == n,
{
    assert(((((n >> 56u64) as u8) as u64) << 56u64 | (((n >> 48u64) as u8) as u64) << 48u64
        | (((n >> 40u64) as u8) as u64) << 40u64 | (((n >> 32u64) as u8) as u64) << 32u64
        | (((n >> 24u64) as u8) as u64) << 24u64 | (((n >> 16u64) as u8) as u64) << 16u64
        | (((n >> 8u64) as u8) as u64) << 8u64 | ((n as u8) as u64)) == n) by (bit_vector);
}

proof fn lemma_join_split(b0: u8, b1: u8, b2: u8, b3: u8, b4: u8, b5: u8, b6: u8, b7: u8)
    ensures
        ({
            let n = from_bytes_msb_first(b0, b1, b2, b3, b4, b5, b6, b7);
            &&& (n >> 56u64) as u8 == b0
            &&& (n >> 48u64) as u8 == b1
            &&& (n >> 40u64) as u8 == b2
            &&& (n >> 32u64) as u8 == b3
            &&& (n >> 24u64) as u8 == b4
            &&& (n >> 16u64) as u8 == b5
            &&& (n >> 8u64) as u8 == b6
            &&& n as u8 == b7
        }),
{
    let n = from_bytes_msb_first(b0, b1, b2, b3, b4, b5, b6, b7);
    assert(n == (b0 as u64) << 56u64 | (b1 as u64) << 48u64 | (b2 as u64) << 40u64 | (b3 as u64)
        << 32u64 | (b4 as u64) << 24u64 | (b5 as u64) << 16u64 | (b6 as u64) << 8u64 | (b7 as u64));
    assert({
        &&& (n >> 56u64) as u8 == b0
        &&& (n >> 48u64) as u8 == b1
        &&& (n >> 40u64) as u8 == b2
        &&& (n >> 32u64) as u8 == b3
        &&& (n >> 24u64) as u8 == b4
        &&& (n >> 16u64) as u8 == b5
        &&& (n >> 8u64) as u8 == b6
        &&& n as u8 == b7
    }) by (bit_vector)
        requires
            n == (b0 as u64) << 56u64 | (b1 as u64) << 48u64 | (b2 as u64) << 40u64 | (b3 as u64)
                << 32u64 | (b4 as u64) << 24u64 | (b5 as u64) << 16u64 | (b6 as u64) << 8u64
                | (b7 as u64),
    ;
}

/// Reading back the big-endian bytes of `n` gives `n`.
pub proof fn lemma_be_round_trip(n: u64)
    ensures
        be_bytes(n).len() == 8,
        be_value(be_bytes(n)) == n,
{
    lemma_split_join(n);
}

/// Reading back the little-endian bytes of `n` gives `n`.
pub proof fn lemma_le_round_trip(n: u64)
    ensures
        le_bytes(n).len() == 8,
        le_value(le_bytes(n)) == n,
{
    lemma_split_join(n);
}

/// Any eight bytes are the little-endian bytes of the value they encode.
pub proof fn lemma_le_bytes_of_value(b: Seq<u8>)
    requires
        b.len() == 8,
    ensures
        le_bytes(le_value(b)) == b,
{
    lemma_join_split(b[7], b[6], b[5], b[4], b[3], b[2], b[1], b[0]);
    assert(le_bytes(le_value(b)) =~= b);
}

/// The big-endian bytes of `n`.
pub fn u64_to_be(n: u64) -> (r: Vec<u8>)
    ensures
        r@ == be_bytes(n),
{
    let r = vec![
        (n >> 56u64) as u8,
        (n >> 48u64) as u8,
        (n >> 40u64) as u8,
        (n >> 32u64) as u8,
        (n >> 24u64) as u8,
        (n >> 16u64) as u8,
        (n >> 8u64) as u8,
        n as u8,
    ];
    assert(r@ =~= be_bytes(n));
    r
}

/// The integer stored big-endian in `b[at..at + 8]`.
pub fn u64_from_be(b: &[u8], at: usize) -> (r: u64)
    requires
        at + 8 <= b@.len(),
    ensures
        r == be_value(b@.subrange(at as int, at + 8)),
{
    (b[at] as u64) << 56u64 | (b[at + 1] as u64) << 48u64 | (b[at + 2] as u64) << 40u64 | (b[at
        + 3] as u64) << 32u64 | (b[at + 4] as u64) << 24u64 | (b[at + 5] as u64) << 16u64 | (b[at
        + 6] as u64) << 8u64 | (b[at + 7] as u64)
}

} // verus!
