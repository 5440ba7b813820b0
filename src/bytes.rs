use vstd::prelude::*;

verus! {

/// The eight bytes of `x`, least significant first.
pub open spec fn le_bytes(x: u64) -> Seq<u8> {
    seq![
        (x & 0xff) as u8,
        ((x >> 8u64) & 0xff) as u8,
        ((x >> 16u64) & 0xff) as u8,
        ((x >> 24u64) & 0xff) as u8,
        ((x >> 32u64) & 0xff) as u8,
        ((x >> 40u64) & 0xff) as u8,
        ((x >> 48u64) & 0xff) as u8,
        ((x >> 56u64) & 0xff) as u8,
    ]
}

/// The number whose bytes, least significant first, begin `b`.
pub open spec fn from_le_bytes(b: Seq<u8>) -> u64 {
    (b[0] as u64) | ((b[1] as u64) << 8u64) | ((b[2] as u64) << 16u64) | ((b[3] as u64) << 24u64)
        | ((b[4] as u64) << 32u64) | ((b[5] as u64) << 40u64) | ((b[6] as u64) << 48u64) | ((
    b[7] as u64) << 56u64)
}

proof fn lemma_low_byte(y: u64)
    ensures
        ((y & 0xff) as u8) as u64 == y & 0xff,
{
    assert(y & 0xff < 256) by (bit_vector);
}

/// Reading back the bytes of a number gives the number.
pub proof fn lemma_le_bytes_round_trip(x: u64)
    ensures
        from_le_bytes(le_bytes(x)) == x,
{
    lemma_low_byte(x);
    lemma_low_byte(x >> 8u64);
    lemma_low_byte(x >> 16u64);
    lemma_low_byte(x >> 24u64);
    lemma_low_byte(x >> 32u64);
    lemma_low_byte(x >> 40u64);
    lemma_low_byte(x >> 48u64);
    lemma_low_byte(x >> 56u64);
    assert((x & 0xff) | (((x >> 8u64) & 0xff) << 8u64) | (((x >> 16u64) & 0xff) << 16u64) | (((x
        >> 24u64) & 0xff) << 24u64) | (((x >> 32u64) & 0xff) << 32u64) | (((x >> 40u64) & 0xff)
        << 40u64) | (((x >> 48u64) & 0xff) << 48u64) | (((x >> 56u64) & 0xff) << 56u64) == x)
        by (bit_vector);
}

/// Write the bytes of `x` at the start of `dst`.
pub fn write_u64(dst: &mut [u8], x: u64)
    requires
        old(dst)@.len() >= 8,
    ensures
        final(dst)@.len() == old(dst)@.len(),
        final(dst)@.subrange(0, 8) == le_bytes(x),
        final(dst)@.subrange(8, old(dst)@.len() as int) == old(dst)@.subrange(8, old(dst)@.len() as int),
{
    dst[0] = (x & 0xff) as u8;
    dst[1] = ((x >> 8u64) & 0xff) as u8;
    dst[2] = ((x >> 16u64) & 0xff) as u8;
    dst[3] = ((x >> 24u64) & 0xff) as u8;
    dst[4] = ((x >> 32u64) & 0xff) as u8;
    dst[5] = ((x >> 40u64) & 0xff) as u8;
    dst[6] = ((x >> 48u64) & 0xff) as u8;
    dst[7] = ((x >> 56u64) & 0xff) as u8;
    assert(dst@.subrange(0, 8) =~= le_bytes(x));
    assert(dst@.subrange(8, old(dst)@.len() as int) =~= old(dst)@.subrange(8, old(dst)@.len() as int));
}

/// The number whose bytes begin `src`.
pub fn read_u64(src: &[u8]) -> (r: u64)
    requires
        src@.len() >= 8,
    ensures
        r == from_le_bytes(src@),
{
    (src[0] as u64) | ((src[1] as u64) << 8u64) | ((src[2] as u64) << 16u64) | ((src[3] as u64)
        << 24u64) | ((src[4] as u64) << 32u64) | ((src[5] as u64) << 40u64) | ((src[6] as u64)
        << 48u64) | ((src[7] as u64) << 56u64)
}

/// Copy the first `n` bytes of `src` to the start of `dst`.
pub fn copy_prefix(dst: &mut [u8], src: &[u8], n: usize)
    requires
        n <= src@.len(),
        n <= old(dst)@.len(),
    ensures
        final(dst)@.len() == old(dst)@.len(),
        final(dst)@ == src@.subrange(0, n as int) + old(dst)@.subrange(n as int, old(dst)@.len() as int),
{
    let mut i: usize = 0;
    while i < n
        invariant
            i <= n,
            n <= src@.len(),
            n <= old(dst)@.len(),
            dst@.len() == old(dst)@.len(),
            dst@ == src@.subrange(0, i as int) + old(dst)@.subrange(i as int, old(dst)@.len() as int),
        decreases n - i,
    {
        dst[i] = src[i];
        i = i + 1;
        assert(dst@ =~= src@.subrange(0, i as int) + old(dst)@.subrange(i as int, old(dst)@.len() as int));
    }
}

/// A buffer holding the bytes of `src`.
pub fn to_vec(src: &[u8]) -> (r: Vec<u8>)
    ensures
        r@ == src@,
{
    let mut r: Vec<u8> = Vec::new();
    let mut i: usize = 0;
    while i < src.len()
        invariant
            i <= src@.len(),
            r@ == src@.subrange(0, i as int),
        decreases src@.len() - i,
    {
        r.push(src[i]);
        i = i + 1;
        assert(r@ =~= src@.subrange(0, i as int));
    }
    assert(r@ =~= src@);
    r
}

} // verus!
