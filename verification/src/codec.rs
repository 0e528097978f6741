//! The length-prefix codec: every frame in the ring starts with a 32-bit
//! size encoded as four little-endian bytes, independent of the host's
//! byte order.

use vstd::prelude::*;

verus! {

/// The four little-endian bytes that encode a 32-bit length prefix.
pub open spec fn le_bytes(v: u32) -> Seq<u8> {
    seq![
        (v & 0xff) as u8,
        ((v >> 8) & 0xff) as u8,
        ((v >> 16) & 0xff) as u8,
        ((v >> 24) & 0xff) as u8,
    ]
}

/// Two distinct 32-bit values never share a little-endian encoding.
pub proof fn lemma_le_bytes_injective(a: u32, b: u32)
    requires
        le_bytes(a) == le_bytes(b),
    ensures
        a == b,
{
    assert(le_bytes(a)[0] == le_bytes(b)[0]);
    assert(le_bytes(a)[1] == le_bytes(b)[1]);
    assert(le_bytes(a)[2] == le_bytes(b)[2]);
    assert(le_bytes(a)[3] == le_bytes(b)[3]);
    assert((a & 0xff) as u8 == (b & 0xff) as u8
        && ((a >> 8) & 0xff) as u8 == ((b >> 8) & 0xff) as u8
        && ((a >> 16) & 0xff) as u8 == ((b >> 16) & 0xff) as u8
        && ((a >> 24) & 0xff) as u8 == ((b >> 24) & 0xff) as u8 ==> a == b) by (bit_vector);
}

/// Reads the little-endian 32-bit prefix stored at `at`.
pub fn read_le32(buf: &Vec<u8>, at: usize) -> (r: u32)
    requires
        at + 4 <= buf.len(),
    ensures
        buf@.subrange(at as int, at as int + 4) == le_bytes(r),
{
    let b0 = buf[at];
    let b1 = buf[at + 1];
    let b2 = buf[at + 2];
    let b3 = buf[at + 3];
    let r = b0 as u32 | (b1 as u32) << 8 | (b2 as u32) << 16 | (b3 as u32) << 24;
    proof {
        let v = b0 as u32 | (b1 as u32) << 8 | (b2 as u32) << 16 | (b3 as u32) << 24;
        assert((v & 0xff) as u8 == b0 && ((v >> 8) & 0xff) as u8 == b1
            && ((v >> 16) & 0xff) as u8 == b2 && ((v >> 24) & 0xff) as u8 == b3) by (bit_vector)
            requires v == b0 as u32 | (b1 as u32) << 8 | (b2 as u32) << 16 | (b3 as u32) << 24;
        assert(buf@.subrange(at as int, at as int + 4) =~= le_bytes(r));
    }
    r
}

/// Stores `v` as four little-endian bytes at `at`, leaving every other
/// byte of `buf` unchanged.
pub fn write_le32(buf: &mut Vec<u8>, at: usize, v: u32)
    requires
        at + 4 <= old(buf).len(),
    ensures
        final(buf)@.len() == old(buf)@.len(),
        final(buf)@.subrange(at as int, at as int + 4) == le_bytes(v),
        forall|i: int|
            0 <= i < old(buf)@.len() && !(at <= i < at + 4) ==> final(buf)@[i] == old(buf)@[i],
{
    buf[at] = #[verifier::truncate] ((v & 0xff) as u8);
    buf[at + 1] = #[verifier::truncate] (((v >> 8) & 0xff) as u8);
    buf[at + 2] = #[verifier::truncate] (((v >> 16) & 0xff) as u8);
    buf[at + 3] = #[verifier::truncate] (((v >> 24) & 0xff) as u8);
    proof {
        assert(buf@.subrange(at as int, at as int + 4) =~= le_bytes(v));
    }
}

/// Copies `data` into `buf` starting at `at`, leaving every other byte of
/// `buf` unchanged.
pub fn write_bytes(buf: &mut Vec<u8>, at: usize, data: &[u8])
    requires
        at + data@.len() <= old(buf).len(),
    ensures
        final(buf)@.len() == old(buf)@.len(),
        final(buf)@.subrange(at as int, at as int + data@.len()) == data@,
        forall|i: int|
            0 <= i < old(buf)@.len() && !(at <= i < at + data@.len()) ==> final(buf)@[i] == old(
                buf,
            )@[i],
{
    let n = data.len();
    let mut i: usize = 0;
    while i < n
        invariant
            n == data@.len(),
            0 <= i <= n,
            at + n <= buf.len(),
            buf@.len() == old(buf)@.len(),
            forall|j: int| 0 <= j < i ==> buf@[at + j] == data@[j],
            forall|j: int|
                0 <= j < old(buf)@.len() && !(at <= j < at + n) ==> buf@[j] == old(buf)@[j],
        decreases n - i,
    {
        buf[at + i] = data[i];
        i += 1;
    }
    proof {
        assert(buf@.subrange(at as int, at as int + data@.len()) =~= data@);
    }
}

/// Copies the `n` bytes of `buf` starting at `at` into a fresh vector.
pub fn read_bytes(buf: &Vec<u8>, at: usize, n: usize) -> (r: Vec<u8>)
    requires
        at + n <= buf.len(),
    ensures
        r@ == buf@.subrange(at as int, at as int + n),
{
    let mut r: Vec<u8> = Vec::new();
    let mut i: usize = 0;
    while i < n
        invariant
            0 <= i <= n,
            at + n <= buf.len(),
            r@.len() == i,
            forall|j: int| 0 <= j < i ==> r@[j] == buf@[at + j],
        decreases n - i,
    {
        r.push(buf[at + i]);
        i += 1;
    }
    proof {
        assert(r@ =~= buf@.subrange(at as int, at as int + n));
    }
    r
}

} // verus!
