//! The canonical byte encoding: fixed field order, fixed-width little-endian
//! integers, and a 64-bit length in front of every variable-length part.
use vstd::prelude::*;
use crate::u256::U256;

verus! {

/// The eight little-endian bytes of `x`.
#[verifier::opaque]
pub open spec fn le_u64(x: u64) -> Seq<u8> {
    seq![x as u8, (x >> 8) as u8, (x >> 16) as u8, (x >> 24) as u8, (x >> 32) as u8, (x >> 40) as u8, (x >> 48) as u8, (x >> 56) as u8]
}

/// Eight bytes.
pub broadcast proof fn lemma_le_u64_len(x: u64)
    ensures
        #[trigger] le_u64(x).len() == 8,
{
    reveal(le_u64);
}

/// The sixteen little-endian bytes of `x`.
pub open spec fn le_u128(x: u128) -> Seq<u8> {
    le_u64(x as u64) + le_u64((x >> 64u128) as u64)
}

/// The two's-complement little-endian bytes of `x`.
pub open spec fn le_i64(x: i64) -> Seq<u8> {
    le_u64(x as u64)
}

/// A byte string preceded by its length.
pub open spec fn enc_bytes(b: Seq<u8>) -> Seq<u8> {
    le_u64(b.len() as u64) + b
}

/// The 32 little-endian bytes of a 256-bit integer, least significant word first.
pub open spec fn le_u256(u: U256) -> Seq<u8> {
    le_u64(u.w0) + le_u64(u.w1) + le_u64(u.w2) + le_u64(u.w3)
}

/// The encodings of the items of `s`, one after another.
pub open spec fn concat_enc<A>(s: Seq<A>, f: spec_fn(A) -> Seq<u8>) -> Seq<u8>
    decreases s.len(),
{
    if s.len() == 0 {
        seq![]
    } else {
        concat_enc(s.drop_last(), f) + f(s.last())
    }
}

/// Encoding one more item of a sequence appends that item's encoding.
pub proof fn lemma_concat_enc_step<A>(s: Seq<A>, f: spec_fn(A) -> Seq<u8>, i: int)
    requires
        0 <= i < s.len(),
    ensures
        concat_enc(s.take(i + 1), f) == concat_enc(s.take(i), f) + f(s[i]),
{
    assert(s.take(i + 1).drop_last() =~= s.take(i));
}

/// Appends the little-endian bytes of `x`.
pub fn push_u64(buf: &mut Vec<u8>, x: u64)
    ensures
        final(buf)@ == old(buf)@ + le_u64(x),
{
    reveal(le_u64);
        buf.push(x as u8);
        buf.push((x >> 8u64) as u8);
        buf.push((x >> 16u64) as u8);
        buf.push((x >> 24u64) as u8);
        buf.push((x >> 32u64) as u8);
        buf.push((x >> 40u64) as u8);
        buf.push((x >> 48u64) as u8);
        buf.push((x >> 56u64) as u8);
        assert(buf@ =~= old(buf)@ + le_u64(x));
}

/// Appends the little-endian bytes of `x`.
pub fn push_u128(buf: &mut Vec<u8>, x: u128)
    ensures
        final(buf)@ == old(buf)@ + le_u128(x),
{
    push_u64(buf, x as u64);
    push_u64(buf, (x >> 64u128) as u64);
    assert(buf@ =~= old(buf)@ + le_u128(x));
}

/// Appends the two's-complement little-endian bytes of `x`.
pub fn push_i64(buf: &mut Vec<u8>, x: i64)
    ensures
        final(buf)@ == old(buf)@ + le_i64(x),
{
    push_u64(buf, x as u64);
}

/// Appends the 32 little-endian bytes of `u`.
pub fn push_u256(buf: &mut Vec<u8>, u: &U256)
    ensures
        final(buf)@ == old(buf)@ + le_u256(*u),
{
    push_u64(buf, u.w0);
    push_u64(buf, u.w1);
    push_u64(buf, u.w2);
    push_u64(buf, u.w3);
    assert(buf@ =~= old(buf)@ + le_u256(*u));
}

/// Appends the raw bytes of `b`.
pub fn push_raw(buf: &mut Vec<u8>, b: &[u8])
    ensures
        final(buf)@ == old(buf)@ + b@,
{
    let mut i: usize = 0;
    while i < b.len()
        invariant
            i <= b@.len(),
            buf@ == old(buf)@ + b@.subrange(0, i as int),
        decreases b@.len() - i,
    {
        buf.push(b[i]);
        i = i + 1;
        assert(buf@ =~= old(buf)@ + b@.subrange(0, i as int));
    }
    assert(b@.subrange(0, b@.len() as int) =~= b@);
}

/// Appends `b` preceded by its length.
pub fn push_bytes(buf: &mut Vec<u8>, b: &[u8])
    ensures
        final(buf)@ == old(buf)@ + enc_bytes(b@),
{
    push_u64(buf, b.len() as u64);
    push_raw(buf, b);
    assert(buf@ =~= old(buf)@ + enc_bytes(b@));
}

/// Different integers have different encodings.
pub proof fn lemma_le_u64_injective(x: u64, y: u64)
    requires
        le_u64(x) == le_u64(y),
    ensures
        x == y,
{
    reveal(le_u64);
    assert(le_u64(x)[0] == le_u64(y)[0]);
    assert(le_u64(x)[1] == le_u64(y)[1]);
    assert(le_u64(x)[2] == le_u64(y)[2]);
    assert(le_u64(x)[3] == le_u64(y)[3]);
    assert(le_u64(x)[4] == le_u64(y)[4]);
    assert(le_u64(x)[5] == le_u64(y)[5]);
    assert(le_u64(x)[6] == le_u64(y)[6]);
    assert(le_u64(x)[7] == le_u64(y)[7]);
    assert(x == y) by (bit_vector)
        requires
            x as u8 == y as u8,
            (x >> 8u64) as u8 == (y >> 8u64) as u8,
            (x >> 16u64) as u8 == (y >> 16u64) as u8,
            (x >> 24u64) as u8 == (y >> 24u64) as u8,
            (x >> 32u64) as u8 == (y >> 32u64) as u8,
            (x >> 40u64) as u8 == (y >> 40u64) as u8,
            (x >> 48u64) as u8 == (y >> 48u64) as u8,
            (x >> 56u64) as u8 == (y >> 56u64) as u8,
    ;
}

/// Different integers have different encodings.
pub proof fn lemma_le_u128_injective(x: u128, y: u128)
    requires
        le_u128(x) == le_u128(y),
    ensures
        x == y,
{
    broadcast use lemma_le_u64_len;

    assert(le_u128(x).subrange(0, 8) =~= le_u64(x as u64));
    assert(le_u128(y).subrange(0, 8) =~= le_u64(y as u64));
    assert(le_u128(x).subrange(8, 16) =~= le_u64((x >> 64u128) as u64));
    assert(le_u128(y).subrange(8, 16) =~= le_u64((y >> 64u128) as u64));
    lemma_le_u64_injective(x as u64, y as u64);
    lemma_le_u64_injective((x >> 64u128) as u64, (y >> 64u128) as u64);
    assert(x == y) by (bit_vector)
        requires
            x as u64 == y as u64,
            (x >> 64u128) as u64 == (y >> 64u128) as u64,
    ;
}

/// Different 256-bit integers have different encodings.
pub proof fn lemma_le_u256_injective(x: U256, y: U256)
    requires
        le_u256(x) == le_u256(y),
    ensures
        x == y,
{
    broadcast use lemma_le_u64_len;

    assert(le_u256(x).subrange(0, 8) =~= le_u64(x.w0));
    assert(le_u256(y).subrange(0, 8) =~= le_u64(y.w0));
    assert(le_u256(x).subrange(8, 16) =~= le_u64(x.w1));
    assert(le_u256(y).subrange(8, 16) =~= le_u64(y.w1));
    assert(le_u256(x).subrange(16, 24) =~= le_u64(x.w2));
    assert(le_u256(y).subrange(16, 24) =~= le_u64(y.w2));
    assert(le_u256(x).subrange(24, 32) =~= le_u64(x.w3));
    assert(le_u256(y).subrange(24, 32) =~= le_u64(y.w3));
    lemma_le_u64_injective(x.w0, y.w0);
    lemma_le_u64_injective(x.w1, y.w1);
    lemma_le_u64_injective(x.w2, y.w2);
    lemma_le_u64_injective(x.w3, y.w3);
}

} // verus!
