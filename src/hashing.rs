//! The canonical hash engine: SHA-256 of a canonical encoding, held as a
//! 256-bit integer.
use vstd::prelude::*;
use crate::encoding::le_u256;
use crate::u256::U256;

verus! {

/// The hexadecimal SHA-256 digest of `b`, as the `sha256` crate renders it.
pub uninterp spec fn sha256_hex_of(b: Seq<u8>) -> Seq<char>;

/// A lowercase hexadecimal digit.
pub open spec fn is_lower_hex_char(c: char) -> bool {
    ('0' <= c && c <= '9') || ('a' <= c && c <= 'f')
}

/// A hexadecimal digit of either case.
pub open spec fn is_hex_char(c: char) -> bool {
    is_lower_hex_char(c) || ('A' <= c && c <= 'F')
}

/// The value of a hexadecimal digit.
pub open spec fn hex_char_value(c: char) -> int {
    if '0' <= c && c <= '9' {
        c as int - '0' as int
    } else if 'a' <= c && c <= 'f' {
        c as int - 'a' as int + 10
    } else {
        c as int - 'A' as int + 10
    }
}

/// The bytes that a string of hexadecimal digit pairs stands for.
pub open spec fn hex_decoded(s: Seq<char>) -> Seq<u8> {
    Seq::new(s.len() / 2, |i: int| (hex_char_value(s[2 * i]) * 16 + hex_char_value(s[2 * i + 1])) as u8)
}

/// Relies on `sha256::digest`: the SHA-256 digest of the bytes, as 64 lowercase
/// hexadecimal digits (it is `hex::encode` of the 32-byte digest).
#[verifier::external_body]
fn sha256_hex(data: &Vec<u8>) -> (r: String)
    ensures
        r@ == sha256_hex_of(data@),
        r@.len() == 64,
        forall|i: int| 0 <= i < r@.len() ==> is_lower_hex_char(#[trigger] r@[i]),
{
    sha256::digest(data)
}

/// Relies on `hex::decode`: it accepts exactly the even-length strings of
/// hexadecimal digits of either case, and decodes each pair to one byte.
#[verifier::external_body]
fn decode_hex(s: &String) -> (r: Option<Vec<u8>>)
    ensures
        r is Some <==> (s@.len() % 2 == 0 && forall|i: int| 0 <= i < s@.len() ==> is_hex_char(#[trigger] s@[i])),
        r is Some ==> r->0@ == hex_decoded(s@),
{
    hex::decode(s).ok()
}

/// The lowercase hexadecimal digit for `v`, below 16.
pub open spec fn lower_hex_digit(v: int) -> char {
    if v < 10 {
        (v + '0' as int) as char
    } else {
        (v - 10 + 'a' as int) as char
    }
}

/// Two lowercase hexadecimal digits per byte, high nibble first.
pub open spec fn hex_encoded(b: Seq<u8>) -> Seq<char> {
    Seq::new(2 * b.len(), |i: int| if i % 2 == 0 {
        lower_hex_digit(b[i / 2] as int / 16)
    } else {
        lower_hex_digit(b[i / 2] as int % 16)
    })
}

/// Relies on `hex::encode`: two lowercase digits for each byte, high nibble first.
#[verifier::external_body]
fn encode_hex(b: &[u8]) -> (r: String)
    ensures
        r@ == hex_encoded(b@),
{
    hex::encode(b)
}

/// The 32 big-endian bytes of a 256-bit integer, most significant first.
pub open spec fn be_u256(u: U256) -> Seq<u8> {
    le_u256(u).reverse()
}

/// The 64-bit word held big-endian in `s[i..i + 8]`.
pub open spec fn be_u64_at(s: Seq<u8>, i: int) -> u64 {
    (s[i + 0] as int * 0x100000000000000 + s[i + 1] as int * 0x1000000000000 + s[i + 2] as int * 0x10000000000 + s[i + 3] as int * 0x100000000 + s[i + 4] as int * 0x1000000 + s[i + 5] as int * 0x10000 + s[i + 6] as int * 0x100 + s[i + 7] as int) as u64
}

/// The 256-bit integer held big-endian in the 32 bytes of `s`.
pub open spec fn u256_from_be(s: Seq<u8>) -> U256 {
    U256 { w0: be_u64_at(s, 24), w1: be_u64_at(s, 16), w2: be_u64_at(s, 8), w3: be_u64_at(s, 0) }
}

/// The hash of a byte string: its SHA-256 digest read as a big-endian 256-bit integer.
pub open spec fn digest_hash(b: Seq<u8>) -> Hash {
    Hash(u256_from_be(hex_decoded(sha256_hex_of(b))))
}

/// The all-zero hash.
pub open spec fn zero_hash() -> Hash {
    Hash(U256 { w0: 0, w1: 0, w2: 0, w3: 0 })
}

/// A 256-bit digest.
#[derive(Clone, Copy, Debug, PartialEq, Eq, Structural, Hash)]
pub struct Hash(pub U256);

impl Hash {
    /// The 32 little-endian bytes of the digest.
    pub open spec fn le_bytes(self) -> Seq<u8> {
        le_u256(self.0)
    }

    /// The display form: 64 lowercase hexadecimal digits, most significant first.
    pub fn to_hex(&self) -> (r: String)
        ensures
            r@ == hex_encoded(be_u256(self.0)),
    {
        let le = self.as_bytes();
        let mut be: Vec<u8> = Vec::new();
        let mut i: usize = 0;
        while i < 32
            invariant
                i <= 32,
                le@ == self.le_bytes(),
                le@.len() == 32,
                be@ == le@.reverse().take(i as int),
            decreases 32 - i,
        {
            be.push(le[31 - i]);
            i = i + 1;
            assert(be@ =~= le@.reverse().take(i as int));
        }
        assert(le@.reverse().take(32) =~= le@.reverse());
        encode_hex(be.as_slice())
    }

    /// Hashes a canonical encoding.
    pub fn hash(data: &Vec<u8>) -> (r: Hash)
        ensures
            r == digest_hash(data@),
    {
        let hex = sha256_hex(data);
        assert forall|i: int| 0 <= i < hex@.len() implies is_hex_char(#[trigger] hex@[i]) by {
            assert(is_lower_hex_char(hex@[i]));
        }
        match decode_hex(&hex) {
            Some(bytes) => Hash(u256_from_be_bytes(&bytes)),
            None => {
                assert(false);
                Hash::zero()
            },
        }
    }

    /// Proof-of-work test: the digest, as an integer, is at most `target`.
    pub fn matches_target(&self, target: U256) -> (r: bool)
        ensures
            r == (self.0.value() <= target.value()),
    {
        self.0.le(&target)
    }

    /// The all-zero hash that marks "no predecessor".
    pub fn zero() -> (r: Hash)
        ensures
            r == zero_hash(),
            r.0.value() == 0,
    {
        Hash(U256::zero())
    }

    /// The 32 little-endian bytes of the digest.
    pub fn as_bytes(&self) -> (r: [u8; 32])
        ensures
            r@ == self.le_bytes(),
    {
        proof {
            reveal(crate::encoding::le_u64);
        }
        let u = self.0;
        let r = [
            u.w0 as u8,
            (u.w0 >> 8u64) as u8,
            (u.w0 >> 16u64) as u8,
            (u.w0 >> 24u64) as u8,
            (u.w0 >> 32u64) as u8,
            (u.w0 >> 40u64) as u8,
            (u.w0 >> 48u64) as u8,
            (u.w0 >> 56u64) as u8,
            u.w1 as u8,
            (u.w1 >> 8u64) as u8,
            (u.w1 >> 16u64) as u8,
            (u.w1 >> 24u64) as u8,
            (u.w1 >> 32u64) as u8,
            (u.w1 >> 40u64) as u8,
            (u.w1 >> 48u64) as u8,
            (u.w1 >> 56u64) as u8,
            u.w2 as u8,
            (u.w2 >> 8u64) as u8,
            (u.w2 >> 16u64) as u8,
            (u.w2 >> 24u64) as u8,
            (u.w2 >> 32u64) as u8,
            (u.w2 >> 40u64) as u8,
            (u.w2 >> 48u64) as u8,
            (u.w2 >> 56u64) as u8,
            u.w3 as u8,
            (u.w3 >> 8u64) as u8,
            (u.w3 >> 16u64) as u8,
            (u.w3 >> 24u64) as u8,
            (u.w3 >> 32u64) as u8,
            (u.w3 >> 40u64) as u8,
            (u.w3 >> 48u64) as u8,
            (u.w3 >> 56u64) as u8
        ];
        assert(r@ =~= self.le_bytes());
        r
    }
}

/// Reads 32 big-endian bytes as a 256-bit integer.
fn u256_from_be_bytes(b: &Vec<u8>) -> (r: U256)
    requires
        b@.len() == 32,
    ensures
        r == u256_from_be(b@),
{
    U256 { w0: be_u64_from(b, 24), w1: be_u64_from(b, 16), w2: be_u64_from(b, 8), w3: be_u64_from(b, 0) }
}

/// Reads the big-endian word at `b[i..i + 8]`.
fn be_u64_from(b: &Vec<u8>, i: usize) -> (r: u64)
    requires
        b@.len() == 32,
        i <= 24,
    ensures
        r == be_u64_at(b@, i as int),
{
    let b0 = b[i + 0] as u64;
    let b1 = b[i + 1] as u64;
    let b2 = b[i + 2] as u64;
    let b3 = b[i + 3] as u64;
    let b4 = b[i + 4] as u64;
    let b5 = b[i + 5] as u64;
    let b6 = b[i + 6] as u64;
    let b7 = b[i + 7] as u64;
    b0 * 0x100000000000000 + b1 * 0x1000000000000 + b2 * 0x10000000000 + b3 * 0x100000000 + b4 * 0x1000000 + b5 * 0x10000 + b6 * 0x100 + b7
}

} // verus!
