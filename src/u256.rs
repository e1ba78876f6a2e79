//! Unsigned 256-bit integers held as four 64-bit words, least significant first.
use vstd::prelude::*;

verus! {

/// 2^64, the weight of one word.
pub open spec fn word_base() -> nat {
    0x1_0000_0000_0000_0000
}

/// A 256-bit unsigned integer; `w0` is the least significant word.
#[derive(Clone, Copy, Debug, PartialEq, Eq, Structural, Hash)]
pub struct U256 {
    pub w0: u64,
    pub w1: u64,
    pub w2: u64,
    pub w3: u64,
}

impl U256 {
    /// The numeric value of the words taken as base-2^64 digits.
    pub open spec fn value(self) -> nat {
        self.w0 as nat + word_base() * (self.w1 as nat + word_base() * (
        self.w2 as nat + word_base() * self.w3 as nat))
    }

    /// The integer zero.
    pub fn zero() -> (r: U256)
        ensures
            r.value() == 0,
            r == (U256 { w0: 0, w1: 0, w2: 0, w3: 0 }),
    {
        U256 { w0: 0, w1: 0, w2: 0, w3: 0 }
    }

    /// The largest value, 2^256 - 1.
    pub fn max_value() -> (r: U256)
        ensures
            r == (U256 { w0: u64::MAX, w1: u64::MAX, w2: u64::MAX, w3: u64::MAX }),
    {
        U256 { w0: u64::MAX, w1: u64::MAX, w2: u64::MAX, w3: u64::MAX }
    }

    /// Builds the integer from its four words, least significant first.
    pub fn from_words(w0: u64, w1: u64, w2: u64, w3: u64) -> (r: U256)
        ensures
            r == (U256 { w0, w1, w2, w3 }),
    {
        U256 { w0, w1, w2, w3 }
    }

    /// Numeric comparison: `self <= other`.
    pub fn le(&self, other: &U256) -> (r: bool)
        ensures
            r == (self.value() <= other.value()),
    {
        let a = self;
        let b = other;
        proof {
            lemma_value_order(*self, *other);
        }
        if a.w3 != b.w3 {
            a.w3 < b.w3
        } else if a.w2 != b.w2 {
            a.w2 < b.w2
        } else if a.w1 != b.w1 {
            a.w1 < b.w1
        } else {
            a.w0 <= b.w0
        }
    }
}

/// Comparing `lo + m * hi` values digit-wise, when both low parts are below `m`.
proof fn lemma_digit_order(lo1: nat, hi1: nat, lo2: nat, hi2: nat, m: nat)
    requires
        lo1 < m,
        lo2 < m,
    ensures
        (lo1 + m * hi1 <= lo2 + m * hi2) == (hi1 < hi2 || (hi1 == hi2 && lo1 <= lo2)),
{
    if hi1 < hi2 {
        assert(m * hi1 + m <= m * hi2) by (nonlinear_arith)
            requires
                hi1 < hi2,
        ;
    } else if hi1 > hi2 {
        assert(m * hi2 + m <= m * hi1) by (nonlinear_arith)
            requires
                hi2 < hi1,
        ;
    }
}

proof fn lemma_low_bound(lo: nat, d: u64, m: nat)
    requires
        lo < m,
    ensures
        lo + m * d < m * word_base(),
{
    assert(lo + m * d < m * word_base()) by (nonlinear_arith)
        requires
            lo < m,
            d < word_base(),
    ;
}

/// Lexicographic order on the words, most significant first, is the numeric order.
proof fn lemma_value_order(a: U256, b: U256)
    ensures
        (a.value() <= b.value()) == (if a.w3 != b.w3 {
            a.w3 < b.w3
        } else if a.w2 != b.w2 {
            a.w2 < b.w2
        } else if a.w1 != b.w1 {
            a.w1 < b.w1
        } else {
            a.w0 <= b.w0
        }),
{
    let m = word_base();
    let (a0, a1, a2, a3) = (a.w0 as nat, a.w1 as nat, a.w2 as nat, a.w3 as nat);
    let (b0, b1, b2, b3) = (b.w0 as nat, b.w1 as nat, b.w2 as nat, b.w3 as nat);
    // regroup value as low part + weight * top word
    let la1 = a0 + m * a1;
    let lb1 = b0 + m * b1;
    let la2 = la1 + (m * m) * a2;
    let lb2 = lb1 + (m * m) * b2;
    assert(a.value() == la2 + (m * m * m) * a3) by (nonlinear_arith)
        requires
            a.value() == a0 + m * (a1 + m * (a2 + m * a3)),
            la2 == a0 + m * a1 + (m * m) * a2,
    ;
    assert(b.value() == lb2 + (m * m * m) * b3) by (nonlinear_arith)
        requires
            b.value() == b0 + m * (b1 + m * (b2 + m * b3)),
            lb2 == b0 + m * b1 + (m * m) * b2,
    ;
    lemma_low_bound(a0, a.w1, m);
    lemma_low_bound(b0, b.w1, m);
    assert(m * word_base() == m * m);
    lemma_low_bound(la1, a.w2, m * m);
    lemma_low_bound(lb1, b.w2, m * m);
    lemma_digit_order(a0, a1, b0, b1, m);
    lemma_digit_order(la1, a2, lb1, b2, m * m);
    lemma_digit_order(la2, a3, lb2, b3, m * m * m);
}

} // verus!
