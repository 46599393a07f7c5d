//! A float-free model of the scalar numbers that appear in room documents.
//!
//! Document numbers are decimal literals.  They are kept exactly, in a
//! normalized scientific form `(-1)^negative * mantissa * 10^exponent`
//! with a mantissa that is zero or not divisible by ten.  Normalization
//! makes structural equality coincide with numeric equality of the
//! written literals, which is what change detection compares.

use vstd::prelude::*;

verus! {

/// An exact decimal scalar in normalized scientific form.
#[derive(Clone, Copy, PartialEq, Eq, Structural, Debug)]
pub struct Number {
    pub negative: bool,
    pub mantissa: u64,
    pub exponent: i64,
}

/// Largest magnitude `from_parts` accepts for the incoming exponent.
pub const EXPONENT_LIMIT: i64 = 0x1000_0000_0000_0000;

/// Ten to the `k`.
pub open spec fn pow10(k: nat) -> nat
    decreases k,
{
    if k == 0 {
        1
    } else {
        10 * pow10((k - 1) as nat)
    }
}

/// Powers of ten grow with the exponent.
pub proof fn lemma_pow10_increases(j: nat, k: nat)
    requires
        j <= k,
    ensures
        pow10(j) <= pow10(k),
    decreases k,
{
    if j < k {
        lemma_pow10_increases(j, (k - 1) as nat);
    }
}

impl Number {
    /// The representation every `Number` handed out by this module has:
    /// zero is unsigned with exponent zero, and a nonzero mantissa has
    /// no trailing decimal zeros.
    pub open spec fn is_normalized(self) -> bool {
        &&& (self.mantissa == 0 ==> !self.negative && self.exponent == 0)
        &&& (self.mantissa != 0 ==> self.mantissa % 10 != 0)
        &&& -EXPONENT_LIMIT - 20 <= self.exponent <= EXPONENT_LIMIT + 20
    }

    /// What normalizing a sign/mantissa/exponent triple yields.
    pub open spec fn spec_normalize(negative: bool, mantissa: u64, exponent: int) -> Number
        decreases mantissa,
    {
        if mantissa == 0 {
            Number { negative: false, mantissa: 0, exponent: 0 }
        } else if mantissa % 10 == 0 {
            Self::spec_normalize(negative, mantissa / 10, exponent + 1)
        } else {
            Number { negative, mantissa, exponent: exponent as i64 }
        }
    }

    /// Builds the normalized number `(-1)^negative * mantissa * 10^exponent`.
    pub fn from_parts(negative: bool, mantissa: u64, exponent: i64) -> (r: Number)
        requires
            -EXPONENT_LIMIT <= exponent <= EXPONENT_LIMIT,
        ensures
            r == Self::spec_normalize(negative, mantissa, exponent as int),
            r.is_normalized(),
    {
        let mut m: u64 = mantissa;
        let mut e: i64 = exponent;
        let ghost mut k: nat = 0;
        proof {
            assert(pow10(0) == 1);
        }
        while m != 0 && m % 10 == 0
            invariant
                -EXPONENT_LIMIT <= exponent <= EXPONENT_LIMIT,
                e == exponent + k,
                m as nat * pow10(k) <= mantissa as nat,
                m != 0 ==> pow10(k) <= mantissa as nat,
                k <= 20,
                Self::spec_normalize(negative, m, e as int) == Self::spec_normalize(
                    negative,
                    mantissa,
                    exponent as int,
                ),
            decreases m,
        {
            proof {
                assert(pow10(k + 1) == 10 * pow10(k));
                assert((m / 10) as nat * pow10(k + 1) <= m as nat * pow10(k)) by (nonlinear_arith)
                    requires
                        m % 10 == 0,
                        m != 0,
                ;
                assert(m / 10 != 0 ==> pow10(k + 1) <= (m / 10) as nat * pow10(k + 1))
                    by (nonlinear_arith);
                if k + 1 > 20 {
                    assert(pow10(21) > u64::MAX as nat) by {
                        reveal_with_fuel(pow10, 22);
                    }
                    lemma_pow10_increases(21, k + 1);
                    assert(false);
                }
                k = k + 1;
            }
            m = m / 10;
            e = e + 1;
        }
        proof {
            lemma_normalize_fixes(negative, m, e as int);
        }
        Number { negative: if m == 0 { false } else { negative }, mantissa: m, exponent: if m == 0 { 0 } else { e } }
    }
}

proof fn lemma_normalize_fixes(negative: bool, mantissa: u64, exponent: int)
    requires
        mantissa == 0 || mantissa % 10 != 0,
    ensures
        mantissa == 0 ==> Number::spec_normalize(negative, mantissa, exponent) == (Number {
            negative: false,
            mantissa: 0,
            exponent: 0,
        }),
        mantissa != 0 ==> Number::spec_normalize(negative, mantissa, exponent) == (Number {
            negative,
            mantissa,
            exponent: exponent as i64,
        }),
{
}

} // verus!
