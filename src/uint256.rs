//! A 256-bit unsigned integer held as two 128-bit halves.

use vstd::arithmetic::power2::*;
use vstd::bits::*;
use vstd::prelude::*;

verus! {

/// 2^128, the weight of the high half.
pub open spec fn half_base() -> nat {
    pow2(128)
}

/// A 256-bit unsigned integer: `lo + hi * 2^128`.
#[derive(Clone, Copy, Debug, PartialEq, Eq, Structural)]
pub struct Uint256 {
    pub lo: u128,
    pub hi: u128,
}

impl View for Uint256 {
    type V = nat;

    open spec fn view(&self) -> nat {
        self.lo as nat + self.hi as nat * half_base()
    }
}

/// Facts on the powers of two that the 256-bit arithmetic relies on.
pub proof fn lemma_half_base()
    ensures
        half_base() == 0x1_0000_0000_0000_0000_0000_0000_0000_0000,
        pow2(256) == half_base() * half_base(),
{
    lemma2_to64();
    lemma_pow2_adds(64, 64);
    lemma_pow2_adds(128, 128);
}

impl Uint256 {
    /// Zero.
    pub fn zero() -> (r: Uint256)
        ensures
            r@ == 0,
    {
        Uint256 { lo: 0, hi: 0 }
    }

    /// The value of a 128-bit integer.
    pub fn from_u128(v: u128) -> (r: Uint256)
        ensures
            r@ == v as nat,
    {
        Uint256 { lo: v, hi: 0 }
    }

    /// The value of a 64-bit integer.
    pub fn from_u64(v: u64) -> (r: Uint256)
        ensures
            r@ == v as nat,
    {
        Uint256 { lo: v as u128, hi: 0 }
    }

    /// Whether the value is below `2^width`, that is whether it fits in `width` bits.
    pub fn fits_width(&self, width: u32) -> (r: bool)
        requires
            width < 256,
        ensures
            r == (self@ < pow2(width as nat)),
    {
        proof {
            lemma_half_base();
        }
        if width < 128 {
            let top: u128 = self.lo >> width;
            proof {
                lemma_u128_shr_is_div(self.lo, width as u128);
                lemma_pow2_pos(width as nat);
                lemma_below_iff_quotient_zero(self.lo as nat, pow2(width as nat));
                lemma_pow2_strictly_increases(width as nat, 128);
                if self.hi != 0 {
                    assert(self@ >= half_base()) by (nonlinear_arith)
                        requires
                            self@ == self.lo as nat + self.hi as nat * half_base(),
                            self.hi >= 1,
                    ;
                }
            }
            self.hi == 0 && top == 0
        } else if width == 128 {
            proof {
                if self.hi != 0 {
                    assert(self@ >= half_base()) by (nonlinear_arith)
                        requires
                            self@ == self.lo as nat + self.hi as nat * half_base(),
                            self.hi >= 1,
                    ;
                }
            }
            self.hi == 0
        } else {
            let extra: u32 = width - 128;
            let top: u128 = self.hi >> extra;
            proof {
                lemma_u128_shr_is_div(self.hi, extra as u128);
                lemma_pow2_pos(extra as nat);
                lemma_below_iff_quotient_zero(self.hi as nat, pow2(extra as nat));
                lemma_pow2_adds(128, extra as nat);
                let lo = self.lo as nat;
                let hi = self.hi as nat;
                let k = pow2(extra as nat);
                let b = half_base();
                assert((hi < k) == (lo + hi * b < b * k)) by (nonlinear_arith)
                    requires
                        lo < b,
                ;
            }
            top == 0
        }
    }
}

/// A natural number is below a positive bound exactly when its quotient by it is zero.
pub proof fn lemma_below_iff_quotient_zero(x: nat, d: nat)
    requires
        d > 0,
    ensures
        (x < d) == (x / d == 0),
{
    if x < d {
        vstd::arithmetic::div_mod::lemma_fundamental_div_mod_converse(x as int, d as int, 0, x as int);
    } else {
        vstd::arithmetic::div_mod::lemma_div_non_zero(x as int, d as int);
    }
}

} // verus!
