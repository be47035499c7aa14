//! The bit layout of the two packed words of an application record.

use crate::uint256::{lemma_half_base, Uint256};
use vstd::arithmetic::power2::*;
use vstd::bits::*;
use vstd::prelude::*;

verus! {

/// The fields of an application record.
#[derive(Clone, Copy, Debug, PartialEq, Eq, Structural)]
pub enum AppField {
    SubmissionDate,
    ApprovalDate,
    ExpirationDate,
    LicenseFee,
    ReportingFrequency,
    ReportingGracePeriod,
    RoyaltyGracePeriod,
    UntimelyReports,
    UntimelyRoyaltyPayments,
    ExtraData,
}

/// Where a field sits: the index of its word (0 or 1), its lowest bit and its width.
#[derive(Clone, Copy, Debug, PartialEq, Eq, Structural)]
pub struct FieldLayout {
    pub word: usize,
    pub offset: u32,
    pub width: u32,
}

/// The index of the word that holds the field.
pub open spec fn word_of(f: AppField) -> nat {
    match f {
        AppField::SubmissionDate | AppField::ApprovalDate | AppField::ExpirationDate
        | AppField::LicenseFee => 0,
        _ => 1,
    }
}

/// The position of the field's lowest bit in its word.
pub open spec fn offset_of(f: AppField) -> nat {
    match f {
        AppField::SubmissionDate => 0,
        AppField::ApprovalDate => 40,
        AppField::ExpirationDate => 80,
        AppField::LicenseFee => 120,
        AppField::ReportingFrequency => 0,
        AppField::ReportingGracePeriod => 32,
        AppField::RoyaltyGracePeriod => 64,
        AppField::UntimelyReports => 96,
        AppField::UntimelyRoyaltyPayments => 104,
        AppField::ExtraData => 112,
    }
}

/// The number of bits of the field.
pub open spec fn width_of(f: AppField) -> nat {
    match f {
        AppField::SubmissionDate | AppField::ApprovalDate | AppField::ExpirationDate => 40,
        AppField::LicenseFee => 136,
        AppField::ReportingFrequency | AppField::ReportingGracePeriod
        | AppField::RoyaltyGracePeriod => 32,
        AppField::UntimelyReports | AppField::UntimelyRoyaltyPayments => 8,
        AppField::ExtraData => 144,
    }
}

/// Each field lies inside its 256-bit word, and two fields of one word share no bit.
pub proof fn lemma_layout_disjoint()
    ensures
        forall|f: AppField| 0 < #[trigger] width_of(f) && offset_of(f) + width_of(f) <= 256,
        forall|f: AppField, g: AppField|
            f != g && #[trigger] word_of(f) == #[trigger] word_of(g) ==> offset_of(f) + width_of(f)
                <= offset_of(g) || offset_of(g) + width_of(g) <= offset_of(f),
{
}

/// The layout of a field.
pub fn field_layout(f: AppField) -> (r: FieldLayout)
    ensures
        r.word as nat == word_of(f),
        r.offset as nat == offset_of(f),
        r.width as nat == width_of(f),
{
    match f {
        AppField::SubmissionDate => FieldLayout { word: 0, offset: 0, width: 40 },
        AppField::ApprovalDate => FieldLayout { word: 0, offset: 40, width: 40 },
        AppField::ExpirationDate => FieldLayout { word: 0, offset: 80, width: 40 },
        AppField::LicenseFee => FieldLayout { word: 0, offset: 120, width: 136 },
        AppField::ReportingFrequency => FieldLayout { word: 1, offset: 0, width: 32 },
        AppField::ReportingGracePeriod => FieldLayout { word: 1, offset: 32, width: 32 },
        AppField::RoyaltyGracePeriod => FieldLayout { word: 1, offset: 64, width: 32 },
        AppField::UntimelyReports => FieldLayout { word: 1, offset: 96, width: 8 },
        AppField::UntimelyRoyaltyPayments => FieldLayout { word: 1, offset: 104, width: 8 },
        AppField::ExtraData => FieldLayout { word: 1, offset: 112, width: 144 },
    }
}

/// The position of the field's lowest bit in its word.
pub fn bitpos(f: AppField) -> (r: u32)
    ensures
        r as nat == offset_of(f),
{
    field_layout(f).offset
}

/// `2^n - 1` as `2^128 - 1` shifted right by `128 - n`.
proof fn lemma_all_ones_shr(n: nat)
    requires
        0 < n < 128,
    ensures
        (u128::MAX >> ((128 - n) as u128)) as nat == pow2(n) - 1,
        pow2(n) <= u128::MAX,
{
    let s = (128 - n) as nat;
    lemma_half_base();
    lemma_u128_shr_is_div(u128::MAX, s as u128);
    lemma_pow2_adds(n, s);
    lemma_pow2_pos(n);
    lemma_pow2_pos(s);
    lemma_pow2_strictly_increases(n, 128);
    let a = pow2(n);
    let b = pow2(s);
    assert((a - 1) * b + (b - 1) == a * b - 1) by (nonlinear_arith);
    vstd::arithmetic::div_mod::lemma_fundamental_div_mod_converse(
        u128::MAX as int,
        b as int,
        (a - 1) as int,
        (b - 1) as int,
    );
}

/// The mask of the field's width, `2^width - 1`.
pub fn bitmask(f: AppField) -> (r: Uint256)
    ensures
        r@ == pow2(width_of(f)) - 1,
{
    let width = field_layout(f).width;
    proof {
        lemma_half_base();
    }
    if width < 128 {
        proof {
            lemma_all_ones_shr(width as nat);
        }
        Uint256 { lo: u128::MAX >> (128 - width), hi: 0 }
    } else {
        let extra: u32 = width - 128;
        let hi: u128 = u128::MAX >> (128 - extra);
        proof {
            lemma_all_ones_shr(extra as nat);
            lemma_pow2_adds(128, extra as nat);
            let b = pow2(128);
            let k = pow2(extra as nat);
            assert((b - 1) + (k - 1) * b == b * k - 1) by (nonlinear_arith);
        }
        Uint256 { lo: u128::MAX, hi }
    }
}

} // verus!
