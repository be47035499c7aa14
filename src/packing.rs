//! Packing an application record into two 256-bit words, and unpacking it.

use crate::error::ValidationError;
use crate::layout::{offset_of, width_of, word_of, AppField};
use crate::uint256::{half_base, lemma_half_base, Uint256};
use vstd::arithmetic::div_mod::lemma_fundamental_div_mod_converse;
use vstd::arithmetic::power2::*;
use vstd::prelude::*;

verus! {

/// The fields of a license application, each an unsigned integer.
#[derive(Clone, Copy, Debug, PartialEq, Eq, Structural)]
pub struct ApplicationRecord {
    pub submission_date: Uint256,
    pub approval_date: Uint256,
    pub expiration_date: Uint256,
    pub license_fee: Uint256,
    pub reporting_frequency: Uint256,
    pub reporting_grace_period: Uint256,
    pub royalty_grace_period: Uint256,
    pub untimely_reports: Uint256,
    pub untimely_royalty_payments: Uint256,
    pub extra_data: Uint256,
}

/// The values of an application record's fields.
pub struct ApplicationView {
    pub submission_date: nat,
    pub approval_date: nat,
    pub expiration_date: nat,
    pub license_fee: nat,
    pub reporting_frequency: nat,
    pub reporting_grace_period: nat,
    pub royalty_grace_period: nat,
    pub untimely_reports: nat,
    pub untimely_royalty_payments: nat,
    pub extra_data: nat,
}

impl View for ApplicationRecord {
    type V = ApplicationView;

    open spec fn view(&self) -> ApplicationView {
        ApplicationView {
            submission_date: self.submission_date@,
            approval_date: self.approval_date@,
            expiration_date: self.expiration_date@,
            license_fee: self.license_fee@,
            reporting_frequency: self.reporting_frequency@,
            reporting_grace_period: self.reporting_grace_period@,
            royalty_grace_period: self.royalty_grace_period@,
            untimely_reports: self.untimely_reports@,
            untimely_royalty_payments: self.untimely_royalty_payments@,
            extra_data: self.extra_data@,
        }
    }
}

/// The two packed words of an application.
#[derive(Clone, Copy, Debug, PartialEq, Eq, Structural)]
pub struct PackedWords {
    pub first: Uint256,
    pub second: Uint256,
}

/// The value of one field.
pub open spec fn field_value(v: ApplicationView, f: AppField) -> nat {
    match f {
        AppField::SubmissionDate => v.submission_date,
        AppField::ApprovalDate => v.approval_date,
        AppField::ExpirationDate => v.expiration_date,
        AppField::LicenseFee => v.license_fee,
        AppField::ReportingFrequency => v.reporting_frequency,
        AppField::ReportingGracePeriod => v.reporting_grace_period,
        AppField::RoyaltyGracePeriod => v.royalty_grace_period,
        AppField::UntimelyReports => v.untimely_reports,
        AppField::UntimelyRoyaltyPayments => v.untimely_royalty_payments,
        AppField::ExtraData => v.extra_data,
    }
}

/// Whether the field's value fits in its declared width.
pub open spec fn field_fits(v: ApplicationView, f: AppField) -> bool {
    field_value(v, f) < pow2(width_of(f))
}

/// Whether every field fits in its declared width.
pub open spec fn record_fits(v: ApplicationView) -> bool {
    forall|f: AppField| #[trigger] field_fits(v, f)
}

/// The first field, in declaration order, whose value does not fit in its width.
pub open spec fn first_oversized(v: ApplicationView) -> Option<AppField> {
    if !field_fits(v, AppField::SubmissionDate) {
        Some(AppField::SubmissionDate)
    } else if !field_fits(v, AppField::ApprovalDate) {
        Some(AppField::ApprovalDate)
    } else if !field_fits(v, AppField::ExpirationDate) {
        Some(AppField::ExpirationDate)
    } else if !field_fits(v, AppField::LicenseFee) {
        Some(AppField::LicenseFee)
    } else if !field_fits(v, AppField::ReportingFrequency) {
        Some(AppField::ReportingFrequency)
    } else if !field_fits(v, AppField::ReportingGracePeriod) {
        Some(AppField::ReportingGracePeriod)
    } else if !field_fits(v, AppField::RoyaltyGracePeriod) {
        Some(AppField::RoyaltyGracePeriod)
    } else if !field_fits(v, AppField::UntimelyReports) {
        Some(AppField::UntimelyReports)
    } else if !field_fits(v, AppField::UntimelyRoyaltyPayments) {
        Some(AppField::UntimelyRoyaltyPayments)
    } else if !field_fits(v, AppField::ExtraData) {
        Some(AppField::ExtraData)
    } else {
        None
    }
}

/// The value of a packed word: each of its fields shifted to its offset, combined.
pub open spec fn packed_word(v: ApplicationView, word: nat) -> nat {
    if word == 0 {
        v.submission_date + v.approval_date * pow2(40) + v.expiration_date * pow2(80)
            + v.license_fee * pow2(120)
    } else {
        v.reporting_frequency + v.reporting_grace_period * pow2(32) + v.royalty_grace_period
            * pow2(64) + v.untimely_reports * pow2(96) + v.untimely_royalty_payments * pow2(104)
            + v.extra_data * pow2(112)
    }
}

/// What packing gives: the first oversized field as an error, else the two word values.
pub open spec fn pack_outcome(v: ApplicationView) -> Result<(nat, nat), ValidationError> {
    match first_oversized(v) {
        Some(f) => Err(ValidationError::FieldOutOfRange(f)),
        None => Ok((packed_word(v, 0), packed_word(v, 1))),
    }
}

/// The word values of a packing result.
pub open spec fn outcome_view(r: Result<PackedWords, ValidationError>) -> Result<
    (nat, nat),
    ValidationError,
> {
    match r {
        Ok(w) => Ok((w.first@, w.second@)),
        Err(e) => Err(e),
    }
}

/// The `width` bits of `word` that start at bit `offset`: `(word >> offset) & (2^width - 1)`.
pub open spec fn extract(word: nat, offset: nat, width: nat) -> nat {
    (word / pow2(offset)) % pow2(width)
}

/// The record that the two word values hold, field by field.
pub open spec fn unpacked(first: nat, second: nat) -> ApplicationView {
    ApplicationView {
        submission_date: extract(first, 0, 40),
        approval_date: extract(first, 40, 40),
        expiration_date: extract(first, 80, 40),
        license_fee: extract(first, 120, 136),
        reporting_frequency: extract(second, 0, 32),
        reporting_grace_period: extract(second, 32, 32),
        royalty_grace_period: extract(second, 64, 32),
        untimely_reports: extract(second, 96, 8),
        untimely_royalty_payments: extract(second, 104, 8),
        extra_data: extract(second, 112, 144),
    }
}

/// The powers of two at the field boundaries.
pub proof fn lemma_layout_powers()
    ensures
        pow2(0) == 1,
        pow2(8) == 0x100,
        pow2(16) == 0x1_0000,
        pow2(32) == 0x1_0000_0000,
        pow2(40) == 0x100_0000_0000,
        pow2(64) == 0x1_0000_0000_0000_0000,
        pow2(80) == 0x1_0000_0000_0000_0000_0000,
        pow2(96) == 0x1_0000_0000_0000_0000_0000_0000,
        pow2(104) == 0x100_0000_0000_0000_0000_0000_0000,
        pow2(112) == 0x1_0000_0000_0000_0000_0000_0000_0000,
        pow2(120) == 0x100_0000_0000_0000_0000_0000_0000_0000,
        pow2(128) == 0x1_0000_0000_0000_0000_0000_0000_0000_0000,
        pow2(48) == 0x1_0000_0000_0000,
        pow2(72) == 0x100_0000_0000_0000_0000,
{
    lemma2_to64();
    lemma_pow2_adds(64, 8);
    lemma_pow2_adds(64, 16);
    lemma_pow2_adds(64, 32);
    lemma_pow2_adds(64, 40);
    lemma_pow2_adds(64, 48);
    lemma_pow2_adds(64, 56);
    lemma_pow2_adds(64, 64);
    lemma2_to64_rest();
}

/// A field placed between lower and higher content is recovered by extraction.
pub proof fn lemma_extract_placed(low: nat, v: nat, high: nat, offset: nat, width: nat)
    requires
        low < pow2(offset),
        v < pow2(width),
    ensures
        extract(low + v * pow2(offset) + high * pow2(offset + width), offset, width) == v,
{
    let p = pow2(offset);
    let q = pow2(width);
    lemma_pow2_pos(offset);
    lemma_pow2_pos(width);
    lemma_pow2_adds(offset, width);
    let total = low + v * p + high * pow2(offset + width);
    assert(total == (v + high * q) * p + low) by (nonlinear_arith)
        requires
            total == low + v * p + high * pow2(offset + width),
            pow2(offset + width) == p * q,
    ;
    lemma_fundamental_div_mod_converse(total as int, p as int, (v + high * q) as int, low as int);
    lemma_fundamental_div_mod_converse((v + high * q) as int, q as int, high as int, v as int);
}

/// Extracting bits below 2^128 reads only the low half.
pub proof fn lemma_extract_low_half(lo: nat, hi: nat, offset: nat, width: nat)
    requires
        lo < pow2(128),
        offset + width <= 128,
    ensures
        extract(lo + hi * pow2(128), offset, width) == extract(lo, offset, width),
{
    let p = pow2(offset);
    let q = pow2(width);
    let rest = (128 - offset - width) as nat;
    lemma_pow2_pos(offset);
    lemma_pow2_pos(width);
    lemma_pow2_adds(offset, (128 - offset) as nat);
    lemma_pow2_adds(width, rest);
    let m = pow2((128 - offset) as nat);
    let lq = lo / p;
    let lr = lo % p;
    vstd::arithmetic::div_mod::lemma_fundamental_div_mod(lo as int, p as int);
    let total = lo + hi * pow2(128);
    assert(total == (lq + hi * m) * p + lr) by (nonlinear_arith)
        requires
            total == lo + hi * pow2(128),
            lo == lq * p + lr,
            pow2(128) == p * m,
    ;
    lemma_fundamental_div_mod_converse(total as int, p as int, (lq + hi * m) as int, lr as int);
    let hq = lq / q;
    let hr = lq % q;
    vstd::arithmetic::div_mod::lemma_fundamental_div_mod(lq as int, q as int);
    assert(lq + hi * m == (hq + hi * pow2(rest)) * q + hr) by (nonlinear_arith)
        requires
            lq == hq * q + hr,
            m == q * pow2(rest),
    ;
    lemma_fundamental_div_mod_converse(
        (lq + hi * m) as int,
        q as int,
        (hq + hi * pow2(rest)) as int,
        hr as int,
    );
}

/// The field that reaches the top of the word is the word shifted right by its offset.
pub proof fn lemma_extract_top(lo: nat, hi: nat, offset: nat)
    requires
        lo < pow2(128),
        hi < pow2(128),
        0 < offset < 128,
    ensures
        extract(lo + hi * pow2(128), offset, (256 - offset) as nat) == lo / pow2(offset) + hi
            * pow2((128 - offset) as nat),
{
    let p = pow2(offset);
    let m = pow2((128 - offset) as nat);
    let width = (256 - offset) as nat;
    lemma_pow2_pos(offset);
    lemma_pow2_adds(offset, (128 - offset) as nat);
    lemma_pow2_adds((128 - offset) as nat, 128);
    let lq = lo / p;
    let lr = lo % p;
    vstd::arithmetic::div_mod::lemma_fundamental_div_mod(lo as int, p as int);
    let total = lo + hi * pow2(128);
    assert(total == (lq + hi * m) * p + lr) by (nonlinear_arith)
        requires
            total == lo + hi * pow2(128),
            lo == lq * p + lr,
            pow2(128) == p * m,
    ;
    lemma_fundamental_div_mod_converse(total as int, p as int, (lq + hi * m) as int, lr as int);
    assert(lq < m) by (nonlinear_arith)
        requires
            lo == lq * p + lr,
            lr >= 0,
            lo < p * m,
            p > 0,
    ;
    assert(lq + hi * m < pow2(width)) by (nonlinear_arith)
        requires
            lq < m,
            hi < pow2(128),
            pow2(width) == m * pow2(128),
    ;
    lemma_fundamental_div_mod_converse((lq + hi * m) as int, pow2(width) as int, 0, (lq + hi * m) as int);
}

/// A field of a word, given the word as the content below it, the field and the content above.
proof fn lemma_field_of_word(
    word: nat,
    low: nat,
    v: nat,
    high: nat,
    offset: nat,
    width: nat,
    below: nat,
    above: nat,
)
    requires
        below == pow2(offset),
        above == pow2(offset + width),
        word == low + v * below + high * above,
        low < pow2(offset),
        v < pow2(width),
    ensures
        extract(word, offset, width) == v,
{
    lemma_extract_placed(low, v, high, offset, width);
}

/// A record whose every field fits in its declared width packs without error, and
/// unpacking its words gives back every field.
pub proof fn lemma_unpack_pack(v: ApplicationView)
    requires
        record_fits(v),
    ensures
        pack_outcome(v) == Ok::<(nat, nat), ValidationError>(
            (packed_word(v, 0), packed_word(v, 1)),
        ),
        unpacked(packed_word(v, 0), packed_word(v, 1)) == v,
{
    assert(field_fits(v, AppField::SubmissionDate));
    assert(field_fits(v, AppField::ApprovalDate));
    assert(field_fits(v, AppField::ExpirationDate));
    assert(field_fits(v, AppField::LicenseFee));
    assert(field_fits(v, AppField::ReportingFrequency));
    assert(field_fits(v, AppField::ReportingGracePeriod));
    assert(field_fits(v, AppField::RoyaltyGracePeriod));
    assert(field_fits(v, AppField::UntimelyReports));
    assert(field_fits(v, AppField::UntimelyRoyaltyPayments));
    assert(field_fits(v, AppField::ExtraData));
    lemma_layout_powers();
    lemma_pow2_adds(64, 8);
    lemma_pow2_adds(32, 16);
    let a = packed_word(v, 0);
    let (s, p, e, f) = (v.submission_date, v.approval_date, v.expiration_date, v.license_fee);
    assert(a == s + p * 0x100_0000_0000 + e * 0x1_0000_0000_0000_0000_0000 + f
        * 0x100_0000_0000_0000_0000_0000_0000_0000);
    assert(s + p * 0x100_0000_0000 < 0x1_0000_0000_0000_0000_0000);
    assert(s + p * 0x100_0000_0000 + e * 0x1_0000_0000_0000_0000_0000
        < 0x100_0000_0000_0000_0000_0000_0000_0000);
    lemma_field_of_word(a, 0, s, p + e * 0x100_0000_0000 + f * 0x1_0000_0000_0000_0000_0000, 0, 40, 1, 0x100_0000_0000);
    lemma_field_of_word(a, s, p, e + f * 0x100_0000_0000, 40, 40, 0x100_0000_0000, 0x1_0000_0000_0000_0000_0000);
    lemma_field_of_word(a, s + p * 0x100_0000_0000, e, f, 80, 40, 0x1_0000_0000_0000_0000_0000, 0x100_0000_0000_0000_0000_0000_0000_0000);
    lemma_field_of_word(a, s + p * 0x100_0000_0000 + e * 0x1_0000_0000_0000_0000_0000, f, 0, 120, 136, 0x100_0000_0000_0000_0000_0000_0000_0000, pow2(256));
    let b = packed_word(v, 1);
    let (rf, rg, ry, ur, up, x) = (
        v.reporting_frequency,
        v.reporting_grace_period,
        v.royalty_grace_period,
        v.untimely_reports,
        v.untimely_royalty_payments,
        v.extra_data,
    );
    assert(b == rf + rg * 0x1_0000_0000 + ry * 0x1_0000_0000_0000_0000 + ur
        * 0x1_0000_0000_0000_0000_0000_0000 + up * 0x100_0000_0000_0000_0000_0000_0000 + x
        * 0x1_0000_0000_0000_0000_0000_0000_0000);
    assert(rf + rg * 0x1_0000_0000 < 0x1_0000_0000_0000_0000);
    assert(rf + rg * 0x1_0000_0000 + ry * 0x1_0000_0000_0000_0000
        < 0x1_0000_0000_0000_0000_0000_0000);
    assert(rf + rg * 0x1_0000_0000 + ry * 0x1_0000_0000_0000_0000 + ur
        * 0x1_0000_0000_0000_0000_0000_0000 < 0x100_0000_0000_0000_0000_0000_0000);
    assert(rf + rg * 0x1_0000_0000 + ry * 0x1_0000_0000_0000_0000 + ur
        * 0x1_0000_0000_0000_0000_0000_0000 + up * 0x100_0000_0000_0000_0000_0000_0000
        < 0x1_0000_0000_0000_0000_0000_0000_0000);
    lemma_field_of_word(b, 0, rf, rg + ry * 0x1_0000_0000 + ur * 0x1_0000_0000_0000_0000 + up * 0x100_0000_0000_0000_0000 + x * 0x1_0000_0000_0000_0000_0000, 0, 32, 1, 0x1_0000_0000);
    lemma_field_of_word(b, rf, rg, ry + ur * 0x1_0000_0000 + up * 0x100_0000_0000 + x * 0x1_0000_0000_0000, 32, 32, 0x1_0000_0000, 0x1_0000_0000_0000_0000);
    lemma_field_of_word(b, rf + rg * 0x1_0000_0000, ry, ur + up * 0x100 + x * 0x1_0000, 64, 32, 0x1_0000_0000_0000_0000, 0x1_0000_0000_0000_0000_0000_0000);
    lemma_field_of_word(b, rf + rg * 0x1_0000_0000 + ry * 0x1_0000_0000_0000_0000, ur, up + x * 0x100, 96, 8, 0x1_0000_0000_0000_0000_0000_0000, 0x100_0000_0000_0000_0000_0000_0000);
    lemma_field_of_word(b, rf + rg * 0x1_0000_0000 + ry * 0x1_0000_0000_0000_0000 + ur * 0x1_0000_0000_0000_0000_0000_0000, up, x, 104, 8, 0x100_0000_0000_0000_0000_0000_0000, 0x1_0000_0000_0000_0000_0000_0000_0000);
    lemma_field_of_word(b, rf + rg * 0x1_0000_0000 + ry * 0x1_0000_0000_0000_0000 + ur * 0x1_0000_0000_0000_0000_0000_0000 + up * 0x100_0000_0000_0000_0000_0000_0000, x, 0, 112, 144, 0x1_0000_0000_0000_0000_0000_0000_0000, pow2(256));
}

/// Places the fields of the first word: `s | p << 40 | e << 80 | fee << 120`.
fn combine_first(s: u128, p: u128, e: u128, fee: Uint256) -> (w: Uint256)
    requires
        s < 0x100_0000_0000,
        p < 0x100_0000_0000,
        e < 0x100_0000_0000,
        fee.hi < 0x100,
    ensures
        w@ == s + p * pow2(40) + e * pow2(80) + fee@ * pow2(120),
{
    let lo: u128 = s | (p << 40u128) | (e << 80u128) | (fee.lo << 120u128);
    let hi: u128 = (fee.lo >> 8u128) | (fee.hi << 120u128);
    let fl = fee.lo;
    let fh = fee.hi;
    proof {
        assert(s | (p << 40u128) | (e << 80u128) | (fl << 120u128) == s + p * 0x100_0000_0000 + e
            * 0x1_0000_0000_0000_0000_0000 + (fl % 0x100) * 0x100_0000_0000_0000_0000_0000_0000_0000)
            by (bit_vector)
            requires
                s < 0x100_0000_0000,
                p < 0x100_0000_0000,
                e < 0x100_0000_0000,
        ;
        assert((fl >> 8u128) | (fh << 120u128) == fl / 0x100 + fh
            * 0x100_0000_0000_0000_0000_0000_0000_0000) by (bit_vector)
            requires
                fh < 0x100,
        ;
        lemma_layout_powers();
        lemma_half_base();
        let l = lo as nat;
        let h = hi as nat;
        let m = (fl % 0x100) as nat;
        let q = (fl / 0x100) as nat;
        assert(l + h * half_base() == s + p * pow2(40) + e * pow2(80) + (fl + fh * half_base())
            * pow2(120)) by (nonlinear_arith)
            requires
                l == s + p * 0x100_0000_0000 + e * 0x1_0000_0000_0000_0000_0000 + m
                    * 0x100_0000_0000_0000_0000_0000_0000_0000,
                h == q + fh * 0x100_0000_0000_0000_0000_0000_0000_0000,
                fl == m + q * 0x100,
                half_base() == 0x1_0000_0000_0000_0000_0000_0000_0000_0000,
                pow2(40) == 0x100_0000_0000,
                pow2(80) == 0x1_0000_0000_0000_0000_0000,
                pow2(120) == 0x100_0000_0000_0000_0000_0000_0000_0000,
        ;
    }
    Uint256 { lo, hi }
}

/// Places the fields of the second word:
/// `rf | rg << 32 | ry << 64 | ur << 96 | up << 104 | extra << 112`.
fn combine_second(rf: u128, rg: u128, ry: u128, ur: u128, up: u128, extra: Uint256) -> (w: Uint256)
    requires
        rf < 0x1_0000_0000,
        rg < 0x1_0000_0000,
        ry < 0x1_0000_0000,
        ur < 0x100,
        up < 0x100,
        extra.hi < 0x1_0000,
    ensures
        w@ == rf + rg * pow2(32) + ry * pow2(64) + ur * pow2(96) + up * pow2(104) + extra@ * pow2(
            112,
        ),
{
    let xl = extra.lo;
    let xh = extra.hi;
    let lo: u128 = rf | (rg << 32u128) | (ry << 64u128) | (ur << 96u128) | (up << 104u128) | (xl
        << 112u128);
    let hi: u128 = (xl >> 16u128) | (xh << 112u128);
    proof {
        assert(rf | (rg << 32u128) | (ry << 64u128) | (ur << 96u128) | (up << 104u128) | (xl
            << 112u128) == rf + rg * 0x1_0000_0000 + ry * 0x1_0000_0000_0000_0000 + ur
            * 0x1_0000_0000_0000_0000_0000_0000 + up * 0x100_0000_0000_0000_0000_0000_0000 + (xl
            % 0x1_0000) * 0x1_0000_0000_0000_0000_0000_0000_0000) by (bit_vector)
            requires
                rf < 0x1_0000_0000,
                rg < 0x1_0000_0000,
                ry < 0x1_0000_0000,
                ur < 0x100,
                up < 0x100,
        ;
        assert((xl >> 16u128) | (xh << 112u128) == xl / 0x1_0000 + xh
            * 0x1_0000_0000_0000_0000_0000_0000_0000) by (bit_vector)
            requires
                xh < 0x1_0000,
        ;
        lemma_layout_powers();
        lemma_half_base();
        let l = lo as nat;
        let h = hi as nat;
        let m = (xl % 0x1_0000) as nat;
        let q = (xl / 0x1_0000) as nat;
        assert(l + h * half_base() == rf + rg * pow2(32) + ry * pow2(64) + ur * pow2(96) + up
            * pow2(104) + (xl + xh * half_base()) * pow2(112)) by (nonlinear_arith)
            requires
                l == rf + rg * 0x1_0000_0000 + ry * 0x1_0000_0000_0000_0000 + ur
                    * 0x1_0000_0000_0000_0000_0000_0000 + up * 0x100_0000_0000_0000_0000_0000_0000
                    + m * 0x1_0000_0000_0000_0000_0000_0000_0000,
                h == q + xh * 0x1_0000_0000_0000_0000_0000_0000_0000,
                xl == m + q * 0x1_0000,
                half_base() == 0x1_0000_0000_0000_0000_0000_0000_0000_0000,
                pow2(32) == 0x1_0000_0000,
                pow2(64) == 0x1_0000_0000_0000_0000,
                pow2(96) == 0x1_0000_0000_0000_0000_0000_0000,
                pow2(104) == 0x100_0000_0000_0000_0000_0000_0000,
                pow2(112) == 0x1_0000_0000_0000_0000_0000_0000_0000,
        ;
    }
    Uint256 { lo, hi }
}

/// Packs an application record into its two words, after checking that every field fits
/// in its declared width.
pub fn pack(r: &ApplicationRecord) -> (res: Result<PackedWords, ValidationError>)
    ensures
        outcome_view(res) == pack_outcome(r@),
        r@.license_fee >= pow2(136) ==> res is Err,
{
    if !r.submission_date.fits_width(40) {
        return Err(ValidationError::FieldOutOfRange(AppField::SubmissionDate));
    }
    if !r.approval_date.fits_width(40) {
        return Err(ValidationError::FieldOutOfRange(AppField::ApprovalDate));
    }
    if !r.expiration_date.fits_width(40) {
        return Err(ValidationError::FieldOutOfRange(AppField::ExpirationDate));
    }
    if !r.license_fee.fits_width(136) {
        return Err(ValidationError::FieldOutOfRange(AppField::LicenseFee));
    }
    if !r.reporting_frequency.fits_width(32) {
        return Err(ValidationError::FieldOutOfRange(AppField::ReportingFrequency));
    }
    if !r.reporting_grace_period.fits_width(32) {
        return Err(ValidationError::FieldOutOfRange(AppField::ReportingGracePeriod));
    }
    if !r.royalty_grace_period.fits_width(32) {
        return Err(ValidationError::FieldOutOfRange(AppField::RoyaltyGracePeriod));
    }
    if !r.untimely_reports.fits_width(8) {
        return Err(ValidationError::FieldOutOfRange(AppField::UntimelyReports));
    }
    if !r.untimely_royalty_payments.fits_width(8) {
        return Err(ValidationError::FieldOutOfRange(AppField::UntimelyRoyaltyPayments));
    }
    if !r.extra_data.fits_width(144) {
        return Err(ValidationError::FieldOutOfRange(AppField::ExtraData));
    }
    proof {
        lemma_layout_powers();
        lemma_pow2_adds(128, 8);
        lemma_pow2_adds(128, 16);
        lemma_small_high_half(r.submission_date, 40);
        lemma_small_high_half(r.approval_date, 40);
        lemma_small_high_half(r.expiration_date, 40);
        lemma_small_high_half(r.reporting_frequency, 32);
        lemma_small_high_half(r.reporting_grace_period, 32);
        lemma_small_high_half(r.royalty_grace_period, 32);
        lemma_small_high_half(r.untimely_reports, 8);
        lemma_small_high_half(r.untimely_royalty_payments, 8);
        lemma_large_high_half(r.license_fee, 8);
        lemma_large_high_half(r.extra_data, 16);
    }
    let first = combine_first(
        r.submission_date.lo,
        r.approval_date.lo,
        r.expiration_date.lo,
        r.license_fee,
    );
    let second = combine_second(
        r.reporting_frequency.lo,
        r.reporting_grace_period.lo,
        r.royalty_grace_period.lo,
        r.untimely_reports.lo,
        r.untimely_royalty_payments.lo,
        r.extra_data,
    );
    Ok(PackedWords { first, second })
}

/// A value below `2^width`, with `width <= 128`, lies in its low half.
proof fn lemma_small_high_half(x: Uint256, width: nat)
    requires
        width <= 128,
        x@ < pow2(width),
    ensures
        x.hi == 0,
        x.lo as nat == x@,
        x.lo < pow2(width),
{
    lemma_half_base();
    if width < 128 {
        lemma_pow2_strictly_increases(width, 128);
    }
    if x.hi != 0 {
        assert(x@ >= half_base()) by (nonlinear_arith)
            requires
                x@ == x.lo as nat + x.hi as nat * half_base(),
                x.hi >= 1,
        ;
    }
}

/// A value below `2^(128 + extra)` has a high half below `2^extra`.
proof fn lemma_large_high_half(x: Uint256, extra: nat)
    requires
        x@ < pow2(128 + extra),
    ensures
        x.hi < pow2(extra),
{
    lemma_half_base();
    lemma_pow2_adds(128, extra);
    assert(x.hi < pow2(extra)) by (nonlinear_arith)
        requires
            x@ == x.lo as nat + x.hi as nat * half_base(),
            x@ < half_base() * pow2(extra),
            half_base() > 0,
    ;
}

/// The halves of the top field: `lo / 2^offset + hi * 2^rest`, split at 2^128.
proof fn lemma_top_halves(lo: nat, hi: nat, top_lo: nat, top_hi: nat, rest: nat, r: nat, o: nat)
    requires
        r == pow2(rest),
        o * r == pow2(128),
        top_lo == lo / o + (hi % o) * r,
        top_hi == hi / o,
        o > 0,
    ensures
        top_lo + top_hi * pow2(128) == lo / o + hi * r,
{
    vstd::arithmetic::div_mod::lemma_fundamental_div_mod(hi as int, o as int);
    let q = hi / o;
    let m = hi % o;
    let low = lo / o;
    let pw = pow2(128);
    assert(top_lo + top_hi * pw == low + hi * r) by (nonlinear_arith)
        requires
            o * r == pw,
            top_lo == low + m * r,
            top_hi == q,
            hi == o * q + m,
    ;
}

/// Reads the fields back out of the two words, each as `(word >> offset) & mask(width)`.
pub fn unpack(w: &PackedWords) -> (r: ApplicationRecord)
    ensures
        r@ == unpacked(w.first@, w.second@),
{
    let lo = w.first.lo;
    let hi = w.first.hi;
    let s = lo & 0xff_ffff_ffffu128;
    let p = (lo >> 40u128) & 0xff_ffff_ffffu128;
    let e = (lo >> 80u128) & 0xff_ffff_ffffu128;
    let fee_lo = (lo >> 120u128) | (hi << 8u128);
    let fee_hi = hi >> 120u128;
    let lo2 = w.second.lo;
    let hi2 = w.second.hi;
    let rf = lo2 & 0xffff_ffffu128;
    let rg = (lo2 >> 32u128) & 0xffff_ffffu128;
    let ry = (lo2 >> 64u128) & 0xffff_ffffu128;
    let ur = (lo2 >> 96u128) & 0xffu128;
    let up = (lo2 >> 104u128) & 0xffu128;
    let x_lo = (lo2 >> 112u128) | (hi2 << 16u128);
    let x_hi = hi2 >> 112u128;
    proof {
        assert(lo & 0xff_ffff_ffffu128 == lo % 0x100_0000_0000) by (bit_vector);
        assert((lo >> 40u128) & 0xff_ffff_ffffu128 == (lo / 0x100_0000_0000) % 0x100_0000_0000)
            by (bit_vector);
        assert((lo >> 80u128) & 0xff_ffff_ffffu128 == (lo / 0x1_0000_0000_0000_0000_0000)
            % 0x100_0000_0000) by (bit_vector);
        assert((lo >> 120u128) | (hi << 8u128) == lo / 0x100_0000_0000_0000_0000_0000_0000_0000
            + (hi % 0x100_0000_0000_0000_0000_0000_0000_0000) * 0x100) by (bit_vector);
        assert(hi >> 120u128 == hi / 0x100_0000_0000_0000_0000_0000_0000_0000) by (bit_vector);
        assert(lo2 & 0xffff_ffffu128 == lo2 % 0x1_0000_0000) by (bit_vector);
        assert((lo2 >> 32u128) & 0xffff_ffffu128 == (lo2 / 0x1_0000_0000) % 0x1_0000_0000)
            by (bit_vector);
        assert((lo2 >> 64u128) & 0xffff_ffffu128 == (lo2 / 0x1_0000_0000_0000_0000)
            % 0x1_0000_0000) by (bit_vector);
        assert((lo2 >> 96u128) & 0xffu128 == (lo2 / 0x1_0000_0000_0000_0000_0000_0000) % 0x100)
            by (bit_vector);
        assert((lo2 >> 104u128) & 0xffu128 == (lo2 / 0x100_0000_0000_0000_0000_0000_0000)
            % 0x100) by (bit_vector);
        assert((lo2 >> 112u128) | (hi2 << 16u128) == lo2 / 0x1_0000_0000_0000_0000_0000_0000_0000
            + (hi2 % 0x1_0000_0000_0000_0000_0000_0000_0000) * 0x1_0000) by (bit_vector);
        assert(hi2 >> 112u128 == hi2 / 0x1_0000_0000_0000_0000_0000_0000_0000) by (bit_vector);
        lemma_layout_powers();
        lemma_extract_low_half(lo as nat, hi as nat, 0, 40);
        lemma_extract_low_half(lo as nat, hi as nat, 40, 40);
        lemma_extract_low_half(lo as nat, hi as nat, 80, 40);
        lemma_extract_top(lo as nat, hi as nat, 120);
        lemma_extract_low_half(lo2 as nat, hi2 as nat, 0, 32);
        lemma_extract_low_half(lo2 as nat, hi2 as nat, 32, 32);
        lemma_extract_low_half(lo2 as nat, hi2 as nat, 64, 32);
        lemma_extract_low_half(lo2 as nat, hi2 as nat, 96, 8);
        lemma_extract_low_half(lo2 as nat, hi2 as nat, 104, 8);
        lemma_extract_top(lo2 as nat, hi2 as nat, 112);
        assert(hi == (hi % 0x100_0000_0000_0000_0000_0000_0000_0000) + (hi
            / 0x100_0000_0000_0000_0000_0000_0000_0000) * 0x100_0000_0000_0000_0000_0000_0000_0000);
        let a = w.first@;
        let b = w.second@;
        assert(s as nat == extract(a, 0, 40));
        assert(p as nat == extract(a, 40, 40));
        assert(e as nat == extract(a, 80, 40));
        lemma_top_halves(lo as nat, hi as nat, fee_lo as nat, fee_hi as nat, 8, 0x100, 0x100_0000_0000_0000_0000_0000_0000_0000);
        assert(rf as nat == extract(b, 0, 32));
        assert(rg as nat == extract(b, 32, 32));
        assert(ry as nat == extract(b, 64, 32));
        assert(ur as nat == extract(b, 96, 8));
        assert(up as nat == extract(b, 104, 8));
        lemma_top_halves(lo2 as nat, hi2 as nat, x_lo as nat, x_hi as nat, 16, 0x1_0000, 0x1_0000_0000_0000_0000_0000_0000_0000);
    }
    ApplicationRecord {
        submission_date: Uint256 { lo: s, hi: 0 },
        approval_date: Uint256 { lo: p, hi: 0 },
        expiration_date: Uint256 { lo: e, hi: 0 },
        license_fee: Uint256 { lo: fee_lo, hi: fee_hi },
        reporting_frequency: Uint256 { lo: rf, hi: 0 },
        reporting_grace_period: Uint256 { lo: rg, hi: 0 },
        royalty_grace_period: Uint256 { lo: ry, hi: 0 },
        untimely_reports: Uint256 { lo: ur, hi: 0 },
        untimely_royalty_payments: Uint256 { lo: up, hi: 0 },
        extra_data: Uint256 { lo: x_lo, hi: x_hi },
    }
}

/// The record of a new application submitted at `now` (seconds since the Unix epoch): it is
/// not yet approved, has no untimely reports or payments, and expires `duration` seconds later.
pub open spec fn new_application(
    now: nat,
    duration: nat,
    license_fee: nat,
    reporting_frequency: nat,
    reporting_grace_period: nat,
    royalty_grace_period: nat,
    extra_data: nat,
) -> ApplicationView {
    ApplicationView {
        submission_date: now,
        approval_date: 0,
        expiration_date: now + duration,
        license_fee,
        reporting_frequency,
        reporting_grace_period,
        royalty_grace_period,
        untimely_reports: 0,
        untimely_royalty_payments: 0,
        extra_data,
    }
}

/// Packs the record of a new application submitted at `now`, in seconds since the Unix epoch.
/// A time before the epoch is an out-of-range submission date.
pub fn pack_application(
    now: i64,
    duration: Uint256,
    license_fee: Uint256,
    reporting_frequency: Uint256,
    reporting_grace_period: Uint256,
    royalty_grace_period: Uint256,
    extra_data: Uint256,
) -> (r: Result<PackedWords, ValidationError>)
    ensures
        now < 0 ==> r == Err::<PackedWords, ValidationError>(
            ValidationError::FieldOutOfRange(AppField::SubmissionDate),
        ),
        now >= 0 ==> outcome_view(r) == pack_outcome(
            new_application(
                now as nat,
                duration@,
                license_fee@,
                reporting_frequency@,
                reporting_grace_period@,
                royalty_grace_period@,
                extra_data@,
            ),
        ),
{
    if now < 0 {
        return Err(ValidationError::FieldOutOfRange(AppField::SubmissionDate));
    }
    let submission_date = Uint256::from_u64(now as u64);
    let ghost v = new_application(
        now as nat,
        duration@,
        license_fee@,
        reporting_frequency@,
        reporting_grace_period@,
        royalty_grace_period@,
        extra_data@,
    );
    if !submission_date.fits_width(40) {
        return Err(ValidationError::FieldOutOfRange(AppField::SubmissionDate));
    }
    proof {
        lemma_layout_powers();
    }
    if !duration.fits_width(40) {
        proof {
            assert(!field_fits(v, AppField::ExpirationDate));
            assert(field_fits(v, AppField::ApprovalDate));
        }
        return Err(ValidationError::FieldOutOfRange(AppField::ExpirationDate));
    }
    proof {
        lemma_small_high_half(duration, 40);
    }
    let expiration_date = Uint256::from_u128(now as u128 + duration.lo);
    let record = ApplicationRecord {
        submission_date,
        approval_date: Uint256::zero(),
        expiration_date,
        license_fee,
        reporting_frequency,
        reporting_grace_period,
        royalty_grace_period,
        untimely_reports: Uint256::zero(),
        untimely_royalty_payments: Uint256::zero(),
        extra_data,
    };
    assert(record@ == v);
    pack(&record)
}

/// Relies on chrono's `From<SystemTime> for DateTime<Utc>` and `DateTime::timestamp`: the
/// system time in whole seconds since the Unix epoch, negative before it. Nothing is known of
/// the value.
#[verifier::external_body]
fn unix_time_now() -> (r: i64) {
    chrono::DateTime::<chrono::Utc>::from(std::time::SystemTime::now()).timestamp()
}

/// Packs the record of an application submitted now, by the system clock.
pub fn pack_data(
    duration: Uint256,
    license_fee: Uint256,
    reporting_frequency: Uint256,
    reporting_grace_period: Uint256,
    royalty_grace_period: Uint256,
    extra_data: Uint256,
) -> (r: Result<PackedWords, ValidationError>)
    ensures
        r == Err::<PackedWords, ValidationError>(
            ValidationError::FieldOutOfRange(AppField::SubmissionDate),
        ) || exists|now: nat|
            outcome_view(r) == #[trigger] pack_outcome(
                new_application(
                    now,
                    duration@,
                    license_fee@,
                    reporting_frequency@,
                    reporting_grace_period@,
                    royalty_grace_period@,
                    extra_data@,
                ),
            ),
{
    let now = unix_time_now();
    pack_application(
        now,
        duration,
        license_fee,
        reporting_frequency,
        reporting_grace_period,
        royalty_grace_period,
        extra_data,
    )
}

} // verus!
