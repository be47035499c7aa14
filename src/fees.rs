//! The license fee schedule: a base rate per permit and a multiplier per license term.

use crate::error::LookupError;
use crate::text::str_equals;
use crate::uint256::Uint256;
use vstd::prelude::*;
use vstd::string::*;
use vstd::utf8::*;

verus! {

/// 10^18, the scale of one unit of the native currency in its smallest unit.
pub const UNIT: u128 = 1_000_000_000_000_000_000;

/// Three months, in seconds.
pub const THREE_MONTHS: u64 = 7_776_000;

/// Six months, in seconds.
pub const SIX_MONTHS: u64 = 15_552_000;

/// One year, in seconds.
pub const ONE_YEAR: u64 = 31_536_000;

/// Two years, in seconds.
pub const TWO_YEARS: u64 = 63_072_000;

/// The base fee rate of a permit, in the currency's smallest unit.
pub open spec fn base_fee_rate(permit: Seq<char>) -> Option<nat> {
    if permit == "Asset Creation"@ {
        Some(15 * UNIT as nat)
    } else if permit == "Existing Asset Usage"@ {
        Some(7_500_000_000_000_000_000)
    } else if permit == "Asset Modification"@ {
        Some(12 * UNIT as nat)
    } else {
        None
    }
}

/// The multiplier of a license term given in seconds.
pub open spec fn duration_multiplier(seconds: nat) -> Option<nat> {
    if seconds == THREE_MONTHS {
        Some(1)
    } else if seconds == SIX_MONTHS {
        Some(3)
    } else if seconds == ONE_YEAR {
        Some(6)
    } else if seconds == TWO_YEARS {
        Some(9)
    } else {
        None
    }
}

/// The fee of a permit for a term, given whether the permit registry knows the permit.
pub open spec fn fee_outcome(permit: Seq<char>, duration: nat, registered: bool) -> Result<
    nat,
    LookupError,
> {
    if !registered {
        Err(LookupError::PermitNotFound)
    } else {
        match base_fee_rate(permit) {
            None => Err(LookupError::UnknownPermit),
            Some(base) => match duration_multiplier(duration) {
                None => Err(LookupError::UnsupportedDuration),
                Some(m) => Ok(base * m),
            },
        }
    }
}

/// The value of a fee result.
pub open spec fn fee_view(r: Result<Uint256, LookupError>) -> Result<nat, LookupError> {
    match r {
        Ok(fee) => Ok(fee@),
        Err(e) => Err(e),
    }
}

/// Looks up the base fee rate of a permit.
pub fn lookup_base_fee_rate(permit: &str) -> (r: Option<u128>)
    ensures
        match base_fee_rate(permit@) {
            Some(rate) => r == Some(rate as u128) && rate <= 15 * UNIT,
            None => r is None,
        },
{
    proof {
        reveal_strlit("Asset Creation");
        reveal_strlit("Existing Asset Usage");
        reveal_strlit("Asset Modification");
    }
    if str_equals(permit, "Asset Creation") {
        Some(15 * UNIT)
    } else if str_equals(permit, "Existing Asset Usage") {
        Some(7_500_000_000_000_000_000)
    } else if str_equals(permit, "Asset Modification") {
        Some(12 * UNIT)
    } else {
        None
    }
}

/// Looks up the multiplier of a license term given in seconds.
pub fn lookup_duration_multiplier(duration: Uint256) -> (r: Option<u128>)
    ensures
        match duration_multiplier(duration@) {
            Some(m) => r == Some(m as u128) && m <= 9,
            None => r is None,
        },
{
    if duration.hi != 0 {
        proof {
            crate::uint256::lemma_half_base();
            assert(duration@ >= crate::uint256::half_base()) by (nonlinear_arith)
                requires
                    duration@ == duration.lo as nat + duration.hi as nat
                        * crate::uint256::half_base(),
                    duration.hi >= 1,
            ;
        }
        return None;
    }
    let seconds = duration.lo;
    if seconds == THREE_MONTHS as u128 {
        Some(1)
    } else if seconds == SIX_MONTHS as u128 {
        Some(3)
    } else if seconds == ONE_YEAR as u128 {
        Some(6)
    } else if seconds == TWO_YEARS as u128 {
        Some(9)
    } else {
        None
    }
}

/// The license fee of a permit for a term of `duration` seconds: the permit's base rate times
/// the term's multiplier. `base_terms` is what the permit registry holds for the permit; it is
/// empty when the registry does not know the permit.
pub fn calculate_license_fee(permit: &str, duration: Uint256, base_terms: &str) -> (r: Result<
    Uint256,
    LookupError,
>)
    ensures
        fee_view(r) == fee_outcome(permit@, duration@, base_terms@.len() > 0),
{
    if base_terms.unicode_len() == 0 {
        return Err(LookupError::PermitNotFound);
    }
    let base = match lookup_base_fee_rate(permit) {
        Some(rate) => rate,
        None => {
            return Err(LookupError::UnknownPermit);
        },
    };
    let multiplier = match lookup_duration_multiplier(duration) {
        Some(m) => m,
        None => {
            return Err(LookupError::UnsupportedDuration);
        },
    };
    proof {
        assert(base * multiplier <= 15 * UNIT * 9) by (nonlinear_arith)
            requires
                base <= 15 * UNIT,
                multiplier <= 9,
        ;
    }
    Ok(Uint256::from_u128(base * multiplier))
}

/// The Keccak-256 digest of bytes.
pub uninterp spec fn keccak256_of(bytes: Seq<u8>) -> Seq<u8>;

/// Relies on `ethers::utils::keccak256`: the Keccak-256 digest of the bytes, which depends on
/// the bytes alone.
#[verifier::external_body]
fn keccak256(bytes: &[u8]) -> (r: [u8; 32])
    ensures
        r@ == keccak256_of(bytes@),
{
    ethers::utils::keccak256(bytes)
}

/// The key under which the permit registry holds a permit's base terms: the Keccak-256
/// digest of the permit's UTF-8 bytes.
pub fn permit_key(permit: &str) -> (r: [u8; 32])
    ensures
        r@ == keccak256_of(encode_utf8(permit@)),
{
    keccak256(permit.as_bytes())
}

} // verus!
