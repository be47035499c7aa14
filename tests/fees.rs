use licensing_core::{calculate_license_fee, permit_key, CustomError, LookupError, Uint256};

fn fee(permit: &str, seconds: u64) -> Result<Uint256, LookupError> {
    calculate_license_fee(permit, Uint256::from_u64(seconds), "ipfs://base-terms")
}

#[test]
fn fee_table_exactness() {
    assert_eq!(fee("Asset Creation", 31_536_000), Ok(Uint256::from_u128(90_000_000_000_000_000_000)));
    assert_eq!(
        fee("Existing Asset Usage", 7_776_000),
        Ok(Uint256::from_u128(7_500_000_000_000_000_000))
    );
}

#[test]
fn fee_table_all_terms() {
    assert_eq!(fee("Asset Modification", 7_776_000), Ok(Uint256::from_u128(12_000_000_000_000_000_000)));
    assert_eq!(fee("Asset Modification", 15_552_000), Ok(Uint256::from_u128(36_000_000_000_000_000_000)));
    assert_eq!(fee("Asset Modification", 63_072_000), Ok(Uint256::from_u128(108_000_000_000_000_000_000)));
    assert_eq!(fee("Asset Creation", 63_072_000), Ok(Uint256::from_u128(135_000_000_000_000_000_000)));
    assert_eq!(fee("Existing Asset Usage", 15_552_000), Ok(Uint256::from_u128(22_500_000_000_000_000_000)));
}

#[test]
fn unknown_permit_is_lookup_error() {
    assert_eq!(fee("Nonexistent", 31_536_000), Err(LookupError::UnknownPermit));
    assert_eq!(fee("asset creation", 31_536_000), Err(LookupError::UnknownPermit));
}

#[test]
fn unregistered_permit_is_not_found() {
    assert_eq!(
        calculate_license_fee("Asset Creation", Uint256::from_u64(31_536_000), ""),
        Err(LookupError::PermitNotFound)
    );
}

#[test]
fn unsupported_duration_is_lookup_error() {
    assert_eq!(fee("Asset Creation", 31_536_001), Err(LookupError::UnsupportedDuration));
    assert_eq!(
        calculate_license_fee("Asset Creation", Uint256 { lo: 31_536_000, hi: 1 }, "terms"),
        Err(LookupError::UnsupportedDuration)
    );
}

#[test]
fn permit_key_is_keccak256() {
    let empty = permit_key("");
    let expected: [u8; 32] = [
        0xc5, 0xd2, 0x46, 0x01, 0x86, 0xf7, 0x23, 0x3c, 0x92, 0x7e, 0x7d, 0xb2, 0xdc, 0xc7, 0x03,
        0xc0, 0xe5, 0x00, 0xb6, 0x53, 0xca, 0x82, 0x27, 0x3b, 0x7b, 0xfa, 0xd8, 0x04, 0x5d, 0x85,
        0xa4, 0x70,
    ];
    assert_eq!(empty, expected);
    assert_ne!(permit_key("Asset Creation"), permit_key("Asset Modification"));
}

#[test]
fn custom_error_message() {
    let e = CustomError::DatabaseError("User not found.".to_string());
    assert_eq!(e.message(), "Database error: User not found.");
}
