use licensing_core::{Licensee, LicenseeRaw, Timestamp, ValidationError};

fn hex_of(text: &str) -> String {
    let mut out = String::from("0x");
    for b in text.as_bytes() {
        out.push_str(&format!("{:02x}", b));
    }
    out
}

fn register(company: Option<&str>) -> LicenseeRaw {
    LicenseeRaw::register_account_params(
        "0xabc".to_string(),
        "Jane Doe".to_string(),
        "1990-05-17T10:00:00+02:00".to_string(),
        "1 Main St".to_string(),
        "jane@example.com".to_string(),
        "+15550100".to_string(),
        company.map(|c| c.to_string()),
        "Dutch".to_string(),
        "Netherlands".to_string(),
    )
    .unwrap()
}

#[test]
fn register_encodes_delimited_hex() {
    let raw = register(None);
    assert_eq!(
        raw.data,
        "0x30786162637c4a616e6520446f657c313939302d30352d31375431303a30303a30302b30323a30307c31204d61696e2053747c6a616e65406578616d706c652e636f6d7c2b31353535303130307c7c44757463687c4e65746865726c616e6473"
    );
    assert!(!raw.usable);
}

#[test]
fn register_then_decode_round_trip() {
    let raw = register(Some("Acme BV"));
    let decoded = Licensee::decode_licensee_data(raw.data.as_bytes(), true).unwrap();
    assert_eq!(decoded.wallet_address, "0xabc");
    assert_eq!(decoded.name, "Jane Doe");
    assert_eq!(decoded.dob, Timestamp { seconds: 642_931_200, nanos: 0 });
    assert_eq!(decoded.address, "1 Main St");
    assert_eq!(decoded.email_address, "jane@example.com");
    assert_eq!(decoded.phone_number, "+15550100");
    assert_eq!(decoded.company, Some("Acme BV".to_string()));
    assert_eq!(decoded.nationality, "Dutch");
    assert_eq!(decoded.country_of_application, "Netherlands");
    assert!(decoded.usable);
}

#[test]
fn register_rejects_invalid_dob() {
    let r = LicenseeRaw::register_account_params(
        "w".to_string(),
        "n".to_string(),
        "17/05/1990".to_string(),
        "a".to_string(),
        "e".to_string(),
        "p".to_string(),
        None,
        "x".to_string(),
        "y".to_string(),
    );
    assert_eq!(r.err(), Some(ValidationError::InvalidDate));
}

#[test]
fn decode_empty_bytes_is_absent_account() {
    let decoded = Licensee::decode_licensee_data(b"", false).unwrap();
    assert_eq!(decoded.wallet_address, "");
    assert_eq!(decoded.name, "");
    assert_eq!(decoded.dob, Timestamp { seconds: 0, nanos: 0 });
    assert_eq!(decoded.address, "");
    assert_eq!(decoded.email_address, "");
    assert_eq!(decoded.phone_number, "");
    assert_eq!(decoded.company, None);
    assert_eq!(decoded.nationality, "");
    assert_eq!(decoded.country_of_application, "");
    assert!(!decoded.usable);
    let default = Licensee::default_licensee_data();
    assert_eq!(default.company, None);
    assert!(!default.usable);
}

#[test]
fn absent_company_round_trips_as_none() {
    let raw = register(None);
    let decoded = Licensee::decode_licensee_data(raw.data.as_bytes(), false).unwrap();
    assert_eq!(decoded.company, None);
    assert_eq!(decoded.nationality, "Dutch");
}

#[test]
fn company_named_none_decodes_as_none() {
    let text = "w|n|2000-01-01T00:00:00Z|a|e|p|None|x|y";
    let decoded = Licensee::decode_licensee_data(hex_of(text).as_bytes(), true).unwrap();
    assert_eq!(decoded.company, None);
    assert_eq!(decoded.country_of_application, "y");
    let raw = register(Some("None"));
    let decoded = Licensee::decode_licensee_data(raw.data.as_bytes(), true).unwrap();
    assert_eq!(decoded.company, None);
}

#[test]
fn malformed_hex_is_rejected() {
    assert_eq!(
        Licensee::decode_licensee_data(b"not hex!", true).err(),
        Some(ValidationError::InvalidHex)
    );
    assert_eq!(
        Licensee::decode_licensee_data(b"0x123", true).err(),
        Some(ValidationError::InvalidHex)
    );
    assert_eq!(
        Licensee::decode_licensee_data(b"0xzz", true).err(),
        Some(ValidationError::InvalidHex)
    );
}

#[test]
fn invalid_utf8_is_rejected() {
    assert_eq!(
        Licensee::decode_licensee_data(b"0xfffe", true).err(),
        Some(ValidationError::InvalidUtf8)
    );
}

#[test]
fn uppercase_prefix_and_digits_decode() {
    let text = "w|n|2000-01-01T00:00:00Z|a|e|p||x|y";
    let upper = hex_of(text)[2..].to_uppercase();
    let data = format!("0X{}", upper);
    let decoded = Licensee::decode_licensee_data(data.as_bytes(), false).unwrap();
    assert_eq!(decoded.dob, Timestamp { seconds: 946_684_800, nanos: 0 });
    assert_eq!(decoded.wallet_address, "w");
}

#[test]
fn missing_segments_are_reported() {
    let cases: [(&str, usize); 6] = [
        ("w|n", 2),
        ("w|n|2000-01-01T00:00:00Z|a", 4),
        ("w|n|2000-01-01T00:00:00Z|a|e|p", 7),
        ("w|n|2000-01-01T00:00:00Z|a|e|p|c", 7),
        ("w|n|2000-01-01T00:00:00Z|a|e|p|c|x", 8),
        ("", 1),
    ];
    for (text, index) in cases {
        assert_eq!(
            Licensee::decode_licensee_data(hex_of(text).as_bytes(), true).err(),
            Some(ValidationError::MissingSegment(index))
        );
    }
}

#[test]
fn invalid_dob_segment_is_rejected() {
    let text = "w|n|yesterday";
    assert_eq!(
        Licensee::decode_licensee_data(hex_of(text).as_bytes(), true).err(),
        Some(ValidationError::InvalidDate)
    );
}

#[test]
fn extra_segments_are_rejected() {
    let text = "w|n|2000-01-01T00:00:00.5Z|a|e|p|c|x|y|z";
    assert_eq!(
        Licensee::decode_licensee_data(hex_of(text).as_bytes(), true).err(),
        Some(ValidationError::UnexpectedSegment(9))
    );
}

#[test]
fn fractional_seconds_in_dob() {
    let text = "w|n|2000-01-01T00:00:00.5Z|a|e|p|c|x|y";
    let decoded = Licensee::decode_licensee_data(hex_of(text).as_bytes(), true).unwrap();
    assert_eq!(decoded.country_of_application, "y");
    assert_eq!(decoded.dob, Timestamp { seconds: 946_684_800, nanos: 500_000_000 });
    assert_eq!(decoded.company, Some("c".to_string()));
}
