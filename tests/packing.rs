use licensing_core::{
    bitmask, bitpos, field_layout, pack, pack_application, pack_data, unpack, AppField,
    ApplicationRecord, Uint256, ValidationError,
};

fn small(v: u128) -> Uint256 {
    Uint256 { lo: v, hi: 0 }
}

fn sample_record() -> ApplicationRecord {
    ApplicationRecord {
        submission_date: small(1_700_000_000),
        approval_date: small(1_700_086_400),
        expiration_date: small(1_731_536_000),
        license_fee: Uint256 { lo: 90_000_000_000_000_000_000, hi: 0x7f },
        reporting_frequency: small(2_592_000),
        reporting_grace_period: small(604_800),
        royalty_grace_period: small(1_209_600),
        untimely_reports: small(3),
        untimely_royalty_payments: small(255),
        extra_data: Uint256 { lo: u128::MAX, hi: 0xfffe },
    }
}

#[test]
fn pack_then_unpack_round_trip() {
    let record = sample_record();
    let words = pack(&record).unwrap();
    assert_eq!(unpack(&words), record);
}

#[test]
fn pack_places_fields_at_their_offsets() {
    let record = ApplicationRecord {
        submission_date: small(1),
        approval_date: small(2),
        expiration_date: small(3),
        license_fee: small(4),
        reporting_frequency: small(5),
        reporting_grace_period: small(6),
        royalty_grace_period: small(7),
        untimely_reports: small(8),
        untimely_royalty_payments: small(9),
        extra_data: small(10),
    };
    let words = pack(&record).unwrap();
    assert_eq!(words.first, Uint256 { lo: 1 + (2 << 40) + (3 << 80) + (4 << 120), hi: 0 });
    assert_eq!(
        words.second,
        Uint256 { lo: 5 + (6 << 32) + (7 << 64) + (8 << 96) + (9 << 104) + (10 << 112), hi: 0 }
    );
}

#[test]
fn wide_fields_cross_into_the_high_half() {
    let mut record = sample_record();
    record.license_fee = Uint256 { lo: 0x1ff, hi: 0x80 };
    record.extra_data = Uint256 { lo: 0x1_ffff, hi: 0x8000 };
    let words = pack(&record).unwrap();
    assert_eq!(words.first.hi, 0x1 | (0x80 << 120));
    assert_eq!(words.first.lo >> 120, 0xff);
    assert_eq!(words.second.hi, 0x1 | (0x8000 << 112));
    assert_eq!(words.second.lo >> 112, 0xffff);
    assert_eq!(unpack(&words), record);
}

#[test]
fn license_fee_overflow_rejected() {
    let mut record = sample_record();
    record.license_fee = Uint256 { lo: 0, hi: 0x100 };
    assert_eq!(pack(&record), Err(ValidationError::FieldOutOfRange(AppField::LicenseFee)));
    record.license_fee = Uint256 { lo: u128::MAX, hi: 0xff };
    assert!(pack(&record).is_ok());
}

#[test]
fn every_oversized_field_is_named() {
    let cases: [(AppField, Uint256); 10] = [
        (AppField::SubmissionDate, small(1 << 40)),
        (AppField::ApprovalDate, small(1 << 40)),
        (AppField::ExpirationDate, small(1 << 40)),
        (AppField::LicenseFee, Uint256 { lo: 0, hi: 0x100 }),
        (AppField::ReportingFrequency, small(1 << 32)),
        (AppField::ReportingGracePeriod, small(1 << 32)),
        (AppField::RoyaltyGracePeriod, small(1 << 32)),
        (AppField::UntimelyReports, small(256)),
        (AppField::UntimelyRoyaltyPayments, small(256)),
        (AppField::ExtraData, Uint256 { lo: 0, hi: 0x1_0000 }),
    ];
    for (field, value) in cases {
        let mut record = sample_record();
        match field {
            AppField::SubmissionDate => record.submission_date = value,
            AppField::ApprovalDate => record.approval_date = value,
            AppField::ExpirationDate => record.expiration_date = value,
            AppField::LicenseFee => record.license_fee = value,
            AppField::ReportingFrequency => record.reporting_frequency = value,
            AppField::ReportingGracePeriod => record.reporting_grace_period = value,
            AppField::RoyaltyGracePeriod => record.royalty_grace_period = value,
            AppField::UntimelyReports => record.untimely_reports = value,
            AppField::UntimelyRoyaltyPayments => record.untimely_royalty_payments = value,
            AppField::ExtraData => record.extra_data = value,
        }
        assert_eq!(pack(&record), Err(ValidationError::FieldOutOfRange(field)));
    }
}

#[test]
fn first_oversized_field_is_reported() {
    let mut record = sample_record();
    record.untimely_reports = small(300);
    record.approval_date = small(1 << 41);
    assert_eq!(pack(&record), Err(ValidationError::FieldOutOfRange(AppField::ApprovalDate)));
}

#[test]
fn unpack_all_ones_gives_each_mask() {
    let ones = Uint256 { lo: u128::MAX, hi: u128::MAX };
    let record = unpack(&licensing_core::PackedWords { first: ones, second: ones });
    assert_eq!(record.submission_date, small((1 << 40) - 1));
    assert_eq!(record.approval_date, small((1 << 40) - 1));
    assert_eq!(record.expiration_date, small((1 << 40) - 1));
    assert_eq!(record.license_fee, Uint256 { lo: u128::MAX, hi: 0xff });
    assert_eq!(record.reporting_frequency, small(0xffff_ffff));
    assert_eq!(record.untimely_reports, small(0xff));
    assert_eq!(record.untimely_royalty_payments, small(0xff));
    assert_eq!(record.extra_data, Uint256 { lo: u128::MAX, hi: 0xffff });
}

#[test]
fn new_application_packs_unapproved_record() {
    let words = pack_application(
        1_700_000_000,
        Uint256::from_u64(31_536_000),
        Uint256::from_u128(90_000_000_000_000_000_000),
        small(2_592_000),
        small(604_800),
        small(1_209_600),
        Uint256::zero(),
    )
    .unwrap();
    let record = unpack(&words);
    assert_eq!(record.submission_date, small(1_700_000_000));
    assert_eq!(record.approval_date, Uint256::zero());
    assert_eq!(record.expiration_date, small(1_731_536_000));
    assert_eq!(record.license_fee, small(90_000_000_000_000_000_000));
    assert_eq!(record.untimely_reports, Uint256::zero());
    assert_eq!(record.untimely_royalty_payments, Uint256::zero());
}

#[test]
fn new_application_rejects_time_before_epoch() {
    let r = pack_application(-1, small(1), small(1), small(1), small(1), small(1), small(1));
    assert_eq!(r, Err(ValidationError::FieldOutOfRange(AppField::SubmissionDate)));
}

#[test]
fn new_application_rejects_overlong_duration() {
    let r = pack_application(1_700_000_000, small(1 << 40), small(1), small(1), small(1), small(1), small(1));
    assert_eq!(r, Err(ValidationError::FieldOutOfRange(AppField::ExpirationDate)));
    let r = pack_application(1_700_000_000, small((1 << 40) - 1_000), small(1), small(1), small(1), small(1), small(1));
    assert_eq!(r, Err(ValidationError::FieldOutOfRange(AppField::ExpirationDate)));
}

#[test]
fn pack_data_uses_the_clock() {
    let words = pack_data(small(7_776_000), small(5), small(6), small(7), small(8), small(9)).unwrap();
    let record = unpack(&words);
    assert!(record.submission_date.lo > 1_600_000_000);
    assert_eq!(record.expiration_date.lo - record.submission_date.lo, 7_776_000);
    assert_eq!(record.license_fee, small(5));
    assert_eq!(record.extra_data, small(9));
}

#[test]
fn layout_table() {
    assert_eq!(bitpos(AppField::LicenseFee), 120);
    assert_eq!(bitpos(AppField::ExtraData), 112);
    let layout = field_layout(AppField::UntimelyRoyaltyPayments);
    assert_eq!((layout.word, layout.offset, layout.width), (1, 104, 8));
    assert_eq!(bitmask(AppField::SubmissionDate), small(0xff_ffff_ffff));
    assert_eq!(bitmask(AppField::LicenseFee), Uint256 { lo: u128::MAX, hi: 0xff });
    assert_eq!(bitmask(AppField::ExtraData), Uint256 { lo: u128::MAX, hi: 0xffff });
}

#[test]
fn fits_width_bounds() {
    assert!(small((1 << 40) - 1).fits_width(40));
    assert!(!small(1 << 40).fits_width(40));
    assert!(!Uint256 { lo: 0, hi: 1 }.fits_width(127));
    assert!(Uint256 { lo: u128::MAX, hi: 0 }.fits_width(128));
    assert!(Uint256 { lo: 0, hi: 0xff }.fits_width(136));
    assert!(!Uint256 { lo: 0, hi: 0x100 }.fits_width(136));
}
