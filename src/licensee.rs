//! The licensee account record: its delimited, hex-wrapped text form on the ledger.

use crate::error::ValidationError;
use crate::hex::{decode_hex, encode_prefixed, hex_bytes, is_hex_text, lemma_hex_round_trip, prefixed_hex};
use crate::text::{
    join_pipe, join_with_pipe, lemma_split_join, no_pipe, split_on_pipe, split_pipe, str_equals,
    string_views,
};
use vstd::prelude::*;
use vstd::string::*;
use vstd::utf8::*;

verus! {

/// An instant in UTC: whole seconds since the Unix epoch and the nanoseconds past them.
#[derive(Clone, Copy, Debug, PartialEq, Eq, Structural)]
pub struct Timestamp {
    pub seconds: i64,
    pub nanos: u32,
}

/// A licensee account.
#[derive(Clone, Debug)]
pub struct Licensee {
    /// the licensee's wallet address
    pub wallet_address: String,
    /// the licensee's full name
    pub name: String,
    /// the licensee's date of birth
    pub dob: Timestamp,
    /// the licensee's home or company address
    pub address: String,
    /// the licensee's email address
    pub email_address: String,
    /// the licensee's phone number
    pub phone_number: String,
    /// the licensee's company name, if any
    pub company: Option<String>,
    /// the licensee's nationality
    pub nationality: String,
    /// the licensee's country of application
    pub country_of_application: String,
    /// whether the account may apply for licenses
    pub usable: bool,
}

/// The contents of a licensee account.
pub struct LicenseeView {
    pub wallet_address: Seq<char>,
    pub name: Seq<char>,
    pub dob: Timestamp,
    pub address: Seq<char>,
    pub email_address: Seq<char>,
    pub phone_number: Seq<char>,
    pub company: Option<Seq<char>>,
    pub nationality: Seq<char>,
    pub country_of_application: Seq<char>,
    pub usable: bool,
}

/// The characters of an optional string.
pub open spec fn optional_view(s: Option<String>) -> Option<Seq<char>> {
    match s {
        Some(v) => Some(v@),
        None => None,
    }
}

impl View for Licensee {
    type V = LicenseeView;

    open spec fn view(&self) -> LicenseeView {
        LicenseeView {
            wallet_address: self.wallet_address@,
            name: self.name@,
            dob: self.dob,
            address: self.address@,
            email_address: self.email_address@,
            phone_number: self.phone_number@,
            company: optional_view(self.company),
            nationality: self.nationality@,
            country_of_application: self.country_of_application@,
            usable: self.usable,
        }
    }
}

/// A licensee account as the ledger holds it: hex text of the delimited record, and whether
/// the account is usable.
#[derive(Clone, Debug)]
pub struct LicenseeRaw {
    /// the `0x`-prefixed hex text of the delimited record
    pub data: String,
    /// whether the account may apply for licenses
    pub usable: bool,
}

/// The instant, as seconds since the epoch and nanoseconds, that RFC 3339 text denotes, or
/// `None` where the text is not RFC 3339.
pub uninterp spec fn rfc3339_instant(text: Seq<char>) -> Option<(i64, u32)>;

/// The timestamp of seconds and nanoseconds.
pub open spec fn timestamp_of(instant: (i64, u32)) -> Timestamp {
    Timestamp { seconds: instant.0, nanos: instant.1 }
}

#[verifier::external_type_specification]
#[verifier::external_body]
pub struct ExParseError(chrono::ParseError);

/// Relies on chrono's `DateTime::parse_from_rfc3339`, with `timestamp` and
/// `timestamp_subsec_nanos` of the parsed instant: it fails exactly on text that is not
/// RFC 3339, and the instant depends on the text alone. The parser consumes the whole text and
/// accepts only digits, `-`, `:`, `.`, `+`, `T`, `Z` (either case), a space and the minus sign,
/// so text that parses holds no `|`.
#[verifier::external_body]
fn parse_rfc3339(text: &str) -> (r: Result<Timestamp, chrono::ParseError>)
    ensures
        match rfc3339_instant(text@) {
            Some(t) => r == Ok::<Timestamp, chrono::ParseError>(timestamp_of(t)),
            None => r is Err,
        },
        r is Ok ==> no_pipe(text@),
{
    match chrono::DateTime::parse_from_rfc3339(text) {
        Ok(d) => Ok(Timestamp { seconds: d.timestamp(), nanos: d.timestamp_subsec_nanos() }),
        Err(e) => Err(e),
    }
}

#[verifier::external_type_specification]
#[verifier::external_body]
pub struct ExFromUtf8Error(std::string::FromUtf8Error);

/// Relies on `String::from_utf8`: it succeeds exactly on valid UTF-8, and the string holds
/// the characters that the bytes encode.
#[verifier::external_body]
fn string_from_utf8(bytes: Vec<u8>) -> (r: Result<String, std::string::FromUtf8Error>)
    ensures
        r is Ok == valid_utf8(bytes@),
        r is Ok ==> r->Ok_0@ == decode_utf8(bytes@),
{
    String::from_utf8(bytes)
}

/// The text of the company segment: the name, or nothing.
pub open spec fn company_text(company: Option<Seq<char>>) -> Seq<char> {
    match company {
        Some(c) => c,
        None => Seq::empty(),
    }
}

/// The company that a segment names: none where the segment is empty or `None`.
pub open spec fn company_of(segment: Seq<char>) -> Option<Seq<char>> {
    if segment.len() == 0 || segment == "None"@ {
        None
    } else {
        Some(segment)
    }
}

/// The delimited text of a licensee record.
pub open spec fn record_text(
    wallet_address: Seq<char>,
    name: Seq<char>,
    dob: Seq<char>,
    address: Seq<char>,
    email: Seq<char>,
    phone: Seq<char>,
    company: Option<Seq<char>>,
    nationality: Seq<char>,
    country_of_application: Seq<char>,
) -> Seq<char> {
    join_pipe(
        seq![
            wallet_address,
            name,
            dob,
            address,
            email,
            phone,
            company_text(company),
            nationality,
            country_of_application,
        ],
    )
}

/// What encoding gives: an error for a date of birth that is not RFC 3339, else the
/// `0x`-prefixed hex text of the UTF-8 bytes of the delimited record.
pub open spec fn encode_outcome(
    wallet_address: Seq<char>,
    name: Seq<char>,
    dob: Seq<char>,
    address: Seq<char>,
    email: Seq<char>,
    phone: Seq<char>,
    company: Option<Seq<char>>,
    nationality: Seq<char>,
    country_of_application: Seq<char>,
) -> Result<Seq<char>, ValidationError> {
    if rfc3339_instant(dob) is None {
        Err(ValidationError::InvalidDate)
    } else {
        Ok(
            prefixed_hex(
                encode_utf8(
                    record_text(
                        wallet_address,
                        name,
                        dob,
                        address,
                        email,
                        phone,
                        company,
                        nationality,
                        country_of_application,
                    ),
                ),
            ),
        )
    }
}

/// The record of an account that does not exist: every field empty or zero.
pub open spec fn absent_licensee() -> LicenseeView {
    LicenseeView {
        wallet_address: Seq::empty(),
        name: Seq::empty(),
        dob: Timestamp { seconds: 0, nanos: 0 },
        address: Seq::empty(),
        email_address: Seq::empty(),
        phone_number: Seq::empty(),
        company: None,
        nationality: Seq::empty(),
        country_of_application: Seq::empty(),
        usable: false,
    }
}

/// The record that delimited text holds. The segments are read in order; the first one
/// missing is an error, but for the company, whose absence leaves the company unset. The
/// date of birth is parsed as soon as it is read. A record has exactly nine segments: a tenth
/// is an error.
pub open spec fn licensee_from_text(text: Seq<char>, usable: bool) -> Result<
    LicenseeView,
    ValidationError,
> {
    let segments = split_pipe(text);
    let n = segments.len();
    if n < 3 {
        Err(ValidationError::MissingSegment(n as usize))
    } else if rfc3339_instant(segments[2]) is None {
        Err(ValidationError::InvalidDate)
    } else if n < 6 {
        Err(ValidationError::MissingSegment(n as usize))
    } else if n < 8 {
        Err(ValidationError::MissingSegment(7))
    } else if n < 9 {
        Err(ValidationError::MissingSegment(8))
    } else if n > 9 {
        Err(ValidationError::UnexpectedSegment(9))
    } else {
        Ok(
            LicenseeView {
                wallet_address: segments[0],
                name: segments[1],
                dob: timestamp_of(rfc3339_instant(segments[2])->0),
                address: segments[3],
                email_address: segments[4],
                phone_number: segments[5],
                company: company_of(segments[6]),
                nationality: segments[7],
                country_of_application: segments[8],
                usable,
            },
        )
    }
}

/// What decoding ledger bytes gives: the absent record for no bytes; else an error for text
/// that is not hex or bytes that are not UTF-8; else the record that the text holds.
pub open spec fn decode_outcome(data: Seq<u8>, usable: bool) -> Result<
    LicenseeView,
    ValidationError,
> {
    if data.len() == 0 {
        Ok(absent_licensee())
    } else if !is_hex_text(data) {
        Err(ValidationError::InvalidHex)
    } else if !valid_utf8(hex_bytes(data)) {
        Err(ValidationError::InvalidUtf8)
    } else {
        licensee_from_text(decode_utf8(hex_bytes(data)), usable)
    }
}

/// The contents of a decoding result.
pub open spec fn licensee_result_view(r: Result<Licensee, ValidationError>) -> Result<
    LicenseeView,
    ValidationError,
> {
    match r {
        Ok(l) => Ok(l@),
        Err(e) => Err(e),
    }
}

impl Licensee {
    /// The record of an account that does not exist yet: every field empty or zero, not usable.
    pub fn default_licensee_data() -> (r: Licensee)
        ensures
            r@ == absent_licensee(),
    {
        Licensee {
            wallet_address: String::new(),
            name: String::new(),
            dob: Timestamp { seconds: 0, nanos: 0 },
            address: String::new(),
            email_address: String::new(),
            phone_number: String::new(),
            company: None,
            nationality: String::new(),
            country_of_application: String::new(),
            usable: false,
        }
    }

    /// Decodes the ledger's bytes of a licensee account: `0x`-prefixed hex text of the UTF-8,
    /// `|`-delimited record. No bytes stand for an account that does not exist.
    pub fn decode_licensee_data(data: &[u8], usable: bool) -> (r: Result<Licensee, ValidationError>)
        ensures
            licensee_result_view(r) == decode_outcome(data@, usable),
            data@.len() == 0 ==> r is Ok && r->Ok_0@ == absent_licensee(),
            data@.len() > 0 && !is_hex_text(data@) ==> r == Err::<Licensee, ValidationError>(
                ValidationError::InvalidHex,
            ),
    {
        if data.len() == 0 {
            return Ok(Licensee::default_licensee_data());
        }
        let bytes = match decode_hex(data) {
            Ok(b) => b,
            Err(_) => {
                return Err(ValidationError::InvalidHex);
            },
        };
        let ghost decoded = bytes@;
        let text = match string_from_utf8(bytes) {
            Ok(t) => t,
            Err(_) => {
                return Err(ValidationError::InvalidUtf8);
            },
        };
        let segments = split_on_pipe(text.as_str());
        let ghost views = split_pipe(text@);
        assert(segments@.len() == views.len());
        assert forall|k: int| 0 <= k < segments@.len() implies #[trigger] segments@[k]@
            == views[k] by {
            assert(string_views(segments@)[k] == segments@[k]@);
        }
        let n = segments.len();
        if n < 3 {
            return Err(ValidationError::MissingSegment(n));
        }
        let dob = match parse_rfc3339(segments[2].as_str()) {
            Ok(t) => t,
            Err(_) => {
                return Err(ValidationError::InvalidDate);
            },
        };
        if n < 6 {
            return Err(ValidationError::MissingSegment(n));
        }
        if n < 8 {
            return Err(ValidationError::MissingSegment(7));
        }
        if n < 9 {
            return Err(ValidationError::MissingSegment(8));
        }
        if n > 9 {
            return Err(ValidationError::UnexpectedSegment(9));
        }
        proof {
            reveal_strlit("");
            reveal_strlit("None");
        }
        let company_segment = segments[6].as_str();
        proof {
            if views[6].len() == 0 {
                assert(views[6] =~= ""@);
            }
        }
        let company = if str_equals(company_segment, "") || str_equals(company_segment, "None") {
            None
        } else {
            Some(segments[6].clone())
        };
        let result = Licensee {
                wallet_address: segments[0].clone(),
                name: segments[1].clone(),
                dob,
                address: segments[3].clone(),
                email_address: segments[4].clone(),
                phone_number: segments[5].clone(),
                company,
                nationality: segments[7].clone(),
                country_of_application: segments[8].clone(),
                usable,
            };
        Ok(result)
    }
}

impl LicenseeRaw {
    /// Encodes a licensee's registration fields as `0x`-prefixed hex text of the UTF-8 bytes
    /// of `wallet|name|dob|address|email|phone|company|nationality|country`, where an absent
    /// company is empty. The date of birth must be RFC 3339 text. The new account is not
    /// usable.
    pub fn register_account_params(
        wallet_address: String,
        name: String,
        dob: String,
        address: String,
        email: String,
        phone: String,
        company: Option<String>,
        nationality: String,
        country_of_application: String,
    ) -> (r: Result<LicenseeRaw, ValidationError>)
        ensures
            r is Ok ==> no_pipe(dob@),
            match r {
                Ok(raw) => !raw.usable && encode_outcome(
                    wallet_address@,
                    name@,
                    dob@,
                    address@,
                    email@,
                    phone@,
                    optional_view(company),
                    nationality@,
                    country_of_application@,
                ) == Ok::<Seq<char>, ValidationError>(raw.data@),
                Err(e) => encode_outcome(
                    wallet_address@,
                    name@,
                    dob@,
                    address@,
                    email@,
                    phone@,
                    optional_view(company),
                    nationality@,
                    country_of_application@,
                ) == Err::<Seq<char>, ValidationError>(e),
            },
    {
        if parse_rfc3339(dob.as_str()).is_err() {
            return Err(ValidationError::InvalidDate);
        }
        let ghost fields = seq![
            wallet_address@,
            name@,
            dob@,
            address@,
            email@,
            phone@,
            company_text(optional_view(company)),
            nationality@,
            country_of_application@,
        ];
        let company_field = match company {
            Some(c) => c,
            None => String::new(),
        };
        let mut segments: Vec<String> = Vec::new();
        segments.push(wallet_address);
        segments.push(name);
        segments.push(dob);
        segments.push(address);
        segments.push(email);
        segments.push(phone);
        segments.push(company_field);
        segments.push(nationality);
        segments.push(country_of_application);
        assert(string_views(segments@) =~= fields);
        let text = join_with_pipe(&segments);
        let data = encode_prefixed(text.as_str().as_bytes());
        Ok(LicenseeRaw { data, usable: false })
    }
}

/// Decoding the ledger bytes of the hex text of a record's UTF-8 bytes reads the record
/// from the text.
proof fn lemma_decode_hex_text(text: Seq<char>, usable: bool)
    ensures
        decode_outcome(encode_utf8(prefixed_hex(encode_utf8(text))), usable) == licensee_from_text(
            text,
            usable,
        ),
{
    let bytes = encode_utf8(text);
    lemma_hex_round_trip(bytes);
    encode_utf8_valid_utf8(text);
    encode_utf8_decode_utf8(text);
}

/// The segments of a record's text are its nine fields, where they hold no delimiter.
proof fn lemma_record_segments(
    wallet_address: Seq<char>,
    name: Seq<char>,
    dob: Seq<char>,
    address: Seq<char>,
    email: Seq<char>,
    phone: Seq<char>,
    company: Option<Seq<char>>,
    nationality: Seq<char>,
    country_of_application: Seq<char>,
)
    requires
        no_pipe(wallet_address),
        no_pipe(name),
        no_pipe(dob),
        no_pipe(address),
        no_pipe(email),
        no_pipe(phone),
        no_pipe(company_text(company)),
        no_pipe(nationality),
        no_pipe(country_of_application),
    ensures
        split_pipe(
            record_text(
                wallet_address,
                name,
                dob,
                address,
                email,
                phone,
                company,
                nationality,
                country_of_application,
            ),
        ) == seq![
            wallet_address,
            name,
            dob,
            address,
            email,
            phone,
            company_text(company),
            nationality,
            country_of_application,
        ],
{
    let fields = seq![
        wallet_address,
        name,
        dob,
        address,
        email,
        phone,
        company_text(company),
        nationality,
        country_of_application,
    ];
    assert forall|i: int| 0 <= i < fields.len() implies no_pipe(#[trigger] fields[i]) by {}
    lemma_split_join(fields);
}

/// Registering a licensee's fields and decoding the ledger bytes of the result, with the
/// usable flag that the ledger reports, gives back the record, the date of birth as the
/// instant its text denotes. It holds where no field contains `|` and the company is not one
/// of the names that stand for no company (the empty name and `None`). RFC 3339 text never
/// contains `|`: a successful `register_account_params` states this of its date of birth.
pub proof fn lemma_decode_register(
    wallet_address: Seq<char>,
    name: Seq<char>,
    dob: Seq<char>,
    address: Seq<char>,
    email: Seq<char>,
    phone: Seq<char>,
    company: Option<Seq<char>>,
    nationality: Seq<char>,
    country_of_application: Seq<char>,
    usable: bool,
)
    requires
        no_pipe(wallet_address),
        no_pipe(name),
        no_pipe(dob),
        no_pipe(address),
        no_pipe(email),
        no_pipe(phone),
        no_pipe(company_text(company)),
        no_pipe(nationality),
        no_pipe(country_of_application),
        rfc3339_instant(dob) is Some,
        company != Some(Seq::<char>::empty()),
        company != Some("None"@),
    ensures
        encode_outcome(
            wallet_address,
            name,
            dob,
            address,
            email,
            phone,
            company,
            nationality,
            country_of_application,
        ) is Ok,
        decode_outcome(
            encode_utf8(
                encode_outcome(
                    wallet_address,
                    name,
                    dob,
                    address,
                    email,
                    phone,
                    company,
                    nationality,
                    country_of_application,
                )->Ok_0,
            ),
            usable,
        ) == Ok::<LicenseeView, ValidationError>(
            LicenseeView {
                wallet_address,
                name,
                dob: timestamp_of(rfc3339_instant(dob)->0),
                address,
                email_address: email,
                phone_number: phone,
                company,
                nationality,
                country_of_application,
                usable,
            },
        ),
{
    let text = record_text(
        wallet_address,
        name,
        dob,
        address,
        email,
        phone,
        company,
        nationality,
        country_of_application,
    );
    lemma_decode_hex_text(text, usable);
    lemma_record_segments(
        wallet_address,
        name,
        dob,
        address,
        email,
        phone,
        company,
        nationality,
        country_of_application,
    );
    if let Some(c) = company {
        if c.len() == 0 {
            assert(c =~= Seq::<char>::empty());
        }
    }
    assert(company_of(company_text(company)) == company);
}

/// A company that is absent, empty or named `None` is registered so that decoding finds no
/// company, and the rest of the record unchanged.
pub proof fn lemma_company_sentinels(
    wallet_address: Seq<char>,
    name: Seq<char>,
    dob: Seq<char>,
    address: Seq<char>,
    email: Seq<char>,
    phone: Seq<char>,
    company: Option<Seq<char>>,
    nationality: Seq<char>,
    country_of_application: Seq<char>,
    usable: bool,
)
    requires
        no_pipe(wallet_address),
        no_pipe(name),
        no_pipe(dob),
        no_pipe(address),
        no_pipe(email),
        no_pipe(phone),
        no_pipe(nationality),
        no_pipe(country_of_application),
        rfc3339_instant(dob) is Some,
        company == None::<Seq<char>> || company == Some(Seq::<char>::empty()) || company == Some(
            "None"@,
        ),
    ensures
        encode_outcome(
            wallet_address,
            name,
            dob,
            address,
            email,
            phone,
            company,
            nationality,
            country_of_application,
        ) is Ok,
        decode_outcome(
            encode_utf8(
                encode_outcome(
                    wallet_address,
                    name,
                    dob,
                    address,
                    email,
                    phone,
                    company,
                    nationality,
                    country_of_application,
                )->Ok_0,
            ),
            usable,
        ) == Ok::<LicenseeView, ValidationError>(
            LicenseeView {
                wallet_address,
                name,
                dob: timestamp_of(rfc3339_instant(dob)->0),
                address,
                email_address: email,
                phone_number: phone,
                company: None,
                nationality,
                country_of_application,
                usable,
            },
        ),
{
    reveal_strlit("None");
    assert(no_pipe(company_text(company))) by {
        if company == Some("None"@) {
            assert forall|i: int| 0 <= i < "None"@.len() implies "None"@[i] != '|' by {}
        }
    }
    let text = record_text(
        wallet_address,
        name,
        dob,
        address,
        email,
        phone,
        company,
        nationality,
        country_of_application,
    );
    lemma_decode_hex_text(text, usable);
    lemma_record_segments(
        wallet_address,
        name,
        dob,
        address,
        email,
        phone,
        company,
        nationality,
        country_of_application,
    );
    assert(company_of(company_text(company)) == None::<Seq<char>>);
}

} // verus!
