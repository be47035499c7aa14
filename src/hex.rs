//! Hex text: the `0x`-prefixed lowercase form that the ledger transports bytes in.

use vstd::prelude::*;
use vstd::utf8::*;

verus! {

/// The ASCII code of the lowercase hex digit of `n < 16`.
pub open spec fn hex_digit(n: nat) -> u8 {
    if n < 10 {
        (48 + n) as u8
    } else {
        (87 + n) as u8
    }
}

/// The value of a hex digit byte, of either case.
pub open spec fn hex_value(b: u8) -> Option<nat> {
    if 48 <= b <= 57 {
        Some((b - 48) as nat)
    } else if 97 <= b <= 102 {
        Some((b - 87) as nat)
    } else if 65 <= b <= 70 {
        Some((b - 55) as nat)
    } else {
        None
    }
}

/// The lowercase hex characters of bytes, two per byte, high digit first.
pub open spec fn hex_chars(bytes: Seq<u8>) -> Seq<char> {
    Seq::new(
        2 * bytes.len(),
        |i: int|
            if i % 2 == 0 {
                hex_digit((bytes[i / 2] / 16) as nat) as char
            } else {
                hex_digit((bytes[i / 2] % 16) as nat) as char
            },
    )
}

/// `0x` followed by the lowercase hex characters of the bytes.
pub open spec fn prefixed_hex(bytes: Seq<u8>) -> Seq<char> {
    seq!['0', 'x'] + hex_chars(bytes)
}

/// The text without its `0x` or `0X` prefix, if it has one.
pub open spec fn strip_hex_prefix(text: Seq<u8>) -> Seq<u8> {
    if text.len() >= 2 && text[0] == 48 && (text[1] == 120 || text[1] == 88) {
        text.subrange(2, text.len() as int)
    } else {
        text
    }
}

/// Whether the text is hex: of even length, and, past an optional `0x` prefix, all hex digits.
pub open spec fn is_hex_text(text: Seq<u8>) -> bool {
    &&& text.len() % 2 == 0
    &&& forall|i: int|
        0 <= i < strip_hex_prefix(text).len() ==> #[trigger] hex_value(strip_hex_prefix(text)[i])
            is Some
}

/// The bytes that hex text stands for: each pair of digits, high digit first.
pub open spec fn hex_bytes(text: Seq<u8>) -> Seq<u8> {
    let body = strip_hex_prefix(text);
    Seq::new(
        body.len() / 2,
        |i: int|
            (hex_value(body[2 * i])->0 * 16 + hex_value(body[2 * i + 1])->0) as u8,
    )
}

proof fn lemma_digit_round_trip(n: nat)
    requires
        n < 16,
    ensures
        hex_value(hex_digit(n)) == Some(n),
        (hex_digit(n) as char) as u8 == hex_digit(n),
        (hex_digit(n) as char) <= '\u{7f}',
{
}

/// The UTF-8 bytes of `0x`-prefixed hex characters are hex text that stands for the
/// bytes they were made from.
pub proof fn lemma_hex_round_trip(bytes: Seq<u8>)
    ensures
        is_ascii_chars(prefixed_hex(bytes)),
        encode_utf8(prefixed_hex(bytes)).len() == 2 + 2 * bytes.len(),
        is_hex_text(encode_utf8(prefixed_hex(bytes))),
        hex_bytes(encode_utf8(prefixed_hex(bytes))) == bytes,
{
    let c = prefixed_hex(bytes);
    let h = hex_chars(bytes);
    assert forall|i: int| 0 <= i < h.len() implies #[trigger] h[i] <= '\u{7f}' && hex_value(
        h[i] as u8,
    ) is Some && (i % 2 == 0 ==> hex_value(h[i] as u8) == Some((bytes[i / 2] / 16) as nat)) && (i
        % 2 == 1 ==> hex_value(h[i] as u8) == Some((bytes[i / 2] % 16) as nat)) by {
        if i % 2 == 0 {
            lemma_digit_round_trip((bytes[i / 2] / 16) as nat);
        } else {
            lemma_digit_round_trip((bytes[i / 2] % 16) as nat);
        }
    }
    assert forall|i: int| 0 <= i < c.len() implies '\0' <= #[trigger] c[i] <= '\u{7f}' by {
        if i >= 2 {
            assert(c[i] == h[i - 2]);
        }
    }
    is_ascii_chars_encode_utf8(c);
    let e = encode_utf8(c);
    assert(e[0] == 48 && e[1] == 120) by {
        assert(c[0] == '0' && c[1] == 'x');
    }
    let body = strip_hex_prefix(e);
    assert(body.len() == h.len());
    assert forall|j: int| 0 <= j < body.len() implies body[j] == h[j] as u8 by {
        assert(body[j] == e[j + 2]);
        assert(c[j + 2] == h[j]);
    }
    assert forall|j: int| 0 <= j < body.len() implies #[trigger] hex_value(body[j]) is Some by {
        assert(body[j] == h[j] as u8);
    }
    let d = hex_bytes(e);
    assert forall|i: int| 0 <= i < bytes.len() implies d[i] == bytes[i] by {
        assert(body[2 * i] == h[2 * i] as u8);
        assert(body[2 * i + 1] == h[2 * i + 1] as u8);
        assert((2 * i) / 2 == i && (2 * i) % 2 == 0);
        assert((2 * i + 1) / 2 == i && (2 * i + 1) % 2 == 1);
    }
    assert(d =~= bytes);
}

#[verifier::external_type_specification]
#[verifier::external_body]
pub struct ExFromHexError(ethers::utils::hex::FromHexError);

/// Relies on `ethers::utils::hex::encode_prefixed` (the const-hex crate): `0x`, then two
/// lowercase digits per byte, high digit first.
#[verifier::external_body]
pub(crate) fn encode_prefixed(bytes: &[u8]) -> (r: String)
    ensures
        r@ == prefixed_hex(bytes@),
{
    ethers::utils::hex::encode_prefixed(bytes)
}

/// Relies on `ethers::utils::hex::decode` (the const-hex crate): it fails on an odd length or
/// on a non-digit after an optional `0x` or `0X` prefix, and otherwise turns each pair of
/// digits, of either case, into a byte.
#[verifier::external_body]
pub(crate) fn decode_hex(text: &[u8]) -> (r: Result<Vec<u8>, ethers::utils::hex::FromHexError>)
    ensures
        r is Ok == is_hex_text(text@),
        r is Ok ==> r->Ok_0@ == hex_bytes(text@),
{
    ethers::utils::hex::decode(text)
}

} // verus!
