use vstd::prelude::*;

verus! {

/// The lowercase hexadecimal digit for a value below 16.
pub open spec fn hex_digit(n: u8) -> char {
    if n == 0 { '0' } else if n == 1 { '1' } else if n == 2 { '2' } else if n == 3 { '3' }
    else if n == 4 { '4' } else if n == 5 { '5' } else if n == 6 { '6' } else if n == 7 { '7' }
    else if n == 8 { '8' } else if n == 9 { '9' } else if n == 10 { 'a' } else if n == 11 { 'b' }
    else if n == 12 { 'c' } else if n == 13 { 'd' } else if n == 14 { 'e' } else { 'f' }
}

/// Two lowercase digits for each byte, most significant nibble first.
pub open spec fn hex_chars(b: Seq<u8>) -> Seq<char> {
    Seq::new(
        2 * b.len(),
        |i: int| if i % 2 == 0 { hex_digit(b[i / 2] / 16) } else { hex_digit(b[i / 2] % 16) },
    )
}

pub open spec fn is_hex_char(c: char) -> bool {
    ('0' <= c && c <= '9') || ('a' <= c && c <= 'f') || ('A' <= c && c <= 'F')
}

/// The value of a hexadecimal digit, in either case.
pub open spec fn nibble(c: char) -> int {
    if '0' <= c && c <= '9' {
        c as int - '0' as int
    } else if 'a' <= c && c <= 'f' {
        c as int - 'a' as int + 10
    } else {
        c as int - 'A' as int + 10
    }
}

/// Well-formed hexadecimal text: an even number of characters, each a digit.
pub open spec fn is_hex_text(s: Seq<char>) -> bool {
    s.len() % 2 == 0 && forall|i: int| 0 <= i < s.len() ==> is_hex_char(#[trigger] s[i])
}

/// The bytes that well-formed hexadecimal text stands for.
pub open spec fn hex_bytes(s: Seq<char>) -> Seq<u8> {
    Seq::new(s.len() / 2, |j: int| (nibble(s[2 * j]) * 16 + nibble(s[2 * j + 1])) as u8)
}

/// The error type of hex::decode, carried through opaquely.
#[verifier::external_type_specification]
#[verifier::external_body]
pub struct ExFromHexError(::hex::FromHexError);

/// Relies on hex::encode: two lowercase digits per byte, in order.
#[verifier::external_body]
fn encode_hex(b: &[u8]) -> (r: String)
    ensures
        r@ == hex_chars(b@),
{
    ::hex::encode(b)
}

/// Relies on hex::decode on the text's bytes: it fails on an odd length or on a byte that is
/// not an ASCII hexadecimal digit (so on any character outside ASCII), and otherwise gives one
/// byte per two digits, most significant first.
#[verifier::external_body]
fn decode_hex(s: &str) -> (r: Result<Vec<u8>, ::hex::FromHexError>)
    ensures
        r is Ok <==> is_hex_text(s@),
        r is Ok ==> r->Ok_0@ == hex_bytes(s@),
{
    ::hex::decode(s)
}

/// The lowercase hexadecimal text of `bytes`.
pub fn to_hex(bytes: &[u8]) -> (r: String)
    ensures
        r@ == hex_chars(bytes@),
        r@.len() == 2 * bytes@.len(),
{
    encode_hex(bytes)
}

/// The bytes that the hexadecimal text `s` stands for; digits may be of either case.
pub fn from_hex(s: &str) -> (r: Result<Vec<u8>, crate::error::CodecError>)
    ensures
        r is Ok <==> is_hex_text(s@),
        r is Ok ==> r->Ok_0@ == hex_bytes(s@),
        r is Err ==> r->Err_0 == crate::error::CodecError::InvalidHexEncoding,
{
    match decode_hex(s) {
        Ok(v) => Ok(v),
        Err(_) => Err(crate::error::CodecError::InvalidHexEncoding),
    }
}

proof fn lemma_digit(n: u8)
    requires
        n < 16,
    ensures
        is_hex_char(hex_digit(n)),
        nibble(hex_digit(n)) == n as int,
{
}

/// Hexadecimal text made by `to_hex` is well-formed, and `from_hex` gives back the bytes.
pub proof fn lemma_hex_round_trip(b: Seq<u8>)
    ensures
        is_hex_text(hex_chars(b)),
        hex_bytes(hex_chars(b)) == b,
{
    let s = hex_chars(b);
    assert forall|i: int| 0 <= i < s.len() implies is_hex_char(#[trigger] s[i]) by {
        lemma_digit(b[i / 2] / 16);
        lemma_digit(b[i / 2] % 16);
    }
    assert forall|j: int| 0 <= j < b.len() implies #[trigger] hex_bytes(s)[j] == b[j] by {
        let x = b[j];
        assert((2 * j) / 2 == j && (2 * j + 1) / 2 == j);
        assert((2 * j) % 2 == 0 && (2 * j + 1) % 2 == 1);
        lemma_digit(x / 16);
        lemma_digit(x % 16);
        assert((x / 16) as int * 16 + (x % 16) as int == x as int);
    }
    assert(hex_bytes(s) =~= b);
}

} // verus!
