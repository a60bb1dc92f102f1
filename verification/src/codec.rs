//! Encodings the documents use: base58 (the `bs58` crate, Bitcoin alphabet),
//! JSON for the lines of a message (`serde_json`), and dates as text
//! (`chrono`).
use vstd::prelude::*;

verus! {


/// The JSON text (as bytes) of a list of strings.
pub uninterp spec fn json_of_lines(lines: Seq<Seq<char>>) -> Seq<u8>;

/// The list of strings that some JSON bytes hold, if they hold one.
pub uninterp spec fn lines_of_json(bytes: Seq<u8>) -> Option<Seq<Seq<char>>>;

/// The text of a date given in nanoseconds since the epoch.
pub uninterp spec fn date_text(nanos: i64) -> Seq<char>;

/// The lower-case form of a text, as Unicode defines it.
pub uninterp spec fn lowercase(text: Seq<char>) -> Seq<char>;

/// The text some bytes read as UTF-8, with each invalid sequence replaced
/// by U+FFFD.
pub uninterp spec fn utf8_lossy(bytes: Seq<u8>) -> Seq<char>;

/// Hex digit `q` (0 to 31, most significant first) of a 128-bit value.
pub open spec fn nibble(x: u128, q: int) -> u8 {
    ((x >> ((4 * (31 - q)) as u128)) & 0xfu128) as u8
}

/// The lower-case hexadecimal digit of a value below 16.
pub open spec fn hex_char(n: u8) -> char {
    if n < 10 {
        (48 + n) as char
    } else {
        (87 + n) as char
    }
}

/// The hyphenated text of a UUID: 32 lower-case hex digits of its value,
/// most significant first, in groups of 8, 4, 4, 4 and 12 joined by `-`.
pub open spec fn uuid_hyphenated(id: u128) -> Seq<char> {
    Seq::new(
        36,
        |p: int|
            if p == 8 || p == 13 || p == 18 || p == 23 {
                '-'
            } else {
                let q = if p < 8 {
                    p
                } else if p < 13 {
                    p - 1
                } else if p < 18 {
                    p - 2
                } else if p < 23 {
                    p - 3
                } else {
                    p - 4
                };
                hex_char(nibble(id, q))
            },
    )
}

/// A character of the Bitcoin base58 alphabet.
pub open spec fn is_bs58_char(c: char) -> bool {
    ('1' <= c <= '9') || ('A' <= c <= 'H') || ('J' <= c <= 'N') || ('P' <= c <= 'Z') || ('a' <= c <= 'k') || (
    'm' <= c <= 'z')
}

/// The value of a base58 digit of the Bitcoin alphabet
/// (`123456789ABCDEFGHJKLMNPQRSTUVWXYZabcdefghijkmnopqrstuvwxyz`).
pub open spec fn bs58_digit(c: char) -> int {
    if '1' <= c <= '9' {
        c as int - '1' as int
    } else if 'A' <= c <= 'H' {
        9 + (c as int - 'A' as int)
    } else if 'J' <= c <= 'N' {
        17 + (c as int - 'J' as int)
    } else if 'P' <= c <= 'Z' {
        22 + (c as int - 'P' as int)
    } else if 'a' <= c <= 'k' {
        33 + (c as int - 'a' as int)
    } else {
        44 + (c as int - 'm' as int)
    }
}

/// The base58 digit of a value below 58.
pub open spec fn bs58_char(d: int) -> char {
    if d < 9 {
        ('1' as int + d) as char
    } else if d < 17 {
        ('A' as int + (d - 9)) as char
    } else if d < 22 {
        ('J' as int + (d - 17)) as char
    } else if d < 33 {
        ('P' as int + (d - 22)) as char
    } else if d < 44 {
        ('a' as int + (d - 33)) as char
    } else {
        ('m' as int + (d - 44)) as char
    }
}

/// The value of some bytes read as one big-endian number.
pub open spec fn be_value(b: Seq<u8>) -> nat
    decreases b.len(),
{
    if b.len() == 0 {
        0
    } else {
        (be_value(b.drop_last()) * 256 + b.last()) as nat
    }
}

/// The value of a base58 text read as one number, most significant digit
/// first.
pub open spec fn bs58_value(t: Seq<char>) -> nat
    decreases t.len(),
{
    if t.len() == 0 {
        0
    } else {
        (bs58_value(t.drop_last()) * 58 + bs58_digit(t.last())) as nat
    }
}

/// The base58 digits of `n`, most significant first, none for zero.
pub open spec fn bs58_digits(n: nat) -> Seq<char>
    decreases n,
{
    if n == 0 {
        Seq::empty()
    } else {
        bs58_digits(n / 58).push(bs58_char((n % 58) as int))
    }
}

/// The bytes of `n`, most significant first, none for zero.
pub open spec fn be_bytes_of(n: nat) -> Seq<u8>
    decreases n,
{
    if n == 0 {
        Seq::empty()
    } else {
        be_bytes_of(n / 256).push((n % 256) as u8)
    }
}

/// How many of the first elements of `s` equal `x`.
pub open spec fn leading_count<T>(s: Seq<T>, x: T) -> nat
    decreases s.len(),
{
    if s.len() == 0 || s[0] != x {
        0
    } else {
        1 + leading_count(s.drop_first(), x)
    }
}

/// The base58 text of some bytes: a `1` for each leading zero byte, then
/// the digits of the bytes' value.
#[verifier::opaque]
pub open spec fn bs58_encoded(bytes: Seq<u8>) -> Seq<char> {
    Seq::new(leading_count(bytes, 0u8), |i: int| '1') + bs58_digits(be_value(bytes))
}

/// The bytes a base58 text decodes to, when every character is in the
/// alphabet: a zero byte for each leading `1`, then the bytes of the text's
/// value.
#[verifier::opaque]
pub open spec fn bs58_decoded(text: Seq<char>) -> Option<Seq<u8>> {
    if forall|i: int| 0 <= i < text.len() ==> is_bs58_char(#[trigger] text[i]) {
        Some(Seq::new(leading_count(text, '1'), |i: int| 0u8) + be_bytes_of(bs58_value(text)))
    } else {
        None
    }
}

pub open spec fn strings_view(s: Seq<String>) -> Seq<Seq<char>> {
    Seq::new(s.len(), |i: int| s[i]@)
}

pub open spec fn opt_bytes_view(o: Option<Vec<u8>>) -> Option<Seq<u8>> {
    match o {
        Some(v) => Some(v@),
        None => None,
    }
}

pub open spec fn opt_strings_view(o: Option<Vec<String>>) -> Option<Seq<Seq<char>>> {
    match o {
        Some(v) => Some(strings_view(v@)),
        None => None,
    }
}

/// Base58 encoding (`bs58::encode(..).into_string()`). Claims: the text is
/// `bs58_encoded` of the bytes, and decoding it gives the bytes back.
#[verifier::external_body]
pub(crate) fn bs58_encode(bytes: &[u8]) -> (s: String)
    ensures
        s@ == bs58_encoded(bytes@),
        bs58_decoded(s@) == Some(bytes@),
{
    bs58::encode(bytes).into_string()
}

/// Base58 decoding (`bs58::decode(..).into_vec()`). Claims: the result is
/// `bs58_decoded` of the text, and it is there exactly when every character
/// is in the alphabet (the decoder refuses a character outside it).
#[verifier::external_body]
pub(crate) fn bs58_decode(text: &str) -> (r: Option<Vec<u8>>)
    ensures
        opt_bytes_view(r) == bs58_decoded(text@),
        r is Some <==> forall|i: int| 0 <= i < text@.len() ==> is_bs58_char(#[trigger] text@[i]),
{
    match bs58::decode(text).into_vec() {
        Ok(bytes) => Some(bytes),
        Err(_) => None,
    }
}

/// JSON encoding of a list of strings (`serde_json::to_vec`). Claims: the
/// bytes are `json_of_lines` of the strings, and decoding them gives the
/// strings back.
#[verifier::external_body]
pub(crate) fn json_encode_lines(lines: &Vec<String>) -> (r: Vec<u8>)
    ensures
        r@ == json_of_lines(strings_view(lines@)),
        lines_of_json(r@) == Some(strings_view(lines@)),
{
    match serde_json::to_vec(lines) {
        Ok(bytes) => bytes,
        Err(_) => Vec::new(),
    }
}

/// JSON decoding of a list of strings (`serde_json::from_slice`). Claims:
/// the result is `lines_of_json` of the bytes.
#[verifier::external_body]
pub(crate) fn json_decode_lines(bytes: &[u8]) -> (r: Option<Vec<String>>)
    ensures
        opt_strings_view(r) == lines_of_json(bytes@),
{
    match serde_json::from_slice::<Vec<String>>(bytes) {
        Ok(lines) => Some(lines),
        Err(_) => None,
    }
}

/// The text of a UUID (`uuid::Uuid::from_u128(..)` displayed). Claims: it is
/// the hyphenated lower-case form of the value.
#[verifier::external_body]
pub(crate) fn uuid_string(id: u128) -> (s: String)
    ensures
        s@ == uuid_hyphenated(id),
{
    uuid::Uuid::from_u128(id).to_string()
}

/// The text of a date (`chrono::DateTime<Utc>` displayed), the date given in
/// nanoseconds since the epoch. Claims: it is `date_text` of the date.
#[verifier::external_body]
pub(crate) fn date_string(nanos: i64) -> (s: String)
    ensures
        s@ == date_text(nanos),
{
    chrono::DateTime::from_timestamp_nanos(nanos).to_string()
}

/// Lower-casing (`str::to_lowercase`). Claims: the text is `lowercase` of
/// the given one.
#[verifier::external_body]
pub(crate) fn to_lower(text: &str) -> (s: String)
    ensures
        s@ == lowercase(text@),
{
    text.to_lowercase()
}

/// Reading bytes as text (`String::from_utf8_lossy`). Claims: the text is
/// `utf8_lossy` of the bytes.
#[verifier::external_body]
pub(crate) fn lossy_text(bytes: &[u8]) -> (s: String)
    ensures
        s@ == utf8_lossy(bytes@),
{
    String::from_utf8_lossy(bytes).into_owned()
}

} // verus!
