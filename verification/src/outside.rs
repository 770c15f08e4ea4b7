//! Calls into other crates, each behind a contract.

use crate::text::digits;
use crate::time::civil_date;
use vstd::prelude::*;
use vstd::string::*;
use vstd::utf8::*;

verus! {

// ── Digests and encodings ──
/// The SHA-256 digest of `data`.
pub uninterp spec fn sha256(data: Seq<u8>) -> Seq<u8>;

/// `sha2::Sha256::digest`: the digest of the bytes, which is 32 bytes long.
#[verifier::external_body]
pub(crate) fn sha256_digest(data: &[u8]) -> (r: Vec<u8>)
    ensures
        r@ == sha256(data@),
        r@.len() == 32,
{
    <sha2::Sha256 as sha2::Digest>::digest(data).to_vec()
}

/// The lower-case hexadecimal digit of value `n`.
pub open spec fn hex_char(n: int) -> char {
    if n < 10 {
        ((0x30 + n) as u32) as char
    } else {
        ((0x61 + n - 10) as u32) as char
    }
}

/// Two lower-case hexadecimal digits for each byte, the high one first.
pub open spec fn hex_text(b: Seq<u8>) -> Seq<char> {
    Seq::new(
        2 * b.len(),
        |i: int|
            if i % 2 == 0 {
                hex_char(b[i / 2] as int / 16)
            } else {
                hex_char(b[i / 2] as int % 16)
            },
    )
}

/// `hex::encode`: two lower-case hexadecimal digits for each byte. It panics
/// where the text would outgrow the address space.
#[verifier::external_body]
pub(crate) fn hex_encode(data: &[u8]) -> (r: String)
    requires
        2 * data@.len() <= isize::MAX,
    ensures
        r@ == hex_text(data@),
{
    hex::encode(data)
}

/// `subtle::ConstantTimeEq::ct_eq` on byte slices: whether they are equal, in
/// a time that depends on their lengths alone.
#[verifier::external_body]
pub(crate) fn same_bytes(a: &[u8], b: &[u8]) -> (r: bool)
    ensures
        r == (a@ == b@),
{
    subtle::ConstantTimeEq::ct_eq(a, b).into()
}

// ── Chance ──
/// `rand::random` for 16 bytes: nothing is known of them but their number.
#[verifier::external_body]
pub(crate) fn random_bytes() -> (r: Vec<u8>)
    ensures
        r@.len() == 16,
{
    let bytes: [u8; 16] = rand::random();
    bytes.to_vec()
}

// ── Identifiers ──
/// The last `k` hexadecimal digits of `n`.
pub open spec fn hex_tail(n: nat, k: nat) -> Seq<char>
    decreases k,
{
    if k == 0 {
        Seq::empty()
    } else {
        hex_tail(n / 16, (k - 1) as nat).push(hex_char(n as int % 16))
    }
}

/// An identifier as 32 hexadecimal digits.
pub open spec fn uuid_digits(id: u128) -> Seq<char> {
    hex_tail(id as nat, 32)
}

/// An identifier as hexadecimal digits in groups of 8, 4, 4, 4 and 12 with
/// hyphens between them.
pub open spec fn uuid_text(id: u128) -> Seq<char> {
    let d = uuid_digits(id);
    d.subrange(0, 8) + seq!['-'] + d.subrange(8, 12) + seq!['-'] + d.subrange(12, 16) + seq!['-']
        + d.subrange(16, 20) + seq!['-'] + d.subrange(20, 32)
}

/// `Uuid`'s `Display`: the hyphenated lower-case form.
#[verifier::external_body]
pub(crate) fn uuid_string(id: u128) -> (r: String)
    ensures
        r@ == uuid_text(id),
{
    uuid::Uuid::from_u128(id).to_string()
}

/// `Uuid::simple`: the 32 lower-case digits without hyphens.
#[verifier::external_body]
pub(crate) fn uuid_simple(id: u128) -> (r: String)
    ensures
        r@ == uuid_digits(id),
{
    uuid::Uuid::from_u128(id).simple().to_string()
}

/// The identifier that a text writes, in one of the forms that UUIDs have.
pub uninterp spec fn uuid_of(text: Seq<char>) -> Option<u128>;

/// `Uuid::parse_str`: the identifier that the text writes, if it writes one.
#[verifier::external_body]
pub(crate) fn parse_uuid(text: &str) -> (r: Option<u128>)
    ensures
        r == uuid_of(text@),
{
    uuid::Uuid::parse_str(text).ok().map(|u| u.as_u128())
}

// ── Calendar ──
/// Two decimal digits.
pub open spec fn two_digits(n: int) -> Seq<char> {
    seq![hex_char(n / 10), hex_char(n % 10)]
}

/// A year with at least four digits, and with its sign outside 0 to 9999.
pub open spec fn year_text(year: int) -> Seq<char> {
    let size = if year < 0 {
        -year
    } else {
        year
    };
    let figures = if size < 10000 {
        two_digits(size / 100) + two_digits(size % 100)
    } else {
        digits(size as nat)
    };
    if year < 0 {
        seq!['-'] + figures
    } else if year < 10000 {
        figures
    } else {
        seq!['+'] + figures
    }
}

/// The UTC date of a second, as year, month and day without separators.
pub open spec fn utc_date(secs: int) -> Seq<char> {
    let (year, month, day) = civil_date(secs / 86400);
    year_text(year) + two_digits(month) + two_digits(day)
}

/// `DateTime::format` with `%Y%m%d`: the date in the Gregorian calendar.
/// Seconds outside the calendar have no `DateTime`.
#[verifier::external_body]
pub(crate) fn format_date(secs: i64) -> (r: String)
    requires
        crate::time::MIN_UTC_SECS <= secs <= crate::time::MAX_UTC_SECS,
    ensures
        r@ == utc_date(secs as int),
{
    chrono::DateTime::from_timestamp(secs, 0).unwrap().format("%Y%m%d").to_string()
}

/// The UTC time of day of a second, as hour, minute and second without
/// separators.
pub open spec fn utc_clock(secs: int) -> Seq<char> {
    let day = secs % 86400;
    two_digits(day / 3600) + two_digits(day / 60 % 60) + two_digits(day % 60)
}

/// `DateTime::format` with `%H%M%S`.
#[verifier::external_body]
pub(crate) fn format_clock(secs: i64) -> (r: String)
    requires
        crate::time::MIN_UTC_SECS <= secs <= crate::time::MAX_UTC_SECS,
    ensures
        r@ == utc_clock(secs as int),
{
    chrono::DateTime::from_timestamp(secs, 0).unwrap().format("%H%M%S").to_string()
}

/// The second that a text in the form `2026-06-10 14:30:22` names, in UTC.
pub uninterp spec fn registry_second(text: Seq<char>) -> Option<i64>;

/// `NaiveDateTime::parse_from_str` with `%Y-%m-%d %H:%M:%S`, read as UTC.
#[verifier::external_body]
pub(crate) fn parse_registry_time(text: &str) -> (r: Option<i64>)
    ensures
        r == registry_second(text@),
{
    chrono::NaiveDateTime::parse_from_str(text, "%Y-%m-%d %H:%M:%S").ok().map(
        |t| t.and_utc().timestamp(),
    )
}

// ── Letters ──
/// The lower-case form of a text, by the Unicode rules.
pub uninterp spec fn lowercase(s: Seq<char>) -> Seq<char>;

/// The lower-case form of an ASCII character.
pub open spec fn ascii_lower(c: char) -> char {
    if 'A' <= c && c <= 'Z' {
        ((c as u32 + 32) as u32) as char
    } else {
        c
    }
}

/// `str::to_lowercase`: the lower-case form; over ASCII, letter by letter. No
/// ASCII capital is left, and a text that is not empty stays so.
#[verifier::external_body]
pub(crate) fn to_lowercase(s: &str) -> (r: String)
    ensures
        r@ == lowercase(s@),
        is_ascii_chars(s@) ==> r@ == s@.map_values(|c: char| ascii_lower(c)),
        forall|i: int| 0 <= i < r@.len() ==> !('A' <= #[trigger] r@[i] && r@[i] <= 'Z'),
        s@.len() > 0 ==> r@.len() > 0,
{
    s.to_lowercase()
}

// ── URL encoding ──
/// Whether a byte stands for itself in a percent-encoded text.
pub open spec fn unreserved(b: u8) -> bool {
    ||| 0x30 <= b <= 0x39
    ||| 0x41 <= b <= 0x5a
    ||| 0x61 <= b <= 0x7a
    ||| b == 0x2d
    ||| b == 0x2e
    ||| b == 0x5f
    ||| b == 0x7e
}

/// The upper-case hexadecimal digit of value `n`.
pub open spec fn upper_hex_char(n: int) -> char {
    if n < 10 {
        ((0x30 + n) as u32) as char
    } else {
        ((0x41 + n - 10) as u32) as char
    }
}

/// Bytes with a percent sign and two digits for each that is not unreserved.
pub open spec fn percent_bytes(b: Seq<u8>) -> Seq<char>
    decreases b.len(),
{
    if b.len() == 0 {
        Seq::empty()
    } else {
        let front = percent_bytes(b.drop_last());
        let c = b.last();
        if unreserved(c) {
            front.push((c as u32) as char)
        } else {
            front + seq!['%', upper_hex_char(c as int / 16), upper_hex_char(c as int % 16)]
        }
    }
}

/// A text, percent-encoded.
pub open spec fn percent_encoded(s: Seq<char>) -> Seq<char> {
    percent_bytes(encode_utf8(s))
}

/// `urlencoding::encode`: letters, digits, `-`, `.`, `_` and `~` as they are,
/// every other byte as a percent sign and two upper-case digits.
#[verifier::external_body]
pub(crate) fn percent_encode(s: &str) -> (r: String)
    ensures
        r@ == percent_encoded(s@),
{
    urlencoding::encode(s).into_owned()
}

} // verus!
