//! The store's boundary with the outside crates it leans on: `uuid` for fresh
//! identifiers, `chrono` for the clock and for rendering timestamps as RFC 3339
//! text, and one small piece of `std` that vstd does not specify.

use vstd::prelude::*;

verus! {

/// Upper bound on the timestamps the store keeps (milliseconds since the Unix
/// epoch). Staying below it keeps every timestamp inside chrono's range and
/// inside the four-digit-year form of RFC 3339.
pub const MAX_TS_MILLIS: i64 = 100_000_000_000_000;

/// A timestamp the store accepts: non-negative milliseconds since the Unix
/// epoch, small enough to render as an RFC 3339 date.
pub open spec fn valid_ts(t: i64) -> bool {
    0 <= t <= MAX_TS_MILLIS
}

/// The RFC 3339 rendering that chrono gives to `t` milliseconds since the
/// Unix epoch, in UTC.
pub uninterp spec fn rfc3339_of(t: i64) -> Seq<char>;

/// What chrono's RFC 3339 parser yields on the text `s`: the parsed instant in
/// milliseconds since the Unix epoch, or `None` where `s` is not a date.
pub uninterp spec fn rfc3339_val(s: Seq<char>) -> Option<i64>;

/// The hyphenated textual form that the uuid crate gives to a 128-bit
/// identifier.
pub uninterp spec fn uuid_str_of(x: u128) -> Seq<char>;

/// What the uuid crate's parser yields on the text `s`: the identifier's
/// 128 bits, or `None` where `s` does not name one.
pub uninterp spec fn uuid_val(s: Seq<char>) -> Option<u128>;

/// Relies on chrono's `Utc::now` and `DateTime::timestamp_millis`. The clock
/// can say anything, so nothing is promised of the result.
#[verifier::external_body]
pub(crate) fn now_millis_raw() -> i64 {
    chrono::Utc::now().timestamp_millis()
}

/// The current clock reading, clamped into the range the store accepts.
pub fn current_ts() -> (r: i64)
    ensures
        valid_ts(r),
{
    let t: i64 = now_millis_raw();
    if t < 0 {
        0
    } else if t > MAX_TS_MILLIS {
        MAX_TS_MILLIS
    } else {
        t
    }
}

/// Relies on uuid's `Uuid::new_v4` and `Uuid::as_u128`. The identifier is
/// drawn at random, so nothing is promised of the result.
#[verifier::external_body]
pub(crate) fn fresh_uuid() -> u128 {
    uuid::Uuid::new_v4().as_u128()
}

/// Relies on chrono's `DateTime::<Utc>::from_timestamp_millis` (total on the
/// range `valid_ts` admits) and `DateTime::to_rfc3339`: the rendering depends
/// on the milliseconds alone.
#[verifier::external_body]
pub(crate) fn ts_to_rfc3339(t: i64) -> (r: String)
    requires
        valid_ts(t),
    ensures
        r@ == rfc3339_of(t),
{
    match chrono::DateTime::<chrono::Utc>::from_timestamp_millis(t) {
        Some(d) => d.to_rfc3339(),
        None => String::new(),
    }
}

/// Relies on chrono's `DateTime::parse_from_rfc3339` and
/// `DateTime::timestamp_millis`: the result depends on the text alone, and
/// parsing inverts `to_rfc3339` on every instant the store can hold.
#[verifier::external_body]
pub(crate) fn parse_rfc3339_ts(s: &str) -> (r: Option<i64>)
    ensures
        r == rfc3339_val(s@),
        forall|t: i64| valid_ts(t) && s@ == #[trigger] rfc3339_of(t) ==> r == Some(t),
{
    match chrono::DateTime::parse_from_rfc3339(s) {
        Ok(d) => Some(d.timestamp_millis()),
        Err(_) => None,
    }
}

/// Relies on uuid's `Uuid::from_u128` and the hyphenated `Display` form: the
/// text depends on the 128 bits alone.
#[verifier::external_body]
pub(crate) fn uuid_to_string(x: u128) -> (r: String)
    ensures
        r@ == uuid_str_of(x),
{
    uuid::Uuid::from_u128(x).hyphenated().to_string()
}

/// Relies on uuid's `Uuid::parse_str` and `Uuid::as_u128`: the result depends
/// on the text alone, and parsing inverts the hyphenated form of every
/// identifier.
#[verifier::external_body]
pub(crate) fn parse_uuid(s: &str) -> (r: Option<u128>)
    ensures
        r == uuid_val(s@),
        forall|x: u128| s@ == #[trigger] uuid_str_of(x) ==> r == Some(x),
{
    match uuid::Uuid::parse_str(s) {
        Ok(u) => Some(u.as_u128()),
        Err(_) => None,
    }
}

/// Relies on std's `String::push`: appends one character.
#[verifier::external_body]
pub(crate) fn push_char(s: &mut String, c: char)
    ensures
        final(s)@ == old(s)@.push(c),
{
    s.push(c);
}

} // verus!
