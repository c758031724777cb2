//! The calls into other crates, each with what is taken for granted of it.

use vstd::prelude::*;

verus! {

/// A JSON document of `serde_json`. The queue carries it and never looks inside.
#[verifier::external_type_specification]
#[verifier::external_body]
pub struct ExValue(serde_json::Value);

/// What `tokio_postgres` reports when the server or the connection fails.
#[verifier::external_type_specification]
#[verifier::external_body]
pub struct ExPostgresError(tokio_postgres::Error);

/// `serde_json::Value` derives `Clone`: a clone is the same document.
pub assume_specification [<serde_json::Value as Clone>::clone](value: &serde_json::Value) -> (copy:
    serde_json::Value)
    ensures
        copy == *value,
;

/// The text in which a `tokio_postgres::Error` reports itself.
pub uninterp spec fn reported(error: tokio_postgres::Error) -> Seq<char>;

/// Calls `to_string` on a `tokio_postgres::Error`. The text depends on the error's kind alone: it
/// leaves out the cause.
#[verifier::external_body]
pub(crate) fn postgres_error_text(error: &tokio_postgres::Error) -> (text: String)
    ensures
        text@ == reported(*error),
{
    error.to_string()
}

// ---------------------------
// JSON
// ---------------------------

/// What `serde_json::from_str` makes of a text: a document, or what it says is wrong with the text.
pub uninterp spec fn parsed_json(text: Seq<char>) -> Result<serde_json::Value, Seq<char>>;

/// Calls `serde_json::from_str` for a `serde_json::Value`. Which texts it takes, which document it
/// makes of one and how it words an error depend on the text alone.
#[verifier::external_body]
pub(crate) fn parse_json(text: &str) -> (parsed: Result<serde_json::Value, String>)
    ensures
        match parsed {
            Ok(value) => parsed_json(text@) matches Ok(named) && named == value,
            Err(reason) => parsed_json(text@) matches Err(named) && named == reason@,
        },
{
    serde_json::from_str::<serde_json::Value>(text).map_err(|e| e.to_string())
}

/// What `serde_json::to_string` makes of a document: its text, or what it says went wrong.
pub uninterp spec fn written_json(value: serde_json::Value) -> Result<Seq<char>, Seq<char>>;

/// Calls `serde_json::to_string` on a `serde_json::Value`. The text depends on the document alone.
#[verifier::external_body]
pub(crate) fn write_json(value: &serde_json::Value) -> (written: Result<String, String>)
    ensures
        match written {
            Ok(text) => written_json(*value) matches Ok(named) && named == text@,
            Err(reason) => written_json(*value) matches Err(named) && named == reason@,
        },
{
    serde_json::to_string(value).map_err(|e| e.to_string())
}

// ---------------------------
// UUIDs
// ---------------------------

/// What `uuid::Uuid::parse_str` makes of a text: the 128 bits of a UUID, or what it says is wrong
/// with the text.
pub uninterp spec fn parsed_uuid(text: Seq<char>) -> Result<u128, Seq<char>>;

/// Calls `uuid::Uuid::parse_str`. Which texts it takes, which UUID it makes of one and how it words
/// an error depend on the text alone.
#[verifier::external_body]
pub(crate) fn parse_uuid(text: &str) -> (parsed: Result<u128, String>)
    ensures
        match parsed {
            Ok(id) => parsed_uuid(text@) matches Ok(named) && named == id,
            Err(reason) => parsed_uuid(text@) matches Err(named) && named == reason@,
        },
{
    match uuid::Uuid::parse_str(text) {
        Ok(id) => Ok(id.as_u128()),
        Err(e) => Err(e.to_string()),
    }
}

/// A hexadecimal digit, in lower case.
pub open spec fn hex_digit(d: int) -> char {
    if d < 10 {
        ('0' as int + d) as char
    } else {
        ('a' as int + d - 10) as char
    }
}

/// How many hyphens stand before place `i` in a hyphenated UUID.
pub open spec fn hyphens_before(i: int) -> int {
    if i <= 8 {
        0
    } else if i <= 13 {
        1
    } else if i <= 18 {
        2
    } else if i <= 23 {
        3
    } else {
        4
    }
}

/// A UUID in its usual form: 32 hexadecimal digits, the most significant first, in groups of 8, 4,
/// 4, 4 and 12 that are joined by hyphens.
pub open spec fn hyphenated(id: u128) -> Seq<char> {
    Seq::new(
        36,
        |i: int|
            if i == 8 || i == 13 || i == 18 || i == 23 {
                '-'
            } else {
                let place = 31 - (i - hyphens_before(i));
                hex_digit((id as int / vstd::arithmetic::power::pow(16, place as nat)) % 16)
            },
    )
}

/// Whether the text is parsed as the UUID.
pub open spec fn reads_as(text: Seq<char>, id: u128) -> bool {
    parsed_uuid(text) == Ok::<u128, Seq<char>>(id)
}

/// Calls `to_string` on a `uuid::Uuid`: it gives the hyphenated form, in lower case, and
/// `uuid::Uuid::parse_str` takes that form back to the same UUID.
#[verifier::external_body]
pub(crate) fn uuid_text(id: u128) -> (text: String)
    ensures
        text@ == hyphenated(id),
        reads_as(text@, id),
{
    uuid::Uuid::from_u128(id).to_string()
}

// ---------------------------
// Points in time
// ---------------------------

/// The first microsecond of the calendar of `chrono`, since the Unix epoch: -262143-01-01.
pub const CALENDAR_START: i64 = -8_334_601_228_800_000_000;

/// The last microsecond of the calendar of `chrono`, since the Unix epoch: +262142-12-31.
pub const CALENDAR_END: i64 = 8_210_266_876_799_999_999;

/// Whether the calendar of `chrono` has the point in time.
pub open spec fn in_calendar(micros: int) -> bool {
    CALENDAR_START <= micros <= CALENDAR_END
}

/// Whether the calendar of `chrono` has the point in time, microseconds since the Unix epoch.
pub fn fits_calendar(micros: i64) -> (fits: bool)
    ensures
        fits == in_calendar(micros as int),
{
    CALENDAR_START <= micros && micros <= CALENDAR_END
}

/// How `chrono` writes the point in time, microseconds since the Unix epoch, by RFC 3339 and in UTC.
pub uninterp spec fn rfc3339(micros: i64) -> Seq<char>;

/// Calls `to_rfc3339` on the `chrono::DateTime<Utc>` of the point in time. The text depends on the
/// point in time alone.
#[verifier::external_body]
pub(crate) fn rfc3339_text(micros: i64) -> (text: String)
    requires
        in_calendar(micros as int),
    ensures
        text@ == rfc3339(micros),
{
    chrono::DateTime::<chrono::Utc>::from_timestamp_micros(micros).unwrap().to_rfc3339()
}

} // verus!
