//! Points in time, held as whole seconds since the Unix epoch, and their
//! text in the log. Converting between seconds and text is chrono's work;
//! what is assumed of it is stated on the two functions at the end of this
//! file.

use crate::text::is_word;
use vstd::prelude::*;

verus! {

/// 0000-01-01T00:00:00Z, the first second that is written with a four-digit
/// year.
pub const EARLIEST: i64 = -62_167_219_200;

/// 9999-12-31T23:59:59Z, the last second that is written with a four-digit
/// year.
pub const LATEST: i64 = 253_402_300_799;

/// The seconds that have a text of fixed width.
pub open spec fn in_range(seconds: i64) -> bool {
    EARLIEST <= seconds <= LATEST
}

/// The point in time that chrono reads from `text`, in whole seconds since
/// the Unix epoch, or `None` where chrono rejects the text.
pub uninterp spec fn instant_of(text: Seq<char>) -> Option<i64>;

/// The text that chrono writes for the point in time `seconds`, in UTC and
/// to the second.
pub uninterp spec fn text_of(seconds: i64) -> Seq<char>;

/// Whether `seconds` has a text of fixed width.
pub fn has_text(seconds: i64) -> (b: bool)
    ensures
        b == in_range(seconds),
{
    EARLIEST <= seconds && seconds <= LATEST
}

/// Calls chrono's `FromStr` for `DateTime<Utc>`, which accepts a relaxed
/// RFC 3339, and `DateTime::timestamp` on what it returns. Assumed: the
/// outcome depends on the text alone; it is given the name [`instant_of`].
/// Any fraction of a second in the text is dropped.
#[verifier::external_body]
pub(crate) fn read_instant(text: &str) -> (seconds: Option<i64>)
    ensures
        seconds == instant_of(text@),
{
    match text.parse::<chrono::DateTime<chrono::Utc>>() {
        Ok(instant) => Some(instant.timestamp()),
        Err(_) => None,
    }
}

/// Calls chrono's `DateTime::from_timestamp` and
/// `DateTime::to_rfc3339_opts` with `SecondsFormat::Secs` and `Z` for UTC.
/// Assumed, for a year from 0000 to 9999: the text depends on the seconds
/// alone and is named [`text_of`]; it has the twenty characters of
/// `YYYY-MM-DDTHH:MM:SSZ`, none of them blank; and chrono reads the same
/// second back from it.
#[verifier::external_body]
pub(crate) fn write_instant(seconds: i64) -> (text: String)
    requires
        in_range(seconds),
    ensures
        text@ == text_of(seconds),
        text@.len() == 20,
        is_word(text@),
        instant_of(text@) == Some(seconds),
{
    let instant = chrono::DateTime::from_timestamp(seconds, 0).unwrap();
    instant.to_rfc3339_opts(chrono::SecondsFormat::Secs, true)
}

} // verus!
