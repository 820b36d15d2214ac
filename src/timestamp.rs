//! The latest date and time codes that the imagery service offers.
//!
//! The service answers with JSON objects that hold one list of codes each; the
//! first code of the list is taken as the latest.

use vstd::prelude::*;
use crate::error::SliderError;

verus! {

/// What serde_json reads from the JSON document `doc` under the member `key`:
/// the list of codes when that member is an array whose every element is an
/// unsigned integer that fits a `u64`, and `None` when the document does not
/// parse, is not an object holding `key`, or that member is anything else.
pub uninterp spec fn json_u64_list(doc: Seq<u8>, key: Seq<char>) -> Option<Seq<u64>>;

/// Relies on serde_json::from_slice, serde_json::Value::get,
/// serde_json::Value::as_array and serde_json::Value::as_u64 to read the array
/// of unsigned integers under `key` in the document `doc`.
#[verifier::external_body]
fn read_u64_list(doc: &[u8], key: &str) -> (r: Option<Vec<u64>>)
    ensures
        r is Some <==> json_u64_list(doc@, key@) is Some,
        r matches Some(v) ==> json_u64_list(doc@, key@) == Some(v@),
{
    let value: serde_json::Value = serde_json::from_slice(doc).ok()?;
    value.get(key)?.as_array()?.iter().map(|e| e.as_u64()).collect()
}

/// The latest code of a list read from a document: its first element; a parse
/// failure when the document gave no list or an empty one.
pub open spec fn first_code(list: Option<Seq<u64>>) -> Result<u64, SliderError> {
    match list {
        Some(c) => if c.len() > 0 {
            Ok(c[0])
        } else {
            Err(SliderError::Parse)
        },
        None => Err(SliderError::Parse),
    }
}

/// The member that lists the time codes.
pub const TIMES_KEY: &'static str = "timestamps_int";

/// The member that lists the date codes.
pub const DATES_KEY: &'static str = "dates_int";

/// The first code of a list; a parse failure when the list is empty.
pub fn latest_of(codes: &Vec<u64>) -> (r: Result<u64, SliderError>)
    ensures
        codes@.len() > 0 ==> r == Ok::<u64, SliderError>(codes@[0]),
        codes@.len() == 0 ==> r == Err::<u64, SliderError>(SliderError::Parse),
{
    if codes.len() > 0 {
        Ok(codes[0])
    } else {
        Err(SliderError::Parse)
    }
}

/// Reads the list of codes under `key` in the JSON document `doc`, which must
/// be an array of unsigned integers, and returns its first code.
pub fn latest_code(doc: &[u8], key: &str) -> (r: Result<u64, SliderError>)
    ensures
        r == first_code(json_u64_list(doc@, key@)),
{
    match read_u64_list(doc, key) {
        Some(codes) => latest_of(&codes),
        None => Err(SliderError::Parse),
    }
}

/// The latest time code: an opaque integer that names one image.
#[derive(Clone, Copy, Debug, PartialEq, Eq, Structural)]
pub struct Time {
    pub timestamp: u64,
}

impl Time {
    /// Reads the latest time code from the service's list of times.
    pub fn from_json(doc: &[u8]) -> (r: Result<Time, SliderError>)
        ensures
            r == match first_code(json_u64_list(doc@, TIMES_KEY@)) {
                Ok(c) => Ok::<Time, SliderError>(Time { timestamp: c }),
                Err(e) => Err(e),
            },
    {
        match latest_code(doc, TIMES_KEY) {
            Ok(t) => Ok(Time { timestamp: t }),
            Err(e) => Err(e),
        }
    }

    /// The time code as an integer.
    pub fn as_int(&self) -> (r: u64)
        ensures
            r == self.timestamp,
    {
        self.timestamp
    }
}

/// The year, month and day of an eight-digit code `yyyymmdd`.
pub open spec fn split_spec(date: u64) -> (u16, u8, u8) {
    (((date / 10000) % 10000) as u16, ((date / 100) % 100) as u8, (date % 100) as u8)
}

/// The latest date code, the eight decimal digits `yyyymmdd` read as one integer.
#[derive(Clone, Copy, Debug, PartialEq, Eq, Structural)]
pub struct Date {
    pub date: u64,
}

impl Date {
    /// Reads the latest date code from the service's list of dates.
    pub fn from_json(doc: &[u8]) -> (r: Result<Date, SliderError>)
        ensures
            r == match first_code(json_u64_list(doc@, DATES_KEY@)) {
                Ok(c) => Ok::<Date, SliderError>(Date { date: c }),
                Err(e) => Err(e),
            },
    {
        match latest_code(doc, DATES_KEY) {
            Ok(d) => Ok(Date { date: d }),
            Err(e) => Err(e),
        }
    }

    /// Splits the date into year, month and day: the digits from the eighth to
    /// the fifth from the right, the fourth and third, and the last two. This is
    /// the calendar date only when the code has eight digits.
    pub fn split(&self) -> (r: (u16, u8, u8))
        ensures
            r == split_spec(self.date),
    {
        (((self.date / 10000) % 10000) as u16, ((self.date / 100) % 100) as u8, (self.date % 100) as u8)
    }
}

} // verus!
