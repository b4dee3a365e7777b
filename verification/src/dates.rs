//! Capture dates: the attributes that carry one, in their order of
//! preference, and the timestamp that such an attribute's text stands for.

use chrono::{Datelike, NaiveDateTime, Timelike};
use vstd::prelude::*;

verus! {

/// An attribute that carries the date on which a picture was taken.
#[derive(Clone, Copy, Debug, PartialEq, Eq)]
pub enum DateKey {
    /// The moment at which the original picture was taken.
    Original,
    /// The moment at which the picture was digitized.
    Digitized,
    /// The date and time of the file, with no statement of what they refer to.
    Generic,
}

impl DateKey {
    /// The attribute's name as a metadata report writes it.
    pub open spec fn spec_name(self) -> Seq<char> {
        match self {
            DateKey::Original => "Date and Time (Original)"@,
            DateKey::Digitized => "Date and Time (Digitized)"@,
            DateKey::Generic => "Date and Time"@,
        }
    }

    /// The attribute's name as a metadata report writes it.
    pub fn name(self) -> (name: &'static str)
        ensures
            name@ == self.spec_name(),
    {
        match self {
            DateKey::Original => "Date and Time (Original)",
            DateKey::Digitized => "Date and Time (Digitized)",
            DateKey::Generic => "Date and Time",
        }
    }
}

/// The date attributes in their order of preference: where a file has
/// several, the first of these that is present decides.
pub open spec fn date_key_priority() -> Seq<DateKey> {
    seq![DateKey::Original, DateKey::Digitized, DateKey::Generic]
}

/// The date attributes in their order of preference.
pub fn date_keys() -> (keys: [DateKey; 3])
    ensures
        keys@ == date_key_priority(),
{
    [DateKey::Original, DateKey::Digitized, DateKey::Generic]
}

/// The pattern in which a date attribute writes its timestamp: year, month
/// and day separated by colons, a space, then hour, minute and second
/// separated by colons.
pub const TIMESTAMP_FORMAT: &'static str = "%Y:%m:%d %H:%M:%S";

/// A calendar date with a time of day.
#[derive(Clone, Copy, Debug, PartialEq, Eq)]
pub struct ExifDate {
    pub year: i32,
    pub month: u32,
    pub day: u32,
    pub hour: u32,
    pub minute: u32,
    pub second: u32,
}

impl ExifDate {
    /// The year.
    pub fn year(&self) -> (y: i32)
        ensures
            y == self.year,
    {
        self.year
    }

    /// The month of the year.
    pub fn month(&self) -> (m: u32)
        ensures
            m == self.month,
    {
        self.month
    }

    /// The day of the month.
    pub fn day(&self) -> (d: u32)
        ensures
            d == self.day,
    {
        self.day
    }

    /// The hour of the day.
    pub fn hour(&self) -> (h: u32)
        ensures
            h == self.hour,
    {
        self.hour
    }

    /// The minute of the hour.
    pub fn minute(&self) -> (m: u32)
        ensures
            m == self.minute,
    {
        self.minute
    }

    /// The second of the minute.
    pub fn second(&self) -> (s: u32)
        ensures
            s == self.second,
    {
        self.second
    }
}

/// What `chrono::NaiveDateTime::parse_from_str` makes of `text` under the
/// pattern `format`: the date and time that it reads, or nothing where the
/// text does not fit the pattern or names no valid date and time.
pub uninterp spec fn parsed_timestamp(text: Seq<char>, format: Seq<char>) -> Option<ExifDate>;

/// Calls `chrono::NaiveDateTime::parse_from_str` and hands back the year,
/// month, day, hour, minute and second of what it read. The contract claims
/// only that the outcome depends on the two texts alone.
#[verifier::external_body]
fn parse_timestamp(text: &str, format: &str) -> (date: Option<ExifDate>)
    ensures
        date == parsed_timestamp(text@, format@),
{
    match NaiveDateTime::parse_from_str(text, format) {
        Ok(t) => Some(
            ExifDate {
                year: t.year(),
                month: t.month(),
                day: t.day(),
                hour: t.hour(),
                minute: t.minute(),
                second: t.second(),
            },
        ),
        Err(_) => None,
    }
}

/// The timestamp that the text of a date attribute stands for.
pub open spec fn exif_timestamp(text: Seq<char>) -> Option<ExifDate> {
    parsed_timestamp(text, TIMESTAMP_FORMAT@)
}

/// Reads the text of a date attribute. Text that is no timestamp in the
/// pattern of `TIMESTAMP_FORMAT` gives nothing.
pub fn parse_exif_timestamp(text: &str) -> (date: Option<ExifDate>)
    ensures
        date == exif_timestamp(text@),
{
    parse_timestamp(text, TIMESTAMP_FORMAT)
}

} // verus!
