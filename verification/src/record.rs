//! The record of one file: where it is, what its content hashes to, and the
//! metadata attributes that were read from it.

use crate::dates::{date_key_priority, date_keys, exif_timestamp, parse_exif_timestamp, DateKey,
    ExifDate};
use crate::exif::ExifData;
use vstd::prelude::*;

verus! {

/// One file as the pipeline sees it.
pub struct FileInfo {
    /// The path under which the file was found.
    pub file_path: String,
    /// The identity of the file's content.
    pub hash: String,
    /// The file's metadata attributes; `None` where none could be read.
    pub exif_data: Option<ExifData>,
}

/// A `FileInfo` as plain values.
pub struct FileInfoView {
    pub file_path: Seq<char>,
    pub hash: Seq<char>,
    pub exif_data: Option<Map<Seq<char>, Seq<char>>>,
}

impl View for FileInfo {
    type V = FileInfoView;

    open spec fn view(&self) -> FileInfoView {
        FileInfoView {
            file_path: self.file_path@,
            hash: self.hash@,
            exif_data: match self.exif_data {
                Some(exif) => Some(exif@),
                None => None,
            },
        }
    }
}

/// The value of the first of `keys` that is among `attributes`.
pub open spec fn first_present(
    attributes: Map<Seq<char>, Seq<char>>,
    keys: Seq<DateKey>,
) -> Option<Seq<char>>
    decreases keys.len(),
{
    if keys.len() == 0 {
        None
    } else if attributes.contains_key(keys[0].spec_name()) {
        Some(attributes[keys[0].spec_name()])
    } else {
        first_present(attributes, keys.drop_first())
    }
}

impl FileInfoView {
    /// The text of the date attribute that decides: the value of the first
    /// attribute of `date_key_priority` that the record has.
    pub open spec fn date_text(self) -> Option<Seq<char>> {
        match self.exif_data {
            Some(attributes) => first_present(attributes, date_key_priority()),
            None => None,
        }
    }

    /// Whether the record has any of the date attributes.
    pub open spec fn has_date_key(self) -> bool {
        self.date_text() is Some
    }

    /// The capture date of the record: what the deciding date attribute's
    /// text stands for. A record without date attribute has none, and so has
    /// one whose deciding attribute is no timestamp.
    pub open spec fn exif_date(self) -> Option<ExifDate> {
        match self.date_text() {
            Some(text) => exif_timestamp(text),
            None => None,
        }
    }
}

/// The value of the first attribute of `date_key_priority` that `exif` has.
fn first_date_text(exif: &ExifData) -> (text: Option<&String>)
    ensures
        match text {
            Some(t) => first_present(exif@, date_key_priority()) == Some(t@),
            None => first_present(exif@, date_key_priority()) is None,
        },
{
    let keys = date_keys();
    let mut i: usize = 0;
    assert(date_key_priority().subrange(0, 3) == date_key_priority());
    while i < 3
        invariant
            i <= 3,
            keys@ == date_key_priority(),
            first_present(exif@, date_key_priority()) == first_present(
                exif@,
                date_key_priority().subrange(i as int, 3),
            ),
        decreases 3 - i,
    {
        let ghost rest = date_key_priority().subrange(i as int, 3);
        assert(rest[0] == keys@[i as int]);
        assert(rest.drop_first() == date_key_priority().subrange(i + 1, 3));
        match exif.get(keys[i].name()) {
            Some(value) => {
                return Some(value);
            },
            None => {},
        }
        i += 1;
    }
    None
}

impl FileInfo {
    /// The text of the date attribute that decides.
    fn date_text(&self) -> (text: Option<&String>)
        ensures
            match text {
                Some(t) => self@.date_text() == Some(t@),
                None => self@.date_text() is None,
            },
    {
        match &self.exif_data {
            Some(exif) => first_date_text(exif),
            None => None,
        }
    }

    /// Whether the record has any of the date attributes.
    pub fn has_date_key(&self) -> (present: bool)
        ensures
            present == self@.has_date_key(),
    {
        self.date_text().is_some()
    }

    /// The capture date of the record, read from the first date attribute of
    /// `date_key_priority` that it has.
    pub fn get_exif_date(&self) -> (date: Option<ExifDate>)
        ensures
            date == self@.exif_date(),
    {
        match self.date_text() {
            Some(text) => parse_exif_timestamp(text.as_str()),
            None => None,
        }
    }
}

/// The records as plain values.
pub open spec fn record_views(records: Seq<FileInfo>) -> Seq<FileInfoView> {
    Seq::new(records.len(), |i: int| records[i]@)
}

/// The number of records that have a date attribute.
pub open spec fn dated_count(records: Seq<FileInfoView>) -> nat
    decreases records.len(),
{
    if records.len() == 0 {
        0
    } else if records.last().has_date_key() {
        dated_count(records.drop_last()) + 1
    } else {
        dated_count(records.drop_last())
    }
}

/// Counts the records that have a date attribute, whatever its value.
pub fn count_with_date(records: &Vec<FileInfo>) -> (n: usize)
    ensures
        n == dated_count(record_views(records@)),
{
    let ghost all = record_views(records@);
    let mut n: usize = 0;
    let mut i: usize = 0;
    assert(all.subrange(0, 0) == Seq::<FileInfoView>::empty());
    while i < records.len()
        invariant
            i <= records@.len(),
            all == record_views(records@),
            n == dated_count(all.subrange(0, i as int)),
            n <= i,
        decreases records@.len() - i,
    {
        proof {
            assert(all.subrange(0, i + 1).drop_last() == all.subrange(0, i as int));
            assert(all.subrange(0, i + 1).last() == records@[i as int]@);
        }
        if records[i].has_date_key() {
            n += 1;
        }
        i += 1;
    }
    assert(all.subrange(0, i as int) == all);
    n
}

} // verus!
