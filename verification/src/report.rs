//! The report of a metadata extractor: lines of an attribute's name, a tab
//! and its value.

use crate::exif::ExifData;
use crate::text::{chars_of, push_range, string_of};
use vstd::prelude::*;

verus! {

/// The character that ends a line of the report.
pub const LINE_END: char = '\n';

/// The character that separates a name from its value.
pub const FIELD_SEPARATOR: char = '\t';

/// Whether `c` is white space: a character that Unicode lists as
/// `White_Space`.
pub open spec fn is_blank(c: char) -> bool {
    let n = c as u32;
    ||| 0x09 <= n <= 0x0d
    ||| n == 0x20
    ||| n == 0x85
    ||| n == 0xa0
    ||| n == 0x1680
    ||| 0x2000 <= n <= 0x200a
    ||| n == 0x2028
    ||| n == 0x2029
    ||| n == 0x202f
    ||| n == 0x205f
    ||| n == 0x3000
}

/// Whether `c` is white space.
pub fn is_blank_char(c: char) -> (blank: bool)
    ensures
        blank == is_blank(c),
{
    let n: u32 = c as u32;
    (0x09 <= n && n <= 0x0d) || n == 0x20 || n == 0x85 || n == 0xa0 || n == 0x1680 || (0x2000 <= n
        && n <= 0x200a) || n == 0x2028 || n == 0x2029 || n == 0x202f || n == 0x205f || n == 0x3000
}

/// The index of the first `c` in `s`, or the length of `s` where it has none.
pub open spec fn first_index_of(s: Seq<char>, c: char) -> int
    decreases s.len(),
{
    if s.len() == 0 || s[0] == c {
        0
    } else {
        1 + first_index_of(s.drop_first(), c)
    }
}

/// `s` without the white space at its start.
pub open spec fn trim_start(s: Seq<char>) -> Seq<char>
    decreases s.len(),
{
    if s.len() > 0 && is_blank(s[0]) {
        trim_start(s.drop_first())
    } else {
        s
    }
}

/// `s` without the white space at its end.
pub open spec fn trim_end(s: Seq<char>) -> Seq<char>
    decreases s.len(),
{
    if s.len() > 0 && is_blank(s.last()) {
        trim_end(s.drop_last())
    } else {
        s
    }
}

/// `s` without the white space at its start and at its end.
pub open spec fn trim(s: Seq<char>) -> Seq<char> {
    trim_end(trim_start(s))
}

/// The attribute that a line of the report states: name and value, both
/// trimmed, where the line falls into exactly two fields at tabs. Any other
/// line states none.
pub open spec fn row_of(line: Seq<char>) -> Option<(Seq<char>, Seq<char>)> {
    let tab = first_index_of(line, FIELD_SEPARATOR);
    if tab < line.len() {
        let rest = line.subrange(tab + 1, line.len() as int);
        if first_index_of(rest, FIELD_SEPARATOR) == rest.len() {
            Some((trim(line.subrange(0, tab)), trim(rest)))
        } else {
            None
        }
    } else {
        None
    }
}

/// `attributes` with what `line` states.
pub open spec fn with_line(attributes: Map<Seq<char>, Seq<char>>, line: Seq<char>) -> Map<
    Seq<char>,
    Seq<char>,
> {
    match row_of(line) {
        Some((name, value)) => attributes.insert(name, value),
        None => attributes,
    }
}

/// `attributes` with what the lines of `report` state, read in order: a later
/// line replaces what an earlier one stated of the same name.
pub open spec fn with_report(attributes: Map<Seq<char>, Seq<char>>, report: Seq<char>) -> Map<
    Seq<char>,
    Seq<char>,
>
    decreases report.len(),
{
    let end = first_index_of(report, LINE_END);
    if 0 <= end < report.len() {
        with_report(
            with_line(attributes, report.subrange(0, end)),
            report.subrange(end + 1, report.len() as int),
        )
    } else {
        with_line(attributes, report)
    }
}

/// The attributes that `report` states.
pub open spec fn report_attributes(report: Seq<char>) -> Map<Seq<char>, Seq<char>> {
    with_report(Map::empty(), report)
}

/// What `first_index_of` returns: an index up to the length, with no `c`
/// before it and `c` at it unless it is the length.
pub proof fn lemma_first_index_of(s: Seq<char>, c: char)
    ensures
        0 <= first_index_of(s, c) <= s.len(),
        forall|i: int| 0 <= i < first_index_of(s, c) ==> s[i] != c,
        first_index_of(s, c) < s.len() ==> s[first_index_of(s, c)] == c,
    decreases s.len(),
{
    if s.len() == 0 || s[0] == c {
    } else {
        let rest = s.drop_first();
        lemma_first_index_of(rest, c);
        assert forall|i: int| 0 <= i < first_index_of(s, c) implies s[i] != c by {
            if i > 0 {
                assert(s[i] == rest[i - 1]);
            }
        }
        if first_index_of(s, c) < s.len() {
            assert(s[first_index_of(s, c)] == rest[first_index_of(rest, c)]);
        }
    }
}

/// The first index of `c` is the only index with no `c` before it and `c` at
/// it (unless it is the length).
pub proof fn lemma_first_index_of_unique(s: Seq<char>, c: char, k: int)
    requires
        0 <= k <= s.len(),
        forall|i: int| 0 <= i < k ==> s[i] != c,
        k < s.len() ==> s[k] == c,
    ensures
        first_index_of(s, c) == k,
{
    lemma_first_index_of(s, c);
    let f = first_index_of(s, c);
    if f < k {
        assert(s[f] == c);
    } else if f > k {
        assert(s[k] == c);
    }
}

/// The index of the first `c` in `text[from..to]`, counted from the start of
/// `text`, or `to` where there is none.
fn find(text: &[char], from: usize, to: usize, c: char) -> (at: usize)
    requires
        from <= to <= text@.len(),
    ensures
        from <= at <= to,
        at - from == first_index_of(text@.subrange(from as int, to as int), c),
{
    let mut at: usize = from;
    while at < to && text[at] != c
        invariant
            from <= at <= to <= text@.len(),
            forall|i: int| from <= i < at ==> text@[i] != c,
        decreases to - at,
    {
        at += 1;
    }
    proof {
        lemma_first_index_of_unique(text@.subrange(from as int, to as int), c, at - from);
    }
    at
}

/// The place of `text[from..to]` without the white space at its start and
/// end.
fn trim_range(text: &[char], from: usize, to: usize) -> (range: (usize, usize))
    requires
        from <= to <= text@.len(),
    ensures
        from <= range.0 <= range.1 <= to,
        text@.subrange(range.0 as int, range.1 as int) == trim(
            text@.subrange(from as int, to as int),
        ),
{
    let mut start: usize = from;
    while start < to && is_blank_char(text[start])
        invariant
            from <= start <= to <= text@.len(),
            trim_start(text@.subrange(from as int, to as int)) == trim_start(
                text@.subrange(start as int, to as int),
            ),
        decreases to - start,
    {
        assert(text@.subrange(start as int, to as int).drop_first() == text@.subrange(
            start + 1,
            to as int,
        ));
        start += 1;
    }
    let mut end: usize = to;
    while end > start && is_blank_char(text[end - 1])
        invariant
            start <= end <= to <= text@.len(),
            trim_end(text@.subrange(start as int, to as int)) == trim_end(
                text@.subrange(start as int, end as int),
            ),
        decreases end - start,
    {
        assert(text@.subrange(start as int, end as int).drop_last() == text@.subrange(
            start as int,
            end - 1,
        ));
        end -= 1;
    }
    (start, end)
}

/// The text `text[from..to]` without the white space at its start and end.
fn trimmed(text: &[char], from: usize, to: usize) -> (s: String)
    requires
        from <= to <= text@.len(),
    ensures
        s@ == trim(text@.subrange(from as int, to as int)),
{
    let (start, end) = trim_range(text, from, to);
    let mut chars: Vec<char> = Vec::new();
    push_range(&mut chars, text, start, end);
    string_of(chars.as_slice())
}

/// Adds to `exif` what the line `text[from..to]` states.
fn read_line(exif: &mut ExifData, text: &[char], from: usize, to: usize)
    requires
        from <= to <= text@.len(),
    ensures
        final(exif)@ == with_line(old(exif)@, text@.subrange(from as int, to as int)),
{
    let ghost line = text@.subrange(from as int, to as int);
    let tab = find(text, from, to, FIELD_SEPARATOR);
    if tab < to {
        let second = find(text, tab + 1, to, FIELD_SEPARATOR);
        proof {
            assert(line.subrange(tab - from + 1, line.len() as int) == text@.subrange(
                tab + 1,
                to as int,
            ));
            assert(line.subrange(0, tab - from) == text@.subrange(from as int, tab as int));
        }
        if second == to {
            let name = trimmed(text, from, tab);
            let value = trimmed(text, tab + 1, to);
            exif.insert(name, value);
        }
    }
}

/// Reads the report of a metadata extractor: each line that falls into
/// exactly two fields at tabs states an attribute, its name in the first
/// field and its value in the second, both without the white space around
/// them. Every other line is passed over.
pub fn parse_exif_report(report: &str) -> (exif: ExifData)
    ensures
        exif@ == report_attributes(report@),
{
    let text = chars_of(report);
    let mut exif = ExifData::new();
    let mut from: usize = 0;
    assert(text@.subrange(0, text@.len() as int) == text@);
    loop
        invariant
            from <= text@.len(),
            text@ == report@,
            report_attributes(report@) == with_report(
                exif@,
                text@.subrange(from as int, text@.len() as int),
            ),
        ensures
            exif@ == report_attributes(report@),
        decreases text@.len() - from,
    {
        let ghost rest = text@.subrange(from as int, text@.len() as int);
        let end = find(text.as_slice(), from, text.len(), LINE_END);
        proof {
            assert(rest.subrange(0, end - from) == text@.subrange(from as int, end as int));
        }
        if end < text.len() {
            read_line(&mut exif, text.as_slice(), from, end);
            proof {
                assert(rest.subrange(end - from + 1, rest.len() as int) == text@.subrange(
                    end + 1,
                    text@.len() as int,
                ));
            }
            from = end + 1;
        } else {
            read_line(&mut exif, text.as_slice(), from, end);
            break ;
        }
    }
    exif
}

} // verus!
