//! Paths as text: components separated by `/`, the final component of a path,
//! and the split of a file name into stem and extension.

use crate::text::{chars_of, push_all, push_range, string_of};
use vstd::prelude::*;

verus! {

/// The character that separates the components of a path.
pub const SEPARATOR: char = '/';

/// The character that separates a file name's stem from its extension.
pub const DOT: char = '.';

/// A name that can stand as the final component of a path: not empty, free of
/// separators, and neither `.` nor `..`.
pub open spec fn is_component(name: Seq<char>) -> bool {
    &&& name.len() > 0
    &&& !name.contains(SEPARATOR)
    &&& name != seq![DOT]
    &&& name != seq![DOT, DOT]
}

/// The path of the entry `name` inside the directory `base`. A separator is
/// put between the two unless `base` is empty or already ends in one.
pub open spec fn join(base: Seq<char>, name: Seq<char>) -> Seq<char> {
    if base.len() == 0 || base.last() == SEPARATOR {
        base + name
    } else {
        base.push(SEPARATOR) + name
    }
}

/// Where the last segment of `path` starts: just behind its last separator,
/// or at 0 where it has none.
pub open spec fn last_segment_start(path: Seq<char>) -> int
    decreases path.len(),
{
    if path.len() == 0 || path.last() == SEPARATOR {
        path.len() as int
    } else {
        last_segment_start(path.drop_last())
    }
}

/// The final component of `path`. Empty segments and `.` segments at the end
/// are passed over; a path that then ends in `..`, or has nothing left, has no
/// final component.
pub open spec fn file_name(path: Seq<char>) -> Option<Seq<char>>
    decreases path.len(),
{
    let start = last_segment_start(path);
    let segment = path.subrange(start, path.len() as int);
    if segment.len() == 0 || segment == seq![DOT] {
        if 0 < start <= path.len() {
            file_name(path.subrange(0, start - 1))
        } else {
            None
        }
    } else if segment == seq![DOT, DOT] {
        None
    } else {
        Some(segment)
    }
}

/// The index of the last dot in `name`, or -1 where it has none.
pub open spec fn last_dot(name: Seq<char>) -> int
    decreases name.len(),
{
    if name.len() == 0 {
        -1
    } else if name.last() == DOT {
        name.len() - 1
    } else {
        last_dot(name.drop_last())
    }
}

/// Where the stem of the file name `name` ends. The extension is what follows
/// the last dot; a name without a dot, or whose only dot is its first
/// character, has no extension, and its stem is the whole name.
pub open spec fn stem_end(name: Seq<char>) -> int {
    if last_dot(name) > 0 {
        last_dot(name)
    } else {
        name.len() as int
    }
}

/// The file name `name` without its extension and the dot before it.
pub open spec fn stem(name: Seq<char>) -> Seq<char> {
    name.subrange(0, stem_end(name))
}

/// The extension of the file name `name`, without the dot, where it has one.
pub open spec fn extension(name: Seq<char>) -> Option<Seq<char>> {
    if stem_end(name) < name.len() {
        Some(name.subrange(stem_end(name) + 1, name.len() as int))
    } else {
        None
    }
}

/// What `last_segment_start` returns: an index within the path, with no
/// separator at or behind it and a separator just before it (unless it is 0).
pub proof fn lemma_last_segment_start(path: Seq<char>)
    ensures
        0 <= last_segment_start(path) <= path.len(),
        forall|i: int| last_segment_start(path) <= i < path.len() ==> path[i] != SEPARATOR,
        last_segment_start(path) > 0 ==> path[last_segment_start(path) - 1] == SEPARATOR,
    decreases path.len(),
{
    if path.len() == 0 || path.last() == SEPARATOR {
    } else {
        let front = path.drop_last();
        lemma_last_segment_start(front);
        assert forall|i: int| last_segment_start(path) <= i < path.len() implies path[i]
            != SEPARATOR by {
            if i < front.len() {
                assert(path[i] == front[i]);
            }
        }
        if last_segment_start(path) > 0 {
            assert(path[last_segment_start(path) - 1] == front[last_segment_start(front) - 1]);
        }
    }
}

/// The start of the last segment is the only index with no separator at or
/// behind it and a separator just before it (unless it is 0).
pub proof fn lemma_last_segment_start_unique(path: Seq<char>, k: int)
    requires
        0 <= k <= path.len(),
        forall|i: int| k <= i < path.len() ==> path[i] != SEPARATOR,
        k > 0 ==> path[k - 1] == SEPARATOR,
    ensures
        last_segment_start(path) == k,
{
    lemma_last_segment_start(path);
    let s = last_segment_start(path);
    if s < k {
        assert(path[k - 1] == SEPARATOR);
    } else if s > k {
        assert(path[s - 1] == SEPARATOR);
    }
}

/// What `last_dot` returns: -1 and no dot anywhere, or the index of a dot with
/// no dot behind it.
pub proof fn lemma_last_dot(name: Seq<char>)
    ensures
        -1 <= last_dot(name) < name.len(),
        forall|i: int| last_dot(name) < i < name.len() ==> name[i] != DOT,
        last_dot(name) >= 0 ==> name[last_dot(name)] == DOT,
    decreases name.len(),
{
    if name.len() == 0 || name.last() == DOT {
    } else {
        let front = name.drop_last();
        lemma_last_dot(front);
        assert forall|i: int| last_dot(name) < i < name.len() implies name[i] != DOT by {
            if i < front.len() {
                assert(name[i] == front[i]);
            }
        }
        if last_dot(name) >= 0 {
            assert(name[last_dot(name)] == front[last_dot(front)]);
        }
    }
}

/// The last dot is the only dot with no dot behind it; -1 stands for it
/// where there is no dot at all.
pub proof fn lemma_last_dot_unique(name: Seq<char>, k: int)
    requires
        -1 <= k < name.len(),
        forall|i: int| k < i < name.len() ==> name[i] != DOT,
        k >= 0 ==> name[k] == DOT,
    ensures
        last_dot(name) == k,
{
    lemma_last_dot(name);
    let d = last_dot(name);
    if d < k {
        assert(name[k] == DOT);
    } else if d > k {
        assert(name[d] == DOT);
    }
}

/// The final component of a path, where it has one, can stand as a component.
pub proof fn lemma_file_name_is_component(path: Seq<char>)
    ensures
        file_name(path) matches Some(name) ==> is_component(name),
    decreases path.len(),
{
    lemma_last_segment_start(path);
    let start = last_segment_start(path);
    let segment = path.subrange(start, path.len() as int);
    if segment.len() == 0 || segment == seq![DOT] {
        if 0 < start {
            lemma_file_name_is_component(path.subrange(0, start - 1));
        }
    } else if segment == seq![DOT, DOT] {
    } else {
        assert forall|i: int| 0 <= i < segment.len() implies segment[i] != SEPARATOR by {
            assert(segment[i] == path[start + i]);
        }
    }
}

/// The final component of the path of `name` inside any directory is `name`.
pub proof fn lemma_file_name_of_join(base: Seq<char>, name: Seq<char>)
    requires
        is_component(name),
    ensures
        file_name(join(base, name)) == Some(name),
{
    let path = join(base, name);
    let k = path.len() - name.len();
    let front = if base.len() == 0 || base.last() == SEPARATOR {
        base
    } else {
        base.push(SEPARATOR)
    };
    assert(path == front + name);
    assert(k == front.len());
    assert forall|i: int| k <= i < path.len() implies path[i] != SEPARATOR by {
        assert(path[i] == name[i - k]);
        assert(name.contains(name[i - k]));
    }
    if k > 0 {
        assert(path[k - 1] == front[k - 1]);
        assert(front[k - 1] == SEPARATOR);
    }
    lemma_last_segment_start_unique(path, k);
    assert(path.subrange(k, path.len() as int) == name);
    assert(name != seq![DOT]);
    assert(name != seq![DOT, DOT]);
}

/// The path of the entry `name` inside the directory `base`.
pub fn join_chars(base: &[char], name: &[char]) -> (path: Vec<char>)
    ensures
        path@ == join(base@, name@),
{
    let mut path: Vec<char> = Vec::new();
    push_all(&mut path, base);
    if base.len() > 0 && base[base.len() - 1] != SEPARATOR {
        path.push(SEPARATOR);
    }
    push_all(&mut path, name);
    path
}

/// The path of the entry `name` inside the directory `base`.
pub fn join_paths(base: &str, name: &str) -> (path: String)
    ensures
        path@ == join(base@, name@),
{
    let base_chars = chars_of(base);
    let name_chars = chars_of(name);
    let path = join_chars(base_chars.as_slice(), name_chars.as_slice());
    string_of(path.as_slice())
}

/// Where the last segment of `path[..end]` starts.
fn segment_start(path: &[char], end: usize) -> (start: usize)
    requires
        end <= path@.len(),
    ensures
        start <= end,
        start == last_segment_start(path@.subrange(0, end as int)),
{
    let mut start: usize = end;
    while start > 0 && path[start - 1] != SEPARATOR
        invariant
            start <= end <= path@.len(),
            forall|i: int| start <= i < end ==> path@[i] != SEPARATOR,
        decreases start,
    {
        start -= 1;
    }
    proof {
        lemma_last_segment_start_unique(path@.subrange(0, end as int), start as int);
    }
    start
}

/// The place of the final component of `path`: the indices where it starts
/// and ends, where the path has one.
pub fn file_name_range(path: &[char]) -> (range: Option<(usize, usize)>)
    ensures
        match range {
            Some((start, end)) => start < end <= path@.len() && file_name(path@) == Some(
                path@.subrange(start as int, end as int),
            ),
            None => file_name(path@) is None,
        },
{
    let mut end: usize = path.len();
    assert(path@.subrange(0, end as int) == path@);
    loop
        invariant
            end <= path@.len(),
            file_name(path@) == file_name(path@.subrange(0, end as int)),
        decreases end,
    {
        let ghost prefix = path@.subrange(0, end as int);
        let start = segment_start(path, end);
        let len: usize = end - start;
        proof {
            assert(prefix.subrange(start as int, end as int) == path@.subrange(
                start as int,
                end as int,
            ));
            if len >= 1 {
                assert(prefix.subrange(start as int, end as int)[0] == path@[start as int]);
            }
            if len >= 2 {
                assert(prefix.subrange(start as int, end as int)[1] == path@[start + 1]);
            }
        }
        if len == 0 || (len == 1 && path[start] == DOT) {
            proof {
                assert(len == 1 ==> prefix.subrange(start as int, end as int) == seq![DOT]);
            }
            if start == 0 {
                return None;
            }
            proof {
                assert(prefix.subrange(0, start - 1) == path@.subrange(0, start - 1));
            }
            end = start - 1;
        } else if len == 2 && path[start] == DOT && path[start + 1] == DOT {
            proof {
                assert(prefix.subrange(start as int, end as int) == seq![DOT, DOT]);
            }
            return None;
        } else {
            return Some((start, end));
        }
    }
}

/// The final component of `path`, where it has one.
pub fn file_name_of(path: &str) -> (name: Option<String>)
    ensures
        match name {
            Some(n) => file_name(path@) == Some(n@),
            None => file_name(path@) is None,
        },
{
    let chars = chars_of(path);
    match file_name_range(chars.as_slice()) {
        Some((start, end)) => {
            let mut name: Vec<char> = Vec::new();
            push_range(&mut name, chars.as_slice(), start, end);
            Some(string_of(name.as_slice()))
        },
        None => None,
    }
}

/// Where the stem of the file name `name` ends.
pub fn stem_end_of(name: &[char]) -> (end: usize)
    ensures
        end == stem_end(name@),
        end <= name@.len(),
{
    let mut i: usize = name.len();
    while i > 0 && name[i - 1] != DOT
        invariant
            i <= name@.len(),
            forall|j: int| i <= j < name@.len() ==> name@[j] != DOT,
        decreases i,
    {
        i -= 1;
    }
    proof {
        lemma_last_dot_unique(name@, i - 1);
    }
    if i > 1 {
        i - 1
    } else {
        name.len()
    }
}

} // verus!
