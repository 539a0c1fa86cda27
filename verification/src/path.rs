//! The final component of a `/`-separated path.
//!
//! A path is read as a sequence of characters that `/` cuts into segments.
//! Empty segments and `.` segments name nothing; every other segment is a
//! component. The component that ends last is the path's final component,
//! and it is the path's file name unless it is `..`.
//!
//! Where `/` is the platform's separator this is the reading of
//! `std::path::Path::file_name`: `/usr/bin/` and `bin/.` are named `bin`,
//! while `/`, `.` and `bin/..` have no file name.
//!
//! Positions count characters, not bytes.

use vstd::prelude::*;
use vstd::utf8::*;

verus! {

/// The character that separates the segments of a path.
pub const SEPARATOR: char = '/';

/// Whether `c` separates two segments.
pub open spec fn is_separator(c: char) -> bool {
    c == SEPARATOR
}

/// The segment `.`, which stands for the directory it is found in.
pub open spec fn current_dir() -> Seq<char> {
    seq!['.']
}

/// The segment `..`, which stands for the directory above.
pub open spec fn parent_dir() -> Seq<char> {
    seq!['.', '.']
}

/// `path[start..end]` is a segment: a run of characters without a separator
/// that is bounded on each side by a separator or by the end of the path.
pub open spec fn is_segment(path: Seq<char>, start: int, end: int) -> bool {
    &&& 0 <= start <= end <= path.len()
    &&& (start == 0 || is_separator(path[start - 1]))
    &&& (end == path.len() || is_separator(path[end]))
    &&& forall|i: int| start <= i < end ==> !is_separator(#[trigger] path[i])
}

/// `path[start..end]` is a component: a segment that is neither empty nor `.`.
pub open spec fn is_component(path: Seq<char>, start: int, end: int) -> bool {
    &&& is_segment(path, start, end)
    &&& start < end
    &&& path.subrange(start, end) != current_dir()
}

/// Whether `path` has a component at all.
pub open spec fn has_component(path: Seq<char>) -> bool {
    exists|start: int, end: int| is_component(path, start, end)
}

/// `path[start..end]` is the final component: no component ends after it.
pub open spec fn is_final_component(path: Seq<char>, start: int, end: int) -> bool {
    &&& is_component(path, start, end)
    &&& forall|s: int, e: int| #[trigger] is_component(path, s, e) ==> e <= end
}

/// The final component of `path`, if it has one.
pub open spec fn final_component(path: Seq<char>) -> Option<Seq<char>> {
    if exists|start: int, end: int| is_final_component(path, start, end) {
        let (start, end) = choose|start: int, end: int| is_final_component(path, start, end);
        Some(path.subrange(start, end))
    } else {
        None
    }
}

/// The file name of `path`: its final component, unless that is `..`.
pub open spec fn file_name_of(path: Seq<char>) -> Option<Seq<char>> {
    match final_component(path) {
        Some(name) => if name == parent_dir() { None } else { Some(name) },
        None => None,
    }
}

/// A segment is determined by where it ends.
pub proof fn lemma_segment_start_unique(path: Seq<char>, start1: int, start2: int, end: int)
    requires
        is_segment(path, start1, end),
        is_segment(path, start2, end),
    ensures
        start1 == start2,
{
    if start1 < start2 {
        assert(is_separator(path[start2 - 1]));
    } else if start2 < start1 {
        assert(is_separator(path[start1 - 1]));
    }
}

/// A path has at most one final component.
pub proof fn lemma_final_component_unique(
    path: Seq<char>,
    start1: int,
    end1: int,
    start2: int,
    end2: int,
)
    requires
        is_final_component(path, start1, end1),
        is_final_component(path, start2, end2),
    ensures
        start1 == start2,
        end1 == end2,
{
    lemma_segment_start_unique(path, start1, start2, end1);
}

/// Whoever knows where the final component lies knows what it is.
pub proof fn lemma_final_component_at(path: Seq<char>, start: int, end: int)
    requires
        is_final_component(path, start, end),
    ensures
        final_component(path) == Some(path.subrange(start, end)),
{
    let (s, e) = choose|s: int, e: int| is_final_component(path, s, e);
    lemma_final_component_unique(path, start, end, s, e);
}

/// A file name is a stretch of its path that is not empty, holds no
/// separator, and is neither `.` nor `..`.
pub proof fn lemma_file_name_is_plain(path: Seq<char>)
    requires
        file_name_of(path) is Some,
    ensures
        file_name_of(path)->0.len() > 0,
        forall|i: int|
            0 <= i < file_name_of(path)->0.len() ==> !is_separator(
                #[trigger] file_name_of(path)->0[i],
            ),
        file_name_of(path)->0 != current_dir(),
        file_name_of(path)->0 != parent_dir(),
        exists|start: int, end: int|
            0 <= start < end <= path.len() && file_name_of(path)->0 == path.subrange(start, end),
{
    let (start, end) = choose|start: int, end: int| is_final_component(path, start, end);
    let name = path.subrange(start, end);
    assert(file_name_of(path) == Some(name));
    assert forall|i: int| 0 <= i < name.len() implies !is_separator(#[trigger] name[i]) by {
        assert(name[i] == path[start + i]);
    }
    assert(0 <= start < end <= path.len() && file_name_of(path)->0 == path.subrange(start, end));
}

/// A path without a component has no final component.
pub proof fn lemma_no_component(path: Seq<char>)
    requires
        !has_component(path),
    ensures
        final_component(path) is None,
        file_name_of(path) is None,
{
    assert forall|start: int, end: int| !is_final_component(path, start, end) by {
        assert(!is_component(path, start, end));
    }
}

/// Among the components of a path, one ends last: a path with a component
/// has a final component.
pub proof fn lemma_final_component_exists(path: Seq<char>)
    requires
        has_component(path),
    ensures
        exists|start: int, end: int| is_final_component(path, start, end),
        final_component(path) is Some,
{
    let (start, end) = choose|start: int, end: int| is_component(path, start, end);
    lemma_final_component_after(path, start, end);
}

/// The induction behind `lemma_final_component_exists`: from any component,
/// a later one can be taken only so often before the path ends.
proof fn lemma_final_component_after(path: Seq<char>, start: int, end: int)
    requires
        is_component(path, start, end),
    ensures
        exists|s: int, e: int| is_final_component(path, s, e),
    decreases path.len() - end,
{
    if forall|s: int, e: int| #[trigger] is_component(path, s, e) ==> e <= end {
        assert(is_final_component(path, start, end));
    } else {
        let (s, e) = choose|s: int, e: int| #[trigger] is_component(path, s, e) && e > end;
        lemma_final_component_after(path, s, e);
    }
}

/// A character takes at least one byte in UTF-8, so a string has no more
/// characters than bytes.
proof fn lemma_chars_within_bytes(chars: Seq<char>)
    ensures
        chars.len() <= encode_utf8(chars).len(),
    decreases chars.len(),
{
    if chars.len() > 0 {
        lemma_chars_within_bytes(chars.drop_first());
    }
}

/// Every character of `path[start..end]` is a dot.
spec fn all_dots(path: Seq<char>, start: int, end: int) -> bool {
    forall|i: int| start <= i < end ==> (#[trigger] path[i]) == '.'
}

/// A stretch of a path is `.` where it is one dot, and `..` where it is two.
proof fn lemma_dot_segments(path: Seq<char>, start: int, end: int)
    requires
        0 <= start <= end <= path.len(),
    ensures
        path.subrange(start, end) == current_dir() <==> end - start == 1 && all_dots(
            path,
            start,
            end,
        ),
        path.subrange(start, end) == parent_dir() <==> end - start == 2 && all_dots(
            path,
            start,
            end,
        ),
{
    let segment = path.subrange(start, end);
    if all_dots(path, start, end) {
        if end - start == 1 {
            assert(segment =~= current_dir());
        }
        if end - start == 2 {
            assert(segment =~= parent_dir());
        }
    }
    if segment == current_dir() || segment == parent_dir() {
        assert(current_dir()[0] == '.');
        assert(parent_dir()[0] == '.' && parent_dir()[1] == '.');
        assert(segment.len() == end - start);
        assert forall|i: int| start <= i < end implies (#[trigger] path[i]) == '.' by {
            assert(path[i] == segment[i - start]);
            assert(segment[i - start] == '.');
        }
    }
}

/// A component met while a path is read, with a note of whether it is `..`.
struct Candidate {
    start: usize,
    end: usize,
    parent: bool,
}

impl Candidate {
    /// The candidate is a component of `path`, and its note is right.
    spec fn lies_in(self, path: Seq<char>) -> bool {
        &&& is_component(path, self.start as int, self.end as int)
        &&& self.parent == (path.subrange(self.start as int, self.end as int) == parent_dir())
    }
}

/// Among the segments of `path` that end before `limit`, `found` is the
/// component that ends last, or `None` where there is no component among them.
spec fn is_final_before(path: Seq<char>, found: Option<Candidate>, limit: int) -> bool {
    match found {
        Some(candidate) => {
            &&& candidate.lies_in(path)
            &&& candidate.end < limit
            &&& forall|s: int, e: int| #[trigger]
                is_component(path, s, e) && e < limit ==> e <= candidate.end
        },
        None => forall|s: int, e: int| #[trigger] is_component(path, s, e) ==> limit <= e,
    }
}

/// Takes the segment `path[start..end]` into account: where it is a
/// component, it takes the place of `found`.
fn close_segment(
    Ghost(path): Ghost<Seq<char>>,
    found: Option<Candidate>,
    start: usize,
    end: usize,
    dots: bool,
) -> (closed: Option<Candidate>)
    requires
        is_segment(path, start as int, end as int),
        dots == all_dots(path, start as int, end as int),
        is_final_before(path, found, start as int),
    ensures
        is_final_before(path, closed, end + 1),
{
    let len = end - start;
    proof {
        lemma_dot_segments(path, start as int, end as int);
    }
    if len == 0 || (len == 1 && dots) {
        proof {
            assert forall|s: int, e: int| #[trigger]
                is_component(path, s, e) && start <= e implies end < e by {
                if e < end {
                    assert(!is_separator(path[e]));
                } else if e == end {
                    lemma_segment_start_unique(path, s, start as int, e);
                }
            }
        }
        found
    } else {
        Some(Candidate { start, end, parent: len == 2 && dots })
    }
}

/// Where the file name of `path` lies, counted in characters.
///
/// The path is read once, front to back, and nothing is copied.
pub fn file_name_span(path: &str) -> (span: Option<(usize, usize)>)
    ensures
        match span {
            Some((start, end)) => {
                &&& is_final_component(path@, start as int, end as int)
                &&& file_name_of(path@) == Some(path@.subrange(start as int, end as int))
            },
            None => file_name_of(path@) is None,
        },
{
    let bytes = path.as_bytes();
    proof {
        // The bytes are counted by a `usize`, and so are the characters.
        assert(bytes@.len() == bytes.len());
        lemma_chars_within_bytes(path@);
    }
    let mut found: Option<Candidate> = None;
    let mut start: usize = 0;
    let mut pos: usize = 0;
    let mut dots = true;
    for c in it: path.chars()
        invariant
            it.seq() == path@,
            path@.len() <= usize::MAX,
            pos == it.index(),
            start <= pos,
            start == 0 || is_separator(path@[start - 1]),
            forall|i: int| start <= i < pos ==> !is_separator(#[trigger] path@[i]),
            dots == all_dots(path@, start as int, pos as int),
            is_final_before(path@, found, start as int),
    {
        if c == SEPARATOR {
            found = close_segment(Ghost(path@), found, start, pos, dots);
            start = pos + 1;
            dots = true;
        } else if c != '.' {
            dots = false;
        }
        pos = pos + 1;
    }
    match close_segment(Ghost(path@), found, start, pos, dots) {
        Some(candidate) => {
            proof {
                lemma_final_component_at(path@, candidate.start as int, candidate.end as int);
            }
            if candidate.parent {
                None
            } else {
                Some((candidate.start, candidate.end))
            }
        },
        None => None,
    }
}

/// The file name of `path`: its final component, unless that is `..`.
///
/// `None` where the path has no component (it is empty, or made of
/// separators and `.` alone) and where its final component is `..`.
pub fn file_name(path: &str) -> (name: Option<String>)
    ensures
        match name {
            Some(name) => file_name_of(path@) == Some(name@),
            None => file_name_of(path@) is None,
        },
{
    match file_name_span(path) {
        Some((start, end)) => Some(path.substring_char(start, end).to_owned()),
        None => None,
    }
}

} // verus!
