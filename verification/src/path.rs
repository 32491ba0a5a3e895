//! The last segment of a slash-separated path.
//!
//! A path is cut at its slashes. Empty segments and segments that are a
//! single dot say nothing and are passed over, so that `/a/b/` and `/a/b/.`
//! both end in `b`. A path whose last telling segment is `..` names no file,
//! and neither does one without a telling segment at all, such as `/`.

use vstd::prelude::*;
use vstd::string::*;

verus! {

/// The position of the last slash in `path`, or -1 where it has none.
pub open spec fn last_slash(path: Seq<char>) -> int
    decreases path.len(),
{
    if path.len() == 0 {
        -1
    } else if path.last() == '/' {
        path.len() - 1
    } else {
        last_slash(path.drop_last())
    }
}

/// Whether a segment is passed over: it is empty or a single dot.
pub open spec fn is_skipped(segment: Seq<char>) -> bool {
    segment.len() == 0 || segment =~= seq!['.']
}

/// Whether a segment points to the parent directory.
pub open spec fn is_parent(segment: Seq<char>) -> bool {
    segment =~= seq!['.', '.']
}

/// The file name that `path` ends in: its last segment that is neither empty
/// nor a dot, unless that segment is `..`.
pub open spec fn file_name_of(path: Seq<char>) -> Option<Seq<char>>
    decreases path.len(),
{
    let cut = last_slash(path);
    let segment = path.subrange(cut + 1, path.len() as int);
    if !is_skipped(segment) {
        if is_parent(segment) {
            None
        } else {
            Some(segment)
        }
    } else if cut < 0 {
        None
    } else {
        proof {
            lemma_last_slash_bounds(path);
        }
        file_name_of(path.subrange(0, cut))
    }
}

/// `last_slash` stays within the path.
pub proof fn lemma_last_slash_bounds(path: Seq<char>)
    ensures
        -1 <= last_slash(path) < path.len(),
        last_slash(path) >= 0 ==> path[last_slash(path)] == '/',
        forall|i: int| last_slash(path) < i < path.len() ==> path[i] != '/',
    decreases path.len(),
{
    if path.len() > 0 && path.last() != '/' {
        let rest = path.drop_last();
        lemma_last_slash_bounds(rest);
        assert forall|i: int| last_slash(path) < i < path.len() implies path[i] != '/' by {
            if i < rest.len() {
                assert(rest[i] == path[i]);
            }
        }
    }
}

/// A slash with no slash behind it is the last one.
pub proof fn lemma_last_slash_is(path: Seq<char>, cut: int)
    requires
        -1 <= cut < path.len(),
        cut >= 0 ==> path[cut] == '/',
        forall|i: int| cut < i < path.len() ==> path[i] != '/',
    ensures
        last_slash(path) == cut,
{
    lemma_last_slash_bounds(path);
}

/// Whether `path` from `start` up to `end` is one of its segments: no slash
/// in it, and a slash or an end of the path on either side.
pub open spec fn is_segment(path: Seq<char>, start: int, end: int) -> bool {
    &&& 0 <= start <= end <= path.len()
    &&& (start == 0 || path[start - 1] == '/')
    &&& (end == path.len() || path[end] == '/')
    &&& forall|i: int| start <= i < end ==> path[i] != '/'
}

/// Whether `path` from `start` up to `end` is its last telling segment: a
/// segment that is not passed over, while every segment behind it is.
pub open spec fn is_last_telling(path: Seq<char>, start: int, end: int) -> bool {
    &&& is_segment(path, start, end)
    &&& !is_skipped(path.subrange(start, end))
    &&& forall|from: int, to: int|
        end < from && #[trigger] is_segment(path, from, to) ==> is_skipped(path.subrange(from, to))
}

/// A path has one last telling segment at most.
pub proof fn lemma_last_telling_unique(path: Seq<char>, start: int, end: int, from: int, to: int)
    requires
        is_last_telling(path, start, end),
        is_last_telling(path, from, to),
    ensures
        start == from,
        end == to,
{
    if end < from {
        assert(is_segment(path, from, to));
    } else if to < start {
        assert(is_segment(path, start, end));
    } else {
        if start < from {
            assert(path[from - 1] == '/');
        }
        if from < start {
            assert(path[start - 1] == '/');
        }
        if end < to {
            assert(path[end] == '/');
        }
        if to < end {
            assert(path[to] == '/');
        }
    }
}

/// What stands behind the last slash is a segment, and the last one.
proof fn lemma_tail_segment(path: Seq<char>)
    ensures
        is_segment(path, last_slash(path) + 1, path.len() as int),
        forall|from: int, to: int|
            last_slash(path) < from && #[trigger] is_segment(path, from, to) ==> from
                == last_slash(path) + 1 && to == path.len(),
{
    lemma_last_slash_bounds(path);
    let cut = last_slash(path);
    assert forall|from: int, to: int|
        cut < from && #[trigger] is_segment(path, from, to) implies from == cut + 1 && to
        == path.len() by {
        if from > cut + 1 {
            assert(path[from - 1] != '/');
        }
        if to < path.len() {
            assert(path[to] != '/');
        }
    }
}

/// Before a slash a path has the segments that the part before the slash
/// has.
proof fn lemma_segment_before_slash(path: Seq<char>, cut: int, start: int, end: int)
    requires
        0 <= cut < path.len(),
        path[cut] == '/',
        start <= end <= cut,
    ensures
        is_segment(path.subrange(0, cut), start, end) <==> is_segment(path, start, end),
        0 <= start ==> path.subrange(0, cut).subrange(start, end) == path.subrange(start, end),
{
    let rest = path.subrange(0, cut);
    if 0 <= start {
        assert(rest.subrange(start, end) =~= path.subrange(start, end));
        if start > 0 {
            assert(rest[start - 1] == path[start - 1]);
        }
        if end < cut {
            assert(rest[end] == path[end]);
        }
        if is_segment(rest, start, end) {
            assert forall|i: int| start <= i < end implies path[i] != '/' by {
                assert(rest[i] == path[i]);
            }
        }
        if is_segment(path, start, end) {
            assert forall|i: int| start <= i < end implies rest[i] != '/' by {
                assert(rest[i] == path[i]);
            }
        }
    }
}

/// The file name of a path is its last telling segment, unless that is
/// `..`; a path without a telling segment has no file name.
pub proof fn lemma_file_name_is_last_segment(path: Seq<char>)
    ensures
        match file_name_of(path) {
            Some(name) => exists|start: int, end: int|
                #[trigger] is_last_telling(path, start, end) && path.subrange(start, end) == name
                    && !is_parent(name),
            None => forall|start: int, end: int| #[trigger]
                is_last_telling(path, start, end) ==> is_parent(path.subrange(start, end)),
        },
    decreases path.len(),
{
    lemma_last_slash_bounds(path);
    lemma_tail_segment(path);
    let cut = last_slash(path);
    let size = path.len() as int;
    let segment = path.subrange(cut + 1, size);
    if !is_skipped(segment) {
        assert(is_last_telling(path, cut + 1, size));
        if is_parent(segment) {
            assert forall|start: int, end: int| #[trigger]
                is_last_telling(path, start, end) implies is_parent(path.subrange(start, end)) by {
                lemma_last_telling_unique(path, start, end, cut + 1, size);
            }
        }
    } else if cut < 0 {
        assert forall|start: int, end: int| #[trigger]
            is_last_telling(path, start, end) implies is_parent(path.subrange(start, end)) by {
            assert(is_segment(path, start, end));
        }
    } else {
        let rest = path.subrange(0, cut);
        lemma_file_name_is_last_segment(rest);
        assert forall|start: int, end: int|
            is_last_telling(rest, start, end) implies is_last_telling(path, start, end)
            && rest.subrange(start, end) == path.subrange(start, end) by {
            lemma_segment_before_slash(path, cut, start, end);
            assert forall|from: int, to: int|
                end < from && #[trigger] is_segment(path, from, to) implies is_skipped(
                path.subrange(from, to),
            ) by {
                if from > cut {
                    assert(path.subrange(from, to) =~= segment);
                } else {
                    if to > cut {
                        assert(path[cut] == '/');
                    }
                    lemma_segment_before_slash(path, cut, from, to);
                    assert(is_segment(rest, from, to));
                }
            }
        }
        assert forall|start: int, end: int|
            is_last_telling(path, start, end) implies is_last_telling(rest, start, end)
            && rest.subrange(start, end) == path.subrange(start, end) by {
            assert(is_segment(path, start, end));
            if start > cut {
                assert(path.subrange(start, end) =~= segment);
            }
            if end > cut {
                assert(path[cut] == '/');
            }
            lemma_segment_before_slash(path, cut, start, end);
            assert forall|from: int, to: int|
                end < from && #[trigger] is_segment(rest, from, to) implies is_skipped(
                rest.subrange(from, to),
            ) by {
                lemma_segment_before_slash(path, cut, from, to);
                assert(is_segment(path, from, to));
            }
        }
        match file_name_of(rest) {
            Some(name) => {
                let (start, end) = choose|start: int, end: int|
                    #[trigger] is_last_telling(rest, start, end) && rest.subrange(start, end)
                        == name && !is_parent(name);
                assert(is_last_telling(path, start, end));
            },
            None => {
                assert forall|start: int, end: int| #[trigger]
                    is_last_telling(path, start, end) implies is_parent(
                    path.subrange(start, end),
                ) by {
                    assert(is_last_telling(rest, start, end));
                }
            },
        }
    }
}

/// The characters of `text`, one element each.
pub fn to_chars(text: &str) -> (chars: Vec<char>)
    ensures
        chars@ == text@,
{
    let mut chars: Vec<char> = Vec::new();
    for c in it: text.chars()
        invariant
            it.seq() == text@,
            chars@ == it.seq().take(it.index() as int),
    {
        chars.push(c);
    }
    chars
}

/// Where the file name of `path` stands in it: the positions of its first
/// character and of the one behind its last.
pub fn file_name_range(path: &Vec<char>) -> (range: Option<(usize, usize)>)
    ensures
        match range {
            Some((start, end)) => {
                &&& start < end <= path.len()
                &&& file_name_of(path@) == Some(path@.subrange(start as int, end as int))
            },
            None => file_name_of(path@) is None,
        },
{
    let mut end: usize = path.len();
    assert(path@.take(end as int) =~= path@);
    loop
        invariant
            end <= path.len(),
            file_name_of(path@) == file_name_of(path@.take(end as int)),
        decreases end,
    {
        let ghost head = path@.take(end as int);
        let mut start: usize = end;
        while start > 0 && path[start - 1] != '/'
            invariant
                start <= end <= path.len(),
                forall|i: int| start <= i < end ==> path@[i] != '/',
            decreases start,
        {
            start -= 1;
        }
        let ghost segment = path@.subrange(start as int, end as int);
        proof {
            lemma_last_slash_is(head, start as int - 1);
            assert(head.subrange(start as int, end as int) =~= segment);
            if segment.len() > 0 {
                assert(segment[0] == path@[start as int]);
            }
            if segment.len() > 1 {
                assert(segment[1] == path@[start as int + 1]);
            }
        }
        let length: usize = end - start;
        let dot = length == 1 && path[start] == '.';
        let dots = length == 2 && path[start] == '.' && path[start + 1] == '.';
        if length == 0 || dot {
            if start == 0 {
                return None;
            }
            proof {
                assert(head.subrange(0, start as int - 1) =~= path@.take(start as int - 1));
            }
            end = start - 1;
        } else if dots {
            return None;
        } else {
            return Some((start, end));
        }
    }
}

/// The file name that `path` ends in, as a string of its own.
pub fn file_name(path: &str) -> (name: Option<String>)
    ensures
        match name {
            Some(text) => file_name_of(path@) == Some(text@),
            None => file_name_of(path@) is None,
        },
{
    let chars = to_chars(path);
    match file_name_range(&chars) {
        Some((start, end)) => Some(String::from_str(path.substring_char(start, end))),
        None => None,
    }
}

} // verus!
