//! Extracting a listing's item identifier from its URL.
//!
//! A listing URL carries the identifier in a path segment that follows
//! `/itm/`: the identifier is the text between the first `/itm/` and the
//! next `/` or `?` (or the end of the URL).  An empty segment counts as
//! no identifier.

use vstd::prelude::*;

verus! {

/// The marker that precedes the identifier segment.
pub open spec fn itm_marker() -> Seq<char> {
    seq!['/', 'i', 't', 'm', '/']
}

/// Whether the marker stands at position `i` of `s`.
pub open spec fn marker_at(s: Seq<char>, i: int) -> bool {
    &&& 0 <= i
    &&& i + 5 <= s.len()
    &&& s[i] == '/'
    &&& s[i + 1] == 'i'
    &&& s[i + 2] == 't'
    &&& s[i + 3] == 'm'
    &&& s[i + 4] == '/'
}

/// The position of the first marker at or after `i`, or `-1` if none.
pub open spec fn find_marker_from(s: Seq<char>, i: int) -> int
    decreases s.len() - i,
{
    if i < 0 || i + 5 > s.len() {
        -1
    } else if marker_at(s, i) {
        i
    } else {
        find_marker_from(s, i + 1)
    }
}

/// Whether `c` ends the identifier segment.
pub open spec fn is_segment_end(c: char) -> bool {
    c == '/' || c == '?'
}

/// The index of the first segment-ending character at or after `j`, or
/// the end of the text.
pub open spec fn segment_end_from(s: Seq<char>, j: int) -> int
    decreases s.len() - j,
{
    if j < 0 || j >= s.len() {
        s.len() as int
    } else if is_segment_end(s[j]) {
        j
    } else {
        segment_end_from(s, j + 1)
    }
}

/// What [`extract_item_id`] returns: the non-empty text between the first
/// `/itm/` and the next `/` or `?`, if the URL has one.
pub open spec fn extract_item_id_spec(s: Seq<char>) -> Option<Seq<char>> {
    let i = find_marker_from(s, 0);
    if i < 0 {
        None
    } else {
        let end = segment_end_from(s, i + 5);
        if end > i + 5 {
            Some(s.subrange(i + 5, end))
        } else {
            None
        }
    }
}

proof fn lemma_find_marker_skip(s: Seq<char>, i: int, j: int)
    requires
        0 <= j <= i,
        forall|m: int| j <= m < i ==> !marker_at(s, m),
    ensures
        find_marker_from(s, j) == find_marker_from(s, i),
    decreases i - j,
{
    if j < i {
        if j + 5 > s.len() {
            assert(i + 5 > s.len());
            assert(find_marker_from(s, j) == -1);
            assert(find_marker_from(s, i) == -1);
        } else {
            lemma_find_marker_skip(s, i, j + 1);
        }
    }
}

proof fn lemma_segment_end_skip(s: Seq<char>, i: int, j: int)
    requires
        0 <= j <= i <= s.len(),
        forall|m: int| j <= m < i ==> !is_segment_end(s[m]),
    ensures
        segment_end_from(s, j) == segment_end_from(s, i),
    decreases i - j,
{
    if j < i {
        lemma_segment_end_skip(s, i, j + 1);
    }
}

/// Finds the position of the first `/itm/` in the URL, if any.
fn find_marker(url: &str) -> (r: Option<usize>)
    ensures
        r matches Some(i) ==> find_marker_from(url@, 0) == i as int && i + 5 <= url@.len(),
        r is None ==> find_marker_from(url@, 0) == -1,
{
    let n = url.unicode_len();
    let mut i: usize = 0;
    while i <= n
        invariant
            0 <= i <= n + 1,
            n == url@.len(),
            forall|m: int| 0 <= m < i ==> !marker_at(url@, m),
        decreases n - i,
    {
        if n - i < 5 {
            proof {
                lemma_find_marker_skip(url@, i as int, 0);
            }
            return None;
        }
        if url.get_char(i) == '/' && url.get_char(i + 1) == 'i' && url.get_char(i + 2) == 't'
            && url.get_char(i + 3) == 'm' && url.get_char(i + 4) == '/' {
            proof {
                lemma_find_marker_skip(url@, i as int, 0);
                assert(marker_at(url@, i as int));
            }
            return Some(i);
        }
        proof {
            assert(!marker_at(url@, i as int));
        }
        i = i + 1;
    }
    proof {
        lemma_find_marker_skip(url@, i as int, 0);
    }
    None
}

/// Extracts the item identifier from a listing URL: the text between the
/// first `/itm/` and the next `/` or `?`.  Returns `None` when the URL
/// has no `/itm/`, or the segment after it is empty.
pub fn extract_item_id(url: &str) -> (r: Option<String>)
    ensures
        (r is Some) == (extract_item_id_spec(url@) is Some),
        r matches Some(id) ==> Some(id@) == extract_item_id_spec(url@),
{
    let n = url.unicode_len();
    let i = match find_marker(url) {
        Some(i) => i,
        None => {
            return None;
        },
    };
    proof {
        assert(find_marker_from(url@, 0) == i as int);
    }
    let start = i + 5;
    let mut j: usize = start;
    while j < n && url.get_char(j) != '/' && url.get_char(j) != '?'
        invariant
            start <= j <= n == url@.len(),
            forall|m: int| start <= m < j ==> !is_segment_end(url@[m]),
        decreases n - j,
    {
        j = j + 1;
    }
    proof {
        lemma_segment_end_skip(url@, j as int, start as int);
        assert(segment_end_from(url@, start as int) == j as int);
    }
    if j > start {
        let id = url.substring_char(start, j);
        Some(id.to_owned())
    } else {
        None
    }
}

} // verus!
