//! Locating a declaration in surrounding text.
//!
//! A declaration is found by its marker. The first opening bracket at or
//! after the marker starts the declaration's span, and the span ends with
//! the bracket that closes it. Brackets are counted as characters: one that
//! stands in a string or a comment counts like any other.

use crate::text::{char_position_from, find, index_from, lemma_index_from, position};
use vstd::prelude::*;
use vstd::slice::slice_subrange;

verus! {

/// What a character adds to the nesting depth.
pub open spec fn depth_change(c: char, open: char, close: char) -> int {
    if c == open {
        1
    } else if c == close {
        -1
    } else {
        0
    }
}

/// The index just after the bracket at which the depth returns to zero,
/// scanning `s` from index `i` on with `depth` brackets open; `None` if the
/// text ends before that.
pub open spec fn span_end(s: Seq<char>, open: char, close: char, i: int, depth: int) -> Option<int>
    decreases s.len() - i,
{
    if i < 0 || i >= s.len() {
        None
    } else if depth + depth_change(s[i], open, close) == 0 {
        Some(i + 1)
    } else {
        span_end(s, open, close, i + 1, depth + depth_change(s[i], open, close))
    }
}

/// The bracketed span that starts at the first `open` at or after `from`:
/// from that bracket up to and including the bracket that closes it.
pub open spec fn bracketed_from(s: Seq<char>, open: char, close: char, from: int) -> Option<
    Seq<char>,
> {
    match index_from(s, open, from) {
        None => None,
        Some(o) => match span_end(s, open, close, o, 0) {
            None => None,
            Some(e) => Some(s.subrange(o, e)),
        },
    }
}

/// The bracketed span that follows the first occurrence of `marker`.
pub open spec fn span_after(text: Seq<char>, marker: Seq<char>, open: char, close: char) -> Option<
    Seq<char>,
> {
    match find(text, marker) {
        None => None,
        Some(m) => bracketed_from(text, open, close, m),
    }
}

/// The nesting depth that the characters `s[from..k]` add up to.
pub open spec fn net_depth(s: Seq<char>, open: char, close: char, from: int, k: int) -> int
    decreases k - from,
{
    if k <= from {
        0
    } else {
        net_depth(s, open, close, from, k - 1) + depth_change(s[k - 1], open, close)
    }
}

/// Where `span_end` stops, the depth is back at zero for the first time:
/// every shorter stretch from `i` on leaves the depth away from zero.
pub proof fn lemma_span_end_is_first_balance(
    s: Seq<char>,
    open: char,
    close: char,
    i: int,
    depth: int,
)
    requires
        0 <= i,
    ensures
        match span_end(s, open, close, i, depth) {
            Some(e) => {
                &&& i < e <= s.len()
                &&& depth + net_depth(s, open, close, i, e) == 0
                &&& forall|k: int| i < k < e ==> depth + net_depth(s, open, close, i, k) != 0
            },
            None => forall|k: int|
                i < k <= s.len() ==> depth + net_depth(s, open, close, i, k) != 0,
        },
    decreases s.len() - i,
{
    if i < s.len() {
        let d = depth + depth_change(s[i], open, close);
        assert(net_depth(s, open, close, i, i + 1) == depth_change(s[i], open, close)) by {
            assert(net_depth(s, open, close, i, i) == 0);
        }
        if d != 0 {
            lemma_span_end_is_first_balance(s, open, close, i + 1, d);
        }
        assert forall|k: int| i < k <= s.len() implies depth + net_depth(s, open, close, i, k) == d
            + net_depth(s, open, close, i + 1, k) by {
            lemma_net_depth_split(s, open, close, i, k);
        }
    }
}

/// The depth over `s[from..k]` is that of the first character plus that of
/// the rest.
pub proof fn lemma_net_depth_split(s: Seq<char>, open: char, close: char, from: int, k: int)
    requires
        from < k,
    ensures
        net_depth(s, open, close, from, k) == depth_change(s[from], open, close) + net_depth(
            s,
            open,
            close,
            from + 1,
            k,
        ),
    decreases k - from,
{
    if from + 1 < k {
        lemma_net_depth_split(s, open, close, from, k - 1);
    } else {
        assert(net_depth(s, open, close, from, from) == 0);
        assert(net_depth(s, open, close, from + 1, from + 1) == 0);
    }
}

/// Finds the bracketed span that starts at the first `open` at or after
/// `from`.
pub fn extract_bracketed<'a>(s: &'a [char], open: char, close: char, from: usize) -> (r: Option<
    &'a [char],
>)
    ensures
        match r {
            Some(span) => bracketed_from(s@, open, close, from as int) == Some(span@),
            None => bracketed_from(s@, open, close, from as int) is None,
        },
{
    let o: usize = match char_position_from(s, open, from) {
        Some(o) => o,
        None => {
            return None;
        },
    };
    proof {
        lemma_index_from(s@, open, from as int);
    }
    let mut depth: usize = 0;
    let mut i: usize = o;
    while i < s.len()
        invariant
            o <= i <= s.len(),
            depth <= i - o,
            index_from(s@, open, from as int) == Some(o as int),
            span_end(s@, open, close, o as int, 0) == span_end(s@, open, close, i as int, depth as int),
            i > o ==> depth > 0,
            i == o ==> s@[i as int] == open,
        decreases s.len() - i,
    {
        if s[i] == open {
            depth += 1;
        } else if s[i] == close {
            depth -= 1;
            if depth == 0 {
                return Some(slice_subrange(s, o, i + 1));
            }
        }
        i += 1;
    }
    None
}

/// Finds the bracketed span that follows the first occurrence of `marker`.
pub fn extract_span<'a>(text: &'a [char], marker: &[char], open: char, close: char) -> (r: Option<
    &'a [char],
>)
    ensures
        match r {
            Some(span) => span_after(text@, marker@, open, close) == Some(span@),
            None => span_after(text@, marker@, open, close) is None,
        },
{
    match position(text, marker) {
        None => None,
        Some(m) => extract_bracketed(text, open, close, m),
    }
}

} // verus!
