//! Looking for a pattern in a text: at its end, and from a position on.

use vstd::prelude::*;
use crate::pattern::Pattern;
use crate::segments::{ends_with, occurs_at};

verus! {

/// Tells whether `text` ends with a word of `pat`.
pub fn match_at_end<P: Pattern>(pat: &P, text: &[char]) -> (b: bool)
    requires
        pat.wf(),
    ensures
        b == ends_with(*pat, text@),
{
    let w = pat.span();
    if w > text.len() {
        false
    } else {
        pat.matches_at(text, text.len() - w)
    }
}

/// Finds the first position at or behind `from` at which a word of `pat`
/// begins in `text`.
pub fn find_forward<P: Pattern>(pat: &P, text: &[char], from: usize) -> (found: Option<usize>)
    requires
        pat.wf(),
    ensures
        match found {
            Some(at) => {
                &&& from <= at
                &&& occurs_at(*pat, text@, at as int)
                &&& forall|i: int| from <= i < at ==> !occurs_at(*pat, text@, i)
            },
            None => forall|i: int| from <= i ==> !occurs_at(*pat, text@, i),
        },
{
    let w = pat.span();
    if w > text.len() || from > text.len() - w {
        return None;
    }
    let last = text.len() - w;
    let mut i = from;
    loop
        invariant
            pat.wf(),
            w == pat.width(),
            last == text@.len() - w,
            from <= i <= last,
            forall|j: int| from <= j < i ==> !occurs_at(*pat, text@, j),
        decreases last - i,
    {
        if pat.matches_at(text, i) {
            return Some(i);
        }
        if i == last {
            return None;
        }
        i += 1;
    }
}

} // verus!
