//! What splitting a text by a pattern means.
//!
//! A text is a sequence of characters. The occurrences of a pattern are
//! looked for from left to right, and one that has been found is not entered
//! again: the search goes on behind it. What lies between two neighbouring
//! occurrences, before the first and behind the last, are the segments.

use vstd::prelude::*;
use crate::pattern::Pattern;

verus! {

/// A word of `pat` begins at position `at` of `text`.
pub open spec fn occurs_at<P: Pattern>(pat: P, text: Seq<char>, at: int) -> bool {
    &&& 0 <= at
    &&& at + pat.width() <= text.len()
    &&& pat.accepts(text.subrange(at, at + pat.width()))
}

/// A word of `pat` begins somewhere in `text`.
pub open spec fn occurs_in<P: Pattern>(pat: P, text: Seq<char>) -> bool {
    exists|at: int| occurs_at(pat, text, at)
}

/// The last characters of `text` form a word of `pat`.
pub open spec fn ends_with<P: Pattern>(pat: P, text: Seq<char>) -> bool {
    occurs_at(pat, text, text.len() - pat.width())
}

/// `text` without the word of `pat` that it ends with, if it ends with one.
/// Only that one word is taken away, however many stand at the end.
pub open spec fn strip_trailing<P: Pattern>(pat: P, text: Seq<char>) -> Seq<char> {
    if ends_with(pat, text) {
        text.take(text.len() - pat.width())
    } else {
        text
    }
}

/// The segments of `text` that are still to come when the search for `pat`
/// stands at position `from` and the segment being read began at `start`.
///
/// Behind an occurrence the search goes on at its end, and at the next
/// character where the occurrence is empty.
pub open spec fn segments_from<P: Pattern>(
    pat: P,
    text: Seq<char>,
    start: int,
    from: int,
) -> Seq<Seq<char>>
    recommends
        0 <= start <= from,
        start <= text.len(),
    decreases text.len() + 1 - from,
{
    if from < 0 || from + pat.width() > text.len() {
        seq![text.subrange(start, text.len() as int)]
    } else if occurs_at(pat, text, from) {
        let next = if pat.width() == 0 {
            from + 1
        } else {
            from + pat.width()
        };
        seq![text.subrange(start, from)] + segments_from(pat, text, from + pat.width(), next)
    } else {
        segments_from(pat, text, start, from + 1)
    }
}

/// The segments of `text`, split by `pat`, from left to right.
pub open spec fn segments<P: Pattern>(pat: P, text: Seq<char>) -> Seq<Seq<char>> {
    segments_from(pat, text, 0, 0)
}

/// The last segment of `text` once the word of `pat` at its end, if there is
/// one, has been left out.
pub open spec fn last_segment<P: Pattern>(pat: P, text: Seq<char>) -> Seq<char> {
    segments(pat, strip_trailing(pat, text)).last()
}

/// `part` is a run of neighbouring characters of `whole`.
pub open spec fn is_substring(part: Seq<char>, whole: Seq<char>) -> bool {
    exists|i: int, j: int| 0 <= i <= j <= whole.len() && part == #[trigger] whole.subrange(i, j)
}

/// Splitting always gives at least one segment.
pub proof fn lemma_segments_from_nonempty<P: Pattern>(pat: P, text: Seq<char>, start: int, from: int)
    ensures
        segments_from(pat, text, start, from).len() >= 1,
    decreases text.len() + 1 - from,
{
    if from < 0 || from + pat.width() > text.len() {
    } else if occurs_at(pat, text, from) {
        let next = if pat.width() == 0 {
            from + 1
        } else {
            from + pat.width()
        };
        lemma_segments_from_nonempty(pat, text, from + pat.width(), next);
    } else {
        lemma_segments_from_nonempty(pat, text, start, from + 1);
    }
}

/// Where no word of `pat` begins at or behind `from`, one segment is left:
/// the one being read, up to the end of the text.
pub proof fn lemma_no_further_occurrence<P: Pattern>(
    pat: P,
    text: Seq<char>,
    start: int,
    from: int,
)
    requires
        forall|i: int| from <= i ==> !occurs_at(pat, text, i),
    ensures
        segments_from(pat, text, start, from) == seq![text.subrange(start, text.len() as int)],
    decreases text.len() + 1 - from,
{
    if from < 0 || from + pat.width() > text.len() {
    } else {
        lemma_no_further_occurrence(pat, text, start, from + 1);
    }
}

/// Positions at which no word of `pat` begins are passed over.
pub proof fn lemma_skip_to_occurrence<P: Pattern>(
    pat: P,
    text: Seq<char>,
    start: int,
    from: int,
    at: int,
)
    requires
        0 <= from <= at,
        at + pat.width() <= text.len(),
        forall|i: int| from <= i < at ==> !occurs_at(pat, text, i),
    ensures
        segments_from(pat, text, start, from) == segments_from(pat, text, start, at),
    decreases at - from,
{
    if from < at {
        lemma_skip_to_occurrence(pat, text, start, from + 1, at);
    }
}

} // verus!
