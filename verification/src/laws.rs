//! What holds of the last segment of every text, for every pattern.

use vstd::prelude::*;
use crate::pattern::Pattern;
use crate::segments::{
    ends_with, is_substring, last_segment, lemma_no_further_occurrence,
    lemma_segments_from_nonempty, occurs_at, occurs_in, segments_from, strip_trailing,
};

verus! {

/// The last of the segments that are still to come runs to the end of the
/// text. It is the segment being read, or begins where a word of `pat`
/// ends. Where the words of `pat` have a character or more and none of them
/// begins in what has been read of the segment so far, none begins in that
/// last segment.
proof fn lemma_last_runs_to_end<P: Pattern>(pat: P, text: Seq<char>, start: int, from: int) -> (at: int)
    requires
        0 <= start <= from,
        start <= text.len(),
        pat.width() > 0 ==> forall|i: int| start <= i < from ==> !occurs_at(pat, text, i),
    ensures
        start <= at <= text.len(),
        segments_from(pat, text, start, from).last() == text.subrange(at, text.len() as int),
        at == start || occurs_at(pat, text, at - pat.width()),
        pat.width() > 0 ==> forall|i: int| at <= i ==> !occurs_at(pat, text, i),
    decreases text.len() + 1 - from,
{
    let w = pat.width() as int;
    if from + w > text.len() {
        start
    } else if occurs_at(pat, text, from) {
        let next = if w == 0 {
            from + 1
        } else {
            from + w
        };
        lemma_segments_from_nonempty(pat, text, from + w, next);
        lemma_last_runs_to_end(pat, text, from + w, next)
    } else {
        lemma_last_runs_to_end(pat, text, start, from + 1)
    }
}

/// Where the empty word is a word of `pat`, the last of the segments that
/// are still to come is empty.
proof fn lemma_last_is_empty<P: Pattern>(pat: P, text: Seq<char>, start: int, from: int)
    requires
        pat.width() == 0,
        pat.accepts(Seq::<char>::empty()),
        0 <= from <= text.len(),
    ensures
        segments_from(pat, text, start, from).last() == Seq::<char>::empty(),
    decreases text.len() - from,
{
    assert(text.subrange(from, from) =~= Seq::<char>::empty());
    assert(occurs_at(pat, text, from));
    lemma_segments_from_nonempty(pat, text, from, from + 1);
    if from < text.len() {
        lemma_last_is_empty(pat, text, from, from + 1);
    } else {
        assert(text.subrange(from, text.len() as int) =~= Seq::<char>::empty());
    }
}

/// A text in which no word of the pattern begins is its own last segment.
pub proof fn lemma_text_without_occurrence_is_kept<P: Pattern>(pat: P, text: Seq<char>)
    requires
        !occurs_in(pat, text),
    ensures
        last_segment(pat, text) == text,
{
    assert(!ends_with(pat, text));
    assert forall|i: int| 0 <= i implies !occurs_at(pat, text, i) by {}
    lemma_no_further_occurrence(pat, text, 0, 0);
    assert(text.subrange(0, text.len() as int) == text);
}

/// The last segment of a text is a run of neighbouring characters of that
/// text.
pub proof fn lemma_last_segment_is_substring<P: Pattern>(pat: P, text: Seq<char>)
    ensures
        is_substring(last_segment(pat, text), text),
{
    let work = strip_trailing(pat, text);
    let at = lemma_last_runs_to_end(pat, work, 0, 0);
    assert(work.subrange(at, work.len() as int) == text.subrange(at, work.len() as int));
}

/// The last segment is the end of the text, without the word of the pattern
/// that the text may end with. It begins at the front of the text or behind
/// a word of the pattern, at the position that is returned.
pub proof fn lemma_last_segment_follows_occurrence<P: Pattern>(pat: P, text: Seq<char>) -> (at: int)
    ensures
        0 <= at <= strip_trailing(pat, text).len(),
        last_segment(pat, text) == strip_trailing(pat, text).skip(at),
        at == 0 || occurs_at(pat, strip_trailing(pat, text), at - pat.width()),
{
    let work = strip_trailing(pat, text);
    let at = lemma_last_runs_to_end(pat, work, 0, 0);
    assert(work.skip(at) == work.subrange(at, work.len() as int));
    at
}

/// Splitting a last segment in which no word of the pattern begins gives
/// that segment again.
pub proof fn lemma_resplit_keeps_last_segment<P: Pattern>(pat: P, text: Seq<char>)
    requires
        !occurs_in(pat, last_segment(pat, text)),
    ensures
        last_segment(pat, last_segment(pat, text)) == last_segment(pat, text),
{
    lemma_text_without_occurrence_is_kept(pat, last_segment(pat, text));
}

/// No word of a pattern of one character or more begins in the last segment
/// of a text split by it.
pub proof fn lemma_last_segment_has_no_occurrence<P: Pattern>(pat: P, text: Seq<char>)
    requires
        pat.width() > 0,
    ensures
        !occurs_in(pat, last_segment(pat, text)),
{
    let work = strip_trailing(pat, text);
    let at = lemma_last_runs_to_end(pat, work, 0, 0);
    let last = last_segment(pat, text);
    assert forall|i: int| !occurs_at(pat, last, i) by {
        if occurs_at(pat, last, i) {
            assert(last.subrange(i, i + pat.width()) == work.subrange(at + i, at + i + pat.width()));
            assert(occurs_at(pat, work, at + i));
        }
    }
}

/// Splitting twice gives what splitting once gives.
pub proof fn lemma_split_last_twice<P: Pattern>(pat: P, text: Seq<char>)
    ensures
        last_segment(pat, last_segment(pat, text)) == last_segment(pat, text),
{
    let last = last_segment(pat, text);
    if pat.width() > 0 {
        lemma_last_segment_has_no_occurrence(pat, text);
        lemma_resplit_keeps_last_segment(pat, text);
    } else if !pat.accepts(Seq::<char>::empty()) {
        assert forall|i: int| !occurs_at(pat, last, i) by {
            if occurs_at(pat, last, i) {
                assert(last.subrange(i, i) =~= Seq::<char>::empty());
            }
        }
        lemma_resplit_keeps_last_segment(pat, text);
    } else {
        lemma_last_segment_of_empty_pattern(pat, text);
        lemma_last_segment_of_empty_pattern(pat, last);
    }
}

/// Split by a pattern whose one word is the empty word, every text has the
/// empty last segment: such a word stands before and behind every character.
pub proof fn lemma_last_segment_of_empty_pattern<P: Pattern>(pat: P, text: Seq<char>)
    requires
        pat.width() == 0,
        pat.accepts(Seq::<char>::empty()),
    ensures
        last_segment(pat, text) == Seq::<char>::empty(),
{
    lemma_last_is_empty(pat, strip_trailing(pat, text), 0, 0);
}

} // verus!
