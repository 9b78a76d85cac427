//! Walking over the segments of a text, one after the other.

use vstd::prelude::*;
use crate::pattern::Pattern;
use crate::search::find_forward;
use crate::segments::{
    lemma_no_further_occurrence, lemma_skip_to_occurrence, segments, segments_from,
};

verus! {

/// How far a walk has come.
enum Phase {
    /// Occurrences of the pattern are still looked for.
    Searching,
    /// An empty occurrence at the very end of the text has been passed: the
    /// empty segment behind it is still to come.
    Closing,
    /// Every segment has been handed out.
    Finished,
}

/// A walk over the segments of a text split by a pattern, from left to
/// right. A segment is handed out as the positions at which it begins and
/// ends in the text.
pub struct Segments<'t, 'p, P: Pattern> {
    text: &'t [char],
    pat: &'p P,
    /// Where the segment being read began.
    start: usize,
    /// Where the search for the next occurrence stands.
    from: usize,
    phase: Phase,
}

impl<'t, 'p, P: Pattern> Segments<'t, 'p, P> {
    /// The text that is walked over.
    pub closed spec fn text(&self) -> Seq<char> {
        self.text@
    }

    /// The pattern that the text is split by.
    pub closed spec fn pattern(&self) -> P {
        *self.pat
    }

    /// The segments that are still to come.
    pub closed spec fn remaining(&self) -> Seq<Seq<char>> {
        match self.phase {
            Phase::Searching => segments_from(
                *self.pat,
                self.text@,
                self.start as int,
                self.from as int,
            ),
            Phase::Closing => seq![self.text@.subrange(self.start as int, self.text@.len() as int)],
            Phase::Finished => Seq::empty(),
        }
    }

    /// The pattern can be used, and the walk stands inside the text.
    pub closed spec fn wf(&self) -> bool {
        &&& self.pat.wf()
        &&& self.start <= self.text@.len()
        &&& self.phase is Searching ==> self.start <= self.from <= self.text@.len()
    }

    /// Begins a walk at the front of `text`.
    pub fn new(pat: &'p P, text: &'t [char]) -> (walk: Self)
        requires
            pat.wf(),
        ensures
            walk.wf(),
            walk.text() == text@,
            walk.pattern() == *pat,
            walk.remaining() == segments(*pat, text@),
    {
        Segments { text, pat, start: 0, from: 0, phase: Phase::Searching }
    }

    /// Hands out the next segment, or `None` when there is none left.
    pub fn next(&mut self) -> (segment: Option<(usize, usize)>)
        requires
            old(self).wf(),
        ensures
            final(self).wf(),
            final(self).text() == old(self).text(),
            final(self).pattern() == old(self).pattern(),
            match segment {
                Some((begin, end)) => {
                    &&& begin <= end <= old(self).text().len()
                    &&& old(self).remaining().len() > 0
                    &&& old(self).remaining()[0] == old(self).text().subrange(
                        begin as int,
                        end as int,
                    )
                    &&& final(self).remaining() == old(self).remaining().skip(1)
                },
                None => old(self).remaining().len() == 0 && final(self).remaining().len() == 0,
            },
    {
        let len = self.text.len();
        let ghost before = self.remaining();
        match self.phase {
            Phase::Finished => None,
            Phase::Closing => {
                self.phase = Phase::Finished;
                assert(self.remaining() =~= before.skip(1));
                Some((self.start, len))
            },
            Phase::Searching => {
                let begin = self.start;
                match find_forward(self.pat, self.text, self.from) {
                    None => {
                        proof {
                            lemma_no_further_occurrence(
                                *self.pat,
                                self.text@,
                                self.start as int,
                                self.from as int,
                            );
                        }
                        self.phase = Phase::Finished;
                        assert(self.remaining() =~= before.skip(1));
                        Some((begin, len))
                    },
                    Some(at) => {
                        proof {
                            lemma_skip_to_occurrence(
                                *self.pat,
                                self.text@,
                                self.start as int,
                                self.from as int,
                                at as int,
                            );
                        }
                        let w = self.pat.span();
                        let ghost behind = segments_from(
                            *self.pat,
                            self.text@,
                            at + w,
                            if w == 0 { at + 1 } else { at + w },
                        );
                        assert(before == seq![self.text@.subrange(begin as int, at as int)]
                            + behind);
                        self.start = at + w;
                        if w > 0 {
                            self.from = at + w;
                        } else if at < len {
                            self.from = at + 1;
                        } else {
                            self.phase = Phase::Closing;
                        }
                        assert(self.remaining() == behind);
                        assert(behind =~= before.skip(1));
                        Some((begin, at))
                    },
                }
            },
        }
    }

    /// Walks to the end and returns the last segment, or `None` when the
    /// walk had no segment left.
    pub fn last(self) -> (segment: Option<(usize, usize)>)
        requires
            self.wf(),
        ensures
            match segment {
                Some((begin, end)) => {
                    &&& begin <= end <= self.text().len()
                    &&& self.remaining().len() > 0
                    &&& self.remaining().last() == self.text().subrange(begin as int, end as int)
                },
                None => self.remaining().len() == 0,
            },
    {
        let ghost all = self.remaining();
        let ghost text = self.text();
        let ghost seen: int = 0;
        let mut walk = self;
        let mut last: Option<(usize, usize)> = None;
        loop
            invariant
                all == self.remaining(),
                text == self.text(),
                walk.wf(),
                walk.text() == text,
                0 <= seen <= all.len(),
                walk.remaining() == all.skip(seen),
                match last {
                    Some((begin, end)) => {
                        &&& seen > 0
                        &&& begin <= end <= text.len()
                        &&& all[seen - 1] == text.subrange(begin as int, end as int)
                    },
                    None => seen == 0,
                },
            decreases all.len() - seen,
        {
            match walk.next() {
                Some(segment) => {
                    proof {
                        assert(all.skip(seen).skip(1) == all.skip(seen + 1));
                        seen = seen + 1;
                    }
                    last = Some(segment);
                },
                None => {
                    return last;
                },
            }
        }
    }
}

} // verus!
