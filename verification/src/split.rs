//! Finding the last segment of a text.

use vstd::prelude::*;
use vstd::slice::slice_subrange;
use crate::error::SplitError;
use crate::pattern::Pattern;
use crate::search::match_at_end;
use crate::segments::{is_substring, last_segment, lemma_segments_from_nonempty, strip_trailing};
use crate::walk::Segments;

verus! {

/// Reads the characters of `text` into a vector.
pub fn chars_of(text: &str) -> (chars: Vec<char>)
    ensures
        chars@ == text@,
{
    let mut chars: Vec<char> = Vec::new();
    for c in it: text.chars()
        invariant
            it.seq() == text@,
            chars@ == text@.take(it.index()),
    {
        chars.push(c);
    }
    chars
}

/// Texts that can be split by a pattern and give their last segment.
pub trait SplitLast<'a, P: Pattern>: View<V = Seq<char>> {
    /// What a split that cannot be made is answered with.
    type Error;

    /// Splits the text by `pat` and returns the last segment. A word of
    /// `pat` at the very end of the text is left out before that, so that a
    /// text that ends with a delimiter does not give the empty segment
    /// behind it.
    ///
    /// Every text has a last segment, so this always succeeds.
    fn split_last(&'a self, pat: P) -> (r: Result<&'a str, Self::Error>)
        requires
            pat.wf(),
        ensures
            r matches Ok(last) && last@ == last_segment(pat, self@) && is_substring(last@, self@),
    ;
}

impl<'a, P: Pattern> SplitLast<'a, P> for &str {
    type Error = SplitError;

    fn split_last(&'a self, pat: P) -> (r: Result<&'a str, SplitError>) {
        // The characters are read into a buffer once, so that a word of the
        // pattern can be compared in place at any position.
        let chars = chars_of(self);
        let text = chars.as_slice();
        let kept = if match_at_end(&pat, text) {
            text.len() - pat.span()
        } else {
            text.len()
        };
        let target = slice_subrange(text, 0, kept);
        proof {
            assert(target@ == strip_trailing(pat, self@));
            lemma_segments_from_nonempty(pat, target@, 0, 0);
        }
        match Segments::new(&pat, target).last() {
            Some((begin, end)) => {
                assert(target@.subrange(begin as int, end as int) == self@.subrange(
                    begin as int,
                    end as int,
                ));
                Ok(self.substring_char(begin, end))
            },
            None => Err(SplitError::failed()),
        }
    }
}

} // verus!
