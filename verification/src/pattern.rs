//! Patterns: what a text is split by.
//!
//! A pattern stands for a set of words that all have the same number of
//! characters, its *width*. A character stands for the one word made of it, a
//! string for itself, and a predicate on characters for every one-character
//! word whose character it accepts.

use vstd::prelude::*;

verus! {

/// A value that can be looked for in a text.
pub trait Pattern {
    /// Whether the pattern can be used for matching at all.
    ///
    /// Characters and strings always can. A predicate can if it may be called
    /// on every character and its answer is a function of the character.
    spec fn wf(&self) -> bool;

    /// The number of characters in every word of the pattern.
    spec fn width(&self) -> nat;

    /// Whether `word` is one of the words of the pattern. It is asked only
    /// of words of `self.width()` characters.
    spec fn accepts(&self, word: Seq<char>) -> bool;

    /// Counts the characters of a word of the pattern.
    fn span(&self) -> (w: usize)
        requires
            self.wf(),
        ensures
            w == self.width(),
    ;

    /// Tells whether the `self.width()` characters of `text` that begin at
    /// `at` form a word of the pattern.
    fn matches_at(&self, text: &[char], at: usize) -> (b: bool)
        requires
            self.wf(),
            at + self.width() <= text@.len(),
        ensures
            b == self.accepts(text@.subrange(at as int, at + self.width())),
    ;
}

impl Pattern for char {
    open spec fn wf(&self) -> bool {
        true
    }

    open spec fn width(&self) -> nat {
        1
    }

    open spec fn accepts(&self, word: Seq<char>) -> bool {
        word == seq![*self]
    }

    fn span(&self) -> (w: usize) {
        1
    }

    fn matches_at(&self, text: &[char], at: usize) -> (b: bool) {
        let b = text[at] == *self;
        proof {
            let word = text@.subrange(at as int, at + 1);
            assert(word[0] == text@[at as int]);
            if b {
                assert(word =~= seq![*self]);
            }
        }
        b
    }
}

impl<'p> Pattern for &'p str {
    open spec fn wf(&self) -> bool {
        true
    }

    open spec fn width(&self) -> nat {
        self@.len()
    }

    open spec fn accepts(&self, word: Seq<char>) -> bool {
        word == self@
    }

    fn span(&self) -> (w: usize) {
        self.unicode_len()
    }

    fn matches_at(&self, text: &[char], at: usize) -> (b: bool) {
        let ghost word = text@.subrange(at as int, at + self@.len());
        let mut i: usize = at;
        for c in it: self.chars()
            invariant
                it.seq() == self@,
                i == at + it.index(),
                at + self@.len() <= text@.len(),
                word == text@.subrange(at as int, at + self@.len()),
                forall|j: int| 0 <= j < it.index() ==> word[j] == self@[j],
        {
            if text[i] != c {
                assert(word[i - at] != self@[i - at]);
                return false;
            }
            i += 1;
        }
        assert(word =~= self@);
        true
    }
}

/// A predicate on characters, used as a pattern: it matches every single
/// character that it accepts.
pub struct Predicate<F>(pub F);

impl<F: Fn(char) -> bool> Predicate<F> {
    /// Whether `test` may be called on every character and gives one answer
    /// for each.
    pub open spec fn decides(test: F) -> bool {
        forall|c: char|
            #![trigger test.requires((c,))]
            #![trigger test.ensures((c,), true)]
            #![trigger test.ensures((c,), false)]
            test.requires((c,)) && !(test.ensures((c,), true) && test.ensures((c,), false))
    }

    /// Makes a pattern of a predicate.
    pub fn new(test: F) -> (pat: Self)
        requires
            Self::decides(test),
        ensures
            pat.0 == test,
            pat.wf(),
            pat.width() == 1,
            forall|word: Seq<char>| #[trigger]
                pat.accepts(word) <==> word.len() == 1 && test.ensures((word[0],), true),
    {
        Predicate(test)
    }
}

impl<F: Fn(char) -> bool> Pattern for Predicate<F> {
    open spec fn wf(&self) -> bool {
        Self::decides(self.0)
    }

    open spec fn width(&self) -> nat {
        1
    }

    open spec fn accepts(&self, word: Seq<char>) -> bool {
        word.len() == 1 && self.0.ensures((word[0],), true)
    }

    fn span(&self) -> (w: usize) {
        1
    }

    fn matches_at(&self, text: &[char], at: usize) -> (b: bool) {
        let c = text[at];
        proof {
            let word = text@.subrange(at as int, at + self.width());
            assert(Self::decides(self.0) && word.len() == 1 && word[0] == c);
            assert(self.accepts(word) == self.0.ensures((c,), true));
        }
        (self.0)(c)
    }
}

} // verus!
