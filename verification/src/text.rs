//! An owned text value, counted and split by scalar positions.

use vstd::prelude::*;

verus! {

/// An owned piece of text, viewed in specifications as a sequence of
/// characters. Supports the splitting operations that diff composition
/// needs: take a prefix, drop a prefix, and append.
#[derive(Clone, Debug, Eq, Hash, PartialEq)]
pub struct Text {
    chars: Vec<char>,
}

impl View for Text {
    type V = Seq<char>;

    closed spec fn view(&self) -> Seq<char> {
        self.chars@
    }
}

impl Text {
    /// The empty text.
    pub fn new() -> (r: Text)
        ensures
            r@ == Seq::<char>::empty(),
    {
        Text { chars: Vec::new() }
    }

    /// Builds a text from its characters.
    pub fn from_chars(chars: Vec<char>) -> (r: Text)
        ensures
            r@ == chars@,
    {
        Text { chars }
    }

    /// Consumes the text and hands back its characters.
    pub fn into_chars(self) -> (r: Vec<char>)
        ensures
            r@ == self@,
    {
        self.chars
    }

    /// The number of characters.
    pub fn len(&self) -> (r: usize)
        ensures
            r == self@.len(),
    {
        self.chars.len()
    }

    /// Whether the text holds no characters.
    pub fn is_empty(&self) -> (r: bool)
        ensures
            r == (self@.len() == 0),
    {
        self.chars.len() == 0
    }

    /// Appends `other` to the end of `self`.
    pub fn append(&mut self, other: Text)
        ensures
            final(self)@ == old(self)@ + other@,
    {
        let mut tail = other.chars;
        self.chars.append(&mut tail);
    }

    /// Splits off and returns the prefix of length `n`; `self` keeps the rest.
    pub fn take(&mut self, n: usize) -> (r: Text)
        requires
            n <= old(self)@.len(),
        ensures
            r@ == old(self)@.take(n as int),
            final(self)@ == old(self)@.skip(n as int),
    {
        let mut prefix: Vec<char> = Vec::new();
        let mut i: usize = 0;
        while i < n
            invariant
                i <= n,
                n <= self.chars@.len(),
                prefix@ == self.chars@.take(i as int),
            decreases n - i,
        {
            prefix.push(self.chars[i]);
            i = i + 1;
            proof {
                assert(prefix@ =~= self.chars@.take(i as int));
            }
        }
        let mut rest: Vec<char> = Vec::new();
        let mut j: usize = n;
        while j < self.chars.len()
            invariant
                n <= j <= self.chars@.len(),
                rest@ == self.chars@.subrange(n as int, j as int),
            decreases self.chars@.len() - j,
        {
            rest.push(self.chars[j]);
            j = j + 1;
            proof {
                assert(rest@ =~= self.chars@.subrange(n as int, j as int));
            }
        }
        proof {
            assert(rest@ =~= self.chars@.skip(n as int));
        }
        self.chars = rest;
        Text { chars: prefix }
    }

    /// Discards the prefix of length `n` in place.
    pub fn skip(&mut self, n: usize)
        requires
            n <= old(self)@.len(),
        ensures
            final(self)@ == old(self)@.skip(n as int),
    {
        let _prefix = self.take(n);
    }
}

} // verus!
