//! A character cursor over source text, used to scan lexemes.
use vstd::prelude::*;
use crate::text::chars_of;

verus! {

/// Walks the characters of a text, remembering how many have been consumed.
/// The current lexeme is the consumed prefix.
pub struct Cursor<'a> {
    text: &'a str,
    chars: Vec<char>,
    len: usize,
}

impl<'a> Cursor<'a> {
    #[verifier::type_invariant]
    closed spec fn wf(self) -> bool {
        &&& self.chars@ == self.text@
        &&& self.len <= self.chars@.len()
    }

    /// The whole text under the cursor.
    pub closed spec fn text(self) -> Seq<char> {
        self.text@
    }

    /// How many characters have been consumed.
    pub closed spec fn consumed(self) -> nat {
        self.len as nat
    }

    /// The characters not yet consumed.
    pub open spec fn rest(self) -> Seq<char> {
        self.text().subrange(self.consumed() as int, self.text().len() as int)
    }

    /// The character `n` places after the current one, if there is one.
    pub open spec fn spec_peek(self, n: int) -> Option<char> {
        if 0 <= n < self.rest().len() {
            Some(self.rest()[n])
        } else {
            None
        }
    }

    /// A cursor at the start of `text`.
    pub fn new(text: &'a str) -> (c: Cursor<'a>)
        ensures
            c.text() == text@,
            c.consumed() == 0,
    {
        let chars = chars_of(text);
        Cursor { text, chars, len: 0 }
    }

    /// The number of characters consumed so far.
    pub fn len(&self) -> (n: usize)
        ensures
            n == self.consumed(),
    {
        self.len
    }

    /// The current (first unconsumed) character, if any.
    pub fn current(&self) -> (r: Option<char>)
        ensures
            r == self.spec_peek(0),
            self.consumed() <= self.text().len(),
    {
        proof {
            use_type_invariant(self);
        }
        if self.len < self.chars.len() {
            Some(self.chars[self.len])
        } else {
            None
        }
    }

    /// The character `n` places after the current one, if any.
    pub fn peek(&self, n: usize) -> (r: Option<char>)
        ensures
            r == self.spec_peek(n as int),
    {
        proof {
            use_type_invariant(self);
        }
        if n < self.chars.len() - self.len {
            Some(self.chars[self.len + n])
        } else {
            None
        }
    }

    /// The text consumed so far: the current lexeme.
    pub fn current_token_text(&self) -> (s: &str)
        ensures
            s@ == self.text().subrange(0, self.consumed() as int),
    {
        proof {
            use_type_invariant(self);
        }
        self.text.substring_char(0, self.len)
    }

    /// Whether the current character is `c`.
    pub fn match_char(&self, c: char) -> (b: bool)
        ensures
            b == (self.spec_peek(0) == Some(c)),
    {
        match self.current() {
            Some(d) => d == c,
            None => false,
        }
    }

    /// Whether the unconsumed text starts with `s`.
    pub fn match_str(&self, s: &str) -> (b: bool)
        ensures
            b == (s@.len() <= self.rest().len() && self.rest().subrange(0, s@.len() as int) == s@),
    {
        proof {
            use_type_invariant(self);
        }
        let pattern = chars_of(s);
        let remaining = self.chars.len() - self.len;
        if pattern.len() > remaining {
            return false;
        }
        let mut i: usize = 0;
        while i < pattern.len()
            invariant
                self.chars@ == self.text@,
                self.len <= self.chars@.len(),
                pattern@ == s@,
                pattern.len() <= self.chars.len() - self.len,
                i <= pattern.len(),
                forall|j: int| 0 <= j < i ==> self.chars@[self.len + j] == pattern@[j],
            decreases pattern.len() - i,
        {
            if self.chars[self.len + i] != pattern[i] {
                assert(self.rest().subrange(0, s@.len() as int)[i as int] != s@[i as int]);
                return false;
            }
            i = i + 1;
        }
        assert(self.rest().subrange(0, s@.len() as int) =~= s@);
        true
    }

    /// Whether there is a current character and `predicate` holds of it.
    pub fn match_char_predicate<P: Fn(char) -> bool>(&self, predicate: P) -> (b: bool)
        requires
            forall|c: char| predicate.requires((c,)),
        ensures
            match self.spec_peek(0) {
                Some(c) => predicate.ensures((c,), b),
                None => !b,
            },
    {
        match self.current() {
            Some(c) => predicate(c),
            None => false,
        }
    }

    /// Whether there is a character `n` places after the current one and `predicate` holds of it.
    pub fn match_nth_predicate<P: Fn(char) -> bool>(&self, n: usize, predicate: P) -> (b: bool)
        requires
            forall|c: char| predicate.requires((c,)),
        ensures
            match self.spec_peek(n as int) {
                Some(c) => predicate.ensures((c,), b),
                None => !b,
            },
    {
        match self.peek(n) {
            Some(c) => predicate(c),
            None => false,
        }
    }

    /// Consumes and returns the current character; at the end of the text returns `None`
    /// and consumes nothing.
    pub fn next(&mut self) -> (r: Option<char>)
        ensures
            r == old(self).spec_peek(0),
            final(self).text() == old(self).text(),
            r is Some ==> final(self).consumed() == old(self).consumed() + 1,
            r is None ==> final(self).consumed() == old(self).consumed(),
    {
        proof {
            use_type_invariant(&*self);
        }
        if self.len < self.chars.len() {
            let c = self.chars[self.len];
            self.len = self.len + 1;
            Some(c)
        } else {
            None
        }
    }
}

} // verus!
