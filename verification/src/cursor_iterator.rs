//! An iterator that remembers its current item and how many items it has produced.
use vstd::prelude::*;

verus! {

/// Something that walks items one at a time and remembers where it is.
pub trait Cursor {
    type Item;

    /// How many items have been produced so far.
    fn consumed(&self) -> usize;

    /// The item most recently produced, or `None` before the first or after the last.
    fn current(&self) -> Option<Self::Item>;
}

/// Walks a sequence of items, remembering the current item and the count of items produced.
pub struct CursorIterator<T: Copy> {
    items: Vec<T>,
    consumed: usize,
    current: Option<T>,
}

impl<T: Copy> CursorIterator<T> {
    #[verifier::type_invariant]
    closed spec fn wf(self) -> bool {
        self.consumed <= self.items@.len()
    }

    /// All the items, produced and not.
    pub closed spec fn items(self) -> Seq<T> {
        self.items@
    }

    /// The number of items produced so far.
    pub closed spec fn spec_consumed(self) -> nat {
        self.consumed as nat
    }

    /// The item most recently produced, if the last call produced one.
    pub closed spec fn spec_current(self) -> Option<T> {
        self.current
    }

    /// The item that the next call of `next` will produce, if any.
    pub open spec fn upcoming(self) -> Option<T> {
        if self.spec_consumed() < self.items().len() {
            Some(self.items()[self.spec_consumed() as int])
        } else {
            None
        }
    }

    /// A cursor before the first of `items`: nothing produced, no current item.
    pub fn from_iter(items: Vec<T>) -> (c: CursorIterator<T>)
        ensures
            c.items() == items@,
            c.spec_consumed() == 0,
            c.spec_current() == None::<T>,
    {
        CursorIterator { items, consumed: 0, current: None }
    }

    /// The item that the next call of `next` will produce, without producing it.
    pub fn peek(&self) -> (r: Option<&T>)
        ensures
            match self.upcoming() {
                Some(t) => r == Some(&t),
                None => r is None,
            },
    {
        proof {
            use_type_invariant(self);
        }
        if self.consumed < self.items.len() {
            Some(&self.items[self.consumed])
        } else {
            None
        }
    }

    /// Produces the next item and makes it the current one; past the end produces `None`,
    /// clears the current item and leaves the count unchanged.
    pub fn next(&mut self) -> (r: Option<T>)
        ensures
            r == old(self).upcoming(),
            final(self).items() == old(self).items(),
            final(self).spec_current() == r,
            r is Some ==> final(self).spec_consumed() == old(self).spec_consumed() + 1,
            r is None ==> final(self).spec_consumed() == old(self).spec_consumed(),
    {
        proof {
            use_type_invariant(&*self);
        }
        if self.consumed < self.items.len() {
            let item = self.items[self.consumed];
            self.current = Some(item);
            self.consumed = self.consumed + 1;
            Some(item)
        } else {
            self.current = None;
            None
        }
    }
}

impl<T: Copy> Cursor for CursorIterator<T> {
    type Item = T;

    fn consumed(&self) -> (n: usize)
        ensures
            n == self.spec_consumed(),
    {
        self.consumed
    }

    fn current(&self) -> (r: Option<T>)
        ensures
            r == self.spec_current(),
    {
        self.current
    }
}

} // verus!
