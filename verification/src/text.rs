//! An adapter that maps a value to and from SQL text. A strongly typed
//! dialect reports the wrapped value's column type as its text type;
//! conversion on the SQL side may still be needed for the desired type.

use vstd::prelude::*;

verus! {

/// Wraps a value that is bound and decoded through its textual form rather
/// than a native SQL equivalent.
#[derive(Debug, Default, Copy, Clone, PartialEq, Eq, PartialOrd, Ord)]
pub struct Text<T>(pub T);

impl<T> Text<T> {
    /// Extract the inner value.
    pub fn into_inner(self) -> (t: T)
        ensures
            t == self.0,
    {
        self.0
    }

    /// Borrow the inner value.
    pub fn get(&self) -> (t: &T)
        ensures
            t == &self.0,
    {
        &self.0
    }

    /// Borrow the inner value mutably: the borrow starts at the wrapped
    /// value, and whatever it holds when it ends is what the wrapper then
    /// wraps.
    pub fn get_mut(&mut self) -> (t: &mut T)
        ensures
            *t == old(self).0,
            final(self).0 == *final(t),
    {
        &mut self.0
    }
}

} // verus!
