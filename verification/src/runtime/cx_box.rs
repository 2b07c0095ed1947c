//! A slot that is filled once and can be emptied again.

use vstd::prelude::*;

verus! {

/// A value that is set at most once between two cleanings.
pub struct CxBox<T> {
    data: Option<T>,
}

impl<T> View for CxBox<T> {
    type V = Option<T>;

    /// The value, if one is set.
    closed spec fn view(&self) -> Option<T> {
        self.data
    }
}

impl<T> CxBox<T> {
    /// Creates a new `CxBox`, with nothing set.
    pub fn new() -> (b: Self)
        ensures
            b@.is_none(),
    {
        CxBox { data: None }
    }

    /// Sets the value if it's not initialised; otherwise refuses and keeps
    /// what is there.
    pub fn set(&mut self, val: T) -> (r: Result<(), ()>)
        ensures
            r.is_ok() == old(self)@.is_none(),
            final(self)@ == (if old(self)@.is_none() {
                Some(val)
            } else {
                old(self)@
            }),
    {
        if self.data.is_some() {
            return Err(());
        };
        self.data = Some(val);
        Ok(())
    }

    /// Obtains an immutable reference to the data inside.
    pub fn get_ref(&self) -> (r: Option<&T>)
        ensures
            r.is_some() == self@.is_some(),
            r matches Some(v) ==> *v == self@.unwrap(),
    {
        self.data.as_ref()
    }

    /// Empties the box; what was set is dropped.
    pub fn clean(&mut self)
        ensures
            final(self)@.is_none(),
    {
        self.data = None;
    }
}

} // verus!
