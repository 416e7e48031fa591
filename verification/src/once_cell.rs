//! A cell that is either empty or holds one value.

use vstd::prelude::*;

verus! {

pub struct OnceCell<T> {
    pub cell: Option<T>,
}

impl<T> OnceCell<T> {
    /// A cell that holds nothing.
    pub fn new_empty() -> (r: Self)
        ensures
            r.cell is None,
    {
        Self { cell: None }
    }

    /// A cell that holds `inner`.
    pub fn new(inner: T) -> (r: Self)
        ensures
            r.cell == Some(inner),
    {
        Self { cell: Some(inner) }
    }

    /// Whether the cell holds a value.
    pub fn is_full(&self) -> (r: bool)
        ensures
            r == (self.cell is Some),
    {
        self.cell.is_some()
    }

    /// Moves the value out and leaves the cell empty.
    pub fn take(&mut self) -> (r: T)
        requires
            old(self).cell is Some,
        ensures
            Some(r) == old(self).cell,
            final(self).cell is None,
    {
        self.cell.take().unwrap()
    }

    /// Puts `new` into the cell, dropping what it held.
    pub fn replace(&mut self, new: T)
        ensures
            final(self).cell == Some(new),
    {
        self.cell = Some(new);
    }
}

} // verus!
