//! A cell that hands out its value to one borrower at a time.

use vstd::prelude::*;

verus! {

/// A value together with the flag that says whether it is lent out.
///
/// The flag is set for exactly as long as an access to the value is in
/// progress. An access may only begin while the flag is clear, so two
/// accesses never overlap.
pub struct MutCell<T> {
    value: T,
    borrowing: bool,
}

impl<T> View for MutCell<T> {
    type V = T;

    /// The value that the cell holds.
    closed spec fn view(&self) -> T {
        self.value
    }
}

impl<T> MutCell<T> {
    /// Whether an access to the value is in progress.
    pub closed spec fn borrowed(&self) -> bool {
        self.borrowing
    }

    /// A cell that holds `value` and is not lent out.
    pub fn new(value: T) -> (cell: Self)
        ensures
            cell@ == value,
            !cell.borrowed(),
    {
        MutCell { value, borrowing: false }
    }

    /// Tells at run time whether an access is in progress.
    pub fn is_borrowed(&self) -> (b: bool)
        ensures
            b == self.borrowed(),
    {
        self.borrowing
    }

    /// Begins an access: sets the flag and leaves the value as it is.
    pub fn acquire(&mut self)
        requires
            !old(self).borrowed(),
        ensures
            final(self).borrowed(),
            final(self)@ == old(self)@,
    {
        self.borrowing = true;
    }

    /// Ends an access: clears the flag and leaves the value as it is.
    pub fn release(&mut self)
        ensures
            !final(self).borrowed(),
            final(self)@ == old(self)@,
    {
        self.borrowing = false;
    }

    /// Reads the value without touching the flag.
    pub fn get(&self) -> (value: &T)
        ensures
            *value == self@,
    {
        &self.value
    }

    /// Runs `f` on the value and returns what `f` returns.
    ///
    /// The flag is set while `f` runs and clear again afterwards; the cell
    /// then holds the value as `f` left it.
    pub fn with<R, F: FnOnce(&mut T) -> R>(&mut self, f: F) -> (r: R)
        requires
            !old(self).borrowed(),
            forall|v: &mut T| *v == old(self)@ ==> call_requires(f, (v,)),
        ensures
            !final(self).borrowed(),
            exists|v: &mut T|
                *v == old(self)@ && *final(v) == final(self)@ && call_ensures(f, (v,), r),
    {
        self.acquire();
        let r = f(&mut self.value);
        self.release();
        r
    }
}

} // verus!
