//! A cell for the kernel's singletons on a single core: its content can be
//! taken out by one user at a time, and the cell checks that at run time.
use vstd::prelude::*;

verus! {

/// Holds a value that one user at a time may take out for exclusive access.
pub struct UPSafeCell<T> {
    slot: Option<T>,
}

impl<T> UPSafeCell<T> {
    /// The value in the cell, or `None` while it is taken out.
    pub closed spec fn content(&self) -> Option<T> {
        self.slot
    }

    /// Whether the value is taken out.
    pub open spec fn borrowed(&self) -> bool {
        self.content() is None
    }

    /// A cell that holds `value`.
    pub fn new(value: T) -> (cell: UPSafeCell<T>)
        ensures
            cell.content() == Some(value),
    {
        UPSafeCell { slot: Some(value) }
    }

    /// Whether the value is taken out.
    pub fn is_borrowed(&self) -> (yes: bool)
        ensures
            yes == self.borrowed(),
    {
        self.slot.is_none()
    }

    /// Takes the value out for exclusive access. While it is out, a second
    /// access gets `None`.
    pub fn exclusive_access(&mut self) -> (value: Option<T>)
        ensures
            value == old(self).content(),
            final(self).borrowed(),
    {
        self.slot.take()
    }

    /// Puts a value back and so ends the exclusive access. A cell whose
    /// value is not out refuses: it keeps its value and hands `value` back.
    pub fn release(&mut self, value: T) -> (refused: Option<T>)
        ensures
            old(self).borrowed() ==> refused is None && final(self).content() == Some(value),
            !old(self).borrowed() ==> refused == Some(value) && final(self).content() == old(self).content(),
    {
        if self.slot.is_none() {
            self.slot = Some(value);
            None
        } else {
            Some(value)
        }
    }
}

} // verus!
