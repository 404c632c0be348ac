//! A dirty-tracked payload wrapper.
//!
//! [`ObservableData`] pairs a value with a dirty flag: replacing the value
//! marks it dirty, and the holder clears the flag once it has reacted to the
//! change (for payloads backing a device buffer, once it has re-uploaded).

use vstd::prelude::*;

verus! {

/// Data that can be observed for changes through its dirty flag.
pub struct ObservableData<T> {
    data: T,
    dirty: bool,
}

impl<T> ObservableData<T> {
    /// The wrapped value.
    pub closed spec fn data_spec(&self) -> T {
        self.data
    }

    /// Whether the value has changed since the flag was last cleared.
    pub closed spec fn dirty_spec(&self) -> bool {
        self.dirty
    }

    /// Wraps a value; a fresh wrapper is clean.
    pub fn new(data: T) -> (r: ObservableData<T>)
        ensures
            r.data_spec() == data,
            !r.dirty_spec(),
    {
        ObservableData { data, dirty: false }
    }

    /// Borrows the wrapped value.
    pub fn get(&self) -> (r: &T)
        ensures
            *r == self.data_spec(),
    {
        &self.data
    }

    /// Replaces the wrapped value and marks it dirty, whatever the prior
    /// state of the flag.
    pub fn set(&mut self, value: T)
        ensures
            final(self).data_spec() == value,
            final(self).dirty_spec(),
    {
        self.data = value;
        self.dirty = true;
    }

    /// Whether the value has changed since the flag was last cleared.
    pub fn is_dirty(&self) -> (b: bool)
        ensures
            b == self.dirty_spec(),
    {
        self.dirty
    }

    /// Clears the dirty flag, leaving the value as it is.
    pub fn clear_dirty(&mut self)
        ensures
            final(self).data_spec() == old(self).data_spec(),
            !final(self).dirty_spec(),
    {
        self.dirty = false;
    }
}

} // verus!
