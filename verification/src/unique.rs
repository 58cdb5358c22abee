use vstd::prelude::*;

verus! {

/// Minimal type-erasure capability: every concrete storage implements it, so
/// that storages of different concrete types can stand behind one uniform
/// handle in a registry. It carries no behaviour beyond identity.
pub trait UnknownStorage {}

/// A unique storage: holds exactly one value of a caller-chosen type together
/// with its modification flag.
///
/// The flag reads `true` exactly when an exclusive borrow has been taken and
/// released since it was last cleared by `consume_modified`; a registry sets
/// it through `mark_modified` when a write ticket is released, and nothing
/// clears it but an explicit consume.
pub struct Unique<T> {
    value: T,
    is_modified: bool,
}

impl<T: 'static> UnknownStorage for Unique<T> {
}

impl<T> Unique<T> {
    /// The stored value.
    pub closed spec fn value_spec(self) -> T {
        self.value
    }

    /// The modification flag.
    pub closed spec fn modified(self) -> bool {
        self.is_modified
    }

    /// Wraps one value; the modification flag starts cleared.
    pub fn new(value: T) -> (s: Unique<T>)
        ensures
            s.value_spec() == value,
            !s.modified(),
    {
        Unique { value, is_modified: false }
    }

    /// A shared view of the stored value.
    pub fn get(&self) -> (r: &T)
        ensures
            *r == self.value_spec(),
    {
        &self.value
    }

    /// Replaces the stored value. The modification flag is untouched: it
    /// records released exclusive borrows, not individual writes.
    pub fn set(&mut self, value: T)
        ensures
            final(self).value_spec() == value,
            final(self).modified() == old(self).modified(),
    {
        self.value = value;
    }

    /// Records that an exclusive borrow of this storage was released.
    pub fn mark_modified(&mut self)
        ensures
            final(self).value_spec() == old(self).value_spec(),
            final(self).modified(),
    {
        self.is_modified = true;
    }

    /// Reads the modification flag without clearing it.
    pub fn is_modified(&self) -> (b: bool)
        ensures
            b == self.modified(),
    {
        self.is_modified
    }

    /// Reads and clears the modification flag, for change-reactive consumers.
    pub fn consume_modified(&mut self) -> (b: bool)
        ensures
            b == old(self).modified(),
            !final(self).modified(),
            final(self).value_spec() == old(self).value_spec(),
    {
        let b = self.is_modified;
        self.is_modified = false;
        b
    }
}

} // verus!
