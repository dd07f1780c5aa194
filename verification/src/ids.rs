//! Identifiers of actors and tasks.

use crate::external::random_uuid_value;
use std::marker::PhantomData;
use vstd::prelude::*;

verus! {

/// Generic identifier of an actor's or a task's runtime.
///
/// Two identifiers are equal exactly when they carry the same value.
#[derive(Clone, Copy, Debug, PartialEq, Eq, Structural, Hash)]
pub struct Id {
    value: u128,
}

impl Id {
    /// The raw value of the identifier.
    pub closed spec fn spec_value(self) -> u128 {
        self.value
    }

    /// Creates a fresh identifier from a random (version 4) UUID.
    pub fn unique() -> (id: Id) {
        Id::from_value(random_uuid_value())
    }

    /// The identifier that carries `value`.
    pub fn from_value(value: u128) -> (id: Id)
        ensures
            id.spec_value() == value,
    {
        Id { value }
    }

    /// Returns the raw 128-bit value of the identifier.
    pub fn value(&self) -> (v: u128)
        ensures
            v == self.spec_value(),
    {
        self.value
    }
}

/// Typed identifier of an actor or a task.
///
/// It can be turned into the generic `Id`.
#[derive(Debug)]
pub struct IdOf<T> {
    id: Id,
    _origin: PhantomData<T>,
}

impl<T> IdOf<T> {
    /// The generic identifier inside.
    pub closed spec fn spec_id(&self) -> Id {
        self.id
    }

    /// Wraps a generic identifier.
    pub fn new(id: Id) -> (r: Self)
        ensures
            r.spec_id() == id,
    {
        IdOf { id, _origin: PhantomData }
    }

    /// The generic identifier.
    pub fn id(&self) -> (id: Id)
        ensures
            id == self.spec_id(),
    {
        self.id
    }
}

impl<T> Clone for IdOf<T> {
    fn clone(&self) -> (r: Self)
        ensures
            r.spec_id() == self.spec_id(),
    {
        IdOf { id: self.id, _origin: PhantomData }
    }
}

} // verus!
