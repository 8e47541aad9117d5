//! The values that registration produces and the registry stores.

use vstd::prelude::*;

verus! {

/// Identity of a type: two values are equal exactly when they denote the
/// same type.
pub type TypeIdentity = u64;

/// Identity of one parameterization of a capability.
pub type SecondaryIdentity = u64;

/// An attach function, held as the address it was registered under. The
/// registry never calls it; it only stores it and hands it back.
pub type AttachFn = usize;

/// One slot of an entry collection: empty for a placeholder, or the
/// descriptor that the slot's producer yields.
pub type Entry = SyncUnsafeCell<Option<Descriptor>>;

/// The address of an object whose type has been erased.
#[derive(Clone, Copy, Debug)]
pub struct SyncUnitPtr(pub usize);

/// A transparent cell around a value that is written once, before any
/// reader sees it, and shared freely afterwards.
#[derive(Debug)]
pub struct SyncUnsafeCell<T>(pub T);

impl<T> SyncUnsafeCell<T> {
    /// Wraps `val`.
    #[inline]
    pub fn new(val: T) -> (cell: Self)
        ensures
            cell.0 == val,
    {
        Self(val)
    }

    /// The value inside the cell.
    #[inline]
    pub fn get(&self) -> (val: &T)
        ensures
            *val == self.0,
    {
        &self.0
    }
}

/// What identifies a descriptor inside the registry of one capability: the
/// concrete type, and for a parameterized capability the parameterization.
#[derive(Clone, Copy, Debug, PartialEq, Eq, Hash)]
pub struct Key {
    pub type_id: TypeIdentity,
    pub secondary: Option<SecondaryIdentity>,
}

impl Key {
    /// The key of a concrete type under a capability without parameters.
    pub fn plain(type_id: TypeIdentity) -> (key: Key)
        ensures
            key == (Key { type_id, secondary: None }),
    {
        Key { type_id, secondary: None }
    }

    /// The key of a concrete type under one parameterization of a capability.
    pub fn parameterized(type_id: TypeIdentity, secondary: SecondaryIdentity) -> (key: Key)
        ensures
            key == (Key { type_id, secondary: Some(secondary) }),
    {
        Key { type_id, secondary: Some(secondary) }
    }

    /// Whether two keys are the same key.
    pub fn same(&self, other: &Key) -> (same: bool)
        ensures
            same == (*self == *other),
    {
        self.type_id == other.type_id && match (self.secondary, other.secondary) {
            (None, None) => true,
            (Some(a), Some(b)) => a == b,
            _ => false,
        }
    }
}

/// The part of a descriptor that a registry keeps once the descriptor has
/// been filed under its capability and key.
#[derive(Clone, Copy, Debug, PartialEq, Eq)]
pub struct PartialDescriptor {
    pub attach_vtable_fn: AttachFn,
}

impl PartialDescriptor {
    /// The attach function recorded at registration.
    #[inline]
    pub fn attach_vtable_fn(&self) -> (attach: AttachFn)
        ensures
            attach == self.attach_vtable_fn,
    {
        self.attach_vtable_fn
    }
}

/// The registered fact that a concrete type implements a capability,
/// together with the function that attaches the capability's interface to
/// an object of that type.
#[derive(Clone, Copy, Debug, PartialEq, Eq)]
pub struct Descriptor {
    pub self_type_id: TypeIdentity,
    pub dyn_trait_id: TypeIdentity,
    pub secondary_id: Option<SecondaryIdentity>,
    pub attach_vtable_fn: AttachFn,
}

impl Descriptor {
    /// The descriptor of `self_type_id` under the capability `dyn_trait_id`.
    #[inline]
    pub fn new(
        self_type_id: TypeIdentity,
        dyn_trait_id: TypeIdentity,
        attach_vtable_fn: AttachFn,
    ) -> (descriptor: Self)
        ensures
            descriptor == (Descriptor {
                self_type_id,
                dyn_trait_id,
                secondary_id: None,
                attach_vtable_fn,
            }),
    {
        Self { self_type_id, dyn_trait_id, secondary_id: None, attach_vtable_fn }
    }

    /// The descriptor of `self_type_id` under the parameterization
    /// `secondary_id` of the capability `dyn_trait_id`.
    #[inline]
    pub fn parameterized(
        self_type_id: TypeIdentity,
        dyn_trait_id: TypeIdentity,
        secondary_id: SecondaryIdentity,
        attach_vtable_fn: AttachFn,
    ) -> (descriptor: Self)
        ensures
            descriptor == (Descriptor {
                self_type_id,
                dyn_trait_id,
                secondary_id: Some(secondary_id),
                attach_vtable_fn,
            }),
    {
        Self { self_type_id, dyn_trait_id, secondary_id: Some(secondary_id), attach_vtable_fn }
    }

    /// The key under which the descriptor is filed.
    pub open spec fn spec_key(&self) -> Key {
        Key { type_id: self.self_type_id, secondary: self.secondary_id }
    }

    /// The key under which the descriptor is filed.
    #[verifier::when_used_as_spec(spec_key)]
    pub fn key(&self) -> (key: Key)
        ensures
            key == self.spec_key(),
    {
        Key { type_id: self.self_type_id, secondary: self.secondary_id }
    }

    /// What a registry keeps of the descriptor.
    pub open spec fn spec_partial(&self) -> PartialDescriptor {
        PartialDescriptor { attach_vtable_fn: self.attach_vtable_fn }
    }

    /// What a registry keeps of the descriptor.
    #[verifier::when_used_as_spec(spec_partial)]
    pub fn partial(&self) -> (partial: PartialDescriptor)
        ensures
            partial == self.spec_partial(),
    {
        PartialDescriptor { attach_vtable_fn: self.attach_vtable_fn }
    }
}

} // verus!
