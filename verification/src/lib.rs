//! Opt-in casting of a value of unknown type to the capabilities that its
//! type implements.
//!
//! Implementations register themselves as descriptors. The registry of a
//! capability is built once, on first use, and answers from then on which
//! concrete types implement the capability and how to attach its interface
//! to an object of such a type.

pub mod args;
pub mod global;
pub mod item;
pub mod map;
pub mod once;
pub mod private;
pub mod protocol;

use crate::map::InitializedTypeMap;
use crate::private::AttachFn;
use crate::private::Key;
use crate::private::SyncUnitPtr;
use vstd::prelude::*;

verus! {

/// What a cast comes down to once the lookup has succeeded: the attach
/// function that the object's type registered, and the object to call it
/// with. The attach function is owed exactly this object and no other.
#[derive(Clone, Copy, Debug)]
pub struct Attachment {
    pub attach_vtable_fn: AttachFn,
    pub object: SyncUnitPtr,
}

/// Looks up, in the registry of a capability, the key of the type of
/// `object`. `None` is the ordinary answer for a type that does not
/// implement the capability.
pub fn lookup(map: &InitializedTypeMap<'_>, key: Key, object: SyncUnitPtr) -> (res: Option<
    Attachment,
>)
    ensures
        match res {
            Some(attachment) => {
                &&& map@.contains_key(key)
                &&& attachment.attach_vtable_fn == map@[key].attach_vtable_fn
                &&& attachment.object == object
            },
            None => !map@.contains_key(key),
        },
{
    match map.lookup(key) {
        Some(partial) => Some(Attachment { attach_vtable_fn: partial.attach_vtable_fn(), object }),
        None => None,
    }
}

/// A capability that references to `O` can be cast to. An implementation
/// looks the type of the object behind `source` up in the capability's
/// registry and, where the type is registered, attaches the capability's
/// interface to the object.
pub trait Dyncast<O: ?Sized>: 'static {
    fn dyncast_from(source: &O) -> Option<&Self>;
}

/// Provides the shorthand `value.dyncast_to::<Capability>()`.
pub trait DyncastExt {
    fn dyncast_to<T: ?Sized + Dyncast<Self>>(&self) -> Option<&T>;
}

impl<O: ?Sized> DyncastExt for O {
    /// Casts to the capability `D`, as `D` itself does it.
    #[inline(always)]
    fn dyncast_to<D: ?Sized + Dyncast<O>>(&self) -> (res: Option<&D>)
        ensures
            call_ensures(D::dyncast_from, (self,), res),
    {
        D::dyncast_from(self)
    }
}

} // verus!
