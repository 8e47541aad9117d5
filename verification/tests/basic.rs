use std::any::{Any, TypeId};

use dyncast::global::Global;
use dyncast::private::{Descriptor, Entry, TypeIdentity};
use dyncast::{Dyncast, DyncastExt};

trait Boba {
    fn supper(&self) -> &'static str;
}

struct A;

impl Boba for A {
    fn supper(&self) -> &'static str {
        "a"
    }
}

struct B;

impl Boba for B {
    fn supper(&self) -> &'static str {
        "b"
    }
}

trait Soba {}

impl Soba for B {}

/// One identity per type that takes part: its place in this list.
fn identity_of(id: TypeId) -> TypeIdentity {
    let known = [
        TypeId::of::<A>(),
        TypeId::of::<B>(),
        TypeId::of::<dyn Boba>(),
        TypeId::of::<dyn Soba>(),
    ];
    match known.iter().position(|other| *other == id) {
        Some(place) => place as TypeIdentity,
        None => TypeIdentity::MAX,
    }
}

const A_AS_BOBA: usize = 0x10;
const B_AS_BOBA: usize = 0x20;
const B_AS_SOBA: usize = 0x30;

/// The flat entry collection: one slot per implementation.
fn entries() -> Vec<Entry> {
    let a = identity_of(TypeId::of::<A>());
    let b = identity_of(TypeId::of::<B>());
    let boba = identity_of(TypeId::of::<dyn Boba>());
    let soba = identity_of(TypeId::of::<dyn Soba>());
    vec![
        Entry::new(Some(Descriptor::new(a, boba, A_AS_BOBA))),
        Entry::new(Some(Descriptor::new(b, soba, B_AS_SOBA))),
        Entry::new(Some(Descriptor::new(b, boba, B_AS_BOBA))),
    ]
}

/// The attach function that a registered implementation left behind, for
/// the type that the lookup found.
fn attached(source: &dyn Any, capability: TypeId) -> Option<usize> {
    let mut storage = None;
    let global = Global::singleton(&mut storage, &entries()).expect("the entries do not collide");
    let map = global.get(identity_of(capability));
    let descriptor = map.get(identity_of(source.type_id()))?;
    Some(descriptor.attach_vtable_fn())
}

impl Dyncast<dyn Any> for dyn Boba {
    fn dyncast_from(source: &dyn Any) -> Option<&Self> {
        match attached(source, TypeId::of::<dyn Boba>())? {
            A_AS_BOBA => source.downcast_ref::<A>().map(|a| a as &dyn Boba),
            B_AS_BOBA => source.downcast_ref::<B>().map(|b| b as &dyn Boba),
            _ => None,
        }
    }
}

impl Dyncast<dyn Any> for dyn Soba {
    fn dyncast_from(source: &dyn Any) -> Option<&Self> {
        match attached(source, TypeId::of::<dyn Soba>())? {
            B_AS_SOBA => source.downcast_ref::<B>().map(|b| b as &dyn Soba),
            _ => None,
        }
    }
}

#[test]
fn basic_boba() {
    let a = A;
    let b = B;

    let a = &a as &dyn Any;
    let b = &b as &dyn Any;

    assert!(a.dyncast_to::<dyn Boba>().is_some());
    assert_eq!(a.dyncast_to::<dyn Boba>().unwrap().supper(), "a");

    assert!(b.dyncast_to::<dyn Boba>().is_some());
    assert_eq!(b.dyncast_to::<dyn Boba>().unwrap().supper(), "b");

    assert!(a.dyncast_to::<dyn Soba>().is_none());
    assert!(b.dyncast_to::<dyn Soba>().is_some());
}
