use std::any::{Any, TypeId};

use dyncast::global::Global;
use dyncast::private::{Descriptor, Entry, TypeIdentity};
use dyncast::{Dyncast, DyncastExt};

trait BobaFoo {
    fn id(&self) -> &'static str {
        "boba::Foo"
    }
}

impl BobaFoo for () {}

trait SobaFoo {
    fn id(&self) -> &'static str {
        "soba::Foo"
    }
}

impl SobaFoo for () {}

/// One identity per type that takes part: its place in this list.
fn identity_of(id: TypeId) -> TypeIdentity {
    let known = [
        TypeId::of::<()>(),
        TypeId::of::<dyn BobaFoo>(),
        TypeId::of::<dyn SobaFoo>(),
    ];
    match known.iter().position(|other| *other == id) {
        Some(place) => place as TypeIdentity,
        None => TypeIdentity::MAX,
    }
}

const UNIT_AS_BOBA_FOO: usize = 0x10;
const UNIT_AS_SOBA_FOO: usize = 0x20;

/// The flat entry collection: both capabilities have one implementation,
/// by the same type.
fn entries() -> Vec<Entry> {
    let unit = identity_of(TypeId::of::<()>());
    let boba = identity_of(TypeId::of::<dyn BobaFoo>());
    let soba = identity_of(TypeId::of::<dyn SobaFoo>());
    vec![
        Entry::new(Some(Descriptor::new(unit, boba, UNIT_AS_BOBA_FOO))),
        Entry::new(Some(Descriptor::new(unit, soba, UNIT_AS_SOBA_FOO))),
    ]
}

fn attached(source: &dyn Any, capability: TypeId) -> Option<usize> {
    let global = Global::build(&entries()).expect("the entries do not collide");
    let map = global.get(identity_of(capability));
    let descriptor = map.get(identity_of(source.type_id()))?;
    Some(descriptor.attach_vtable_fn())
}

impl Dyncast<dyn Any> for dyn BobaFoo {
    fn dyncast_from(source: &dyn Any) -> Option<&Self> {
        match attached(source, TypeId::of::<dyn BobaFoo>())? {
            UNIT_AS_BOBA_FOO => source.downcast_ref::<()>().map(|unit| unit as &dyn BobaFoo),
            _ => None,
        }
    }
}

impl Dyncast<dyn Any> for dyn SobaFoo {
    fn dyncast_from(source: &dyn Any) -> Option<&Self> {
        match attached(source, TypeId::of::<dyn SobaFoo>())? {
            UNIT_AS_SOBA_FOO => source.downcast_ref::<()>().map(|unit| unit as &dyn SobaFoo),
            _ => None,
        }
    }
}

#[test]
fn check_trait_with_same_name() {
    let obj = &() as &dyn Any;
    assert_eq!(obj.dyncast_to::<dyn BobaFoo>().unwrap().id(), "boba::Foo");
    assert_eq!(obj.dyncast_to::<dyn SobaFoo>().unwrap().id(), "soba::Foo");
}
