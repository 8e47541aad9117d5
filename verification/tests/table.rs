use dyncast::global::{descriptors, Global};
use dyncast::map::Collision;
use dyncast::private::{Descriptor, Entry, Key};

fn slots(descriptors: &[Descriptor]) -> Vec<Entry> {
    descriptors
        .iter()
        .map(|descriptor| Entry::new(Some(*descriptor)))
        .collect()
}

#[test]
fn slots_resolve_in_order() {
    let all = [
        Descriptor::new(3, 7, 30),
        Descriptor::new(1, 8, 10),
        Descriptor::parameterized(2, 7, 5, 20),
    ];
    assert_eq!(descriptors(&slots(&all)), all.to_vec());
    assert_eq!(descriptors(&Vec::new()), Vec::new());
}

#[test]
fn empty_table() {
    let global = Global::build(&Vec::new()).unwrap();
    assert!(global.dyn_trait_map.is_empty());
    let map = global.get(7);
    assert!(map.0.is_none());
    assert!(map.get(1).is_none());
}

#[test]
fn table_groups_by_capability() {
    // Runs of one capability are apart in the collection: without the sort
    // the later run would replace the earlier one.
    let global = Global::build(&slots(&[
        Descriptor::new(1, 8, 0x10),
        Descriptor::new(1, 7, 0x20),
        Descriptor::new(2, 8, 0x30),
        Descriptor::new(3, 9, 0x40),
        Descriptor::new(2, 7, 0x50),
        Descriptor::new(3, 8, 0x60),
    ]))
    .unwrap();
    assert_eq!(global.dyn_trait_map.len(), 3);

    let seven = global.get(7);
    assert_eq!(seven.get(1).unwrap().attach_vtable_fn(), 0x20);
    assert_eq!(seven.get(2).unwrap().attach_vtable_fn(), 0x50);
    assert!(seven.get(3).is_none());

    let eight = global.get(8);
    assert_eq!(eight.get(1).unwrap().attach_vtable_fn(), 0x10);
    assert_eq!(eight.get(2).unwrap().attach_vtable_fn(), 0x30);
    assert_eq!(eight.get(3).unwrap().attach_vtable_fn(), 0x60);

    let nine = global.get(9);
    assert!(nine.get(1).is_none());
    assert_eq!(nine.get(3).unwrap().attach_vtable_fn(), 0x40);

    let ten = global.get(10);
    assert!(ten.0.is_none());
    assert!(ten.get(1).is_none());
}

#[test]
fn table_keeps_parameterizations_apart() {
    let global = Global::build(&slots(&[
        Descriptor::parameterized(1, 7, 100, 0x10),
        Descriptor::parameterized(1, 7, 200, 0x20),
        Descriptor::parameterized(1, 8, 100, 0x30),
    ]))
    .unwrap();
    let seven = global.get(7);
    assert_eq!(
        seven.lookup(Key::parameterized(1, 100)).unwrap().attach_vtable_fn(),
        0x10
    );
    assert_eq!(
        seven.lookup(Key::parameterized(1, 200)).unwrap().attach_vtable_fn(),
        0x20
    );
    assert!(seven.lookup(Key::plain(1)).is_none());
    assert_eq!(
        global
            .get(8)
            .lookup(Key::parameterized(1, 100))
            .unwrap()
            .attach_vtable_fn(),
        0x30
    );
}

#[test]
fn same_key_under_two_capabilities_is_no_conflict() {
    let global = Global::build(&slots(&[
        Descriptor::new(1, 7, 0x10),
        Descriptor::new(1, 8, 0x20),
    ]))
    .unwrap();
    assert_eq!(global.get(7).get(1).unwrap().attach_vtable_fn(), 0x10);
    assert_eq!(global.get(8).get(1).unwrap().attach_vtable_fn(), 0x20);
}

#[test]
fn same_key_under_one_capability_is_a_collision() {
    let res = Global::build(&slots(&[
        Descriptor::new(1, 8, 0x10),
        Descriptor::new(1, 7, 0x20),
        Descriptor::new(2, 7, 0x30),
        Descriptor::new(1, 8, 0x40),
    ]));
    assert_eq!(
        res.err(),
        Some(Collision::Key {
            dyn_trait_id: 8,
            key: Key::plain(1)
        })
    );
}

#[test]
fn registering_one_implementation_twice_is_a_collision() {
    let descriptor = Descriptor::new(1, 7, 0x10);
    let res = Global::build(&slots(&[descriptor, Descriptor::new(2, 7, 0x20), descriptor]));
    assert_eq!(
        res.err(),
        Some(Collision::Key {
            dyn_trait_id: 7,
            key: Key::plain(1)
        })
    );
}

#[test]
fn singleton_builds_once() {
    let first = slots(&[Descriptor::new(1, 7, 0x10)]);
    let second = slots(&[Descriptor::new(2, 7, 0x20)]);
    let mut storage = None;
    {
        let global = Global::singleton(&mut storage, &first).unwrap();
        assert_eq!(global.get(7).get(1).unwrap().attach_vtable_fn(), 0x10);
    }
    assert!(storage.is_some());
    {
        let global = Global::singleton(&mut storage, &second).unwrap();
        assert_eq!(global.get(7).get(1).unwrap().attach_vtable_fn(), 0x10);
        assert!(global.get(7).get(2).is_none());
    }
}

#[test]
fn singleton_keeps_nothing_of_a_failed_build() {
    let colliding = slots(&[Descriptor::new(1, 7, 0x10), Descriptor::new(1, 7, 0x20)]);
    let sound = slots(&[Descriptor::new(1, 7, 0x30)]);
    let mut storage = None;
    assert!(Global::singleton(&mut storage, &colliding).is_err());
    assert!(storage.is_none());
    let global = Global::singleton(&mut storage, &sound).unwrap();
    assert_eq!(global.get(7).get(1).unwrap().attach_vtable_fn(), 0x30);
}
