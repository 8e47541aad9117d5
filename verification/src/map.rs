//! The registry of one capability: from the key of a registered
//! implementation to what was registered, built once from the capability's
//! entry collection and never changed afterwards.

use crate::once::Once;
use crate::private::Descriptor;
use crate::private::Entry;
use crate::private::Key;
use crate::private::PartialDescriptor;
use crate::private::SecondaryIdentity;
use crate::private::TypeIdentity;
use std::collections::HashMap;
use vstd::prelude::*;

verus! {

/// A finite map from keys to what was registered under them.
///
/// Keys without a parameterization and keys with one are kept apart, each
/// kind in a hash map keyed by a plain integer.
pub struct Registry {
    plain: HashMap<TypeIdentity, PartialDescriptor>,
    refined: HashMap<u128, PartialDescriptor>,
}

/// The integer that stands for a concrete type under a parameterization:
/// the type in the upper half, the parameterization in the lower half.
spec fn spec_pair_code(type_id: TypeIdentity, secondary: SecondaryIdentity) -> u128 {
    (type_id * 0x1_0000_0000_0000_0000 + secondary) as u128
}

#[verifier::when_used_as_spec(spec_pair_code)]
fn pair_code(type_id: TypeIdentity, secondary: SecondaryIdentity) -> (code: u128)
    ensures
        code == spec_pair_code(type_id, secondary),
{
    type_id as u128 * 0x1_0000_0000_0000_0000 + secondary as u128
}

impl View for Registry {
    type V = Map<Key, PartialDescriptor>;

    closed spec fn view(&self) -> Map<Key, PartialDescriptor> {
        Map::new(|key: Key| self.holds(key), |key: Key| self.held(key))
    }
}

impl Registry {
    spec fn holds(&self, key: Key) -> bool {
        match key.secondary {
            None => self.plain@.contains_key(key.type_id),
            Some(secondary) => self.refined@.contains_key(pair_code(key.type_id, secondary)),
        }
    }

    spec fn held(&self, key: Key) -> PartialDescriptor {
        match key.secondary {
            None => self.plain@[key.type_id],
            Some(secondary) => self.refined@[pair_code(key.type_id, secondary)],
        }
    }

    /// The registry without any key.
    pub fn new() -> (registry: Self)
        ensures
            registry@ == Map::<Key, PartialDescriptor>::empty(),
    {
        let registry = Self { plain: HashMap::new(), refined: HashMap::new() };
        assert(registry@ =~= Map::<Key, PartialDescriptor>::empty());
        registry
    }

    /// Whether the registry holds no key.
    pub fn is_empty(&self) -> (res: bool)
        ensures
            res == (self@ == Map::<Key, PartialDescriptor>::empty()),
    {
        let res = self.plain.is_empty() && self.refined.is_empty();
        proof {
            if res {
                assert(self.plain@.dom() =~= Set::empty());
                assert(self.refined@.dom() =~= Set::empty());
                assert(self@ =~= Map::<Key, PartialDescriptor>::empty());
            } else if self.plain@.len() != 0 {
                let type_id = self.plain@.dom().choose();
                assert(self.holds(Key { type_id, secondary: None }));
                assert(self@.contains_key(Key { type_id, secondary: None }));
            } else {
                let code = self.refined@.dom().choose();
                assert(self.refined@.contains_key(code));
                let type_id = (code / 0x1_0000_0000_0000_0000) as u64;
                let secondary = (code % 0x1_0000_0000_0000_0000) as u64;
                assert(pair_code(type_id, secondary) == code);
                assert(self.holds(Key { type_id, secondary: Some(secondary) }));
                assert(self@.contains_key(Key { type_id, secondary: Some(secondary) }));
            }
        }
        res
    }

    /// What is registered under `key`, if anything is.
    pub fn get(&self, key: Key) -> (res: Option<&PartialDescriptor>)
        ensures
            match res {
                Some(partial) => self@.contains_key(key) && *partial == self@[key],
                None => !self@.contains_key(key),
            },
    {
        match key.secondary {
            None => self.plain.get(&key.type_id),
            Some(secondary) => {
                let code = pair_code(key.type_id, secondary);
                self.refined.get(&code)
            },
        }
    }

    /// Whether something is registered under `key`.
    pub fn contains_key(&self, key: Key) -> (res: bool)
        ensures
            res == self@.contains_key(key),
    {
        self.get(key).is_some()
    }

    /// Registers `partial` under `key` unless the key is taken. Says whether
    /// it did; a registry that holds the key already is left as it is.
    pub fn register(&mut self, key: Key, partial: PartialDescriptor) -> (fresh: bool)
        ensures
            fresh == !old(self)@.contains_key(key),
            final(self)@ == if fresh {
                old(self)@.insert(key, partial)
            } else {
                old(self)@
            },
    {
        if self.contains_key(key) {
            return false;
        }
        match key.secondary {
            None => {
                self.plain.insert(key.type_id, partial);
            },
            Some(secondary) => {
                self.refined.insert(pair_code(key.type_id, secondary), partial);
            },
        }
        assert(self@ =~= old(self)@.insert(key, partial));
        true
    }
}

/// Why a registry could not be built: two registration groups that should
/// have been apart ended up in one entry collection.
#[derive(Clone, Copy, Debug, PartialEq, Eq)]
pub enum Collision {
    /// A placeholder follows an earlier placeholder.
    Placeholder,
    /// A descriptor of the capability `dyn_trait_id` has the key of another
    /// descriptor of that capability.
    Key { dyn_trait_id: TypeIdentity, key: Key },
}

/// Whether slot `i` is a placeholder.
pub open spec fn placeholder_at(entries: Seq<Entry>, i: int) -> bool {
    0 <= i < entries.len() && entries[i].0 is None
}

/// Whether slot `i` yields a descriptor with the key `key`.
pub open spec fn provides(entries: Seq<Entry>, i: int, key: Key) -> bool {
    0 <= i < entries.len() && entries[i].0 is Some && entries[i].0->0.key() == key
}

/// Whether some slot yields a descriptor with the key `key`.
pub open spec fn registered(entries: Seq<Entry>, key: Key) -> bool {
    exists|i: int| provides(entries, i, key)
}

/// Whether slot `i` collides with an earlier slot: both are placeholders, or
/// both yield descriptors with one key.
pub open spec fn clashes_at(entries: Seq<Entry>, i: int) -> bool {
    ||| placeholder_at(entries, i) && exists|j: int| j < i && placeholder_at(entries, j)
    ||| 0 <= i < entries.len() && entries[i].0 is Some && exists|j: int|
        j < i && provides(entries, j, entries[i].0->0.key())
}

/// Whether the collection holds a collision.
pub open spec fn collides(entries: Seq<Entry>) -> bool {
    exists|i: int| clashes_at(entries, i)
}

/// The first slot that collides with an earlier one.
pub open spec fn first_clash(entries: Seq<Entry>) -> int {
    choose|i: int| clashes_at(entries, i) && forall|j: int| j < i ==> !clashes_at(entries, j)
}

/// The collision that slot `i` stands for.
pub open spec fn collision_at(entries: Seq<Entry>, i: int) -> Collision {
    match entries[i].0 {
        None => Collision::Placeholder,
        Some(descriptor) => Collision::Key {
            dyn_trait_id: descriptor.dyn_trait_id,
            key: descriptor.key(),
        },
    }
}

/// The registry of a collection without collisions: under each key that a
/// slot provides, what that slot's descriptor registers.
pub open spec fn registry_of(entries: Seq<Entry>) -> Map<Key, PartialDescriptor> {
    Map::new(
        |key: Key| registered(entries, key),
        |key: Key| entries[choose|i: int| provides(entries, i, key)].0->0.partial(),
    )
}

/// Builds the registry of one capability from its entry collection.
///
/// A slot is a placeholder or yields one descriptor. One placeholder is
/// tolerated. A second placeholder, or a descriptor whose key an earlier
/// descriptor has, is a collision: the build stops at the first slot that
/// collides and reports it.
pub fn build(entries: &Vec<Entry>) -> (res: Result<Registry, Collision>)
    ensures
        match res {
            Ok(registry) => !collides(entries@) && registry@ == registry_of(entries@),
            Err(collision) => collides(entries@) && collision == collision_at(
                entries@,
                first_clash(entries@),
            ),
        },
{
    let mut registry = Registry::new();
    let mut placeholder_seen = false;
    let mut i: usize = 0;
    while i < entries.len()
        invariant
            i <= entries.len(),
            forall|j: int| j < i ==> !clashes_at(entries@, j),
            placeholder_seen <==> exists|j: int| j < i && placeholder_at(entries@, j),
            forall|key: Key|
                registry@.contains_key(key) <==> exists|j: int| j < i && provides(entries@, j, key),
            forall|j: int|
                0 <= j < i && entries@[j].0 is Some ==> registry@[entries@[j].0->0.key()]
                    == entries@[j].0->0.partial(),
        decreases entries.len() - i,
    {
        let ghost before = registry@;
        match entries[i].0 {
            None => {
                if placeholder_seen {
                    proof {
                        lemma_first_clash(entries@, i as int);
                    }
                    return Err(Collision::Placeholder);
                }
                placeholder_seen = true;
                assert(placeholder_at(entries@, i as int));
            },
            Some(descriptor) => {
                let key = descriptor.key();
                if !registry.register(key, descriptor.partial()) {
                    proof {
                        lemma_first_clash(entries@, i as int);
                    }
                    return Err(Collision::Key { dyn_trait_id: descriptor.dyn_trait_id, key });
                }
                assert(provides(entries@, i as int, key));
                assert forall|j: int| 0 <= j < i && entries@[j].0 is Some implies registry@[entries@[j].0->0.key()]
                    == entries@[j].0->0.partial() by {
                    assert(provides(entries@, j, entries@[j].0->0.key()));
                }
            },
        }
        i += 1;
    }
    proof {
        assert forall|key: Key| registry@.contains_key(key) <==> registered(entries@, key) by {
            if registered(entries@, key) {
                let j = choose|j: int| provides(entries@, j, key);
                assert(j < i && provides(entries@, j, key));
            }
        }
        assert(registry@ =~= registry_of(entries@));
    }
    Ok(registry)
}

/// A slot that collides while no earlier slot does is the first collision.
proof fn lemma_first_clash(entries: Seq<Entry>, i: int)
    requires
        clashes_at(entries, i),
        forall|j: int| j < i ==> !clashes_at(entries, j),
    ensures
        collides(entries),
        first_clash(entries) == i,
{
    let first = first_clash(entries);
    assert(clashes_at(entries, first) && forall|j: int| j < first ==> !clashes_at(entries, j));
}


/// The registry of one capability, built on first use.
pub struct LazyTypeMap {
    once: Once,
    inner: Option<Registry>,
}

impl View for LazyTypeMap {
    type V = Option<Map<Key, PartialDescriptor>>;

    /// The registry, once it has been built.
    closed spec fn view(&self) -> Option<Map<Key, PartialDescriptor>> {
        match self.inner {
            Some(registry) => Some(registry@),
            None => None,
        }
    }
}

impl LazyTypeMap {
    /// The registry is there exactly when the build has succeeded.
    #[verifier::type_invariant]
    spec fn filled_when_done(self) -> bool {
        self.once.completed() <==> self.inner is Some
    }

    /// A map whose registry has not been built.
    pub fn new() -> (map: Self)
        ensures
            map@ is None,
    {
        Self { once: Once::new(), inner: None }
    }

    /// The registry of the capability whose entry collection is `entries`.
    ///
    /// The first call builds it, and a call after a failed build builds it
    /// again. Once a build has succeeded, every call hands out that registry
    /// and looks at no entry.
    pub fn get_or_init(&mut self, entries: &Vec<Entry>) -> (res: Result<
        InitializedTypeMap<'_>,
        Collision,
    >)
        ensures
            match old(self)@ {
                Some(map) => final(self)@ == old(self)@ && res is Ok && res->Ok_0@ == map
                    && res->Ok_0.0 is Some,
                None => match res {
                    Ok(initialized) => {
                        &&& !collides(entries@)
                        &&& initialized@ == registry_of(entries@)
                        &&& initialized.0 is Some
                        &&& final(self)@ == Some(registry_of(entries@))
                    },
                    Err(collision) => {
                        &&& collides(entries@)
                        &&& collision == collision_at(entries@, first_clash(entries@))
                        &&& final(self)@ is None
                    },
                },
            },
    {
        // The map is taken apart while the initializer runs, and put
        // together again with what the run left.
        let mut taken = LazyTypeMap::new();
        std::mem::swap(self, &mut taken);
        proof {
            use_type_invariant(&taken);
        }
        let LazyTypeMap { mut once, inner } = taken;
        let initializer = || -> (built: Result<Registry, Collision>)
            ensures
                match built {
                    Ok(registry) => !collides(entries@) && registry@ == registry_of(entries@),
                    Err(collision) => collides(entries@) && collision == collision_at(
                        entries@,
                        first_clash(entries@),
                    ),
                },
            { build(entries) };
        match once.call_once(initializer) {
            Ok(Some(registry)) => {
                *self = LazyTypeMap { once, inner: Some(registry) };
            },
            Ok(None) => {
                *self = LazyTypeMap { once, inner };
            },
            Err(collision) => {
                *self = LazyTypeMap { once, inner };
                return Err(collision);
            },
        }
        Ok(InitializedTypeMap(self.inner.as_ref()))
    }
}

/// A registry that is ready for lookups, or the absence of one where a
/// capability has no registry at all.
pub struct InitializedTypeMap<'a>(pub Option<&'a Registry>);

impl<'a> View for InitializedTypeMap<'a> {
    type V = Map<Key, PartialDescriptor>;

    open spec fn view(&self) -> Map<Key, PartialDescriptor> {
        match self.0 {
            Some(registry) => registry@,
            None => Map::empty(),
        }
    }
}

impl<'a> InitializedTypeMap<'a> {
    /// What the concrete type `self_type_id` registered for a capability
    /// without parameters. `None` says that the type does not implement the
    /// capability.
    #[inline]
    pub fn get(&self, self_type_id: TypeIdentity) -> (res: Option<&'a PartialDescriptor>)
        ensures
            match res {
                Some(partial) => self@.contains_key(Key { type_id: self_type_id, secondary: None })
                    && *partial == self@[Key { type_id: self_type_id, secondary: None }],
                None => !self@.contains_key(Key { type_id: self_type_id, secondary: None }),
            },
    {
        self.lookup(Key { type_id: self_type_id, secondary: None })
    }

    /// What was registered under `key`. `None` says that the type does not
    /// implement the capability in that parameterization.
    pub fn lookup(&self, key: Key) -> (res: Option<&'a PartialDescriptor>)
        ensures
            match res {
                Some(partial) => self@.contains_key(key) && *partial == self@[key],
                None => !self@.contains_key(key),
            },
    {
        match self.0 {
            Some(registry) => registry.get(key),
            None => None,
        }
    }
}


/// In a collection without collisions at most one slot provides a key.
pub proof fn lemma_one_provider(entries: Seq<Entry>, i: int, j: int, key: Key)
    requires
        !collides(entries),
        provides(entries, i, key),
        provides(entries, j, key),
    ensures
        i == j,
{
    if i < j {
        assert(clashes_at(entries, j));
    }
    if j < i {
        assert(clashes_at(entries, i));
    }
}

/// Lookup is total: in the registry of a collection without collisions a
/// key is found exactly when a slot provides it, and what is found is what
/// that slot's descriptor registers.
pub proof fn lemma_lookup_totality(entries: Seq<Entry>, key: Key)
    requires
        !collides(entries),
    ensures
        registry_of(entries).contains_key(key) <==> registered(entries, key),
        forall|i: int|
            provides(entries, i, key) ==> registry_of(entries)[key] == entries[i].0->0.partial(),
{
    assert forall|i: int| provides(entries, i, key) implies registry_of(entries)[key]
        == entries[i].0->0.partial() by {
        let chosen = choose|j: int| provides(entries, j, key);
        lemma_one_provider(entries, i, chosen, key);
    }
}

/// A registry is a function of its entry collection: whoever builds it, and
/// whenever, every lookup has one answer.
pub proof fn lemma_lookups_agree(
    entries: Seq<Entry>,
    first: InitializedTypeMap,
    second: InitializedTypeMap,
    key: Key,
)
    requires
        first@ == registry_of(entries),
        second@ == registry_of(entries),
    ensures
        first@.contains_key(key) == second@.contains_key(key),
        first@.contains_key(key) ==> first@[key] == second@[key],
{
}

/// Two descriptors with one key are fatal, wherever they stand: the build
/// of a collection that holds them fails.
pub proof fn lemma_duplicate_key_collides(entries: Seq<Entry>, i: int, j: int)
    requires
        0 <= i < j < entries.len(),
        entries[i].0 is Some,
        entries[j].0 is Some,
        entries[i].0->0.key() == entries[j].0->0.key(),
    ensures
        collides(entries),
{
    assert(provides(entries, i, entries[j].0->0.key()));
    assert(clashes_at(entries, j));
}

/// Two placeholders are fatal as well.
pub proof fn lemma_second_placeholder_collides(entries: Seq<Entry>, i: int, j: int)
    requires
        0 <= i < j < entries.len(),
        entries[i].0 is None,
        entries[j].0 is None,
    ensures
        collides(entries),
{
    assert(placeholder_at(entries, i));
    assert(clashes_at(entries, j));
}

/// A collection collides only through two placeholders or two descriptors
/// with one key.
pub proof fn lemma_collision_has_a_cause(entries: Seq<Entry>)
    requires
        collides(entries),
    ensures
        exists|i: int, j: int|
            0 <= i < j < entries.len() && #[trigger] same_slot_kind(entries, i, j),
{
    let j = choose|j: int| clashes_at(entries, j);
    if placeholder_at(entries, j) && exists|i: int| i < j && placeholder_at(entries, i) {
        let i = choose|i: int| i < j && placeholder_at(entries, i);
        assert(same_slot_kind(entries, i, j));
    } else {
        let i = choose|i: int| i < j && provides(entries, i, entries[j].0->0.key());
        assert(same_slot_kind(entries, i, j));
    }
}

/// Whether the slots `i` and `j` are both placeholders, or yield
/// descriptors with one key.
pub open spec fn same_slot_kind(entries: Seq<Entry>, i: int, j: int) -> bool {
    match (entries[i].0, entries[j].0) {
        (None, None) => true,
        (Some(first), Some(second)) => first.key() == second.key(),
        _ => false,
    }
}

/// Parameterizations stay apart: descriptors of one concrete type under two
/// parameterizations have two keys, and a lookup under one of them yields
/// what was registered under that one, never what was registered under the
/// other.
pub proof fn lemma_parameterizations_apart(entries: Seq<Entry>, i: int, j: int)
    requires
        !collides(entries),
        0 <= i < entries.len(),
        0 <= j < entries.len(),
        entries[i].0 is Some,
        entries[j].0 is Some,
        entries[i].0->0.self_type_id == entries[j].0->0.self_type_id,
        entries[i].0->0.secondary_id != entries[j].0->0.secondary_id,
    ensures
        entries[i].0->0.key() != entries[j].0->0.key(),
        registry_of(entries)[entries[i].0->0.key()] == entries[i].0->0.partial(),
        registry_of(entries)[entries[j].0->0.key()] == entries[j].0->0.partial(),
{
    assert(provides(entries, i, entries[i].0->0.key()));
    assert(provides(entries, j, entries[j].0->0.key()));
    lemma_lookup_totality(entries, entries[i].0->0.key());
    lemma_lookup_totality(entries, entries[j].0->0.key());
}

/// A capability without implementations has an empty registry: a
/// collection that yields no descriptor and holds at most one placeholder
/// builds, and no key is found in what it builds.
pub proof fn lemma_empty_capability(entries: Seq<Entry>)
    requires
        entries.len() <= 1,
        forall|i: int| 0 <= i < entries.len() ==> entries[i].0 is None,
    ensures
        !collides(entries),
        registry_of(entries) == Map::<Key, PartialDescriptor>::empty(),
{
    assert forall|i: int| !clashes_at(entries, i) by {
        if clashes_at(entries, i) {
            let j = choose|j: int| j < i && placeholder_at(entries, j);
        }
    }
    assert(registry_of(entries) =~= Map::<Key, PartialDescriptor>::empty());
}

} // verus!
