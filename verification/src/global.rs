//! The table of all capabilities, for entry collections that are not set
//! apart by capability: one flat collection is sorted by capability and
//! gathered, run by run, into one registry per capability.

use crate::map::Collision;
use crate::map::InitializedTypeMap;
use crate::map::Registry;
use crate::private::Descriptor;
use crate::private::Entry;
use crate::private::Key;
use crate::private::PartialDescriptor;
use crate::private::TypeIdentity;
use std::collections::HashMap;
use vstd::multiset::Multiset;
use vstd::prelude::*;

verus! {

/// The identity of a capability.
pub type DynTraitTypeId = TypeIdentity;

/// The identity of a concrete type that implements capabilities.
pub type SelfTypeId = TypeIdentity;

/// One registry per capability that has an implementation.
pub struct Global {
    pub dyn_trait_map: HashMap<DynTraitTypeId, Registry>,
}

impl View for Global {
    type V = Map<DynTraitTypeId, Map<Key, PartialDescriptor>>;

    open spec fn view(&self) -> Map<DynTraitTypeId, Map<Key, PartialDescriptor>> {
        table_view(self.dyn_trait_map@)
    }
}

/// The table that a map of registries stands for.
pub open spec fn table_view(registries: Map<DynTraitTypeId, Registry>) -> Map<
    DynTraitTypeId,
    Map<Key, PartialDescriptor>,
> {
    Map::new(
        |capability: DynTraitTypeId| registries.contains_key(capability),
        |capability: DynTraitTypeId| registries[capability]@,
    )
}

/// Whether every slot yields a descriptor.
pub open spec fn all_resolved(entries: Seq<Entry>) -> bool {
    forall|i: int| 0 <= i < entries.len() ==> (#[trigger] entries[i]).0 is Some
}

/// The descriptors that the slots yield, in the order of the slots.
pub open spec fn resolved(entries: Seq<Entry>) -> Seq<Descriptor> {
    Seq::new(entries.len(), |i: int| entries[i].0->0)
}

/// Whether descriptor `i` registers `key` for `capability`.
pub open spec fn implements(
    descriptors: Seq<Descriptor>,
    i: int,
    capability: DynTraitTypeId,
    key: Key,
) -> bool {
    0 <= i < descriptors.len() && descriptors[i].dyn_trait_id == capability && descriptors[i].key()
        == key
}

/// Whether descriptor `i` is one of `capability`.
pub open spec fn declares(descriptors: Seq<Descriptor>, i: int, capability: DynTraitTypeId) -> bool {
    0 <= i < descriptors.len() && descriptors[i].dyn_trait_id == capability
}

/// Whether some descriptor registers `key` for `capability`.
pub open spec fn registers(
    descriptors: Seq<Descriptor>,
    capability: DynTraitTypeId,
    key: Key,
) -> bool {
    exists|i: int| implements(descriptors, i, capability, key)
}

/// Whether some descriptor is one of `capability`.
pub open spec fn offers(descriptors: Seq<Descriptor>, capability: DynTraitTypeId) -> bool {
    exists|i: int| declares(descriptors, i, capability)
}

/// Whether two descriptors register one key for one capability.
pub open spec fn conflicts(descriptors: Seq<Descriptor>) -> bool {
    exists|i: int, j: int| conflict_at(descriptors, i, j)
}

/// Whether the descriptors `i` and `j`, `i` before `j`, register one key for
/// one capability.
pub open spec fn conflict_at(descriptors: Seq<Descriptor>, i: int, j: int) -> bool {
    &&& 0 <= i < j < descriptors.len()
    &&& descriptors[i].dyn_trait_id == descriptors[j].dyn_trait_id
    &&& descriptors[i].key() == descriptors[j].key()
}

/// The table of descriptors without conflicts: for each capability that
/// has a descriptor, under each key that one of them registers, what that
/// descriptor registers.
pub open spec fn table_of(descriptors: Seq<Descriptor>) -> Map<
    DynTraitTypeId,
    Map<Key, PartialDescriptor>,
> {
    Map::new(
        |capability: DynTraitTypeId| offers(descriptors, capability),
        |capability: DynTraitTypeId| group_of(descriptors, capability),
    )
}

/// The registry of one capability in the table of `descriptors`.
pub open spec fn group_of(descriptors: Seq<Descriptor>, capability: DynTraitTypeId) -> Map<
    Key,
    PartialDescriptor,
> {
    Map::new(
        |key: Key| registers(descriptors, capability, key),
        |key: Key|
            descriptors[choose|i: int| implements(descriptors, i, capability, key)].partial(),
    )
}

/// Whether the descriptors stand in ascending order of capability.
spec fn sorted_by_capability(descriptors: Seq<Descriptor>) -> bool {
    forall|i: int, j: int|
        0 <= i <= j < descriptors.len() ==> descriptors[i].dyn_trait_id
            <= descriptors[j].dyn_trait_id
}

/// Resolves every slot of a flat entry collection. A flat collection holds
/// no placeholder.
pub fn descriptors(entries: &Vec<Entry>) -> (resolved: Vec<Descriptor>)
    requires
        all_resolved(entries@),
    ensures
        resolved@ == self::resolved(entries@),
{
    let mut resolved: Vec<Descriptor> = Vec::new();
    let mut curr: usize = 0;
    while curr < entries.len()
        invariant
            curr <= entries.len(),
            all_resolved(entries@),
            resolved@.len() == curr,
            forall|i: int| 0 <= i < curr ==> resolved@[i] == entries@[i].0->0,
        decreases entries.len() - curr,
    {
        match entries[curr].0 {
            Some(descriptor) => {
                resolved.push(descriptor);
            },
            None => {
                assert(entries@[curr as int].0 is Some);
            },
        }
        curr += 1;
    }
    assert(resolved@ =~= self::resolved(entries@));
    resolved
}

/// The sort of std's slices by a key, `sort_unstable_by_key`, with the
/// capability as the key. It is believed to rearrange the descriptors into
/// ascending order of capability, and to say nothing of the order among
/// descriptors of one capability.
#[verifier::external_body]
fn sort_by_capability(descriptors: &mut Vec<Descriptor>)
    ensures
        final(descriptors)@.to_multiset() == old(descriptors)@.to_multiset(),
        sorted_by_capability(final(descriptors)@),
{
    descriptors.sort_unstable_by_key(|descriptor| descriptor.dyn_trait_id);
}


impl Global {
    /// The table of all capabilities with their implementations, whichever
    /// call builds it: the first call builds the table from the flat entry
    /// collection and keeps it in `storage`, and every later call hands out
    /// the table that is kept there. A failed build keeps nothing.
    pub fn singleton<'a>(storage: &'a mut Option<Global>, entries: &Vec<Entry>) -> (res: Result<
        &'a Global,
        Collision,
    >)
        requires
            *old(storage) is None ==> all_resolved(entries@),
        ensures
            match *old(storage) {
                Some(global) => *final(storage) == *old(storage) && res == Ok::<&Global, Collision>(
                    &global,
                ),
                None => match res {
                    Ok(global) => {
                        &&& !conflicts(resolved(entries@))
                        &&& global@ == table_of(resolved(entries@))
                        &&& *final(storage) == Some(*global)
                    },
                    Err(collision) => {
                        &&& *final(storage) is None
                        &&& collision matches Collision::Key { dyn_trait_id, key }
                        &&& exists|i: int, j: int|
                            conflict_at(resolved(entries@), i, j) && implements(
                                resolved(entries@),
                                j,
                                dyn_trait_id,
                                key,
                            )
                    },
                },
            },
    {
        if storage.is_none() {
            match Self::build(entries) {
                Ok(global) => {
                    *storage = Some(global);
                },
                Err(collision) => {
                    return Err(collision);
                },
            }
        }
        Ok(storage.as_ref().unwrap())
    }

    /// Builds the table from a flat entry collection: resolves the slots,
    /// sorts the descriptors by capability and gathers each run into the
    /// registry of its capability. Two descriptors that register one key for
    /// one capability are a collision, and the build fails on it.
    pub fn build(entries: &Vec<Entry>) -> (res: Result<Self, Collision>)
        requires
            all_resolved(entries@),
        ensures
            match res {
                Ok(global) => !conflicts(resolved(entries@)) && global@ == table_of(
                    resolved(entries@),
                ),
                Err(collision) => collision matches Collision::Key { dyn_trait_id, key } && exists|
                    i: int,
                    j: int,
                |
                    conflict_at(resolved(entries@), i, j) && implements(
                        resolved(entries@),
                        j,
                        dyn_trait_id,
                        key,
                    ),
            },
    {
        let mut descriptors = descriptors(entries);
        sort_by_capability(&mut descriptors);
        match group_and_collect(&descriptors) {
            Ok(dyn_trait_map) => {
                proof {
                    if conflicts(resolved(entries@)) {
                        let (i, j) = choose|i: int, j: int|
                            conflict_at(resolved(entries@), i, j);
                        let second = resolved(entries@)[j];
                        assert(implements(
                            resolved(entries@),
                            j,
                            second.dyn_trait_id,
                            second.key(),
                        ));
                        lemma_conflict_moves(
                            resolved(entries@),
                            descriptors@,
                            second.dyn_trait_id,
                            second.key(),
                        );
                    }
                    lemma_table_moves(resolved(entries@), descriptors@);
                }
                Ok(Self { dyn_trait_map })
            },
            Err(collision) => {
                proof {
                    match collision {
                        Collision::Key { dyn_trait_id, key } => {
                            lemma_conflict_moves(
                                descriptors@,
                                resolved(entries@),
                                dyn_trait_id,
                                key,
                            );
                        },
                        Collision::Placeholder => {},
                    }
                }
                Err(collision)
            },
        }
    }

    /// The registry of the capability `dyn_trait_id`, or none at all where
    /// the capability has no implementation.
    pub fn get(&self, dyn_trait_id: DynTraitTypeId) -> (map: InitializedTypeMap<'_>)
        ensures
            map.0 is Some <==> self@.contains_key(dyn_trait_id),
            map@ == if self@.contains_key(dyn_trait_id) {
                self@[dyn_trait_id]
            } else {
                Map::empty()
            },
    {
        InitializedTypeMap(self.dyn_trait_map.get(&dyn_trait_id))
    }
}

/// Gathers descriptors that stand in ascending order of capability into one
/// registry per capability, in a single pass: each run of one capability
/// fills one registry. Two descriptors of one capability with one key are a
/// collision.
fn group_and_collect(descriptors: &Vec<Descriptor>) -> (res: Result<
    HashMap<DynTraitTypeId, Registry>,
    Collision,
>)
    requires
        sorted_by_capability(descriptors@),
    ensures
        match res {
            Ok(map) => !conflicts(descriptors@) && table_view(map@) == table_of(descriptors@),
            Err(collision) => collision matches Collision::Key { dyn_trait_id, key } && exists|
                i: int,
                j: int,
            |
                conflict_at(descriptors@, i, j) && implements(descriptors@, j, dyn_trait_id, key),
        },
{
    let mut map: HashMap<DynTraitTypeId, Registry> = HashMap::new();
    let mut curr_group: Option<(DynTraitTypeId, Registry)> = None;
    let mut n: usize = 0;
    while n < descriptors.len()
        invariant
            n <= descriptors.len(),
            sorted_by_capability(descriptors@),
            forall|i: int, j: int| j < n ==> !conflict_at(descriptors@, i, j),
            curr_group is None <==> n == 0,
            curr_group matches Some((capability, registry)) ==> {
                &&& capability == descriptors@[n - 1].dyn_trait_id
                &&& !map@.contains_key(capability)
                &&& gathered(descriptors@, n as int, capability, registry@)
            },
            settled(descriptors@, n as int, map@),
            forall|i: int|
                0 <= i < n ==> map@.contains_key(#[trigger] descriptors@[i].dyn_trait_id) || (
                curr_group matches Some((capability, _)) && capability
                    == descriptors@[i].dyn_trait_id),
        decreases descriptors.len() - n,
    {
        let item = descriptors[n];
        let group_key = item.dyn_trait_id;
        let (curr_group_key, mut curr_group_entries) = match curr_group {
            Some((capability, registry)) => {
                if capability != group_key {
                    proof {
                        lemma_run_is_over(descriptors@, n as int);
                        assert(declares(descriptors@, n - 1, capability));
                    }
                    map.insert(capability, registry);
                    (group_key, Registry::new())
                } else {
                    (capability, registry)
                }
            },
            None => (group_key, Registry::new()),
        };
        let ghost before = curr_group_entries@;
        proof {
            if map@.contains_key(group_key) {
                let i = choose|i: int| i < n && declares(descriptors@, i, group_key);
                assert(descriptors@[i].dyn_trait_id == group_key);
            }
            assert(!map@.contains_key(group_key));
            assert(settled(descriptors@, n as int, map@));
            assert(gathered(descriptors@, n as int, group_key, before));
            assert forall|i: int| 0 <= i < n implies map@.contains_key(
                #[trigger] descriptors@[i].dyn_trait_id,
            ) || descriptors@[i].dyn_trait_id == group_key by {}
        }
        if !curr_group_entries.register(item.key(), item.partial()) {
            proof {
                let i = choose|i: int| i < n && implements(descriptors@, i, group_key, item.key());
                assert(conflict_at(descriptors@, i, n as int));
                assert(implements(descriptors@, n as int, group_key, item.key()));
            }
            return Err(Collision::Key { dyn_trait_id: group_key, key: item.key() });
        }
        proof {
            assert(implements(descriptors@, n as int, group_key, item.key()));
            assert forall|i: int, j: int| j < n + 1 implies !conflict_at(descriptors@, i, j) by {
                if j == n && conflict_at(descriptors@, i, j) {
                    assert(i < n && implements(descriptors@, i, group_key, item.key()));
                }
            }
            lemma_gathered_one_more(descriptors@, n as int, group_key, before);
            assert forall|capability: DynTraitTypeId| #[trigger]
                map@.contains_key(capability) implies {
                &&& exists|i: int| i < n + 1 && declares(descriptors@, i, capability)
                &&& gathered(descriptors@, n + 1, capability, map@[capability]@)
            } by {
                let i = choose|i: int| i < n && declares(descriptors@, i, capability);
                assert(i < n + 1 && declares(descriptors@, i, capability));
                lemma_gathered_other(descriptors@, n as int, capability, map@[capability]@);
            }
        }
        curr_group = Some((curr_group_key, curr_group_entries));
        n += 1;
    }
    let ghost all = descriptors@;
    if let Some((last_group_key, last_group_entries)) = curr_group {
        proof {
            assert(declares(all, n - 1, last_group_key));
        }
        map.insert(last_group_key, last_group_entries);
    }
    proof {
        assert(settled(all, n as int, map@));
        assert forall|i: int| 0 <= i < n implies map@.contains_key(
            #[trigger] all[i].dyn_trait_id,
        ) by {}
        assert forall|capability: DynTraitTypeId| #[trigger]
            table_view(map@).contains_key(capability) <==> table_of(all).contains_key(
                capability,
            ) by {
            if map@.contains_key(capability) {
                let i = choose|i: int| i < n && declares(all, i, capability);
                assert(declares(all, i, capability));
            }
            if exists|i: int| declares(all, i, capability) {
                let i = choose|i: int| declares(all, i, capability);
                assert(map@.contains_key(all[i].dyn_trait_id));
            }
        }
        assert forall|capability: DynTraitTypeId| #[trigger]
            table_view(map@).contains_key(capability) implies table_view(map@)[capability]
            == table_of(all)[capability] by {
            lemma_gathered_all(all, capability, map@[capability]@);
        }
        assert(table_view(map@) =~= table_of(all));
        assert(!conflicts(all));
    }
    Ok(map)
}

/// Whether each registry of `registries` belongs to a capability that one
/// of the first `n` descriptors has, and holds what they register for it.
spec fn settled(
    descriptors: Seq<Descriptor>,
    n: int,
    registries: Map<DynTraitTypeId, Registry>,
) -> bool {
    forall|capability: DynTraitTypeId| #[trigger]
        registries.contains_key(capability) ==> {
            &&& exists|i: int| i < n && declares(descriptors, i, capability)
            &&& gathered(descriptors, n, capability, registries[capability]@)
        }
}

/// Whether `registry` holds what the first `n` descriptors register for
/// `capability`, and nothing else.
spec fn gathered(
    descriptors: Seq<Descriptor>,
    n: int,
    capability: DynTraitTypeId,
    registry: Map<Key, PartialDescriptor>,
) -> bool {
    &&& forall|key: Key|
        registry.contains_key(key) <==> exists|i: int|
            i < n && implements(descriptors, i, capability, key)
    &&& forall|i: int|
        0 <= i < n && descriptors[i].dyn_trait_id == capability ==> registry[(
        #[trigger] descriptors[i]).key()] == descriptors[i].partial()
}

/// In sorted descriptors, a capability smaller than that of descriptor `n`
/// has no descriptor from `n` on: what was gathered for it stays as it is.
proof fn lemma_run_is_over(descriptors: Seq<Descriptor>, n: int)
    requires
        sorted_by_capability(descriptors),
        0 < n < descriptors.len(),
        descriptors[n - 1].dyn_trait_id != descriptors[n].dyn_trait_id,
    ensures
        forall|i: int| 0 <= i < n ==> (#[trigger] descriptors[i]).dyn_trait_id
            < descriptors[n].dyn_trait_id,
{
    assert forall|i: int| 0 <= i < n implies (#[trigger] descriptors[i]).dyn_trait_id
        < descriptors[n].dyn_trait_id by {
        assert(descriptors[i].dyn_trait_id <= descriptors[n - 1].dyn_trait_id);
        assert(descriptors[n - 1].dyn_trait_id <= descriptors[n].dyn_trait_id);
    }
}

/// Registering descriptor `n` under its key, when no earlier descriptor of
/// its capability has that key, gathers one descriptor more.
proof fn lemma_gathered_one_more(
    descriptors: Seq<Descriptor>,
    n: int,
    capability: DynTraitTypeId,
    registry: Map<Key, PartialDescriptor>,
)
    requires
        0 <= n < descriptors.len(),
        descriptors[n].dyn_trait_id == capability,
        gathered(descriptors, n, capability, registry),
        !registry.contains_key(descriptors[n].key()),
    ensures
        gathered(
            descriptors,
            n + 1,
            capability,
            registry.insert(descriptors[n].key(), descriptors[n].partial()),
        ),
{
    let key = descriptors[n].key();
    let after = registry.insert(key, descriptors[n].partial());
    assert(implements(descriptors, n, capability, key));
    assert forall|other: Key|
        after.contains_key(other) <==> exists|i: int|
            i < n + 1 && implements(descriptors, i, capability, other) by {
        if registry.contains_key(other) {
            let i = choose|i: int| i < n && implements(descriptors, i, capability, other);
            assert(i < n + 1 && implements(descriptors, i, capability, other));
        }
        if exists|i: int| i < n + 1 && implements(descriptors, i, capability, other) {
            let i = choose|i: int| i < n + 1 && implements(descriptors, i, capability, other);
            if i < n {
                assert(i < n && implements(descriptors, i, capability, other));
            }
        }
    }
    assert forall|i: int|
        0 <= i < n + 1 && descriptors[i].dyn_trait_id == capability implies after[(
    #[trigger] descriptors[i]).key()] == descriptors[i].partial() by {
        if i < n {
            assert(i < n && implements(descriptors, i, capability, descriptors[i].key()));
        }
    }
}

/// A descriptor of another capability leaves what was gathered for
/// `capability` as it is.
proof fn lemma_gathered_other(
    descriptors: Seq<Descriptor>,
    n: int,
    capability: DynTraitTypeId,
    registry: Map<Key, PartialDescriptor>,
)
    requires
        0 <= n < descriptors.len(),
        descriptors[n].dyn_trait_id != capability,
        gathered(descriptors, n, capability, registry),
    ensures
        gathered(descriptors, n + 1, capability, registry),
{
    assert forall|key: Key|
        registry.contains_key(key) <==> exists|i: int|
            i < n + 1 && implements(descriptors, i, capability, key) by {
        if registry.contains_key(key) {
            let i = choose|i: int| i < n && implements(descriptors, i, capability, key);
            assert(i < n + 1 && implements(descriptors, i, capability, key));
        }
        if exists|i: int| i < n + 1 && implements(descriptors, i, capability, key) {
            let i = choose|i: int| i < n + 1 && implements(descriptors, i, capability, key);
            assert(i < n && implements(descriptors, i, capability, key));
        }
    }
}

/// What was gathered for a capability from all descriptors is its registry
/// in their table.
proof fn lemma_gathered_all(
    descriptors: Seq<Descriptor>,
    capability: DynTraitTypeId,
    registry: Map<Key, PartialDescriptor>,
)
    requires
        gathered(descriptors, descriptors.len() as int, capability, registry),
    ensures
        registry == group_of(descriptors, capability),
{
    let n = descriptors.len() as int;
    let group = group_of(descriptors, capability);
    assert forall|key: Key| registry.contains_key(key) <==> group.contains_key(key) by {
        if registry.contains_key(key) {
            let i = choose|i: int| i < n && implements(descriptors, i, capability, key);
            assert(implements(descriptors, i, capability, key));
        }
        if group.contains_key(key) {
            let i = choose|i: int| implements(descriptors, i, capability, key);
            assert(i < n && implements(descriptors, i, capability, key));
        }
    }
    assert forall|key: Key| registry.contains_key(key) implies registry[key] == group[key] by {
        let i = choose|i: int| implements(descriptors, i, capability, key);
        assert(group.contains_key(key));
        assert(registry[descriptors[i].key()] == descriptors[i].partial());
    }
    assert(registry =~= group);
}


/// A conflict survives rearrangement: if two descriptors of `from` register
/// `key` for `capability`, two descriptors of `to` do.
proof fn lemma_conflict_moves(
    from: Seq<Descriptor>,
    to: Seq<Descriptor>,
    capability: DynTraitTypeId,
    key: Key,
)
    requires
        from.to_multiset() == to.to_multiset(),
        exists|i: int, j: int| conflict_at(from, i, j) && implements(from, j, capability, key),
    ensures
        exists|i: int, j: int| conflict_at(to, i, j) && implements(to, j, capability, key),
{
    broadcast use vstd::seq_lib::to_multiset_contains;

    let (i, j) = choose|i: int, j: int|
        conflict_at(from, i, j) && implements(from, j, capability, key);
    let first = from[i];
    let second = from[j];
    assert(from.contains(first) && from.contains(second));
    assert(to.to_multiset().count(first) > 0 && to.to_multiset().count(second) > 0);
    assert(to.contains(first) && to.contains(second));
    if first == second {
        lemma_twice(from, i, j);
        lemma_two_places(to, first);
        let (a, b) = choose|a: int, b: int| 0 <= a < b < to.len() && to[a] == first && to[b] == first;
        assert(conflict_at(to, a, b) && implements(to, b, capability, key));
    } else {
        let a = choose|a: int| 0 <= a < to.len() && to[a] == first;
        let b = choose|b: int| 0 <= b < to.len() && to[b] == second;
        if a < b {
            assert(conflict_at(to, a, b) && implements(to, b, capability, key));
        } else {
            assert(conflict_at(to, b, a) && implements(to, a, capability, key));
        }
    }
}


/// A value at two places of a sequence occurs at least twice in it.
proof fn lemma_twice(s: Seq<Descriptor>, i: int, j: int)
    requires
        0 <= i < j < s.len(),
        s[i] == s[j],
    ensures
        s.to_multiset().count(s[i]) >= 2,
{
    broadcast use vstd::seq_lib::to_multiset_contains;
    broadcast use vstd::seq_lib::to_multiset_remove;
    broadcast use vstd::multiset::group_multiset_axioms;

    let rest = s.remove(i);
    let all = s.to_multiset();
    assert(rest[j - 1] == s[j]);
    assert(rest.contains(s[i]));
    assert(rest.to_multiset().count(s[i]) > 0);
    assert(rest.to_multiset() =~= all.remove(s[i]));
    assert(Multiset::singleton(s[i]).count(s[i]) == 1);
    assert(all.sub(Multiset::singleton(s[i])).count(s[i]) > 0);
}

/// A value that occurs at least twice in a sequence stands at two places.
proof fn lemma_two_places(s: Seq<Descriptor>, value: Descriptor)
    requires
        s.to_multiset().count(value) >= 2,
    ensures
        exists|a: int, b: int| 0 <= a < b < s.len() && s[a] == value && s[b] == value,
{
    broadcast use vstd::seq_lib::to_multiset_contains;
    broadcast use vstd::seq_lib::to_multiset_remove;
    broadcast use vstd::multiset::group_multiset_axioms;

    let all = s.to_multiset();
    assert(s.contains(value));
    let a = choose|a: int| 0 <= a < s.len() && s[a] == value;
    let rest = s.remove(a);
    assert(rest.to_multiset() =~= all.remove(value));
    assert(Multiset::singleton(value).count(value) == 1);
    assert(all.sub(Multiset::singleton(value)).count(value) == all.count(value) - 1);
    assert(rest.to_multiset().count(value) > 0);
    assert(rest.contains(value));
    let c = choose|c: int| 0 <= c < rest.len() && rest[c] == value;
    if c < a {
        assert(s[c] == value);
        assert(0 <= c < a < s.len() && s[c] == value && s[a] == value);
    } else {
        assert(s[c + 1] == value);
        assert(0 <= a < c + 1 < s.len() && s[a] == value && s[c + 1] == value);
    }
}


/// The table survives rearrangement: descriptors without conflicts have
/// one table in whatever order they stand.
proof fn lemma_table_moves(from: Seq<Descriptor>, to: Seq<Descriptor>)
    requires
        from.to_multiset() == to.to_multiset(),
        !conflicts(from),
    ensures
        table_of(to) == table_of(from),
{
    broadcast use vstd::seq_lib::to_multiset_contains;

    assert forall|value: Descriptor| from.contains(value) <==> to.contains(value) by {
        vstd::seq_lib::to_multiset_contains(from, value);
        vstd::seq_lib::to_multiset_contains(to, value);
    }
    assert forall|capability: DynTraitTypeId, key: Key| #[trigger]
        registers(to, capability, key) <==> registers(from, capability, key) by {
        if exists|i: int| implements(to, i, capability, key) {
            let i = choose|i: int| implements(to, i, capability, key);
            assert(to.contains(to[i]));
            let j = choose|j: int| 0 <= j < from.len() && from[j] == to[i];
            assert(implements(from, j, capability, key));
        }
        if exists|i: int| implements(from, i, capability, key) {
            let i = choose|i: int| implements(from, i, capability, key);
            assert(from.contains(from[i]));
            let j = choose|j: int| 0 <= j < to.len() && to[j] == from[i];
            assert(implements(to, j, capability, key));
        }
    }
    assert forall|capability: DynTraitTypeId| #[trigger]
        offers(to, capability) <==> offers(from, capability) by {
        if exists|i: int| declares(to, i, capability) {
            let i = choose|i: int| declares(to, i, capability);
            assert(to.contains(to[i]));
            let j = choose|j: int| 0 <= j < from.len() && from[j] == to[i];
            assert(declares(from, j, capability));
        }
        if exists|i: int| declares(from, i, capability) {
            let i = choose|i: int| declares(from, i, capability);
            assert(from.contains(from[i]));
            let j = choose|j: int| 0 <= j < to.len() && to[j] == from[i];
            assert(declares(to, j, capability));
        }
    }
    assert forall|capability: DynTraitTypeId| #[trigger]
        table_of(to).contains_key(capability) implies table_of(to)[capability] == table_of(
        from,
    )[capability] by {
        let there = group_of(to, capability);
        let here = group_of(from, capability);
        assert forall|key: Key| there.contains_key(key) implies there[key] == here[key] by {
            let i = choose|i: int| implements(to, i, capability, key);
            let j = choose|j: int| implements(from, j, capability, key);
            assert(to.contains(to[i]));
            let k = choose|k: int| 0 <= k < from.len() && from[k] == to[i];
            if k < j {
                assert(conflict_at(from, k, j));
            }
            if j < k {
                assert(conflict_at(from, j, k));
            }
        }
        assert(there =~= here);
    }
    assert(table_of(to) =~= table_of(from));
}


/// Lookup in the table is total: a key is found under a capability exactly
/// when a descriptor registers it for that capability, and what is found is
/// what that descriptor registers.
pub proof fn lemma_table_lookup(
    descriptors: Seq<Descriptor>,
    i: int,
    capability: DynTraitTypeId,
    key: Key,
)
    requires
        !conflicts(descriptors),
    ensures
        table_of(descriptors).contains_key(capability) <==> offers(descriptors, capability),
        table_of(descriptors).contains_key(capability) && table_of(
            descriptors,
        )[capability].contains_key(key) <==> registers(descriptors, capability, key),
        implements(descriptors, i, capability, key) ==> table_of(descriptors)[capability][key]
            == descriptors[i].partial(),
{
    if registers(descriptors, capability, key) {
        let j = choose|j: int| implements(descriptors, j, capability, key);
        assert(declares(descriptors, j, capability));
    }
    if implements(descriptors, i, capability, key) {
        let j = choose|j: int| implements(descriptors, j, capability, key);
        if i < j {
            assert(conflict_at(descriptors, i, j));
        }
        if j < i {
            assert(conflict_at(descriptors, j, i));
        }
    }
}

/// A key registered for one capability is not thereby found under another:
/// the registries of two capabilities share nothing.
pub proof fn lemma_capabilities_apart(
    descriptors: Seq<Descriptor>,
    capability: DynTraitTypeId,
    key: Key,
)
    requires
        !conflicts(descriptors),
        forall|i: int|
            0 <= i < descriptors.len() && (#[trigger] descriptors[i]).key() == key
                ==> descriptors[i].dyn_trait_id != capability,
    ensures
        table_of(descriptors).contains_key(capability) ==> !table_of(
            descriptors,
        )[capability].contains_key(key),
{
    if registers(descriptors, capability, key) {
        let j = choose|j: int| implements(descriptors, j, capability, key);
        assert(descriptors[j].key() == key);
    }
}

} // verus!
