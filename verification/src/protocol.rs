//! Any number of callers sharing one `Once`, as a transition system.
//!
//! Each caller follows the phases of `once`; the world holds the shared
//! word, what every caller is about to do, the `next` field of every
//! waiter, and where every waiter stands. One step is one caller completing
//! the operation of its phase, or a runner notifying the waiter that it has
//! walked to. The steps interleave in any order. What is proved here holds
//! of every world that the callers can reach.

use crate::once::spec_advance;
use crate::once::spec_settle;
use crate::once::Event;
use crate::once::OnceState;
use crate::once::Outcome;
use crate::once::Packed;
use crate::once::Phase;
use vstd::prelude::*;

verus! {

/// Where a caller's waiter stands.
#[derive(PartialEq, Eq)]
pub enum Link {
    /// In no list. A parked caller whose waiter is free has been notified.
    Free,
    /// In the list that hangs off the shared word.
    Queued,
    /// In the list that the runner `by` took off the shared word and has
    /// yet to notify.
    Detached { by: usize },
}

/// The shared word, the callers with their waiters, and the record of what
/// has run.
///
/// The word, the `next` fields and the cursors are what the callers read
/// and write. The phases are what each caller is about to do. The links,
/// the queue and the walks say where the waiters stand, and the counts and
/// the two names at the end say what has happened: no caller reads them,
/// they are kept for what is said of the callers.
pub struct World {
    /// The state word.
    pub word: Packed,
    /// The phase of every caller, by the address of its waiter.
    pub phases: Map<usize, Phase>,
    /// Where every caller's waiter stands.
    pub links: Map<usize, Link>,
    /// The `next` field of every caller's waiter.
    pub nexts: Map<usize, usize>,
    /// The waiters that hang off the shared word, the one linked last first.
    pub queue: Seq<usize>,
    /// For every runner, the waiters that it took off the shared word and
    /// has yet to notify, in the order it walks them.
    pub walks: Map<usize, Seq<usize>>,
    /// For every runner, the address that its walk has come to. The walk
    /// starts at the head that the runner's phase names.
    pub cursors: Map<usize, usize>,
    /// How many executions of the initializer have begun.
    pub started: nat,
    /// How each execution that has ended went, in the order they ended.
    pub results: Seq<bool>,
    /// The caller whose initializer is running or has just ended.
    pub runner: Option<usize>,
    /// The caller whose initializer succeeded.
    pub winner: Option<usize>,
}

/// Whether `addr` can be the address of a waiter: not null, and aligned to
/// four bytes.
pub open spec fn is_waiter(addr: usize) -> bool {
    addr != 0 && addr & 3 == 0
}

/// The world before any caller has done anything.
pub open spec fn init(callers: Set<usize>) -> World {
    World {
        word: Packed(0),
        phases: Map::new(|a: usize| callers.contains(a), |a: usize| Phase::Load),
        links: Map::new(|a: usize| callers.contains(a), |a: usize| Link::Free),
        nexts: Map::new(|a: usize| callers.contains(a), |a: usize| 0usize),
        queue: Seq::empty(),
        walks: Map::new(|a: usize| callers.contains(a), |a: usize| Seq::empty()),
        cursors: Map::new(|a: usize| callers.contains(a), |a: usize| 0usize),
        started: 0,
        results: Seq::empty(),
        runner: None,
        winner: None,
    }
}

impl World {
    /// Whether `a` is one of the callers.
    pub open spec fn has(self, a: usize) -> bool {
        self.phases.dom().contains(a)
    }

    /// Whether the walk of the runner `a` has come to the end of its list.
    pub open spec fn drained(self, a: usize) -> bool {
        self.cursors[a] == 0
    }

    /// How the operation of `a`'s phase goes in this world, or `None` while
    /// it cannot complete. `succeeded` is what the initializer does if it
    /// is the operation.
    pub open spec fn event_for(self, a: usize, succeeded: bool) -> Option<Event> {
        match self.phases[a] {
            Phase::Load => Some(Event::Loaded { word: self.word }),
            Phase::Claim { expected, .. } => Some(
                if self.word == expected {
                    Event::Exchanged
                } else {
                    Event::Refused { actual: self.word }
                },
            ),
            Phase::Enqueue { expected, .. } => Some(
                if self.word == expected {
                    Event::Exchanged
                } else {
                    Event::Refused { actual: self.word }
                },
            ),
            Phase::Run => Some(Event::Ran { succeeded }),
            Phase::Publish { .. } => Some(Event::Published { previous: self.word }),
            Phase::Wake { .. } => if self.drained(a) {
                Some(Event::Drained)
            } else {
                None
            },
            Phase::Park => if self.links[a] is Free {
                Some(Event::Notified)
            } else {
                None
            },
            Phase::Return { .. } => None,
        }
    }

    /// The links after the runner `a` has taken the list off the word.
    pub open spec fn detach(self, a: usize) -> Map<usize, Link> {
        Map::new(
            |b: usize| self.links.dom().contains(b),
            |b: usize|
                if self.links[b] is Queued {
                    Link::Detached { by: a }
                } else {
                    self.links[b]
                },
        )
    }

    /// The world after `a` has completed the operation of its phase.
    #[verifier::opaque]
    pub open spec fn perform(self, a: usize, succeeded: bool) -> World {
        let event = self.event_for(a, succeeded)->0;
        let phases = self.phases.insert(a, spec_advance(self.phases[a], event, a));
        match (self.phases[a], event) {
            (Phase::Claim { desired, .. }, Event::Exchanged) => World {
                word: desired,
                phases,
                started: self.started + 1,
                runner: Some(a),
                ..self
            },
            (Phase::Enqueue { desired, next, .. }, Event::Exchanged) => World {
                word: desired,
                phases,
                links: self.links.insert(a, Link::Queued),
                nexts: self.nexts.insert(a, next),
                queue: seq![a] + self.queue,
                ..self
            },
            (Phase::Enqueue { next, .. }, Event::Refused { .. }) => World {
                phases,
                nexts: self.nexts.insert(a, next),
                ..self
            },
            (Phase::Run, Event::Ran { succeeded }) => World {
                phases,
                results: self.results.push(succeeded),
                ..self
            },
            (Phase::Publish { word, succeeded }, Event::Published { previous }) => World {
                word,
                phases,
                links: self.detach(a),
                queue: Seq::empty(),
                walks: self.walks.insert(a, self.queue),
                cursors: self.cursors.insert(
                    a,
                    match spec_advance(self.phases[a], event, a) {
                        Phase::Wake { head, .. } => head,
                        _ => 0,
                    },
                ),
                runner: None,
                winner: if succeeded {
                    Some(a)
                } else {
                    self.winner
                },
                ..self
            },
            _ => World { phases, ..self },
        }
    }

    /// The world after the runner `a` has read the `next` field of the
    /// waiter that its walk has come to, and has notified that waiter.
    pub open spec fn notify(self, a: usize) -> World {
        let b = self.cursors[a];
        World {
            links: self.links.insert(b, Link::Free),
            walks: self.walks.insert(a, self.walks[a].drop_first()),
            cursors: self.cursors.insert(a, self.nexts[b]),
            ..self
        }
    }

    /// Whether one step leads from this world to `next`.
    pub open spec fn steps_to(self, next: World) -> bool {
        ||| exists|a: usize, succeeded: bool|
            self.has(a) && self.event_for(a, succeeded) is Some && next == #[trigger] self.perform(
                a,
                succeeded,
            )
        ||| exists|a: usize|
            self.has(a) && self.phases[a] is Wake && !self.drained(a) && next
                == #[trigger] self.notify(a)
    }

    /// Whether an initializer has succeeded.
    pub open spec fn done(self) -> bool {
        self.word@ is Done
    }

    /// Whether an initializer is running or has ended without its word
    /// being stored yet.
    pub open spec fn pending(self) -> bool {
        self.word@ is Pending
    }
}

/// Whether `trace` is a run of the callers: it starts in the initial world,
/// and each world leads to the one after it by one step.
pub open spec fn is_execution(callers: Set<usize>, trace: Seq<World>) -> bool {
    &&& forall|a: usize| callers.contains(a) ==> is_waiter(a)
    &&& trace.len() > 0
    &&& trace[0] == init(callers)
    &&& forall|i: int| 0 <= i < trace.len() - 1 ==> (#[trigger] trace[i]).steps_to(trace[i + 1])
}

/// Whether some run of the callers ends in `w`.
pub open spec fn reached(callers: Set<usize>, w: World) -> bool {
    exists|trace: Seq<World>| #[trigger] is_execution(callers, trace) && trace.last() == w
}

impl World {
    /// What holds of the caller `a` in each phase.
    pub open spec fn phase_ok(self, a: usize) -> bool {
        match self.phases[a] {
            Phase::Load => true,
            Phase::Claim { expected, desired } => expected.0 == 0 && desired.0 == 1,
            Phase::Enqueue { expected, desired, next } => {
                &&& expected.valid()
                &&& expected@ == (OnceState::Pending { head: next })
                &&& desired.valid()
                &&& desired@ == (OnceState::Pending { head: a })
            },
            Phase::Run => self.runner == Some(a) && self.started == self.results.len() + 1,
            Phase::Publish { word, succeeded } => {
                &&& self.runner == Some(a)
                &&& word == spec_settle(succeeded)
                &&& self.started == self.results.len()
                &&& self.results.len() > 0
                &&& self.results.last() == succeeded
            },
            Phase::Wake { succeeded, .. } => if succeeded {
                self.winner == Some(a)
            } else {
                self.failed()
            },
            Phase::Park => true,
            Phase::Return { outcome } => match outcome {
                Outcome::Initialized => self.winner == Some(a),
                Outcome::AlreadyDone => self.done(),
                Outcome::Failed => self.failed(),
            },
        }
    }

    /// What holds of the waiter of `b` wherever it stands: a waiter in a
    /// list belongs to a parked caller, and somebody is bound to notify it.
    pub open spec fn link_ok(self, b: usize) -> bool {
        match self.links[b] {
            Link::Free => true,
            Link::Queued => self.phases[b] is Park && self.pending(),
            Link::Detached { by } => self.phases[b] is Park && self.has(by) && self.phases[by] is Wake,
        }
    }

    /// Whether an execution has ended in failure.
    pub open spec fn failed(self) -> bool {
        exists|i: int| 0 <= i < self.results.len() && !#[trigger] self.results[i]
    }

    /// Whether the latest execution that ended was a success.
    pub open spec fn succeeded(self) -> bool {
        self.results.len() > 0 && self.results.last()
    }

    /// What holds of the callers and of the record in every world that the
    /// callers can reach.
    #[verifier::opaque]
    pub open spec fn inv(self) -> bool {
        &&& self.word.valid()
        &&& self.links.dom() == self.phases.dom()
        &&& forall|a: usize| self.has(a) ==> is_waiter(a)
        &&& forall|a: usize| self.has(a) ==> self.phase_ok(a)
        &&& forall|b: usize| self.has(b) ==> self.link_ok(b)
        &&& self.pending() <==> self.runner is Some
        &&& self.runner matches Some(r) ==> self.has(r) && (self.phases[r] is Run
            || self.phases[r] is Publish)
        &&& self.runner is None ==> self.started == self.results.len()
        &&& self.done() <==> self.winner is Some
        &&& self.winner matches Some(v) ==> self.has(v) && (self.phases[v] matches Phase::Wake {
            succeeded: true,
            ..
        } || self.phases[v] == (Phase::Return { outcome: Outcome::Initialized }))
        &&& forall|i: int| 0 <= i < self.results.len() - 1 ==> !self.results[i]
        &&& self.done() ==> self.succeeded()
        &&& self.succeeded() ==> self.done() || (self.runner matches Some(r)
            && self.phases[r] matches Phase::Publish { succeeded: true, .. })
    }

    /// Whether every waiter of `list` is a caller's and stands as `link`
    /// says.
    pub open spec fn listed(self, list: Seq<usize>, link: Link) -> bool {
        forall|i: int|
            0 <= i < list.len() ==> self.has(#[trigger] list[i]) && self.links[list[i]] == link
    }

    /// What holds of the list that the runner `a` walks: it holds the
    /// waiters that `a` detached and has yet to notify, linked through
    /// their `next` fields, and the walk has come to the first of them.
    pub open spec fn walk_ok(self, a: usize) -> bool {
        &&& self.listed(self.walks[a], Link::Detached { by: a })
        &&& linked(self.nexts, self.walks[a])
        &&& self.walks[a].no_duplicates()
        &&& self.phases[a] is Wake ==> self.cursors[a] == head_of(self.walks[a])
    }

    /// What holds of the lists of every world that the callers can reach:
    /// the shared word points at the waiter linked last, every list is
    /// linked through the `next` fields of its waiters, and every waiter
    /// that is queued or detached is in the one list that it belongs to.
    #[verifier::opaque]
    pub open spec fn chained(self) -> bool {
        &&& self.nexts.dom() == self.phases.dom()
        &&& self.walks.dom() == self.phases.dom()
        &&& self.cursors.dom() == self.phases.dom()
        &&& self.listed(self.queue, Link::Queued)
        &&& linked(self.nexts, self.queue)
        &&& self.queue.no_duplicates()
        &&& forall|b: usize| self.has(b) && #[trigger] self.links[b] is Queued ==> self.queue.contains(b)
        &&& self.word@ matches OnceState::Pending { head } ==> head == head_of(self.queue)
        &&& !self.pending() ==> self.queue.len() == 0
        &&& forall|a: usize| self.has(a) ==> #[trigger] self.walk_ok(a)
        &&& forall|b: usize|
            self.has(b) && (#[trigger] self.links[b]) is Detached ==> self.walks[self.links[b]->by].contains(b)
    }

    /// What holds of every world that the callers can reach.
    pub open spec fn sound(self) -> bool {
        self.inv() && self.chained()
    }
}

/// The address that stands for `list` in a word or in a `next` field: that
/// of its first waiter, or null for the empty list.
pub open spec fn head_of(list: Seq<usize>) -> usize {
    if list.len() == 0 {
        0
    } else {
        list[0]
    }
}

/// Whether `list` is linked through the `next` fields: each waiter points
/// at the one behind it, and the last one at nothing.
pub open spec fn linked(nexts: Map<usize, usize>, list: Seq<usize>) -> bool {
    forall|i: int|
        0 <= i < list.len() ==> nexts[#[trigger] list[i]] == if i + 1 < list.len() {
            list[i + 1]
        } else {
            0
        }
}

/// The word that links the waiter at an aligned address decodes to that
/// address.
pub proof fn lemma_waiter_round_trip(addr: usize)
    requires
        addr & 3 == 0,
    ensures
        Packed((addr & !3usize) | 1).valid(),
        Packed((addr & !3usize) | 1)@ == (OnceState::Pending { head: addr }),
{
    assert(((addr & !3usize) | 1) & 3 == 1 && ((addr & !3usize) | 1) & !3usize == addr)
        by (bit_vector)
        requires
            addr & 3 == 0,
    ;
}

/// The words of an idle and of a completed `Once`, and the word of a run
/// without waiters.
pub proof fn lemma_plain_words()
    ensures
        Packed(0)@ is Idle,
        Packed(0).valid(),
        Packed(2)@ is Done,
        Packed(2).valid(),
        Packed(1).valid(),
        Packed(1)@ == (OnceState::Pending { head: 0 }),
        forall|p: Packed| p.valid() && p@ is Idle ==> p.0 == 0,
        forall|p: Packed| p.valid() && p@ is Done ==> p.0 == 2,
{
    assert(0usize & 3 == 0 && 2usize & 3 == 2 && 1usize & 3 == 1 && 1usize & !3usize == 0)
        by (bit_vector);
}

/// The initial world is sound.
pub proof fn lemma_init_is_sound(callers: Set<usize>)
    requires
        forall|a: usize| callers.contains(a) ==> is_waiter(a),
    ensures
        init(callers).sound(),
{
    reveal(World::inv);
    reveal(World::chained);
    lemma_plain_words();
    let w = init(callers);
    assert(w.links.dom() =~= w.phases.dom());
    assert(w.nexts.dom() =~= w.phases.dom());
    assert(w.walks.dom() =~= w.phases.dom());
    assert(w.cursors.dom() =~= w.phases.dom());
}

/// Every step leads from a sound world to a sound world.
pub proof fn lemma_step_keeps_sound(w: World, next: World)
    requires
        w.sound(),
        w.steps_to(next),
    ensures
        next.sound(),
{
    if exists|a: usize, succeeded: bool|
        w.has(a) && w.event_for(a, succeeded) is Some && next == #[trigger] w.perform(a, succeeded) {
        let (a, succeeded) = choose|a: usize, succeeded: bool|
            w.has(a) && w.event_for(a, succeeded) is Some && next == #[trigger] w.perform(
                a,
                succeeded,
            );
        lemma_perform_keeps_inv(w, a, succeeded);
        lemma_perform_keeps_chained(w, a, succeeded);
    } else {
        let a = choose|a: usize|
            w.has(a) && w.phases[a] is Wake && !w.drained(a) && next == #[trigger] w.notify(a);
        lemma_notify_keeps_inv(w, a);
        lemma_notify_keeps_chained(w, a);
    }
}

/// What a sound world says of one of its callers.
proof fn lemma_caller(w: World, a: usize)
    requires
        w.sound(),
        w.has(a),
    ensures
        is_waiter(a),
        w.phase_ok(a),
        w.link_ok(a),
        w.word.valid(),
        w.links.dom() == w.phases.dom(),
        w.pending() <==> w.runner is Some,
{
    reveal(World::inv);
}

/// What a sound world says of the list that a runner walks.
proof fn lemma_walk(w: World, a: usize)
    requires
        w.sound(),
        w.has(a),
    ensures
        w.walk_ok(a),
        !(w.phases[a] is Wake) ==> w.walks[a].len() == 0,
        forall|b: usize|
            w.has(b) && #[trigger] w.links[b] == (Link::Detached { by: a }) ==> w.walks[a].contains(b),
{
    reveal(World::chained);
    assert(w.walk_ok(a));
    if w.walks[a].len() > 0 {
        let first = w.walks[a][0];
        assert(w.has(first));
        lemma_caller(w, first);
    }
}

/// The walk of a runner has come to the first waiter that the runner has
/// yet to notify, or to the end when there is none.
proof fn lemma_walk_with_cursor(w: World, a: usize)
    requires
        w.sound(),
        w.has(a),
        w.phases[a] is Wake,
    ensures
        w.drained(a) <==> w.walks[a].len() == 0,
        !w.drained(a) ==> w.cursors[a] == w.walks[a][0] && w.has(w.cursors[a]) && w.links[w.cursors[a]]
            == (Link::Detached { by: a }),
        w.drained(a) ==> forall|b: usize|
            w.has(b) ==> #[trigger] w.links[b] != (Link::Detached { by: a }),
{
    lemma_walk(w, a);
    let walk = w.walks[a];
    if walk.len() > 0 {
        assert(w.has(walk[0]));
        lemma_caller(w, walk[0]);
    } else {
        assert forall|b: usize| w.has(b) implies #[trigger] w.links[b] != (Link::Detached {
            by: a,
        }) by {
            if w.links[b] == (Link::Detached { by: a }) {
                assert(walk.contains(b));
            }
        }
    }
}

/// A runner notifying the waiter that its walk has come to keeps what
/// holds of the callers and of the record.
proof fn lemma_notify_keeps_inv(w: World, a: usize)
    requires
        w.sound(),
        w.has(a),
        w.phases[a] is Wake,
        !w.drained(a),
    ensures
        w.notify(a).inv(),
{
    reveal(World::inv);
    lemma_plain_words();
    lemma_walk_with_cursor(w, a);
    let next = w.notify(a);
    assert(next.links.dom() =~= next.phases.dom());
    if w.failed() {
        let i = choose|i: int| 0 <= i < w.results.len() && !#[trigger] w.results[i];
        assert(!next.results[i]);
    }
    assert forall|c: usize| next.has(c) implies next.link_ok(c) by {
        assert(w.link_ok(c));
    }
    assert forall|c: usize| next.has(c) implies next.phase_ok(c) by {
        assert(w.phase_ok(c));
    }
}

/// A runner notifying the waiter that its walk has come to keeps what
/// holds of the lists.
proof fn lemma_notify_keeps_chained(w: World, a: usize)
    requires
        w.sound(),
        w.has(a),
        w.phases[a] is Wake,
        !w.drained(a),
    ensures
        w.notify(a).chained(),
{
    reveal(World::chained);
    lemma_walk_with_cursor(w, a);
    lemma_caller(w, a);
    let next = w.notify(a);
    let b = w.cursors[a];
    let walk = w.walks[a];
    let rest = walk.drop_first();
    assert(w.walk_ok(a));
    assert(next.walks.dom() =~= next.phases.dom());
    assert(next.cursors.dom() =~= next.phases.dom());
    // The waiter that was notified stood in the walk of `a` and nowhere
    // else.
    assert forall|i: int| 0 <= i < rest.len() implies rest[i] != b by {
        assert(rest[i] == walk[i + 1]);
    }
    assert(next.listed(next.queue, Link::Queued)) by {
        assert forall|i: int| 0 <= i < w.queue.len() implies w.queue[i] != b by {}
    }
    assert forall|c: usize| next.has(c) && #[trigger] next.links[c] is Queued implies next.queue.contains(
        c,
    ) by {
        assert(w.links[c] is Queued);
    }
    assert forall|r: usize| next.has(r) implies #[trigger] next.walk_ok(r) by {
        assert(w.walk_ok(r));
        if r == a {
            assert forall|i: int| 0 <= i < rest.len() implies next.has(#[trigger] rest[i])
                && next.links[rest[i]] == (Link::Detached { by: a }) by {
                assert(rest[i] == walk[i + 1]);
            }
            assert forall|i: int| 0 <= i < rest.len() implies next.nexts[#[trigger] rest[i]] == if i
                + 1 < rest.len() {
                rest[i + 1]
            } else {
                0
            } by {
                assert(rest[i] == walk[i + 1]);
            }
            assert(rest.no_duplicates());
            assert(w.nexts[walk[0]] == head_of(rest));
        } else {
            assert forall|i: int| 0 <= i < w.walks[r].len() implies w.walks[r][i] != b by {}
        }
    }
    assert forall|c: usize| next.has(c) && (#[trigger] next.links[c]) is Detached implies next.walks[next.links[c]->by].contains(
        c,
    ) by {
        assert(w.links[c] is Detached);
        let r = w.links[c]->by;
        assert(w.walks[r].contains(c));
        if r == a {
            let i = choose|i: int| 0 <= i < walk.len() && walk[i] == c;
            assert(i > 0);
            assert(rest[i - 1] == c);
        }
    }
}

/// A caller completing the operation of its phase keeps what holds of the
/// callers and of the record.
proof fn lemma_perform_keeps_inv(w: World, a: usize, succeeded: bool)
    requires
        w.sound(),
        w.has(a),
        w.event_for(a, succeeded) is Some,
    ensures
        w.perform(a, succeeded).inv(),
{
    reveal(World::perform);
    reveal(World::inv);
    lemma_plain_words();
    assert(is_waiter(a));
    lemma_waiter_round_trip(a);
    let next = w.perform(a, succeeded);
    let event = w.event_for(a, succeeded)->0;
    assert(w.phase_ok(a));
    assert(w.link_ok(a));
    if w.phases[a] is Wake {
        lemma_walk_with_cursor(w, a);
    }
    assert(next.links.dom() =~= next.phases.dom());
    if w.failed() {
        let i = choose|i: int| 0 <= i < w.results.len() && !#[trigger] w.results[i];
        assert(!next.results[i]);
    }
    if next.results.len() > 0 && !next.results.last() {
        assert(!next.results[next.results.len() - 1]);
    }
    assert forall|c: usize| next.has(c) implies next.phase_ok(c) by {
        assert(w.phase_ok(c));
    }
    assert forall|c: usize| next.has(c) implies next.link_ok(c) by {
        assert(w.link_ok(c));
    }
}

/// A caller completing the operation of its phase keeps what holds of the
/// lists.
proof fn lemma_perform_keeps_chained(w: World, a: usize, succeeded: bool)
    requires
        w.sound(),
        w.has(a),
        w.event_for(a, succeeded) is Some,
    ensures
        w.perform(a, succeeded).chained(),
{
    let event = w.event_for(a, succeeded)->0;
    match (w.phases[a], event) {
        (Phase::Enqueue { .. }, Event::Exchanged) => {
            lemma_enqueue_keeps_chained(w, a, succeeded);
        },
        (Phase::Publish { .. }, Event::Published { .. }) => {
            lemma_publish_keeps_chained(w, a, succeeded);
        },
        _ => {
            lemma_quiet_keeps_chained(w, a, succeeded);
        },
    }
}

/// What a step that links and detaches no waiter leaves as it is.
proof fn lemma_quiet_step(w: World, a: usize, succeeded: bool)
    requires
        w.has(a),
        w.event_for(a, succeeded) is Some,
        !(w.phases[a] is Enqueue && w.event_for(a, succeeded) == Some(Event::Exchanged)),
        !(w.phases[a] is Publish),
    ensures
        ({
            let next = w.perform(a, succeeded);
            &&& next.links == w.links
            &&& next.queue == w.queue
            &&& next.walks == w.walks
            &&& next.cursors == w.cursors
            &&& next.phases == w.phases.insert(a, next.phases[a])
            &&& next.nexts == w.nexts || (w.phases[a] is Enqueue && next.nexts == w.nexts.insert(
                a,
                w.phases[a]->Enqueue_next,
            ))
            &&& next.phases[a] is Wake ==> w.phases[a] is Wake
            &&& next.word == w.word || (w.phases[a] is Claim && w.word == w.phases[a]->Claim_expected
                && next.word == w.phases[a]->Claim_desired)
        }),
{
    reveal(World::perform);
}

/// What linking a waiter in front of the queue changes.
proof fn lemma_enqueue_step(w: World, a: usize, succeeded: bool)
    requires
        w.has(a),
        w.phases[a] is Enqueue,
        w.event_for(a, succeeded) == Some(Event::Exchanged),
    ensures
        ({
            let next = w.perform(a, succeeded);
            &&& w.word == w.phases[a]->Enqueue_expected
            &&& next.word == w.phases[a]->Enqueue_desired
            &&& next.links == w.links.insert(a, Link::Queued)
            &&& next.nexts == w.nexts.insert(a, w.phases[a]->Enqueue_next)
            &&& next.queue == seq![a] + w.queue
            &&& next.walks == w.walks
            &&& next.cursors == w.cursors
            &&& next.phases == w.phases.insert(a, Phase::Park)
        }),
{
    reveal(World::perform);
}

/// What taking the queue off the shared word changes.
proof fn lemma_publish_step(w: World, a: usize, succeeded: bool)
    requires
        w.has(a),
        w.phases[a] is Publish,
    ensures
        ({
            let next = w.perform(a, succeeded);
            &&& next.word == w.phases[a]->Publish_word
            &&& next.links == w.detach(a)
            &&& next.nexts == w.nexts
            &&& next.queue == Seq::<usize>::empty()
            &&& next.walks == w.walks.insert(a, w.queue)
            &&& next.cursors == w.cursors.insert(a, w.word.spec_waiter())
            &&& next.phases == w.phases.insert(a, next.phases[a])
            &&& next.phases[a] is Wake
        }),
{
    reveal(World::perform);
}

/// A step that links and detaches no waiter keeps what holds of the lists:
/// they stay as they are, and at most the `next` field of a waiter that
/// stands in none of them changes.
proof fn lemma_quiet_keeps_chained(w: World, a: usize, succeeded: bool)
    requires
        w.sound(),
        w.has(a),
        w.event_for(a, succeeded) is Some,
        !(w.phases[a] is Enqueue && w.event_for(a, succeeded) == Some(Event::Exchanged)),
        !(w.phases[a] is Publish),
    ensures
        w.perform(a, succeeded).chained(),
{
    reveal(World::chained);
    lemma_plain_words();
    lemma_caller(w, a);
    lemma_walk(w, a);
    lemma_quiet_step(w, a, succeeded);
    let next = w.perform(a, succeeded);
    assert(next.nexts.dom() =~= next.phases.dom());
    assert(next.phases.dom() =~= w.phases.dom());
    if w.phases[a] is Enqueue {
        assert(w.links[a] is Free);
        assert forall|i: int| 0 <= i < w.queue.len() implies w.queue[i] != a by {}
        assert forall|r: usize| w.has(r) implies forall|i: int|
            0 <= i < w.walks[r].len() ==> (#[trigger] w.walks[r][i]) != a by {
            assert(w.walk_ok(r));
        }
    }
    assert forall|r: usize| next.has(r) implies #[trigger] next.walk_ok(r) by {
        assert(w.walk_ok(r));
        lemma_walk(w, r);
    }
}

/// Linking a waiter in front of the queue keeps what holds of the lists.
proof fn lemma_enqueue_keeps_chained(w: World, a: usize, succeeded: bool)
    requires
        w.sound(),
        w.has(a),
        w.phases[a] is Enqueue,
        w.event_for(a, succeeded) == Some(Event::Exchanged),
    ensures
        w.perform(a, succeeded).chained(),
{
    reveal(World::chained);
    lemma_caller(w, a);
    lemma_enqueue_step(w, a, succeeded);
    let next = w.perform(a, succeeded);
    assert(w.links[a] is Free);
    assert(next.nexts.dom() =~= next.phases.dom());
    assert(next.phases.dom() =~= w.phases.dom());
    let queue = next.queue;
    assert forall|i: int| 0 <= i < w.queue.len() implies w.queue[i] != a by {}
    assert forall|i: int| 0 <= i < queue.len() implies next.has(#[trigger] queue[i])
        && next.links[queue[i]] == Link::Queued by {
        if i > 0 {
            assert(queue[i] == w.queue[i - 1]);
        }
    }
    assert forall|i: int| 0 <= i < queue.len() implies next.nexts[#[trigger] queue[i]] == if i + 1
        < queue.len() {
        queue[i + 1]
    } else {
        0
    } by {
        if i > 0 {
            assert(queue[i] == w.queue[i - 1]);
            assert(w.queue[i - 1] != a);
            if i + 1 < queue.len() {
                assert(queue[i + 1] == w.queue[i]);
            }
        } else {
            assert(queue[0] == a);
            assert(w.word@ == (OnceState::Pending { head: w.phases[a]->Enqueue_next }));
            if w.queue.len() > 0 {
                assert(queue[1] == w.queue[0]);
            }
        }
    }
    assert(queue.no_duplicates()) by {
        assert forall|i: int, j: int| 0 <= i < queue.len() && 0 <= j < queue.len() && i != j implies queue[i]
            != queue[j] by {
            if i > 0 {
                assert(queue[i] == w.queue[i - 1]);
            }
            if j > 0 {
                assert(queue[j] == w.queue[j - 1]);
            }
        }
    }
    assert forall|b: usize| next.has(b) && #[trigger] next.links[b] is Queued implies queue.contains(
        b,
    ) by {
        if b == a {
            assert(queue[0] == a);
        } else {
            assert(w.queue.contains(b));
            let i = choose|i: int| 0 <= i < w.queue.len() && w.queue[i] == b;
            assert(queue[i + 1] == b);
        }
    }
    assert forall|r: usize| next.has(r) implies #[trigger] next.walk_ok(r) by {
        assert(w.walk_ok(r));
        assert forall|i: int| 0 <= i < w.walks[r].len() implies (#[trigger] w.walks[r][i]) != a by {}
    }
    assert forall|b: usize| next.has(b) && (#[trigger] next.links[b]) is Detached implies next.walks[next.links[b]->by].contains(
        b,
    ) by {
        assert(w.links[b] is Detached);
    }
}

/// Taking the queue off the shared word keeps what holds of the lists.
proof fn lemma_publish_keeps_chained(w: World, a: usize, succeeded: bool)
    requires
        w.sound(),
        w.has(a),
        w.phases[a] is Publish,
    ensures
        w.perform(a, succeeded).chained(),
{
    reveal(World::chained);
    lemma_plain_words();
    lemma_caller(w, a);
    lemma_walk(w, a);
    lemma_publish_step(w, a, succeeded);
    let next = w.perform(a, succeeded);
    assert(w.pending());
    assert(next.phases.dom() =~= w.phases.dom());
    assert(next.walks.dom() =~= next.phases.dom());
    assert(next.cursors.dom() =~= next.phases.dom());
    assert forall|b: usize| w.has(b) implies #[trigger] w.links[b] != (Link::Detached { by: a }) by {
        if w.links[b] == (Link::Detached { by: a }) {
            assert(w.walks[a].contains(b));
        }
    }
    assert forall|r: usize| next.has(r) implies #[trigger] next.walk_ok(r) by {
        assert(w.walk_ok(r));
        lemma_walk(w, r);
        if r == a {
            assert(next.walks[a] == w.queue);
        } else {
            assert(next.walks[r] == w.walks[r]);
        }
    }
    assert forall|b: usize| next.has(b) && (#[trigger] next.links[b]) is Detached implies next.walks[next.links[b]->by].contains(
        b,
    ) by {
        if w.links[b] is Queued {
            assert(w.queue.contains(b));
        } else {
            assert(w.links[b] is Detached);
        }
    }
}

/// Every world of a run is sound.
pub proof fn lemma_execution_is_sound(callers: Set<usize>, trace: Seq<World>)
    requires
        is_execution(callers, trace),
    ensures
        forall|i: int| 0 <= i < trace.len() ==> (#[trigger] trace[i]).sound(),
    decreases trace.len(),
{
    if trace.len() == 1 {
        lemma_init_is_sound(callers);
    } else {
        let shorter = trace.drop_last();
        assert forall|i: int| 0 <= i < shorter.len() - 1 implies (#[trigger] shorter[i]).steps_to(
            shorter[i + 1],
        ) by {
            assert(trace[i].steps_to(trace[i + 1]));
        }
        lemma_execution_is_sound(callers, shorter);
        let last = trace.len() - 1;
        assert(shorter[last - 1].sound());
        assert(trace[last - 1].steps_to(trace[last - 1 + 1]));
        lemma_step_keeps_sound(trace[last - 1], trace[last]);
        assert forall|i: int| 0 <= i < trace.len() implies (#[trigger] trace[i]).sound() by {
            if i < last {
                assert(shorter[i].sound());
            }
        }
    }
}

/// Every world that the callers can reach is sound.
pub proof fn lemma_reached_is_sound(callers: Set<usize>, w: World)
    requires
        reached(callers, w),
    ensures
        w.sound(),
{
    let trace = choose|trace: Seq<World>| #[trigger]
        is_execution(callers, trace) && trace.last() == w;
    lemma_execution_is_sound(callers, trace);
    assert(trace[trace.len() - 1].sound());
}

/// A caller is only ever told what its phase accepts: the words it reads
/// are valid, and the word that a runner's final word replaces is that of a
/// running initializer.
pub proof fn lemma_events_are_accepted(w: World, a: usize, succeeded: bool)
    requires
        w.sound(),
        w.has(a),
        w.event_for(a, succeeded) is Some,
    ensures
        w.phases[a].accepts(w.event_for(a, succeeded)->0),
{
    reveal(World::inv);
    assert(w.phase_ok(a));
}

/// Once an initializer has succeeded, nothing changes the word and nothing
/// runs again.
pub proof fn lemma_done_is_final(w: World, next: World)
    requires
        w.sound(),
        w.done(),
        w.steps_to(next),
    ensures
        next.done(),
        next.word == w.word,
        next.started == w.started,
        next.results == w.results,
        next.winner == w.winner,
{
    reveal(World::perform);
    reveal(World::inv);
    lemma_plain_words();
    if exists|a: usize, succeeded: bool|
        w.has(a) && w.event_for(a, succeeded) is Some && next == #[trigger] w.perform(a, succeeded) {
        let (a, succeeded) = choose|a: usize, succeeded: bool|
            w.has(a) && w.event_for(a, succeeded) is Some && next == #[trigger] w.perform(
                a,
                succeeded,
            );
        assert(w.phase_ok(a));
    }
}

/// At most one initializer is in flight at any instant: two callers that
/// run, or have run and not yet stored the final word, are the same caller.
pub proof fn lemma_one_runner(callers: Set<usize>, w: World, a: usize, b: usize)
    requires
        reached(callers, w),
        w.has(a),
        w.has(b),
        w.phases[a] is Run || w.phases[a] is Publish,
        w.phases[b] is Run || w.phases[b] is Publish,
    ensures
        a == b,
        w.pending(),
{
    reveal(World::inv);
    lemma_reached_is_sound(callers, w);
    assert(w.phase_ok(a));
    assert(w.phase_ok(b));
}

/// With an initializer that never fails, the initializer runs at most
/// once, at most one caller is the one that ran it, and a caller returns
/// only when the initialization is complete: the one execution has ended in
/// success and the word says so.
pub proof fn lemma_exactly_once(callers: Set<usize>, w: World)
    requires
        reached(callers, w),
        !w.failed(),
    ensures
        w.started <= 1,
        forall|a: usize, b: usize|
            w.has(a) && w.has(b) && w.phases[a] == (Phase::Return { outcome: Outcome::Initialized })
                && w.phases[b] == (Phase::Return { outcome: Outcome::Initialized }) ==> a == b,
        forall|a: usize|
            w.has(a) && #[trigger] w.phases[a] is Return ==> {
                &&& w.done()
                &&& w.started == 1
                &&& w.results == seq![true]
                &&& w.phases[a] != (Phase::Return { outcome: Outcome::Failed })
            },
{
    reveal(World::inv);
    lemma_reached_is_sound(callers, w);
    lemma_plain_words();
    assert forall|i: int| 0 <= i < w.results.len() implies w.results[i] by {}
    if w.results.len() >= 2 {
        assert(!w.results[0]);
    }
    if w.runner is Some {
        assert(w.phase_ok(w.runner->0));
    }
    assert forall|a: usize, b: usize|
        w.has(a) && w.has(b) && w.phases[a] == (Phase::Return { outcome: Outcome::Initialized })
            && w.phases[b] == (Phase::Return {
            outcome: Outcome::Initialized,
        }) implies a == b by {
        assert(w.phase_ok(a));
        assert(w.phase_ok(b));
    }
    assert forall|a: usize| w.has(a) && #[trigger] w.phases[a] is Return implies {
        &&& w.done()
        &&& w.started == 1
        &&& w.results == seq![true]
        &&& w.phases[a] != (Phase::Return { outcome: Outcome::Failed })
    } by {
        assert(w.phase_ok(a));
        assert(w.results =~= seq![true]);
    }
}

/// When every caller has returned from a `Once` whose initializer never
/// fails, exactly one of them ran the initializer and every other one found
/// the initialization done.
pub proof fn lemma_one_caller_ran_it(callers: Set<usize>, w: World)
    requires
        reached(callers, w),
        !w.failed(),
        exists|a: usize| w.has(a),
        forall|a: usize| w.has(a) ==> #[trigger] w.phases[a] is Return,
    ensures
        w.winner is Some,
        w.has(w.winner->0),
        forall|a: usize|
            w.has(a) ==> #[trigger] w.phases[a] == (Phase::Return {
                outcome: if a == w.winner->0 {
                    Outcome::Initialized
                } else {
                    Outcome::AlreadyDone
                },
            }),
{
    reveal(World::inv);
    lemma_reached_is_sound(callers, w);
    lemma_exactly_once(callers, w);
    let some = choose|a: usize| w.has(a);
    assert(w.phases[some] is Return);
    let v = w.winner->0;
    assert(w.phases[v] is Return);
    assert forall|a: usize| w.has(a) implies #[trigger] w.phases[a] == (Phase::Return {
        outcome: if a == v {
            Outcome::Initialized
        } else {
            Outcome::AlreadyDone
        },
    }) by {
        assert(w.phases[a] is Return);
        assert(w.phase_ok(a));
    }
}

/// Executions are failures followed by at most one success. Once the word
/// says done, `k` failures and the one success that followed them are all
/// the executions there are: `k + 1` have begun, and `k + 1` have ended.
pub proof fn lemma_retry_until_success(callers: Set<usize>, w: World)
    requires
        reached(callers, w),
    ensures
        forall|i: int| 0 <= i < w.results.len() - 1 ==> !w.results[i],
        w.results.len() <= w.started <= w.results.len() + 1,
        w.done() ==> w.results.len() > 0 && w.results.last() && w.started == w.results.len(),
        !w.done() && !w.pending() ==> w.started == w.results.len() && !w.succeeded(),
{
    reveal(World::inv);
    lemma_reached_is_sound(callers, w);
    lemma_plain_words();
    if w.runner is Some {
        assert(w.phase_ok(w.runner->0));
    }
}

/// No wake-up is lost. The waiter of a parked caller is free, and the
/// caller goes on; or it is queued behind an initializer in flight, whose
/// runner takes the queue when it stores its final word; or a runner has
/// taken it and does not return before it has notified it.
pub proof fn lemma_no_lost_wakeup(callers: Set<usize>, w: World, b: usize)
    requires
        reached(callers, w),
        w.has(b),
        w.phases[b] is Park,
    ensures
        match w.links[b] {
            Link::Free => w.event_for(b, true) == Some(Event::Notified),
            Link::Queued => w.runner is Some && w.has(w.runner->0) && (w.phases[w.runner->0] is Run
                || w.phases[w.runner->0] is Publish),
            Link::Detached { by } => w.has(by) && w.phases[by] is Wake && w.event_for(by, true)
                is None,
        },
{
    reveal(World::inv);
    lemma_reached_is_sound(callers, w);
    assert(w.link_ok(b));
    if w.links[b] is Detached {
        let by = w.links[b]->by;
        lemma_walk_with_cursor(w, by);
    }
}


/// A caller returns only when the initialization is complete, unless it
/// ran the initializer itself and the initializer failed.
pub proof fn lemma_return_after_completion(callers: Set<usize>, w: World, a: usize)
    requires
        reached(callers, w),
        w.has(a),
        w.phases[a] is Return,
    ensures
        match w.phases[a]->outcome {
            Outcome::Initialized => w.done() && w.winner == Some(a),
            Outcome::AlreadyDone => w.done() && w.winner != Some(a),
            Outcome::Failed => w.failed(),
        },
{
    reveal(World::inv);
    lemma_reached_is_sound(callers, w);
    assert(w.phase_ok(a));
    if w.winner is Some {
        assert(w.phase_ok(w.winner->0));
    }
}

/// Only a runner that wakes its waiters holds a list that it detached: no
/// caller parks, runs or returns with waiters left to notify.
pub proof fn lemma_lists_are_held_while_waking(callers: Set<usize>, w: World, a: usize)
    requires
        reached(callers, w),
        w.has(a),
        !(w.phases[a] is Wake),
    ensures
        w.walks[a].len() == 0,
        forall|b: usize| w.has(b) ==> #[trigger] w.links[b] != (Link::Detached { by: a }),
{
    lemma_reached_is_sound(callers, w);
    lemma_walk(w, a);
    assert forall|b: usize| w.has(b) implies #[trigger] w.links[b] != (Link::Detached { by: a }) by {
        if w.links[b] == (Link::Detached { by: a }) {
            assert(w.walks[a].contains(b));
        }
    }
}

/// The shared word leads to every queued waiter: while an initializer is
/// in flight, the word holds the address of the waiter linked last, the
/// `next` fields lead from each queued waiter to the one linked before it,
/// and the waiters so reached are the queued ones, each once.
pub proof fn lemma_word_leads_to_the_queue(callers: Set<usize>, w: World)
    requires
        reached(callers, w),
    ensures
        w.word@ matches OnceState::Pending { head } ==> head == head_of(w.queue),
        !w.pending() ==> w.queue.len() == 0,
        linked(w.nexts, w.queue),
        w.queue.no_duplicates(),
        forall|b: usize| w.has(b) ==> (#[trigger] w.links[b] is Queued <==> w.queue.contains(b)),
{
    reveal(World::chained);
    lemma_reached_is_sound(callers, w);
    assert forall|b: usize| w.has(b) && w.queue.contains(b) implies #[trigger] w.links[b] is Queued by {
        let i = choose|i: int| 0 <= i < w.queue.len() && w.queue[i] == b;
        assert(w.links[w.queue[i]] == Link::Queued);
    }
}

/// A runner's walk leads to every waiter that it has yet to notify: the
/// walk has come to the first of them, or to the null address when none is
/// left, the `next` fields lead from each to the one behind it, and the
/// waiters so reached are the ones that the runner detached and has not
/// notified, each once.
pub proof fn lemma_walk_leads_to_the_detached(callers: Set<usize>, w: World, a: usize)
    requires
        reached(callers, w),
        w.has(a),
        w.phases[a] is Wake,
    ensures
        w.cursors[a] == head_of(w.walks[a]),
        linked(w.nexts, w.walks[a]),
        w.walks[a].no_duplicates(),
        forall|b: usize|
            w.has(b) ==> (#[trigger] w.links[b] == (Link::Detached { by: a })
                <==> w.walks[a].contains(b)),
        forall|b: usize| w.walks[a].contains(b) ==> w.has(b),
{
    lemma_reached_is_sound(callers, w);
    lemma_walk(w, a);
    assert forall|b: usize| w.walks[a].contains(b) implies w.has(b) && #[trigger] w.links[b] == (
    Link::Detached { by: a }) by {
        let i = choose|i: int| 0 <= i < w.walks[a].len() && w.walks[a][i] == b;
        assert(w.has(w.walks[a][i]));
    }
}

/// Nobody waits in vain: as long as a caller has not returned, some caller
/// can take a step.
pub proof fn lemma_progress(w: World, a: usize)
    requires
        w.sound(),
        w.has(a),
        !(w.phases[a] is Return),
    ensures
        exists|next: World| w.steps_to(next),
{
    reveal(World::inv);
    match w.phases[a] {
        Phase::Wake { .. } => {
            lemma_runner_can_step(w, a);
        },
        Phase::Park => {
            assert(w.link_ok(a));
            match w.links[a] {
                Link::Free => {
                    lemma_can_perform(w, a);
                },
                Link::Queued => {
                    lemma_can_perform(w, w.runner->0);
                },
                Link::Detached { by } => {
                    lemma_runner_can_step(w, by);
                },
            }
        },
        _ => {
            lemma_can_perform(w, a);
        },
    }
}

/// A caller whose operation can complete can take a step.
proof fn lemma_can_perform(w: World, a: usize)
    requires
        w.has(a),
        w.event_for(a, true) is Some,
    ensures
        exists|next: World| w.steps_to(next),
{
    let next = w.perform(a, true);
    assert(w.has(a) && w.event_for(a, true) is Some && next == w.perform(a, true));
    assert(w.steps_to(next));
}

/// A runner that wakes its waiters can take a step: it notifies the waiter
/// that its walk has come to, or it has come to the end and returns.
proof fn lemma_runner_can_step(w: World, a: usize)
    requires
        w.has(a),
        w.phases[a] is Wake,
    ensures
        exists|next: World| w.steps_to(next),
{
    if w.drained(a) {
        lemma_can_perform(w, a);
    } else {
        let next = w.notify(a);
        assert(w.has(a) && w.phases[a] is Wake && !w.drained(a) && next == w.notify(a));
        assert(w.steps_to(next));
    }
}

} // verus!
