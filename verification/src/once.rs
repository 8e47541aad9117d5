//! One-time initialization: the packed state word, the decision that a
//! caller takes on each word it observes, and a `Once` for a single owner.
//!
//! The state lives in one machine word so that the all-zero word is a valid,
//! idle `Once`. The two low bits hold the state; while an initializer runs,
//! the remaining bits hold the address of the waiter that was linked last.

use vstd::prelude::*;

verus! {

/// The state bits of an idle `Once`.
pub const STATE_INIT: usize = 0;

/// The state bits while an initializer runs.
pub const STATE_WAITING: usize = 1;

/// The state bits once an initializer has succeeded.
pub const STATE_COMPLETED: usize = 2;

/// The bits of a word that hold the state.
pub const STATE_MASK: usize = 3;

/// The bits of a word that hold the address of a waiter.
pub const STATE_WAITER_MASK: usize = !STATE_MASK;

/// The three states of a `Once`.
#[derive(Clone, Copy, Debug, PartialEq, Eq)]
pub enum OnceState {
    /// No initializer has succeeded and none is running.
    Idle,
    /// An initializer is running. `head` is the address of the waiter that
    /// parked last, or zero when nobody waits.
    Pending { head: usize },
    /// An initializer has succeeded.
    Done,
}

/// A state word as it is stored and exchanged.
#[derive(Clone, Copy, Debug, PartialEq, Eq)]
pub struct Packed(pub usize);

impl View for Packed {
    type V = OnceState;

    open spec fn view(&self) -> OnceState {
        if self.spec_state() == STATE_WAITING {
            OnceState::Pending { head: self.spec_waiter() }
        } else if self.spec_state() == STATE_COMPLETED {
            OnceState::Done
        } else {
            OnceState::Idle
        }
    }
}

impl Packed {
    /// The state bits of the word.
    pub open spec fn spec_state(&self) -> usize {
        self.0 & STATE_MASK
    }

    /// The waiter bits of the word.
    pub open spec fn spec_waiter(&self) -> usize {
        self.0 & STATE_WAITER_MASK
    }

    /// Whether the word is one that a `Once` ever holds: idle or done with
    /// no waiter bits, or pending.
    pub open spec fn valid(&self) -> bool {
        self.0 == STATE_INIT || self.0 == STATE_COMPLETED || self.spec_state() == STATE_WAITING
    }

    /// The word of a running initializer whose most recent waiter lives at
    /// `waiter`, or that has no waiter yet. The two low bits of the address
    /// are dropped: waiters are aligned to four bytes.
    #[inline(always)]
    pub fn new_waiting(waiter: Option<usize>) -> (packed: Self)
        ensures
            packed.0 == (match waiter {
                Some(addr) => addr,
                None => 0usize,
            } & STATE_WAITER_MASK) | STATE_WAITING,
            waiter is None ==> packed.0 == STATE_WAITING,
            packed.valid(),
            packed@ == (OnceState::Pending {
                head: match waiter {
                    Some(addr) => addr & STATE_WAITER_MASK,
                    None => 0usize,
                },
            }),
    {
        let addr: usize = match waiter {
            Some(addr) => addr,
            None => 0,
        };
        let word: usize = (addr & STATE_WAITER_MASK) | STATE_WAITING;
        assert(word & 3 == 1 && word & !3usize == addr & !3usize) by (bit_vector)
            requires
                word == (addr & !3usize) | 1,
        ;
        assert(0usize & !3usize == 0 && (0usize & !3usize) | 1 == 1) by (bit_vector);
        Self(word)
    }

    /// The word read from storage.
    #[inline(always)]
    pub fn from_ptr(ptr: usize) -> (packed: Self)
        ensures
            packed.0 == ptr,
    {
        Self(ptr)
    }

    /// The address of the most recent waiter, zero when there is none.
    #[verifier::when_used_as_spec(spec_waiter)]
    #[inline(always)]
    pub fn waiter(&self) -> (addr: usize)
        ensures
            addr == self.spec_waiter(),
    {
        self.0 & STATE_WAITER_MASK
    }

    /// The state bits of the word.
    #[verifier::when_used_as_spec(spec_state)]
    #[inline(always)]
    pub fn state(&self) -> (state: usize)
        ensures
            state == self.spec_state(),
    {
        self.0 & STATE_MASK
    }

    /// Whether an initializer is running.
    #[inline(always)]
    pub fn is_waiting(&self) -> (res: bool)
        ensures
            res == (self@ is Pending),
    {
        self.state() == STATE_WAITING
    }

    /// Whether the `Once` is idle. An idle word carries no waiter.
    #[inline(always)]
    pub fn is_init(&self) -> (res: bool)
        requires
            self.spec_state() == STATE_INIT ==> self.spec_waiter() == 0,
        ensures
            res == (self.0 == STATE_INIT),
            self.valid() ==> res == (self@ is Idle),
    {
        let word: usize = self.0;
        assert(word & 3 == 0 && word & !3usize == 0 ==> word == 0) by (bit_vector);
        assert(0usize & 3 == 0 && 2usize & 3 == 2) by (bit_vector);
        self.state() == STATE_INIT
    }

    /// Whether an initializer has succeeded. A completed word carries no
    /// waiter.
    #[inline(always)]
    pub fn is_completed(&self) -> (res: bool)
        requires
            self.spec_state() == STATE_COMPLETED ==> self.spec_waiter() == 0,
        ensures
            res == (self.0 == STATE_COMPLETED),
            res == (self@ is Done),
    {
        let word: usize = self.0;
        assert(word & 3 == 2 && word & !3usize == 0 ==> word == 2) by (bit_vector);
        assert(2usize & 3 == 2) by (bit_vector);
        self.state() == STATE_COMPLETED
    }

    /// The word as it goes into storage.
    #[inline(always)]
    pub fn into_inner(self) -> (word: usize)
        ensures
            word == self.0,
    {
        self.0
    }
}


/// How a call of `call_once` ends.
#[derive(Clone, Copy, Debug, PartialEq, Eq)]
pub enum Outcome {
    /// This caller ran the initializer, and it succeeded.
    Initialized,
    /// An initializer had succeeded before; this caller ran nothing.
    AlreadyDone,
    /// This caller ran the initializer, and it failed. The failure goes to
    /// this caller and to nobody else.
    Failed,
}

/// What a caller does next. Each phase but the last names one operation on
/// the shared word, on the initializer or on the waiters, and the caller
/// reports how it went with the matching `Event`.
#[derive(Clone, Copy, Debug, PartialEq, Eq)]
pub enum Phase {
    /// Read the state word.
    Load,
    /// Compete for the right to run: replace `expected` by `desired` if the
    /// word still is `expected`.
    Claim { expected: Packed, desired: Packed },
    /// Store `next` in the caller's waiter, then link the waiter in front of
    /// the list: replace `expected` by `desired` if the word still is
    /// `expected`.
    Enqueue { expected: Packed, desired: Packed, next: usize },
    /// Run the initializer.
    Run,
    /// Store `word` and take the word that it replaces.
    Publish { word: Packed, succeeded: bool },
    /// Notify every waiter of the list that starts at `head`, then wake its
    /// thread.
    Wake { head: usize, succeeded: bool },
    /// Park until the caller's waiter has been notified.
    Park,
    /// Return to the caller of `call_once`.
    Return { outcome: Outcome },
}

/// How the operation of a phase went.
#[derive(Clone, Copy, Debug, PartialEq, Eq)]
pub enum Event {
    /// The state word was read.
    Loaded { word: Packed },
    /// The exchange took place.
    Exchanged,
    /// The exchange did not take place: the word was `actual`.
    Refused { actual: Packed },
    /// The initializer returned, or failed.
    Ran { succeeded: bool },
    /// The final word is stored; it replaced `previous`.
    Published { previous: Packed },
    /// Every waiter of the list has been notified.
    Drained,
    /// The caller's waiter has been notified.
    Notified,
}

impl Phase {
    /// Whether `event` can come to a caller in this phase at all: a word
    /// that comes back from storage is a valid one, and the word that the
    /// final word replaces is that of a running initializer.
    pub open spec fn admits(&self, event: Event) -> bool {
        match (*self, event) {
            (_, Event::Loaded { word }) => word.valid(),
            (_, Event::Refused { actual }) => actual.valid(),
            (Phase::Publish { .. }, Event::Published { previous }) => previous@ is Pending,
            _ => true,
        }
    }

    /// Whether `event` reports on the operation of this phase, and can come
    /// to the caller at all.
    pub open spec fn accepts(&self, event: Event) -> bool {
        match (*self, event) {
            (Phase::Load, Event::Loaded { word }) => word.valid(),
            (Phase::Claim { .. }, Event::Exchanged) => true,
            (Phase::Claim { .. }, Event::Refused { actual }) => actual.valid(),
            (Phase::Enqueue { .. }, Event::Exchanged) => true,
            (Phase::Enqueue { .. }, Event::Refused { actual }) => actual.valid(),
            (Phase::Run, Event::Ran { .. }) => true,
            (Phase::Publish { .. }, Event::Published { previous }) => previous@ is Pending,
            (Phase::Wake { .. }, Event::Drained) => true,
            (Phase::Park, Event::Notified) => true,
            _ => false,
        }
    }
}

/// The phase that a caller enters on observing `observed`: it returns when
/// the initialization is done, competes to run when the `Once` is idle, and
/// queues its waiter behind the running initializer otherwise.
pub open spec fn spec_decide(observed: Packed, waiter: usize) -> Phase {
    match observed@ {
        OnceState::Done => Phase::Return { outcome: Outcome::AlreadyDone },
        OnceState::Idle => Phase::Claim {
            expected: observed,
            desired: Packed(STATE_WAITING),
        },
        OnceState::Pending { head } => Phase::Enqueue {
            expected: observed,
            desired: Packed((waiter & STATE_WAITER_MASK) | STATE_WAITING),
            next: head,
        },
    }
}

/// The word that ends a run: done after a success, idle again after a
/// failure, so that a later caller may retry.
pub open spec fn spec_settle(succeeded: bool) -> Packed {
    if succeeded {
        Packed(STATE_COMPLETED)
    } else {
        Packed(STATE_INIT)
    }
}

/// The phase that follows `phase` once its operation went as `event` says.
/// An event that does not report on the operation of `phase` changes
/// nothing.
pub open spec fn spec_advance(phase: Phase, event: Event, waiter: usize) -> Phase {
    match (phase, event) {
        (Phase::Load, Event::Loaded { word }) => spec_decide(word, waiter),
        (Phase::Claim { .. }, Event::Exchanged) => Phase::Run,
        (Phase::Claim { .. }, Event::Refused { actual }) => spec_decide(actual, waiter),
        (Phase::Enqueue { .. }, Event::Exchanged) => Phase::Park,
        (Phase::Enqueue { .. }, Event::Refused { actual }) => spec_decide(actual, waiter),
        (Phase::Run, Event::Ran { succeeded }) => Phase::Publish {
            word: spec_settle(succeeded),
            succeeded,
        },
        (Phase::Publish { succeeded, .. }, Event::Published { previous }) => Phase::Wake {
            head: previous.spec_waiter(),
            succeeded,
        },
        (Phase::Wake { succeeded, .. }, Event::Drained) => Phase::Return {
            outcome: if succeeded {
                Outcome::Initialized
            } else {
                Outcome::Failed
            },
        },
        (Phase::Park, Event::Notified) => Phase::Load,
        _ => phase,
    }
}

/// Decides what a caller whose waiter lives at `waiter` does on observing
/// `observed`.
pub fn decide(observed: Packed, waiter: usize) -> (phase: Phase)
    requires
        observed.valid(),
    ensures
        phase == spec_decide(observed, waiter),
{
    let word: usize = observed.0;
    assert(0usize & 3 == 0 && 0usize & !3usize == 0 && 2usize & !3usize == 0) by (bit_vector);
    assert(word & 3 == 1 ==> word != 0 && word != 2) by (bit_vector);
    if observed.is_completed() {
        return Phase::Return { outcome: Outcome::AlreadyDone };
    }
    if observed.is_init() {
        return Phase::Claim { expected: observed, desired: Packed::new_waiting(None) };
    }
    assert(observed@ is Pending);
    Phase::Enqueue {
        expected: observed,
        desired: Packed::new_waiting(Some(waiter)),
        next: observed.waiter(),
    }
}

/// The word that a runner stores when its initializer has returned or
/// failed.
pub fn settle(succeeded: bool) -> (word: Packed)
    ensures
        word == spec_settle(succeeded),
        word.valid(),
        word@ == if succeeded {
            OnceState::Done
        } else {
            OnceState::Idle
        },
{
    assert(0usize & 3 == 0 && 2usize & 3 == 2) by (bit_vector);
    if succeeded {
        Packed::from_ptr(STATE_COMPLETED)
    } else {
        Packed::from_ptr(STATE_INIT)
    }
}

/// Takes a caller from one phase to the next. `waiter` is the address of
/// the caller's waiter, aligned to four bytes.
pub fn advance(phase: Phase, event: Event, waiter: usize) -> (next: Phase)
    requires
        phase.admits(event),
    ensures
        next == spec_advance(phase, event, waiter),
{
    match (phase, event) {
        (Phase::Load, Event::Loaded { word }) => decide(word, waiter),
        (Phase::Claim { .. }, Event::Exchanged) => Phase::Run,
        (Phase::Claim { .. }, Event::Refused { actual }) => decide(actual, waiter),
        (Phase::Enqueue { .. }, Event::Exchanged) => Phase::Park,
        (Phase::Enqueue { .. }, Event::Refused { actual }) => decide(actual, waiter),
        (Phase::Run, Event::Ran { succeeded }) => Phase::Publish {
            word: settle(succeeded),
            succeeded,
        },
        (Phase::Publish { succeeded, .. }, Event::Published { previous }) => Phase::Wake {
            head: previous.waiter(),
            succeeded,
        },
        (Phase::Wake { succeeded, .. }, Event::Drained) => Phase::Return {
            outcome: if succeeded {
                Outcome::Initialized
            } else {
                Outcome::Failed
            },
        },
        (Phase::Park, Event::Notified) => Phase::Load,
        _ => phase,
    }
}


/// A `Once` in the hands of a single owner. The exclusive borrow stands in
/// for the exchange on the shared word: the owner always wins the claim and
/// nobody queues behind it, so the word at rest is idle or done.
#[derive(Debug)]
pub struct Once {
    state: Packed,
}

impl Once {
    #[verifier::type_invariant]
    spec fn at_rest(self) -> bool {
        self.state.0 == STATE_INIT || self.state.0 == STATE_COMPLETED
    }

    /// Whether an initializer has succeeded.
    pub closed spec fn completed(&self) -> bool {
        self.state@ is Done
    }

    /// An idle `Once`.
    pub fn new() -> (once: Self)
        ensures
            !once.completed(),
    {
        assert(0usize & 3 == 0) by (bit_vector);
        Self { state: Packed::from_ptr(STATE_INIT) }
    }

    /// Whether an initializer has succeeded.
    pub fn is_completed(&self) -> (res: bool)
        ensures
            res == self.completed(),
    {
        proof {
            use_type_invariant(self);
        }
        assert(0usize & 3 == 0 && 0usize & !3usize == 0 && 2usize & !3usize == 0) by (bit_vector);
        self.state.is_completed()
    }

    /// Runs `f` unless an earlier initializer has succeeded. After a
    /// success the `Once` is done for good, and every later call returns
    /// `Ok(None)` without running anything. A failure goes to the caller and
    /// leaves the `Once` idle, so that a later call runs its initializer.
    pub fn call_once<R, E, F: FnOnce() -> Result<R, E>>(&mut self, f: F) -> (res: Result<
        Option<R>,
        E,
    >)
        requires
            !old(self).completed() ==> f.requires(()),
        ensures
            old(self).completed() ==> res == Ok::<Option<R>, E>(None) && final(self).completed(),
            !old(self).completed() ==> match res {
                Ok(Some(val)) => f.ensures((), Ok(val)) && final(self).completed(),
                Ok(None) => false,
                Err(err) => f.ensures((), Err(err)) && !final(self).completed(),
            },
    {
        proof {
            use_type_invariant(&*self);
        }
        assert(0usize & 3 == 0 && 0usize & !3usize == 0 && 2usize & !3usize == 0) by (bit_vector);
        let packed = self.state;
        if packed.is_completed() {
            return Ok(None);
        }
        self.call_once_slow(packed, f)
    }

    fn call_once_slow<R, E, F: FnOnce() -> Result<R, E>>(&mut self, packed: Packed, f: F) -> (res:
        Result<Option<R>, E>)
        requires
            packed == old(self).state,
            packed.0 == STATE_INIT,
            f.requires(()),
        ensures
            match res {
                Ok(Some(val)) => f.ensures((), Ok(val)) && final(self).completed(),
                Ok(None) => false,
                Err(err) => f.ensures((), Err(err)) && !final(self).completed(),
            },
    {
        assert(0usize & 3 == 0 && 0usize & !3usize == 0) by (bit_vector);
        match decide(packed, 0) {
            Phase::Claim { .. } => {
                match f() {
                    Ok(val) => {
                        self.state = settle(true);
                        Ok(Some(val))
                    },
                    Err(err) => {
                        self.state = settle(false);
                        Err(err)
                    },
                }
            },
            _ => Ok(None),
        }
    }
}

} // verus!
