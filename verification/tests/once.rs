use std::cell::Cell;

use dyncast::once::{
    advance, decide, settle, Event, Once, OnceState, Outcome, Packed, Phase, STATE_COMPLETED,
    STATE_INIT, STATE_MASK, STATE_WAITER_MASK, STATE_WAITING,
};

#[test]
fn state_constants() {
    assert_eq!(STATE_INIT, 0);
    assert_eq!(STATE_WAITING, 1);
    assert_eq!(STATE_COMPLETED, 2);
    assert_eq!(STATE_MASK, 3);
    assert_eq!(STATE_WAITER_MASK, usize::MAX - 3);
}

#[test]
fn zero_word_is_idle() {
    let word = Packed::from_ptr(0);
    assert!(word.is_init());
    assert!(!word.is_waiting());
    assert!(!word.is_completed());
    assert_eq!(word.state(), STATE_INIT);
    assert_eq!(word.waiter(), 0);
}

#[test]
fn waiting_word_without_waiter() {
    let word = Packed::new_waiting(None);
    assert_eq!(word, Packed(1));
    assert_eq!(word.into_inner(), 1);
    assert!(word.is_waiting());
    assert!(!word.is_init());
    assert!(!word.is_completed());
    assert_eq!(word.waiter(), 0);
}

#[test]
fn waiting_word_holds_the_waiter() {
    let word = Packed::new_waiting(Some(0x7f00_1230));
    assert_eq!(word.into_inner(), 0x7f00_1231);
    assert_eq!(word.state(), STATE_WAITING);
    assert_eq!(word.waiter(), 0x7f00_1230);
    assert!(word.is_waiting());
}

#[test]
fn waiting_word_drops_the_low_bits() {
    let word = Packed::new_waiting(Some(0x1003));
    assert_eq!(word.into_inner(), 0x1001);
    assert_eq!(word.waiter(), 0x1000);
}

#[test]
fn completed_word() {
    let word = Packed::from_ptr(STATE_COMPLETED);
    assert!(word.is_completed());
    assert!(!word.is_init());
    assert!(!word.is_waiting());
    assert_eq!(word.into_inner(), 2);
}

#[test]
fn settle_after_success_and_failure() {
    assert_eq!(settle(true), Packed(2));
    assert_eq!(settle(false), Packed(0));
}

#[test]
fn decide_on_each_state() {
    assert_eq!(
        decide(Packed(2), 0x40),
        Phase::Return {
            outcome: Outcome::AlreadyDone
        }
    );
    assert_eq!(
        decide(Packed(0), 0x40),
        Phase::Claim {
            expected: Packed(0),
            desired: Packed(1)
        }
    );
    assert_eq!(
        decide(Packed(1), 0x40),
        Phase::Enqueue {
            expected: Packed(1),
            desired: Packed(0x41),
            next: 0
        }
    );
    assert_eq!(
        decide(Packed(0x81), 0x40),
        Phase::Enqueue {
            expected: Packed(0x81),
            desired: Packed(0x41),
            next: 0x80
        }
    );
}

#[test]
fn runner_path_on_success() {
    let phase = advance(Phase::Load, Event::Loaded { word: Packed(0) }, 0x40);
    assert_eq!(
        phase,
        Phase::Claim {
            expected: Packed(0),
            desired: Packed(1)
        }
    );
    let phase = advance(phase, Event::Exchanged, 0x40);
    assert_eq!(phase, Phase::Run);
    let phase = advance(phase, Event::Ran { succeeded: true }, 0x40);
    assert_eq!(
        phase,
        Phase::Publish {
            word: Packed(2),
            succeeded: true
        }
    );
    let phase = advance(
        phase,
        Event::Published {
            previous: Packed(0x81),
        },
        0x40,
    );
    assert_eq!(
        phase,
        Phase::Wake {
            head: 0x80,
            succeeded: true
        }
    );
    let phase = advance(phase, Event::Drained, 0x40);
    assert_eq!(
        phase,
        Phase::Return {
            outcome: Outcome::Initialized
        }
    );
}

#[test]
fn runner_path_on_failure() {
    let phase = advance(Phase::Run, Event::Ran { succeeded: false }, 0x40);
    assert_eq!(
        phase,
        Phase::Publish {
            word: Packed(0),
            succeeded: false
        }
    );
    let phase = advance(
        phase,
        Event::Published {
            previous: Packed(1),
        },
        0x40,
    );
    assert_eq!(
        phase,
        Phase::Wake {
            head: 0,
            succeeded: false
        }
    );
    let phase = advance(phase, Event::Drained, 0x40);
    assert_eq!(
        phase,
        Phase::Return {
            outcome: Outcome::Failed
        }
    );
}

#[test]
fn waiter_path() {
    let phase = advance(Phase::Load, Event::Loaded { word: Packed(1) }, 0x40);
    assert_eq!(
        phase,
        Phase::Enqueue {
            expected: Packed(1),
            desired: Packed(0x41),
            next: 0
        }
    );
    let phase = advance(phase, Event::Exchanged, 0x40);
    assert_eq!(phase, Phase::Park);
    let phase = advance(phase, Event::Notified, 0x40);
    assert_eq!(phase, Phase::Load);
    let phase = advance(phase, Event::Loaded { word: Packed(2) }, 0x40);
    assert_eq!(
        phase,
        Phase::Return {
            outcome: Outcome::AlreadyDone
        }
    );
}

#[test]
fn refused_exchange_decides_again() {
    let claim = Phase::Claim {
        expected: Packed(0),
        desired: Packed(1),
    };
    assert_eq!(
        advance(claim, Event::Refused { actual: Packed(1) }, 0x40),
        Phase::Enqueue {
            expected: Packed(1),
            desired: Packed(0x41),
            next: 0
        }
    );
    let enqueue = Phase::Enqueue {
        expected: Packed(1),
        desired: Packed(0x41),
        next: 0,
    };
    assert_eq!(
        advance(enqueue, Event::Refused { actual: Packed(0) }, 0x40),
        Phase::Claim {
            expected: Packed(0),
            desired: Packed(1)
        }
    );
    assert_eq!(
        advance(enqueue, Event::Refused { actual: Packed(2) }, 0x40),
        Phase::Return {
            outcome: Outcome::AlreadyDone
        }
    );
}

#[test]
fn once_state_is_comparable() {
    assert_eq!(OnceState::Pending { head: 8 }, OnceState::Pending { head: 8 });
    assert_ne!(OnceState::Idle, OnceState::Done);
}

#[test]
fn once_runs_the_initializer_once() {
    let runs = Cell::new(0);
    let mut once = Once::new();
    assert!(!once.is_completed());

    let first: Result<Option<u32>, ()> = once.call_once(|| {
        runs.set(runs.get() + 1);
        Ok(7)
    });
    assert_eq!(first, Ok(Some(7)));
    assert!(once.is_completed());

    for _ in 0..5 {
        let later: Result<Option<u32>, ()> = once.call_once(|| {
            runs.set(runs.get() + 1);
            Ok(8)
        });
        assert_eq!(later, Ok(None));
    }
    assert_eq!(runs.get(), 1);
    assert!(once.is_completed());
}

#[test]
fn once_retries_after_failures() {
    let failures = 3;
    let runs = Cell::new(0);
    let mut once = Once::new();
    let mut calls = 0;
    let mut ran_it = 0;
    while calls < 10 {
        calls += 1;
        let res: Result<Option<u32>, &'static str> = once.call_once(|| {
            runs.set(runs.get() + 1);
            if runs.get() <= failures {
                Err("not yet")
            } else {
                Ok(runs.get())
            }
        });
        if calls <= failures {
            assert_eq!(res, Err("not yet"));
            assert!(!once.is_completed());
        } else if calls == failures + 1 {
            assert_eq!(res, Ok(Some(4)));
            ran_it += 1;
            assert!(once.is_completed());
        } else {
            assert_eq!(res, Ok(None));
        }
    }
    assert_eq!(runs.get(), failures + 1);
    assert_eq!(ran_it, 1);
}

#[test]
fn failure_does_not_poison() {
    let mut once = Once::new();
    let failed: Result<Option<u8>, u8> = once.call_once(|| Err(1));
    assert_eq!(failed, Err(1));
    assert!(!once.is_completed());
    let recovered: Result<Option<u8>, u8> = once.call_once(|| Ok(2));
    assert_eq!(recovered, Ok(Some(2)));
}

#[test]
fn event_of_another_phase_changes_nothing() {
    assert_eq!(advance(Phase::Park, Event::Drained, 0x40), Phase::Park);
    assert_eq!(advance(Phase::Run, Event::Exchanged, 0x40), Phase::Run);
    assert_eq!(
        advance(Phase::Load, Event::Ran { succeeded: true }, 0x40),
        Phase::Load
    );
    let returned = Phase::Return {
        outcome: Outcome::Initialized,
    };
    assert_eq!(advance(returned, Event::Notified, 0x40), returned);
    assert_eq!(
        advance(returned, Event::Loaded { word: Packed(0) }, 0x40),
        returned
    );
}
