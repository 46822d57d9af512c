use zeppelin_embed::clock::{
    ClockDomain, ManualMonotonicClock, MonotonicClock, SystemMonotonicClock, LATEST_INSTANT,
};
use zeppelin_embed::control::{
    CancelToken, Deadline, DeadlineError, LockAttempt, LockStep, QueryCancellation, QueryControl,
    StopFlags, StopState,
};
use zeppelin_embed::error::{QueryError, ScanError, StoreError};

#[test]
fn the_first_terminal_state_stays() {
    let mut flags = StopFlags::new();
    let token = CancelToken::new(&mut flags);
    assert!(!token.is_cancelled(&flags));
    flags.settle(token.flag, StopState::TimedOut);
    flags.settle(token.flag, StopState::Cancelled);
    assert!(!token.is_cancelled(&flags));
    let deadline = Deadline::after_instant(9, ClockDomain::System, 1, &mut flags).expect("deadline");
    let control = QueryControl::Deadline(deadline);
    control.mark_timed_out(&mut flags);
    flags.settle(control.state(), StopState::Cancelled);
    assert_eq!(flags.state(control.state()), StopState::TimedOut);
    assert_eq!(
        control.error(&flags),
        Some(QueryError::Timeout { partial: false })
    );
}

#[test]
fn a_control_is_on_the_board_that_it_was_made_on() {
    let mut flags = StopFlags::new();
    let token = QueryControl::Cancel(CancelToken::new(&mut flags));
    let deadline = QueryControl::Deadline(
        Deadline::after_instant(9, ClockDomain::System, 1, &mut flags).expect("deadline"),
    );
    for control in [token, deadline] {
        assert!(control.is_on_board(&flags));
        assert!(!control.is_on_board(&StopFlags::new()));
    }
    flags.settle(token.state(), StopState::TimedOut);
    flags.settle(deadline.state(), StopState::Cancelled);
    assert!(!token.is_on_board(&flags));
    assert!(!deadline.is_on_board(&flags));
}

#[test]
fn a_found_stop_stays_found_on_whatever_comes_of_the_board() {
    let mut flags = StopFlags::new();
    let token = CancelToken::new(&mut flags);
    let deadline = Deadline::after_instant(9, ClockDomain::System, 1, &mut flags).expect("deadline");
    let (cancelled, timed) = (QueryControl::Cancel(token), QueryControl::Deadline(deadline));
    assert_eq!(cancelled.checkpoint_at(&mut flags, 100), Ok(()));
    assert_eq!(timed.checkpoint_at(&mut flags, 9), Ok(()));
    token.cancel(&mut flags);
    assert_eq!(timed.checkpoint_at(&mut flags, 10), Err(QueryError::Timeout { partial: false }));
    let other = CancelToken::new(&mut flags);
    other.cancel(&mut flags);
    for now in [0, 9, 100] {
        assert_eq!(
            cancelled.checkpoint_at(&mut flags, now),
            Err(QueryError::Cancelled { partial: false })
        );
        assert_eq!(
            timed.checkpoint_at(&mut flags, now),
            Err(QueryError::Timeout { partial: false })
        );
    }
}

#[test]
fn a_stopped_query_does_not_wait_for_a_cache() {
    let mut flags = StopFlags::new();
    let token = CancelToken::new(&mut flags);
    let lease = flags.add_flag();
    let cancellation = QueryCancellation::new(QueryControl::Cancel(token), lease);
    assert_eq!(cancellation.begin_cache_lock(&mut flags, 1), Ok(()));
    token.cancel(&mut flags);
    assert_eq!(
        cancellation.begin_cache_lock(&mut flags, 1),
        Err(QueryError::Scan(ScanError::Cancelled { partial: false }))
    );
    assert_eq!(
        cancellation.cache_lock_step(&mut flags, 1, LockAttempt::Poisoned, "cache"),
        Err(QueryError::Store(StoreError::Synchronization { component: "cache" }))
    );
    flags.settle(lease, StopState::Cancelled);
    assert_eq!(
        cancellation.begin_cache_lock(&mut flags, 1),
        Err(QueryError::Scan(ScanError::ReadCancelled { partial: false }))
    );
    let deadline = Deadline::after_instant(9, ClockDomain::System, 1, &mut flags).expect("deadline");
    let late = QueryCancellation::new(QueryControl::Deadline(deadline), flags.add_flag());
    assert_eq!(
        late.begin_cache_lock(&mut flags, 10),
        Err(QueryError::Scan(ScanError::Timeout { partial: false }))
    );
}

#[test]
fn cancelling_twice_is_cancelling_once() {
    let mut flags = StopFlags::new();
    let token = CancelToken::new(&mut flags);
    let copy = token;
    copy.cancel(&mut flags);
    copy.cancel(&mut flags);
    assert!(token.is_cancelled(&flags));
    assert_eq!(
        QueryControl::Cancel(token).checkpoint_at(&mut flags, 0),
        Err(QueryError::Cancelled { partial: false })
    );
}

#[test]
fn a_deadline_expires_at_its_instant_and_stays_expired() {
    let mut flags = StopFlags::new();
    let mut clock = ManualMonotonicClock::starting_at(100);
    let deadline = Deadline::after_with_test_clock(50, &clock, &mut flags).expect("deadline");
    let control = QueryControl::Deadline(deadline);
    assert_eq!(control.deadline(), Some(150));
    clock.advance(49);
    assert_eq!(clock.now(), 149);
    assert_eq!(control.checkpoint(&mut flags, &clock), Ok(()));
    clock.advance(1);
    assert_eq!(
        control.checkpoint(&mut flags, &clock),
        Err(QueryError::Timeout { partial: false })
    );
    assert_eq!(
        control.checkpoint_at(&mut flags, 0),
        Err(QueryError::Timeout { partial: false })
    );
}

#[test]
fn a_deadline_behind_the_clock_range_is_refused() {
    let mut flags = StopFlags::new();
    let centuries = std::time::Duration::from_secs(100_000 * 365 * 86_400).as_nanos();
    let far = Deadline::after_instant(centuries, ClockDomain::System, 1, &mut flags);
    assert_eq!(far.map(|deadline| deadline.at), Ok(centuries + 1));
    let longest = std::time::Duration::MAX.as_nanos();
    let error = Deadline::after_instant(longest, ClockDomain::System, 1, &mut flags)
        .expect_err("out of range");
    assert_eq!(error, DeadlineError::OutOfRange);
    assert_eq!(error.message(), "query deadline is outside Instant's range");
}

#[test]
fn a_manual_clock_never_goes_back() {
    let mut clock = ManualMonotonicClock::starting_at(5);
    assert_eq!(clock.now(), 5);
    clock.advance(10);
    assert_eq!(clock.now(), 15);
    clock.advance(LATEST_INSTANT);
    assert_eq!(clock.now(), LATEST_INSTANT);
    clock.advance(1);
    assert_eq!(clock.now(), LATEST_INSTANT);
    let mut far = ManualMonotonicClock::starting_at(LATEST_INSTANT - 3);
    far.advance(3);
    assert_eq!(far.now(), LATEST_INSTANT);
    far.advance(1);
    assert_eq!(far.now(), LATEST_INSTANT);
}

#[test]
fn two_advances_read_as_one() {
    let mut twice = ManualMonotonicClock::starting_at(7);
    twice.advance(30);
    twice.advance(12);
    let mut once = ManualMonotonicClock::starting_at(7);
    once.advance(42);
    assert_eq!(twice.now(), 49);
    assert_eq!(twice.now(), once.now());
}

#[test]
fn a_test_deadline_names_the_clock_that_it_runs_on() {
    let mut flags = StopFlags::new();
    let mut clock = ManualMonotonicClock::in_series(1_000, 4);
    let deadline = Deadline::after_with_test_clock(20, &clock, &mut flags).expect("deadline");
    assert_eq!(deadline.clock, ClockDomain::Manual(4));
    assert_eq!(deadline.clock, clock.domain());
    let control = QueryControl::Deadline(deadline);
    for advance in [0, 19, 1, 1_000_000] {
        clock.advance(advance);
        assert_eq!(control.deadline(), Some(1_020));
        assert_eq!(control.now(&clock), Some(clock.now()));
        assert_eq!(control.checkpoint(&mut flags, &clock).is_err(), clock.now() >= 1_020);
    }
    let token = CancelToken::new(&mut flags);
    assert_eq!(QueryControl::Cancel(token).now(&clock), None);
}

#[test]
fn a_store_evaluates_a_deadline_by_its_own_clock() {
    let mut flags = StopFlags::new();
    let asked = ManualMonotonicClock::starting_at(10);
    let mut stores = ManualMonotonicClock::in_series(0, 1);
    let deadline = Deadline::after_with_clock(5, &asked, &mut flags).expect("deadline");
    assert_eq!(deadline.clock, ClockDomain::Manual(0));
    let admitted = QueryControl::Deadline(deadline).with_clock(&stores);
    assert_eq!(admitted.deadline(), Some(15));
    stores.advance(14);
    assert_eq!(admitted.checkpoint(&mut flags, &stores), Ok(()));
    stores.advance(1);
    assert_eq!(
        admitted.checkpoint(&mut flags, &stores),
        Err(QueryError::Timeout { partial: false })
    );
    let token = QueryControl::Cancel(CancelToken::new(&mut flags));
    assert_eq!(token.with_clock(&stores), token);
}

#[test]
fn the_system_clock_never_goes_back_and_gives_later_deadlines() {
    let mut flags = StopFlags::new();
    let clock = SystemMonotonicClock::new();
    let first = clock.now();
    let mut spins = 0_u64;
    let mut later = clock.now();
    while later == first && spins < 100_000_000 {
        later = clock.now();
        spins += 1;
    }
    assert!(later > first, "the clock moves");
    let deadline = Deadline::after(3_600_000_000_000, &clock, &mut flags).expect("one hour");
    let now = clock.now();
    assert!(deadline.at > now);
    assert_eq!(deadline.clock, ClockDomain::System);
    assert!(deadline.at <= now + 3_600_000_000_000);
    assert_eq!(
        QueryControl::Deadline(deadline).checkpoint(&mut flags, &clock),
        Ok(())
    );
    let due = Deadline::after(0, &clock, &mut flags).expect("due at once");
    assert_eq!(
        QueryControl::Deadline(due).checkpoint(&mut flags, &clock),
        Err(QueryError::Timeout { partial: false })
    );
}

#[test]
fn close_wins_over_the_caller() {
    let mut flags = StopFlags::new();
    let token = CancelToken::new(&mut flags);
    let lease = flags.add_flag();
    let cancellation = QueryCancellation::new(QueryControl::Cancel(token), lease);
    assert_eq!(cancellation.check(&flags), Ok(()));
    token.cancel(&mut flags);
    assert_eq!(
        cancellation.check(&flags),
        Err(ScanError::Cancelled { partial: false })
    );
    flags.settle(lease, StopState::Cancelled);
    assert_eq!(
        cancellation.check_graph(&mut flags, 0),
        Err(ScanError::ReadCancelled { partial: false })
    );
    assert_eq!(cancellation.cancel_token_for_test(), Some(token));
}

#[test]
fn waiting_for_a_cache_lock_observes_the_deadline_and_poison() {
    let mut flags = StopFlags::new();
    let deadline =
        Deadline::after_instant(10, ClockDomain::System, 0, &mut flags).expect("deadline");
    let lease = flags.add_flag();
    let cancellation = QueryCancellation::new(QueryControl::Deadline(deadline), lease);
    assert_eq!(
        cancellation.cache_lock_step(&mut flags, 9, LockAttempt::WouldBlock, "cache"),
        Ok(LockStep::Retry)
    );
    assert_eq!(
        cancellation.cache_lock_step(&mut flags, 9, LockAttempt::Acquired, "cache"),
        Ok(LockStep::Keep)
    );
    assert_eq!(
        cancellation.cache_lock_step(&mut flags, 9, LockAttempt::Poisoned, "cache"),
        Err(QueryError::Store(StoreError::Synchronization {
            component: "cache"
        }))
    );
    assert_eq!(
        cancellation.cache_lock_step(&mut flags, 10, LockAttempt::Acquired, "cache"),
        Err(QueryError::Scan(ScanError::Timeout { partial: false }))
    );
    assert_eq!(cancellation.cancel_token_for_test(), None);
}
