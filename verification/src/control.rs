//! Query cancellation and deadlines.
//!
//! A query carries one stop mechanism: a deadline or a cancel token. Tokens,
//! deadlines and snapshot leases name a flag of a shared board, so every copy
//! sees the same state, and the first terminal state of a flag stays. A program
//! shares one board: a control is asked on the board that it was made on.

use crate::clock::gives;
use crate::clock::ClockDomain;
use crate::clock::ManualMonotonicClock;
use crate::clock::MonotonicClock;
use crate::clock::LATEST_INSTANT;
use crate::clock::SystemMonotonicClock;
use crate::error::QueryError;
use crate::error::ScanError;
use crate::error::StoreError;
use vstd::prelude::*;

verus! {

/// State of one stop flag.
#[derive(Clone, Copy, Debug, PartialEq, Eq, Structural)]
pub enum StopState {
    Active,
    Cancelled,
    TimedOut,
}

/// The board of stop flags that queries and their callers share.
#[derive(Debug)]
pub struct StopFlags {
    states: Vec<StopState>,
}

impl View for StopFlags {
    type V = Seq<StopState>;

    closed spec fn view(&self) -> Seq<StopState> {
        self.states@
    }
}

/// The state that a flag shows; one that the board does not hold is active.
pub open spec fn state_of(flags: Seq<StopState>, flag: usize) -> StopState {
    if flag < flags.len() {
        flags[flag as int]
    } else {
        StopState::Active
    }
}

/// The board after a request to move a flag: only an active flag moves.
pub open spec fn settled(flags: Seq<StopState>, flag: usize, to: StopState) -> Seq<StopState> {
    if flag < flags.len() && flags[flag as int] == StopState::Active {
        flags.update(flag as int, to)
    } else {
        flags
    }
}

/// Whether a board can come of another one: flags are added and settled, and none
/// that is settled changes.
pub open spec fn board_grows(before: Seq<StopState>, after: Seq<StopState>) -> bool {
    &&& before.len() <= after.len()
    &&& forall|i: int|
        0 <= i < before.len() && before[i] != StopState::Active ==> #[trigger] after[i]
            == before[i]
}

impl StopFlags {
    /// An empty board.
    pub fn new() -> (flags: StopFlags)
        ensures
            flags@ == Seq::<StopState>::empty(),
    {
        StopFlags { states: Vec::new() }
    }

    /// Adds an active flag and returns its place.
    pub fn add_flag(&mut self) -> (flag: usize)
        ensures
            flag == old(self)@.len(),
            final(self)@ == old(self)@.push(StopState::Active),
            board_grows(old(self)@, final(self)@),
    {
        let flag: usize = self.states.len();
        self.states.push(StopState::Active);
        flag
    }

    /// The state that a flag shows.
    pub fn state(&self, flag: usize) -> (state: StopState)
        ensures
            state == state_of(self@, flag),
    {
        if flag < self.states.len() {
            self.states[flag]
        } else {
            StopState::Active
        }
    }

    /// Moves an active flag to a terminal state; a settled flag stays.
    pub fn settle(&mut self, flag: usize, to: StopState)
        ensures
            final(self)@ == settled(old(self)@, flag, to),
            board_grows(old(self)@, final(self)@),
    {
        if flag < self.states.len() && self.states[flag] == StopState::Active {
            self.states.set(flag, to);
        }
    }
}

/// A copyable request to cancel one query without partial results.
#[derive(Clone, Copy, Debug, PartialEq, Eq, Structural)]
pub struct CancelToken {
    pub flag: usize,
}

impl CancelToken {
    /// Creates an active token.
    pub fn new(flags: &mut StopFlags) -> (token: CancelToken)
        ensures
            token.flag == old(flags)@.len(),
            final(flags)@ == old(flags)@.push(StopState::Active),
            QueryControl::Cancel(token).on_board(final(flags)@),
    {
        CancelToken { flag: flags.add_flag() }
    }

    /// Requests cancellation. Repeated calls have no further effect.
    pub fn cancel(&self, flags: &mut StopFlags)
        requires
            QueryControl::Cancel(*self).on_board(old(flags)@),
        ensures
            final(flags)@ == settled(old(flags)@, self.flag, StopState::Cancelled),
            final(flags)@[self.flag as int] == StopState::Cancelled,
            board_grows(old(flags)@, final(flags)@),
            QueryControl::Cancel(*self).on_board(final(flags)@),
    {
        flags.settle(self.flag, StopState::Cancelled);
    }

    /// Whether the token was cancelled.
    pub fn is_cancelled(&self, flags: &StopFlags) -> (result: bool)
        ensures
            result == (state_of(flags@, self.flag) == StopState::Cancelled),
    {
        flags.state(self.flag) == StopState::Cancelled
    }
}

/// An absolute query deadline: an instant of the clock domain that it names.
#[derive(Clone, Copy, Debug, PartialEq, Eq, Structural)]
pub struct Deadline {
    pub at: u128,
    pub clock: ClockDomain,
    pub flag: usize,
}

/// Failure while constructing a deadline.
#[derive(Clone, Copy, Debug, PartialEq, Eq, Structural)]
pub enum DeadlineError {
    /// The relative duration exceeded the clock's range.
    OutOfRange,
}

impl DeadlineError {
    /// What the error says.
    pub fn message(&self) -> (text: &'static str)
        ensures
            text@ == "query deadline is outside Instant's range"@,
    {
        "query deadline is outside Instant's range"
    }
}

/// What making a deadline at `now` of a clock domain does.
pub open spec fn deadline_made(
    before: Seq<StopState>,
    after: Seq<StopState>,
    clock: ClockDomain,
    now: u128,
    duration: u128,
    result: Result<Deadline, DeadlineError>,
) -> bool {
    if now + duration <= LATEST_INSTANT {
        &&& result == Ok::<Deadline, DeadlineError>(
            Deadline { at: (now + duration) as u128, clock, flag: before.len() as usize },
        )
        &&& after == before.push(StopState::Active)
    } else {
        result == Err::<Deadline, DeadlineError>(DeadlineError::OutOfRange) && after == before
    }
}

/// Whether what was made is on the board.
pub open spec fn is_placed(result: Result<Deadline, DeadlineError>, flags: Seq<StopState>) -> bool {
    result matches Ok(deadline) ==> QueryControl::Deadline(deadline).on_board(flags)
}

impl Deadline {
    /// Creates a deadline relative to the system clock.
    pub fn after(duration: u128, clock: &SystemMonotonicClock, flags: &mut StopFlags) -> (result:
        Result<Deadline, DeadlineError>)
        ensures
            exists|now: u128|
                gives(clock, now) && #[trigger] deadline_made(
                    old(flags)@,
                    final(flags)@,
                    clock.spec_domain(),
                    now,
                    duration,
                    result,
                ),
            is_placed(result, final(flags)@),
    {
        Self::after_with_clock(duration, clock, flags)
    }

    /// Creates a deadline relative to a clock that tests advance. The deadline
    /// names the clock's domain, so it is evaluated there and not in system
    /// time.
    pub fn after_with_test_clock(
        duration: u128,
        clock: &ManualMonotonicClock,
        flags: &mut StopFlags,
    ) -> (result: Result<Deadline, DeadlineError>)
        ensures
            deadline_made(
                old(flags)@,
                final(flags)@,
                clock.spec_domain(),
                clock.reading(),
                duration,
                result,
            ),
            is_placed(result, final(flags)@),
    {
        let now: u128 = clock.now();
        Self::after_instant(duration, clock.domain(), now, flags)
    }

    /// Creates a deadline relative to a clock.
    pub fn after_with_clock<C: MonotonicClock>(
        duration: u128,
        clock: &C,
        flags: &mut StopFlags,
    ) -> (result: Result<Deadline, DeadlineError>)
        ensures
            exists|now: u128|
                gives(clock, now) && #[trigger] deadline_made(
                    old(flags)@,
                    final(flags)@,
                    clock.spec_domain(),
                    now,
                    duration,
                    result,
                ),
            is_placed(result, final(flags)@),
    {
        let now: u128 = clock.now();
        let result = Self::after_instant(duration, clock.domain(), now, flags);
        assert(gives(clock, now));
        assert(deadline_made(old(flags)@, flags@, clock.spec_domain(), now, duration, result));
        result
    }

    /// Creates a deadline relative to an instant of a clock domain.
    pub fn after_instant(duration: u128, clock: ClockDomain, now: u128, flags: &mut StopFlags) -> (
    result: Result<Deadline, DeadlineError>)
        ensures
            deadline_made(old(flags)@, final(flags)@, clock, now, duration, result),
            is_placed(result, final(flags)@),
    {
        match now.checked_add(duration) {
            Some(at) => {
                if at <= LATEST_INSTANT {
                    Ok(Deadline { at, clock, flag: flags.add_flag() })
                } else {
                    Err(DeadlineError::OutOfRange)
                }
            },
            None => Err(DeadlineError::OutOfRange),
        }
    }
}

/// The mandatory cooperative stop mechanism of one store query.
#[derive(Clone, Copy, Debug, PartialEq, Eq, Structural)]
pub enum QueryControl {
    /// Stop when the deadline expires.
    Deadline(Deadline),
    /// Stop when any copy of the token is cancelled.
    Cancel(CancelToken),
}

impl QueryControl {
    /// The flag that the control shows its state by.
    pub open spec fn spec_flag(self) -> usize {
        match self {
            QueryControl::Deadline(deadline) => deadline.flag,
            QueryControl::Cancel(token) => token.flag,
        }
    }

    /// Whether the control's flag is on a board, in a state of its own: a deadline
    /// is never cancelled and a token never expires.
    pub open spec fn on_board(self, flags: Seq<StopState>) -> bool {
        &&& self.spec_flag() < flags.len()
        &&& flags[self.spec_flag() as int] != match self {
            QueryControl::Deadline(_) => StopState::Cancelled,
            QueryControl::Cancel(_) => StopState::TimedOut,
        }
    }

    /// What a check at `now` answers: a deadline times out where it has come or
    /// where an earlier check found that it had, and a token is cancelled where
    /// any copy of it was.
    pub open spec fn answer(self, flags: Seq<StopState>, now: u128) -> Result<(), QueryError> {
        match self {
            QueryControl::Deadline(deadline) => if now >= deadline.at
                || flags[deadline.flag as int] == StopState::TimedOut {
                Err(QueryError::Timeout { partial: false })
            } else {
                Ok(())
            },
            QueryControl::Cancel(token) => if flags[token.flag as int] == StopState::Cancelled {
                Err(QueryError::Cancelled { partial: false })
            } else {
                Ok(())
            },
        }
    }

    /// Whether the deadline has come at `now`; a token has none.
    pub open spec fn expired(self, now: u128) -> bool {
        match self {
            QueryControl::Deadline(deadline) => now >= deadline.at,
            QueryControl::Cancel(_) => false,
        }
    }

    /// The board behind a look at the clock that showed `now`.
    pub open spec fn looked(self, flags: Seq<StopState>, now: u128) -> Seq<StopState> {
        if self.expired(now) {
            settled(flags, self.spec_flag(), StopState::TimedOut)
        } else {
            flags
        }
    }

    /// Whether the control is evaluated by clocks of a domain; a token reads no
    /// clock.
    pub open spec fn reads(self, clock: ClockDomain) -> bool {
        match self {
            QueryControl::Deadline(deadline) => deadline.clock == clock,
            QueryControl::Cancel(_) => true,
        }
    }

    /// What one or more looks at a clock leave: the board behind a look at one
    /// of the instants that the clock gave. A token looks at no clock.
    pub open spec fn polled<C: MonotonicClock>(
        self,
        clock: &C,
        before: Seq<StopState>,
        after: Seq<StopState>,
    ) -> bool {
        if self is Deadline {
            exists|now: u128| #[trigger] gives(clock, now) && after == self.looked(before, now)
        } else {
            after == before
        }
    }

    /// The failure that the control's state stands for.
    pub open spec fn failure(self, flags: Seq<StopState>) -> Option<QueryError> {
        match state_of(flags, self.spec_flag()) {
            StopState::Active => None,
            StopState::Cancelled => Some(QueryError::Cancelled { partial: false }),
            StopState::TimedOut => Some(QueryError::Timeout { partial: false }),
        }
    }

    /// What a checkpoint at `now` does and returns.
    pub open spec fn passes_checkpoint(
        self,
        before: Seq<StopState>,
        after: Seq<StopState>,
        now: u128,
        result: Result<(), QueryError>,
    ) -> bool {
        &&& after == self.looked(before, now)
        &&& result == match self.failure(after) {
            Some(error) => Err(error),
            None => Ok(()),
        }
    }

    /// Checks the deadline or token before admission and between stages that
    /// the caller owns. This never extends a deadline.
    pub fn checkpoint<C: MonotonicClock>(&self, flags: &mut StopFlags, clock: &C) -> (result: Result<
        (),
        QueryError,
    >)
        requires
            self.reads(clock.spec_domain()),
            self.on_board(old(flags)@),
        ensures
            self.on_board(final(flags)@),
            board_grows(old(flags)@, final(flags)@),
            exists|now: u128|
                (self is Deadline ==> gives(clock, now)) && #[trigger] self.passes_checkpoint(
                    old(flags)@,
                    final(flags)@,
                    now,
                    result,
                ) && result == self.answer(old(flags)@, now),
    {
        let now: u128 = match self.now(clock) {
            Some(now) => now,
            None => 0,
        };
        let result = self.checkpoint_at(flags, now);
        assert(self.passes_checkpoint(old(flags)@, flags@, now, result));
        result
    }

    /// The instant that the deadline's clock shows; a token has no clock.
    pub fn now<C: MonotonicClock>(&self, clock: &C) -> (now: Option<u128>)
        requires
            self.reads(clock.spec_domain()),
        ensures
            match now {
                Some(now) => *self is Deadline && gives(clock, now),
                None => *self is Cancel,
            },
    {
        match self {
            QueryControl::Deadline(_) => {
                let now: u128 = clock.now();
                assert(gives(clock, now));
                Some(now)
            },
            QueryControl::Cancel(_) => None,
        }
    }

    /// Hands a deadline over to another clock, keeping its instant: a store
    /// evaluates the queries that it admits by its own clock.
    pub fn with_clock<C: MonotonicClock>(self, clock: &C) -> (control: QueryControl)
        ensures
            control.reads(clock.spec_domain()),
            control == match self {
                QueryControl::Deadline(deadline) => QueryControl::Deadline(
                    Deadline { clock: clock.spec_domain(), ..deadline },
                ),
                QueryControl::Cancel(token) => QueryControl::Cancel(token),
            },
    {
        match self {
            QueryControl::Deadline(deadline) => QueryControl::Deadline(
                Deadline { at: deadline.at, clock: clock.domain(), flag: deadline.flag },
            ),
            QueryControl::Cancel(token) => QueryControl::Cancel(token),
        }
    }

    /// The checkpoint for an instant that was read.
    pub fn checkpoint_at(&self, flags: &mut StopFlags, now: u128) -> (result: Result<(), QueryError>)
        requires
            self.on_board(old(flags)@),
        ensures
            self.on_board(final(flags)@),
            board_grows(old(flags)@, final(flags)@),
            self.passes_checkpoint(old(flags)@, final(flags)@, now, result),
            result == self.answer(old(flags)@, now),
    {
        self.look(flags, now);
        match self.error(flags) {
            Some(error) => Err(error),
            None => Ok(()),
        }
    }

    /// Marks the control as timed out where its deadline has come.
    pub fn look(&self, flags: &mut StopFlags, now: u128)
        requires
            self.on_board(old(flags)@),
        ensures
            final(flags)@ == self.looked(old(flags)@, now),
            self.on_board(final(flags)@),
            board_grows(old(flags)@, final(flags)@),
    {
        match self.deadline() {
            Some(at) => {
                if now >= at {
                    self.mark_timed_out(flags);
                }
            },
            None => {},
        }
    }

    /// The deadline's instant, where there is one.
    pub fn deadline(&self) -> (at: Option<u128>)
        ensures
            at == match *self {
                QueryControl::Deadline(deadline) => Some(deadline.at),
                QueryControl::Cancel(_) => None,
            },
    {
        match self {
            QueryControl::Deadline(deadline) => Some(deadline.at),
            QueryControl::Cancel(_) => None,
        }
    }

    /// The flag that the control shows its state by.
    pub fn state(&self) -> (flag: usize)
        ensures
            flag == self.spec_flag(),
    {
        match self {
            QueryControl::Deadline(deadline) => deadline.flag,
            QueryControl::Cancel(token) => token.flag,
        }
    }

    /// Whether the control is on a board.
    pub fn is_on_board(&self, flags: &StopFlags) -> (result: bool)
        ensures
            result == self.on_board(flags@),
    {
        let flag: usize = self.state();
        flag < flags.states.len() && flags.states[flag] != match self {
            QueryControl::Deadline(_) => StopState::Cancelled,
            QueryControl::Cancel(_) => StopState::TimedOut,
        }
    }

    /// Marks an active control as timed out.
    pub fn mark_timed_out(&self, flags: &mut StopFlags)
        ensures
            final(flags)@ == settled(old(flags)@, self.spec_flag(), StopState::TimedOut),
            board_grows(old(flags)@, final(flags)@),
            *self is Deadline && self.on_board(old(flags)@) ==> self.on_board(final(flags)@),
    {
        flags.settle(self.state(), StopState::TimedOut);
    }

    /// The failure that the control's state stands for.
    pub fn error(&self, flags: &StopFlags) -> (error: Option<QueryError>)
        ensures
            error == self.failure(flags@),
    {
        match flags.state(self.state()) {
            StopState::Active => None,
            StopState::Cancelled => Some(QueryError::Cancelled { partial: false }),
            StopState::TimedOut => Some(QueryError::Timeout { partial: false }),
        }
    }
}

/// Cooperative stop check of one query and the snapshot lease it reads under.
#[derive(Clone, Copy, Debug, PartialEq, Eq, Structural)]
pub struct QueryCancellation {
    pub control: QueryControl,
    /// Flag of the lease; store close cancels it.
    pub lease_flag: usize,
}

/// The outcome of one attempt to take a cache lock.
#[derive(Clone, Copy, Debug, PartialEq, Eq, Structural)]
pub enum LockAttempt {
    Acquired,
    Poisoned,
    WouldBlock,
}

/// What to do behind one attempt to take a cache lock.
#[derive(Clone, Copy, Debug, PartialEq, Eq, Structural)]
pub enum LockStep {
    /// Keep the guard.
    Keep,
    /// Wait a moment and try again.
    Retry,
}

impl QueryCancellation {
    /// Binds the caller's control to the admitted snapshot read.
    pub fn new(control: QueryControl, lease_flag: usize) -> (cancellation: QueryCancellation)
        ensures
            cancellation == (QueryCancellation { control, lease_flag }),
    {
        QueryCancellation { control, lease_flag }
    }

    /// What the check returns: store close comes before the caller's control.
    pub open spec fn checked(self, flags: Seq<StopState>) -> Result<(), ScanError> {
        if state_of(flags, self.lease_flag) == StopState::Cancelled {
            Err(ScanError::ReadCancelled { partial: false })
        } else {
            match state_of(flags, self.control.spec_flag()) {
                StopState::Cancelled => Err(ScanError::Cancelled { partial: false }),
                StopState::TimedOut => Err(ScanError::Timeout { partial: false }),
                StopState::Active => Ok(()),
            }
        }
    }

    /// Checks without a look at the clock.
    pub fn check(&self, flags: &StopFlags) -> (result: Result<(), ScanError>)
        ensures
            result == self.checked(flags@),
    {
        if flags.state(self.lease_flag) == StopState::Cancelled {
            return Err(ScanError::ReadCancelled { partial: false });
        }
        match flags.state(self.control.state()) {
            StopState::Cancelled => Err(ScanError::Cancelled { partial: false }),
            StopState::TimedOut => Err(ScanError::Timeout { partial: false }),
            StopState::Active => Ok(()),
        }
    }

    /// Checks behind a look at the clock, which showed `now`.
    pub fn check_graph(&self, flags: &mut StopFlags, now: u128) -> (result: Result<(), ScanError>)
        requires
            self.control.on_board(old(flags)@),
        ensures
            self.control.on_board(final(flags)@),
            final(flags)@ == self.control.looked(old(flags)@, now),
            result == self.checked(final(flags)@),
    {
        self.control.look(flags, now);
        self.check(flags)
    }

    /// The token of a query that carries one.
    pub fn cancel_token_for_test(&self) -> (token: Option<CancelToken>)
        ensures
            token == match self.control {
                QueryControl::Cancel(token) => Some(token),
                QueryControl::Deadline(_) => None,
            },
    {
        match self.control {
            QueryControl::Cancel(token) => Some(token),
            QueryControl::Deadline(_) => None,
        }
    }

    /// Begins to wait for a cache lock: a query that has to stop does not try.
    pub fn begin_cache_lock(&self, flags: &mut StopFlags, now: u128) -> (result: Result<
        (),
        QueryError,
    >)
        requires
            self.control.on_board(old(flags)@),
        ensures
            self.control.on_board(final(flags)@),
            final(flags)@ == self.control.looked(old(flags)@, now),
            result == match self.checked(final(flags)@) {
                Err(error) => Err(QueryError::Scan(error)),
                Ok(_) => Ok(()),
            },
    {
        match self.check_graph(flags, now) {
            Err(error) => Err(QueryError::Scan(error)),
            Ok(_) => Ok(()),
        }
    }

    /// Decides what follows one attempt to take a cache lock that was begun: a
    /// poisoned lock fails at once; otherwise the stop check comes first, behind
    /// the guard as well as before another attempt.
    pub fn cache_lock_step(
        &self,
        flags: &mut StopFlags,
        now: u128,
        attempt: LockAttempt,
        component: &'static str,
    ) -> (result: Result<LockStep, QueryError>)
        requires
            self.control.on_board(old(flags)@),
        ensures
            self.control.on_board(final(flags)@),
            attempt == LockAttempt::Poisoned ==> {
                &&& final(flags)@ == old(flags)@
                &&& result == Err::<LockStep, QueryError>(
                    QueryError::Store(StoreError::Synchronization { component }),
                )
            },
            attempt != LockAttempt::Poisoned ==> {
                &&& final(flags)@ == self.control.looked(old(flags)@, now)
                &&& result == match self.checked(final(flags)@) {
                    Err(error) => Err(QueryError::Scan(error)),
                    Ok(_) => Ok(
                        if attempt == LockAttempt::Acquired {
                            LockStep::Keep
                        } else {
                            LockStep::Retry
                        },
                    ),
                }
            },
    {
        if attempt == LockAttempt::Poisoned {
            return Err(QueryError::Store(StoreError::Synchronization { component }));
        }
        match self.check_graph(flags, now) {
            Err(error) => Err(QueryError::Scan(error)),
            Ok(_) => {
                if attempt == LockAttempt::Acquired {
                    Ok(LockStep::Keep)
                } else {
                    Ok(LockStep::Retry)
                }
            },
        }
    }
}

/// A board that grew stays grown: what comes of it comes of the board before.
pub proof fn lemma_board_growth_adds_up(
    before: Seq<StopState>,
    between: Seq<StopState>,
    after: Seq<StopState>,
)
    requires
        board_grows(before, between),
        board_grows(between, after),
    ensures
        board_grows(before, after),
{
    assert forall|i: int|
        0 <= i < before.len() && before[i] != StopState::Active implies #[trigger] after[i]
            == before[i] by {
        assert(between[i] == before[i]);
    }
}

/// A stop that was found stays found: on whatever comes of the board, at whatever
/// time, every check of every copy answers the same failure.
pub proof fn lemma_found_stop_stays_found(
    control: QueryControl,
    before: Seq<StopState>,
    now: u128,
    found: Seq<StopState>,
    later: Seq<StopState>,
    then_now: u128,
)
    requires
        control.on_board(before),
        control.answer(before, now) is Err,
        found == control.looked(before, now),
        board_grows(found, later),
    ensures
        control.on_board(later),
        control.answer(later, then_now) == control.answer(before, now),
        control.failure(later) == Some(control.answer(before, now)->Err_0),
{
    assert(found[control.spec_flag() as int] != StopState::Active);
    assert(later[control.spec_flag() as int] == found[control.spec_flag() as int]);
}

/// A token is found cancelled exactly where it was cancelled, and from there on.
pub proof fn lemma_cancelled_token_stays_cancelled(
    token: CancelToken,
    before: Seq<StopState>,
    later: Seq<StopState>,
    now: u128,
)
    requires
        QueryControl::Cancel(token).on_board(before),
        board_grows(settled(before, token.flag, StopState::Cancelled), later),
    ensures
        QueryControl::Cancel(token).answer(later, now) == Err::<(), QueryError>(
            QueryError::Cancelled { partial: false },
        ),
        QueryControl::Cancel(token).answer(before, now) is Err <==> before[token.flag as int]
            == StopState::Cancelled,
{
    let cancelled = settled(before, token.flag, StopState::Cancelled);
    assert(cancelled[token.flag as int] == StopState::Cancelled);
    assert(later[token.flag as int] == StopState::Cancelled);
}

/// What one control does to the board leaves every other one on it: new flags,
/// looks at the clock, and cancellations. Two controls of one flag are copies.
pub proof fn lemma_controls_stay_on_the_board(
    control: QueryControl,
    other: QueryControl,
    flags: Seq<StopState>,
    now: u128,
)
    requires
        control.on_board(flags),
        other.on_board(flags),
        control.spec_flag() == other.spec_flag() ==> (control is Cancel <==> other is Cancel),
    ensures
        control.on_board(flags.push(StopState::Active)),
        control.on_board(other.looked(flags, now)),
        other is Cancel ==> control.on_board(
            settled(flags, other.spec_flag(), StopState::Cancelled),
        ),
{
}

/// Nothing stops a control but its own stop: new flags and whatever is settled
/// through another flag leave its answer, and so does a look of its own at a time
/// before its deadline.
pub proof fn lemma_only_its_own_stop_stops_a_control(
    control: QueryControl,
    flags: Seq<StopState>,
    other: usize,
    to: StopState,
    early: u128,
    now: u128,
)
    requires
        control.on_board(flags),
        other != control.spec_flag(),
        !control.expired(early),
    ensures
        control.answer(flags.push(StopState::Active), now) == control.answer(flags, now),
        control.answer(settled(flags, other, to), now) == control.answer(flags, now),
        control.answer(control.looked(flags, early), now) == control.answer(flags, now),
{
}

/// A settled flag never changes: whatever is asked of it later, it shows its
/// first terminal state.
pub proof fn lemma_first_terminal_state_stays(
    flags: Seq<StopState>,
    flag: usize,
    other: usize,
    to: StopState,
)
    requires
        state_of(flags, flag) != StopState::Active,
    ensures
        state_of(settled(flags, other, to), flag) == state_of(flags, flag),
{
}

/// Cancelling twice is cancelling once, and every copy of the token sees it.
pub proof fn lemma_cancel_is_idempotent(flags: Seq<StopState>, token: CancelToken, copy: CancelToken)
    requires
        token.flag < flags.len(),
        copy.flag == token.flag,
        state_of(flags, token.flag) != StopState::TimedOut,
    ensures
        ({
            let once = settled(flags, token.flag, StopState::Cancelled);
            &&& settled(once, token.flag, StopState::Cancelled) == once
            &&& state_of(once, copy.flag) == StopState::Cancelled
        }),
{
}

/// A stopped query fails at every later checkpoint, with the same failure, and
/// no failure of a control announces partial results.
pub proof fn lemma_stopped_query_stays_stopped(
    control: QueryControl,
    flags: Seq<StopState>,
    now: u128,
)
    requires
        control.failure(flags) is Some,
    ensures
        control.failure(control.looked(flags, now)) == control.failure(flags),
        control.failure(flags) == Some(QueryError::Cancelled { partial: false })
            || control.failure(flags) == Some(QueryError::Timeout { partial: false }),
{
}

/// Store close wins over the caller's own stop.
pub proof fn lemma_close_wins_over_control(cancellation: QueryCancellation, flags: Seq<StopState>)
    requires
        state_of(flags, cancellation.lease_flag) == StopState::Cancelled,
    ensures
        cancellation.checked(flags) == Err::<(), ScanError>(
            ScanError::ReadCancelled { partial: false },
        ),
{
}

/// Past its deadline a query that was not stopped before times out.
pub proof fn lemma_expired_deadline_times_out(
    deadline: Deadline,
    flags: Seq<StopState>,
    now: u128,
)
    requires
        deadline.flag < flags.len(),
        state_of(flags, deadline.flag) == StopState::Active,
        now >= deadline.at,
    ensures
        QueryControl::Deadline(deadline).failure(
            QueryControl::Deadline(deadline).looked(flags, now),
        ) == Some(QueryError::Timeout { partial: false }),
{
}

/// A deadline that a test clock made keeps its instant and its clock: however
/// far that clock is advanced, it may evaluate the deadline, and the deadline
/// has come exactly when the advance has reached its duration.
pub proof fn lemma_deadline_runs_on_its_clock(
    clock: ManualMonotonicClock,
    duration: u128,
    before: Seq<StopState>,
    after: Seq<StopState>,
    result: Result<Deadline, DeadlineError>,
    advance: u128,
    later: ManualMonotonicClock,
)
    requires
        clock.reading() + duration <= LATEST_INSTANT,
        deadline_made(before, after, clock.spec_domain(), clock.reading(), duration, result),
        clock.advanced(advance, later),
    ensures
        result matches Ok(deadline) && {
            let control = QueryControl::Deadline(deadline);
            &&& deadline.at == clock.reading() + duration
            &&& control.reads(later.spec_domain())
            &&& forall|series: u64|
                control.reads(ClockDomain::Manual(series)) ==> series == clock.series()
            &&& !control.reads(ClockDomain::System)
            &&& forall|now: u128| #[trigger] gives(&later, now) ==> now == later.reading()
            &&& control.expired(later.reading()) <==> advance >= duration
        },
{
}

/// A look at the clock behind another one leaves what a single look leaves.
pub proof fn lemma_polls_add_up<C: MonotonicClock>(
    control: QueryControl,
    clock: &C,
    before: Seq<StopState>,
    between: Seq<StopState>,
    after: Seq<StopState>,
)
    requires
        control.polled(clock, before, between),
        control.polled(clock, between, after),
    ensures
        control.polled(clock, before, after),
{
    if control is Deadline {
        let first = choose|now: u128|
            #[trigger] gives(clock, now) && between == control.looked(before, now);
        if control.expired(first) {
            assert(after == control.looked(before, first));
        }
    }
}

} // verus!
