//! Stop checks that a call makes while it works.
//!
//! A call that may take long asks again and again whether it has to stop. What each
//! check answers is recorded, so a contract can say how many checks were made, and
//! that the first that found a stop ended the call.

use crate::clock::gives;
use crate::clock::MonotonicClock;
use crate::control::Deadline;
use crate::control::QueryCancellation;
use crate::control::QueryControl;
use crate::control::StopFlags;
use crate::control::StopState;
use crate::error::QueryError;
use crate::error::ScanError;
use crate::fusion::FusionError;
use crate::search::map_scan_error;
use crate::search::scan_failure;
use vstd::prelude::*;

verus! {

/// Whether a failure is that of a stop: by the caller, the deadline or store close.
pub open spec fn is_stop(error: ScanError) -> bool {
    error is Cancelled || error is Timeout || error is ReadCancelled
}

/// Where stop checks look: at the clock and at the board that queries are stopped
/// by. Between two checks others may use the board.
pub trait StopSource: Sized {
    /// What a look can answer and leave. A source that says no more of it, such as
    /// one that other threads share, may answer anything at any time.
    open spec fn sees(
        query: QueryCancellation,
        before: Self,
        after: Self,
        answer: Result<(), ScanError>,
    ) -> bool {
        true
    }

    /// Looks whether a query has to stop now.
    fn look(&mut self, query: &QueryCancellation) -> (result: Result<(), ScanError>)
        ensures
            result matches Err(stop) ==> is_stop(stop),
            Self::sees(*query, *old(self), *final(self), result),
    ;
}

/// A board that is held for as long as the checks go on, and its clock.
pub struct BoardSource<'a, C> {
    pub flags: &'a mut StopFlags,
    pub clock: &'a C,
}

impl<'a, C> BoardSource<'a, C> {
    /// The state of each flag of the board.
    pub open spec fn board(self) -> Seq<StopState> {
        self.flags@
    }
}

impl<'a, C: MonotonicClock> StopSource for BoardSource<'a, C> {
    /// A look at the clock, at an instant that it gives, and then at the board.
    open spec fn sees(
        query: QueryCancellation,
        before: Self,
        after: Self,
        answer: Result<(), ScanError>,
    ) -> bool {
        &&& after.clock == before.clock
        &&& query.control.polled(before.clock, before.board(), after.board())
        &&& answer == query.checked(after.board())
    }

    fn look(&mut self, query: &QueryCancellation) -> (result: Result<(), ScanError>) {
        if let QueryControl::Deadline(deadline) = query.control {
            let now: u128 = self.clock.now();
            if now >= deadline.at {
                query.control.mark_timed_out(self.flags);
            }
            assert(gives(old(self).clock, now));
        }
        query.check(self.flags)
    }
}

/// The stop checks of one query, as a call makes them.
pub struct StopPoll<S> {
    pub query: QueryCancellation,
    pub source: S,
    /// The stop that was found, if one was.
    pub found: Option<ScanError>,
    /// What the checks have answered so far, in order.
    pub answered: Ghost<Seq<Result<(), ScanError>>>,
    /// The source before each check, and as it is now.
    pub passed_by: Ghost<Seq<S>>,
}

impl<S: StopSource> StopPoll<S> {
    /// What the checks have answered so far, in order.
    pub open spec fn answers(self) -> Seq<Result<(), ScanError>> {
        self.answered@
    }

    /// The source before each check, and as it is now.
    pub open spec fn sources(self) -> Seq<S> {
        self.passed_by@
    }

    /// Whether an answer is that of a look at the source, or repeats the stop that
    /// was found before it.
    pub open spec fn is_heard(self, at: int) -> bool {
        let (before, after) = (self.sources()[at], self.sources()[at + 1]);
        ||| S::sees(self.query, before, after, self.answers()[at])
        ||| {
            &&& at > 0 && self.answers()[at - 1] is Err
            &&& self.answers()[at] == self.answers()[at - 1]
            &&& after == before
        }
    }

    /// Whether every answer was heard from the source, and what was found is the
    /// stop of the last one.
    pub open spec fn wf(self) -> bool {
        &&& self.found matches Some(stop) ==> is_stop(stop)
        &&& self.found == if self.answers().len() > 0 && self.answers().last() is Err {
            Some(self.answers().last()->Err_0)
        } else {
            None
        }
        &&& self.sources().len() == self.answers().len() + 1
        &&& self.sources().last() == self.source
        &&& forall|at: int| 0 <= at < self.answers().len() ==> #[trigger] self.is_heard(at)
    }

    /// Whether the checks are those of an earlier moment, and perhaps further ones.
    pub open spec fn follows(self, earlier: StopPoll<S>) -> bool {
        &&& self.query == earlier.query
        &&& self.sources().len() >= earlier.sources().len()
        &&& forall|at: int|
            0 <= at < earlier.sources().len() ==> #[trigger] self.sources()[at]
                == earlier.sources()[at]
    }

    /// Begins to check a query.
    pub fn new(query: QueryCancellation, source: S) -> (poll: StopPoll<S>)
        ensures
            poll.wf(),
            poll.query == query,
            poll.source == source,
            poll.found is None,
            poll.answers() == Seq::<Result<(), ScanError>>::empty(),
    {
        let ghost sources = seq![source];
        StopPoll {
            query,
            source,
            found: None,
            answered: Ghost(Seq::empty()),
            passed_by: Ghost(sources),
        }
    }

    /// Makes one check. A stop that was found is found again.
    pub fn check(&mut self) -> (result: Result<(), ScanError>)
        requires
            old(self).wf(),
        ensures
            final(self).wf(),
            final(self).follows(*old(self)),
            final(self).answers() == old(self).answers().push(result),
            match old(self).found {
                Some(stop) => result == Err::<(), ScanError>(stop) && final(self).source
                    == old(self).source,
                None => S::sees(old(self).query, old(self).source, final(self).source, result),
            },
            result matches Err(stop) ==> is_stop(stop),
    {
        let ghost before = *self;
        let result = match self.found {
            Some(stop) => Err(stop),
            None => self.source.look(&self.query),
        };
        if let Err(stop) = result {
            self.found = Some(stop);
        }
        proof {
            self.answered@ = self.answered@.push(result);
            self.passed_by@ = self.passed_by@.push(self.source);
            assert forall|at: int| 0 <= at < self.answers().len() implies #[trigger] self.is_heard(
                at,
            ) by {
                if at < before.answers().len() {
                    assert(before.is_heard(at));
                }
            }
        }
        result
    }
}

/// Begins to check a query on the board that it was made on, by a clock that may
/// evaluate it; the board is held for as long as the checks go on.
pub fn board_poll<'a, C: MonotonicClock>(
    query: QueryCancellation,
    flags: &'a mut StopFlags,
    clock: &'a C,
) -> (poll: StopPoll<BoardSource<'a, C>>)
    requires
        query.control.reads(clock.spec_domain()),
        query.control.on_board(old(flags)@),
    ensures
        poll.wf(),
        poll.query == query,
        poll.source.clock == clock,
        poll.source.flags@ == old(flags)@,
        *final(flags) == *final(poll.source.flags),
        poll.found is None,
        poll.answers() == Seq::<Result<(), ScanError>>::empty(),
{
    StopPoll::new(query, BoardSource { flags, clock })
}

/// Whether `n` more checks were made and none found a stop.
pub open spec fn passed(
    before: Seq<Result<(), ScanError>>,
    after: Seq<Result<(), ScanError>>,
    n: nat,
) -> bool {
    &&& after.len() == before.len() + n
    &&& after.take(before.len() as int) == before
    &&& forall|i: int| before.len() <= i < after.len() ==> (#[trigger] after[i]) is Ok
}

/// The stop that one of at most `n` more checks found, where one did: it was the
/// last check, and those before it found none.
pub open spec fn halted(
    before: Seq<Result<(), ScanError>>,
    after: Seq<Result<(), ScanError>>,
    n: nat,
) -> Option<ScanError> {
    if before.len() < after.len() <= before.len() + n && passed(
        before,
        after.drop_last(),
        (after.len() - before.len() - 1) as nat,
    ) {
        match after.last() {
            Err(stop) => Some(stop),
            Ok(_) => None,
        }
    } else {
        None
    }
}

/// One more check behind `n` that found no stop.
pub proof fn lemma_one_more_check(
    before: Seq<Result<(), ScanError>>,
    between: Seq<Result<(), ScanError>>,
    after: Seq<Result<(), ScanError>>,
    n: nat,
    answer: Result<(), ScanError>,
)
    requires
        passed(before, between, n),
        after == between.push(answer),
    ensures
        answer is Ok ==> passed(before, after, n + 1),
        answer matches Err(stop) ==> forall|most: nat|
            most > n ==> #[trigger] halted(before, after, most) == Some(stop),
{
    assert(after.drop_last() == between);
    assert(after.take(before.len() as int) == between.take(before.len() as int));
}

/// No checks leave what was answered before.
pub proof fn lemma_no_check(before: Seq<Result<(), ScanError>>)
    ensures
        passed(before, before, 0),
{
    assert(before.take(before.len() as int) == before);
}

/// Whether `later` has made at least one check more than `earlier`, on a board
/// that a query that had not been stopped was made on.
pub open spec fn checks_on<'a, C: MonotonicClock>(
    earlier: StopPoll<BoardSource<'a, C>>,
    later: StopPoll<BoardSource<'a, C>>,
) -> bool {
    &&& earlier.wf() && later.wf() && later.follows(earlier)
    &&& earlier.found is None
    &&& earlier.query.control.on_board(earlier.source.board())
    &&& later.answers().len() > earlier.answers().len()
    &&& later.answers().take(earlier.answers().len() as int) == earlier.answers()
}

proof fn lemma_first_look<'a, C: MonotonicClock>(
    earlier: StopPoll<BoardSource<'a, C>>,
    later: StopPoll<BoardSource<'a, C>>,
)
    requires
        checks_on(earlier, later),
    ensures
        ({
            let at = earlier.answers().len() as int;
            &&& later.sources()[at] == earlier.source
            &&& BoardSource::sees(
                earlier.query,
                earlier.source,
                later.sources()[at + 1],
                later.answers()[at],
            )
        }),
{
    let at = earlier.answers().len() as int;
    assert(later.is_heard(at));
    assert(later.sources()[at] == earlier.sources()[at]);
    if at > 0 {
        assert(later.answers().take(at)[at - 1] == earlier.answers()[at - 1]);
    }
}

/// A query that is stopped on the board, by its caller, its deadline or store
/// close, is stopped by the next check, and for that reason: no work passes the
/// checks that it makes.
pub proof fn lemma_a_stopped_query_is_stopped<'a, C: MonotonicClock>(
    earlier: StopPoll<BoardSource<'a, C>>,
    later: StopPoll<BoardSource<'a, C>>,
)
    requires
        checks_on(earlier, later),
        earlier.query.checked(earlier.source.board()) is Err,
    ensures
        later.answers()[earlier.answers().len() as int] == earlier.query.checked(
            earlier.source.board(),
        ),
        forall|n: nat| n > 0 ==> !#[trigger] passed(earlier.answers(), later.answers(), n),
        forall|n: nat|
            (#[trigger] halted(earlier.answers(), later.answers(), n)) matches Some(stop)
                ==> earlier.query.checked(earlier.source.board()) == Err::<(), ScanError>(stop),
{
    lemma_first_look(earlier, later);
    let at = earlier.answers().len() as int;
    if later.answers().len() > at + 1 {
        assert(later.answers().drop_last()[at] is Err);
    }
}

/// A query whose deadline has come at every instant that the clock can give is
/// stopped by the next check: it timed out, unless the store was closed.
pub proof fn lemma_an_expired_query_is_stopped<'a, C: MonotonicClock>(
    earlier: StopPoll<BoardSource<'a, C>>,
    later: StopPoll<BoardSource<'a, C>>,
    deadline: Deadline,
)
    requires
        checks_on(earlier, later),
        earlier.query.control == QueryControl::Deadline(deadline),
        forall|now: u128| #[trigger] gives(earlier.source.clock, now) ==> now >= deadline.at,
    ensures
        ({
            let board = earlier.query.control.looked(earlier.source.board(), deadline.at);
            &&& later.answers()[earlier.answers().len() as int] == earlier.query.checked(board)
            &&& earlier.query.checked(board) is Err
            &&& forall|n: nat| n > 0 ==> !#[trigger] passed(earlier.answers(), later.answers(), n)
            &&& forall|n: nat|
                (#[trigger] halted(earlier.answers(), later.answers(), n)) matches Some(stop)
                    ==> earlier.query.checked(board) == Err::<(), ScanError>(stop)
        }),
{
    lemma_first_look(earlier, later);
    let at = earlier.answers().len() as int;
    if later.answers().len() > at + 1 {
        assert(later.answers().drop_last()[at] is Err);
    }
}

/// A query that is stopped neither on the board nor by its deadline, at any instant
/// that the clock can give, passes every check, and leaves the board as it was.
pub proof fn lemma_an_unstopped_query_passes<'a, C: MonotonicClock>(
    earlier: StopPoll<BoardSource<'a, C>>,
    later: StopPoll<BoardSource<'a, C>>,
    n: nat,
)
    requires
        checks_on(earlier, later),
        earlier.query.checked(earlier.source.board()) is Ok,
        match earlier.query.control {
            QueryControl::Deadline(deadline) => forall|now: u128| #[trigger]
                gives(earlier.source.clock, now) ==> now < deadline.at,
            QueryControl::Cancel(_) => true,
        },
        earlier.answers().len() + n <= later.answers().len(),
    ensures
        forall|at: int|
            earlier.answers().len() <= at < earlier.answers().len() + n ==> (
            #[trigger] later.answers()[at]) is Ok,
        later.sources()[(earlier.answers().len() + n) as int].board() == earlier.source.board(),
        later.sources()[(earlier.answers().len() + n) as int].clock == earlier.source.clock,
    decreases n,
{
    lemma_first_look(earlier, later);
    if n > 0 {
        lemma_an_unstopped_query_passes(earlier, later, (n - 1) as nat);
        assert(later.is_heard(earlier.answers().len() + n - 1));
    }
}

/// One stop check, its stop reported as that of the query.
pub fn check_query<S: StopSource>(poll: &mut StopPoll<S>) -> (result: Result<(), QueryError>)
    requires
        old(poll).wf(),
    ensures
        final(poll).follows(*old(poll)),
        final(poll).wf(),
        old(poll).found matches Some(stop) ==> result == Err::<(), QueryError>(
            scan_failure(stop),
        ),
        ({
            let answer = final(poll).answers().last();
            &&& final(poll).answers() == old(poll).answers().push(answer)
            &&& answer matches Err(stop) ==> is_stop(stop)
            &&& old(poll).found matches Some(stop) ==> answer == Err::<(), ScanError>(stop)
            &&& result == match answer {
                Ok(_) => Ok(()),
                Err(stop) => Err(scan_failure(stop)),
            }
        }),
{
    match poll.check() {
        Ok(_) => Ok(()),
        Err(stop) => Err(map_scan_error(stop)),
    }
}

/// What a stop is reported as in a hybrid leg.
pub open spec fn leg_stop(stop: ScanError) -> FusionError {
    match stop {
        ScanError::Timeout { partial } => FusionError::Timeout { partial },
        ScanError::ReadCancelled { partial } => FusionError::ReadCancelled { partial },
        ScanError::Cancelled { partial } => FusionError::Cancelled { partial },
        _ => FusionError::Cancelled { partial: false },
    }
}

/// One stop check of a hybrid leg.
pub fn check_leg<S: StopSource>(poll: &mut StopPoll<S>) -> (result: Result<(), FusionError>)
    requires
        old(poll).wf(),
    ensures
        final(poll).follows(*old(poll)),
        final(poll).wf(),
        old(poll).found matches Some(stop) ==> result == Err::<(), FusionError>(leg_stop(stop)),
        ({
            let answer = final(poll).answers().last();
            &&& final(poll).answers() == old(poll).answers().push(answer)
            &&& answer matches Err(stop) ==> is_stop(stop)
            &&& old(poll).found matches Some(stop) ==> answer == Err::<(), ScanError>(stop)
            &&& result == match answer {
                Ok(_) => Ok(()),
                Err(stop) => Err(leg_stop(stop)),
            }
        }),
{
    match poll.check() {
        Ok(_) => Ok(()),
        Err(ScanError::Timeout { partial }) => Err(FusionError::Timeout { partial }),
        Err(ScanError::ReadCancelled { partial }) => Err(FusionError::ReadCancelled { partial }),
        Err(ScanError::Cancelled { partial }) => Err(FusionError::Cancelled { partial }),
        Err(_) => Err(FusionError::Cancelled { partial: false }),
    }
}

} // verus!
