//! Monotonic time authority used by deadline checks.
//!
//! An instant is a number of nanoseconds behind the origin of a clock domain, up to
//! the latest one that the standard library's instants reach where their seconds are
//! an `i64`; only instants of one domain can be compared.

use vstd::prelude::*;

verus! {

/// The latest instant: the largest `i64` of seconds, and a nanosecond short of the
/// next one.
pub const LATEST_INSTANT: u128 = 9_223_372_036_854_775_807_999_999_999;

/// The standard library's opaque monotonic instant.
#[verifier::external_type_specification]
#[verifier::external_body]
pub struct ExInstant(std::time::Instant);

/// `std::time::Instant::now`: nothing is claimed of the instant it reads.
#[verifier::external_body]
fn instant_now() -> std::time::Instant {
    std::time::Instant::now()
}

/// `std::time::Instant::elapsed`, in nanoseconds: nothing is claimed of the time
/// it measures.
#[verifier::external_body]
fn elapsed_nanos(origin: &std::time::Instant) -> u128 {
    origin.elapsed().as_nanos()
}

/// The time line that a clock reads. A deadline names the domain that it was
/// made in, so that it is never held against the instants of another one.
#[derive(Clone, Copy, Debug, PartialEq, Eq, Structural)]
pub enum ClockDomain {
    /// The program's one system clock.
    System,
    /// Clocks that tests advance, by the series that their maker chose.
    Manual(u64),
}

/// A monotonic time source.
///
/// Stores use [`SystemMonotonicClock`]. The trait is public so that tests can
/// advance time without sleeping.
pub trait MonotonicClock {
    /// The domain of the clock's instants.
    spec fn spec_domain(&self) -> ClockDomain;

    /// The domain of the clock's instants.
    fn domain(&self) -> (domain: ClockDomain)
        ensures
            domain == self.spec_domain(),
    ;

    /// Returns the current instant in nanoseconds.
    fn now(&self) -> (now: u128);
}

/// Whether `now` is an instant that a clock can give.
pub open spec fn gives<C: MonotonicClock>(clock: &C, now: u128) -> bool {
    call_ensures(C::now, (clock,), now)
}

/// The standard-library monotonic clock. A program makes one and shares it, so
/// that all its instants count from one origin.
pub struct SystemMonotonicClock {
    origin: std::time::Instant,
}

impl SystemMonotonicClock {
    /// A clock whose instants count from now on. What it reads depends on the
    /// machine, so nothing is promised of it.
    pub fn new() -> SystemMonotonicClock {
        SystemMonotonicClock { origin: instant_now() }
    }
}

/// A number of nanoseconds, capped at the latest instant.
fn capped(nanos: u128) -> (now: u128)
    ensures
        now == if nanos > LATEST_INSTANT {
            LATEST_INSTANT
        } else {
            nanos
        },
{
    if nanos > LATEST_INSTANT {
        LATEST_INSTANT
    } else {
        nanos
    }
}

impl MonotonicClock for SystemMonotonicClock {
    open spec fn spec_domain(&self) -> ClockDomain {
        ClockDomain::System
    }

    fn domain(&self) -> (domain: ClockDomain) {
        ClockDomain::System
    }

    fn now(&self) -> (now: u128) {
        capped(elapsed_nanos(&self.origin))
    }
}

/// A manually advanced monotonic clock for deterministic tests.
#[derive(Debug)]
pub struct ManualMonotonicClock {
    base: u128,
    offset: u128,
    series: u64,
}

/// The sum of two durations, as far as it can be counted.
pub open spec fn lasting(first: u128, second: u128) -> u128 {
    if first + second <= u128::MAX {
        (first + second) as u128
    } else {
        u128::MAX
    }
}

/// An instant behind another one, up to the latest.
pub open spec fn later_by(instant: u128, duration: u128) -> u128 {
    if instant + duration <= LATEST_INSTANT {
        (instant + duration) as u128
    } else {
        LATEST_INSTANT
    }
}

impl ManualMonotonicClock {
    /// The instant that the clock was made at.
    pub closed spec fn base(self) -> u128 {
        self.base
    }

    /// How far the clock was advanced.
    pub closed spec fn offset(self) -> u128 {
        self.offset
    }

    /// The series that the clock's domain is named by.
    pub closed spec fn series(self) -> u64 {
        self.series
    }

    /// What the clock shows: its start and its advance, up to the latest instant.
    pub open spec fn reading(self) -> u128 {
        later_by(self.base(), self.offset())
    }

    /// Whether a clock is this one behind an advance.
    pub open spec fn advanced(self, duration: u128, after: ManualMonotonicClock) -> bool {
        &&& after.base() == self.base()
        &&& after.series() == self.series()
        &&& after.offset() == lasting(self.offset(), duration)
    }

    /// Creates a frozen clock at the instant that the system clock shows.
    pub fn new() -> (clock: ManualMonotonicClock)
        ensures
            clock.offset() == 0,
            clock.series() == 0,
            clock.reading() == clock.base(),
    {
        let system = SystemMonotonicClock::new();
        Self::starting_at(capped(system.now()))
    }

    /// Creates a frozen clock at an explicit instant.
    pub fn starting_at(base: u128) -> (clock: ManualMonotonicClock)
        requires
            base <= LATEST_INSTANT,
        ensures
            clock.base() == base,
            clock.offset() == 0,
            clock.series() == 0,
            clock.reading() == base,
    {
        Self::in_series(base, 0)
    }

    /// Creates a frozen clock at an explicit instant of a domain of its own.
    pub fn in_series(base: u128, series: u64) -> (clock: ManualMonotonicClock)
        requires
            base <= LATEST_INSTANT,
        ensures
            clock.base() == base,
            clock.offset() == 0,
            clock.series() == series,
            clock.reading() == base,
    {
        ManualMonotonicClock { base, offset: 0, series }
    }

    /// Advances the clock without sleeping; what it shows stops at the latest
    /// instant.
    pub fn advance(&mut self, duration: u128)
        ensures
            old(self).advanced(duration, *final(self)),
            final(self).spec_domain() == old(self).spec_domain(),
            final(self).reading() == later_by(old(self).reading(), duration),
    {
        self.offset = self.offset.saturating_add(duration);
    }
}

impl MonotonicClock for ManualMonotonicClock {
    open spec fn spec_domain(&self) -> ClockDomain {
        ClockDomain::Manual(self.series())
    }

    fn domain(&self) -> (domain: ClockDomain) {
        ClockDomain::Manual(self.series)
    }

    fn now(&self) -> (now: u128)
        ensures
            now == self.reading(),
    {
        match self.base.checked_add(self.offset) {
            Some(sum) => capped(sum),
            None => LATEST_INSTANT,
        }
    }
}

/// A manual clock never goes back, whatever it is advanced by, and it shows the
/// old reading and the advance wherever their sum is an instant.
pub proof fn lemma_manual_clock_is_monotonic(
    before: ManualMonotonicClock,
    after: ManualMonotonicClock,
    duration: u128,
)
    requires
        before.advanced(duration, after),
    ensures
        after.reading() >= before.reading(),
        before.reading() + duration <= LATEST_INSTANT ==> after.reading() == before.reading()
            + duration,
{
}

/// Two advances read as one over both durations.
pub proof fn lemma_advances_add_up(
    before: ManualMonotonicClock,
    between: ManualMonotonicClock,
    after: ManualMonotonicClock,
    at_once: ManualMonotonicClock,
    first: u128,
    second: u128,
)
    requires
        first + second <= u128::MAX,
        before.advanced(first, between),
        between.advanced(second, after),
        before.advanced((first + second) as u128, at_once),
    ensures
        after.reading() == at_once.reading(),
        after.spec_domain() == at_once.spec_domain(),
{
}

} // verus!
