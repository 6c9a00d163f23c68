//! Limits on what a run may consume.
use vstd::prelude::*;

use crate::error::ResourceError;

verus! {

/// Accounts for what a run consumes, and refuses what goes beyond its limits.
pub trait ResourceTracker: Sized {
    /// How many more allocations are admitted; `None` where there is no limit.
    spec fn budget(&self) -> Option<nat>;

    /// Which durations of the run, in milliseconds, are too long.
    spec fn overtime(&self) -> spec_fn(u64) -> bool;

    /// Charges one allocation, before it is made.
    fn on_allocate(&mut self) -> (r: Result<(), ResourceError>)
        ensures
            final(self).overtime() == old(self).overtime(),
            old(self).budget() is None ==> r is Ok && final(self).budget() is None,
            old(self).budget() matches Some(left) ==> if left > 0 {
                r is Ok && final(self).budget() == Some((left - 1) as nat)
            } else {
                r == Err::<(), ResourceError>(ResourceError::Allocation) && final(self).budget() == Some(0nat)
            },
    ;

    /// Refuses to go on once the run has taken too long: rules on the time it has taken, which
    /// the clock alone tells.
    fn check_time(&self) -> (r: Result<(), ResourceError>)
        ensures
            exists|elapsed: u64| r == #[trigger] ruling_on(self.overtime(), elapsed),
    ;
}

/// The ruling on a run that has taken `elapsed` milliseconds, where `overtime` is too long.
pub open spec fn ruling_on(overtime: spec_fn(u64) -> bool, elapsed: u64) -> Result<
    (),
    ResourceError,
> {
    if overtime(elapsed) {
        Err(ResourceError::Time)
    } else {
        Ok(())
    }
}

/// The durations beyond `limit`; none where there is no limit.
pub open spec fn beyond(limit: Option<u64>) -> spec_fn(u64) -> bool {
    |elapsed: u64| limit matches Some(most) && elapsed > most
}

/// A tracker that refuses nothing.
#[derive(Debug)]
pub struct NoLimitTracker;

impl ResourceTracker for NoLimitTracker {
    open spec fn budget(&self) -> Option<nat> {
        None
    }

    open spec fn overtime(&self) -> spec_fn(u64) -> bool {
        beyond(None)
    }

    fn on_allocate(&mut self) -> (r: Result<(), ResourceError>) {
        Ok(())
    }

    fn check_time(&self) -> (r: Result<(), ResourceError>) {
        assert(ruling_on(self.overtime(), 0) == Ok::<(), ResourceError>(()));
        Ok(())
    }
}

/// What a `LimitedTracker` enforces; a limit that is absent is not enforced.
#[derive(Clone, Copy, PartialEq, Eq, Structural, Debug)]
pub struct ResourceLimits {
    pub max_allocations: Option<usize>,
    pub max_millis: Option<u64>,
}

impl ResourceLimits {
    /// No limits.
    pub fn new() -> (limits: ResourceLimits)
        ensures
            limits.max_allocations is None,
            limits.max_millis is None,
    {
        ResourceLimits { max_allocations: None, max_millis: None }
    }

    /// These limits, and at most `limit` allocations.
    pub fn max_allocations(self, limit: usize) -> (limits: ResourceLimits)
        ensures
            limits.max_allocations == Some(limit),
            limits.max_millis == self.max_millis,
    {
        ResourceLimits { max_allocations: Some(limit), max_millis: self.max_millis }
    }

    /// These limits, and at most `limit` milliseconds.
    pub fn max_millis(self, limit: u64) -> (limits: ResourceLimits)
        ensures
            limits.max_allocations == self.max_allocations,
            limits.max_millis == Some(limit),
    {
        ResourceLimits { max_allocations: self.max_allocations, max_millis: Some(limit) }
    }
}

/// `std::time::Instant`, which is carried and never looked into.
#[verifier::external_type_specification]
#[verifier::external_body]
pub struct ExInstant(std::time::Instant);

/// `std::time::Instant::now`: a reading of the clock, of which nothing is claimed.
#[verifier::external_body]
fn clock_now() -> std::time::Instant {
    std::time::Instant::now()
}

/// `std::time::Instant::elapsed`, in whole milliseconds. It reads the clock, so nothing is claimed
/// of the number.
#[verifier::external_body]
fn millis_since(start: &std::time::Instant) -> u64 {
    start.elapsed().as_millis() as u64
}

/// Whether a run that has taken `elapsed` milliseconds may go on under a limit of `limit`.
pub fn time_verdict(elapsed: u64, limit: u64) -> (r: Result<(), ResourceError>)
    ensures
        r == ruling_on(beyond(Some(limit)), elapsed),
{
    if elapsed > limit {
        Err(ResourceError::Time)
    } else {
        Ok(())
    }
}

/// A tracker that enforces `ResourceLimits`.
#[derive(Debug)]
pub struct LimitedTracker {
    limits: ResourceLimits,
    allocations: usize,
    start: std::time::Instant,
}

impl LimitedTracker {
    /// The limits this tracker enforces.
    pub closed spec fn limits(&self) -> ResourceLimits {
        self.limits
    }

    /// A tracker that has charged nothing yet, and whose clock starts now.
    pub fn new(limits: ResourceLimits) -> (tracker: LimitedTracker)
        ensures
            tracker.limits() == limits,
            tracker.budget() == match limits.max_allocations {
                Some(limit) => Some(limit as nat),
                None => None,
            },
            tracker.overtime() == beyond(limits.max_millis),
    {
        LimitedTracker { limits, allocations: 0, start: clock_now() }
    }
}

impl ResourceTracker for LimitedTracker {
    closed spec fn budget(&self) -> Option<nat> {
        match self.limits.max_allocations {
            Some(limit) => Some(
                if self.allocations < limit {
                    (limit - self.allocations) as nat
                } else {
                    0nat
                },
            ),
            None => None,
        }
    }

    closed spec fn overtime(&self) -> spec_fn(u64) -> bool {
        beyond(self.limits.max_millis)
    }

    fn on_allocate(&mut self) -> (r: Result<(), ResourceError>) {
        match self.limits.max_allocations {
            Some(limit) => {
                if self.allocations >= limit {
                    return Err(ResourceError::Allocation);
                }
                self.allocations = self.allocations + 1;
                Ok(())
            },
            None => Ok(()),
        }
    }

    fn check_time(&self) -> (r: Result<(), ResourceError>) {
        match self.limits.max_millis {
            Some(limit) => {
                let elapsed = millis_since(&self.start);
                assert(ruling_on(self.overtime(), elapsed) == ruling_on(
                    beyond(Some(limit)),
                    elapsed,
                ));
                time_verdict(elapsed, limit)
            },
            None => {
                assert(ruling_on(self.overtime(), 0) == Ok::<(), ResourceError>(()));
                Ok(())
            },
        }
    }
}

} // verus!
