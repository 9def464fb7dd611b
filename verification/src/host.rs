//! The clock and CPU-set queries, each behind a small wrapper whose contract
//! Verus takes on trust. Their results depend on the machine and the moment
//! of the call, so none of them states what comes back. The clock readings
//! are handed over in types that only these wrappers make, so that a value
//! taken from one is known to be the clock's, unchanged.
use vstd::prelude::*;

use std::time::{Duration, Instant};

verus! {

#[verifier::external_type_specification]
#[verifier::external_body]
pub struct ExInstant(std::time::Instant);

#[verifier::external_type_specification]
#[verifier::external_body]
pub struct ExPathBuf(std::path::PathBuf);

/// `Instant::now`: the current reading of the monotonic clock.
#[verifier::external_body]
pub(crate) fn instant_now() -> Instant {
    Instant::now()
}

/// The time elapsed since the instant `since()`, as `Instant::elapsed` gave
/// it.
pub struct Elapsed {
    duration: Duration,
    since: Ghost<Instant>,
}

impl Elapsed {
    /// The instant the time elapsed since.
    pub closed spec fn since(&self) -> Instant {
        self.since@
    }
}

/// The whole microseconds of the time elapsed since the instant `since()`,
/// as `Duration::as_micros` gave them.
pub struct ElapsedMicros {
    micros: u128,
    since: Ghost<Instant>,
}

impl ElapsedMicros {
    /// The instant the time elapsed since.
    pub closed spec fn since(&self) -> Instant {
        self.since@
    }

    /// The whole microseconds elapsed.
    pub closed spec fn value(&self) -> u128 {
        self.micros
    }

    /// The whole microseconds elapsed.
    pub fn micros(&self) -> (res: u128)
        ensures
            res == self.value(),
    {
        self.micros
    }
}

/// `Instant::elapsed`: the time since `start`.
#[verifier::external_body]
pub(crate) fn instant_elapsed(start: &Instant) -> (res: Elapsed)
    ensures
        res.since() == *start,
{
    Elapsed { duration: start.elapsed(), since: Ghost(*start) }
}

/// `Duration::as_micros`: the whole microseconds of the elapsed time `d`.
#[verifier::external_body]
pub(crate) fn duration_as_micros(d: &Elapsed) -> (res: ElapsedMicros)
    ensures
        res.since() == d.since(),
{
    ElapsedMicros { micros: d.duration.as_micros(), since: Ghost(d.since()) }
}

/// Each element is smaller than the next.
pub open spec fn strictly_increasing(s: Seq<usize>) -> bool {
    forall|i: int, j: int| 0 <= i < j < s.len() ==> s[i] < s[j]
}

/// `affinity::get_thread_affinity`: the CPUs that the calling thread may run
/// on, or `None` where the query failed (its error is dropped). The crate
/// lists the CPUs of the affinity mask by scanning it from CPU 0 upwards, so
/// they come in increasing order; which CPUs they are is not stated.
#[verifier::external_body]
pub(crate) fn thread_affinity() -> (res: Option<Vec<usize>>)
    ensures
        res matches Some(v) ==> strictly_increasing(v@),
{
    affinity::get_thread_affinity().ok()
}

/// `num_cpus::get`: the number of CPUs available to the process.
#[verifier::external_body]
pub(crate) fn available_cpu_count() -> usize {
    num_cpus::get()
}

/// A reading of the system clock: microseconds since the Unix epoch, as
/// `utc_now_micros` gave them.
pub struct UtcMicros {
    micros: i64,
}

impl UtcMicros {
    /// The microseconds since the Unix epoch.
    pub closed spec fn value(&self) -> i64 {
        self.micros
    }

    /// The microseconds since the Unix epoch.
    pub fn micros(&self) -> (res: i64)
        ensures
            res == self.value(),
    {
        self.micros
    }
}

/// `SystemTime::now`, turned into a `chrono::DateTime<Utc>` by its `From`
/// impl, followed by `DateTime::timestamp_micros`: the current time in
/// microseconds since the Unix epoch, negative before it. (The date-time value
/// between the calls cannot be declared to Verus: its type is bounded by a
/// trait of `chrono`. The conversion handles times before 1970; it panics only
/// for a system clock set beyond the range of `chrono`'s dates, some 260000
/// years away, which no argument can rule out.) The time is not stated.
#[verifier::external_body]
pub(crate) fn utc_now_micros() -> UtcMicros {
    UtcMicros { micros: chrono::DateTime::<chrono::Utc>::from(std::time::SystemTime::now()).timestamp_micros() }
}

} // verus!
