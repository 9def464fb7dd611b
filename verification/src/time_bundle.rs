//! The wall-time bundle.
use vstd::prelude::*;

use std::time::Instant;

use crate::bundles::{Bundle, BundleError};
use crate::columns::{kind_columns, BundleKind, Column};
use crate::host::{duration_as_micros, instant_elapsed, instant_now};
use crate::readings::{Measurements, Value};

verus! {

/// Wall time since the bundle was enabled.
pub struct TimeBundle {
    start_time: Option<Instant>,
}

impl TimeBundle {
    /// Whether the bundle has been enabled since it was made or reset.
    pub closed spec fn started(&self) -> bool {
        self.start_time is Some
    }

    /// What reading the bundle gives: `res` holds the microseconds since the
    /// start under `time` where the bundle has been started, and nothing
    /// otherwise; the microseconds are those of the clock's reading of the
    /// time elapsed since the start, which `res` carries.
    pub open spec fn read_gives(&self, res: Result<Measurements, BundleError>) -> bool {
        &&& res matches Ok(m) && m@.dom() == (if self.started() {
            set![Column::Time]
        } else {
            Set::<Column>::empty()
        }) && (m@.contains_key(Column::Time) ==> m@[Column::Time] is Micros)
        &&& self.start() matches Some(start) ==> (res matches Ok(m) && m.time_reading() matches Some(
            reading,
        ) && reading.since() == start && m@[Column::Time] == Value::Micros(reading.value()))
    }

    /// The instant noted as the start, if the bundle has been started.
    pub closed spec fn start(&self) -> Option<Instant> {
        self.start_time
    }
}

impl Bundle for TimeBundle {
    open spec fn kind() -> BundleKind {
        BundleKind::Time
    }

    /// Never fails; the CPUs are not used.
    fn new(_cpus: &[usize]) -> (res: Result<Self, BundleError>)
        ensures
            res matches Ok(b) && !b.started(),
    {
        Ok(TimeBundle { start_time: None })
    }

    /// Notes the current time as the start; never fails.
    fn enable(&mut self) -> (res: Result<(), BundleError>)
        ensures
            res is Ok,
            final(self).started(),
            final(self).start() is Some,
    {
        self.start_time = Some(instant_now());
        Ok(())
    }

    /// Does nothing: the time keeps running until it is read.
    fn disable(&mut self) -> (res: Result<(), BundleError>)
        ensures
            res is Ok,
            *final(self) == *old(self),
    {
        Ok(())
    }

    /// Forgets the start time; never fails.
    fn reset(&mut self) -> (res: Result<(), BundleError>)
        ensures
            res is Ok,
            !final(self).started(),
    {
        self.start_time = None;
        Ok(())
    }

    /// The microseconds since the start, under `time`; nothing when the
    /// bundle has not been started. Never fails.
    fn read(&mut self) -> (res: Result<Measurements, BundleError>)
        ensures
            *final(self) == *old(self),
            old(self).read_gives(res),
    {
        let mut m = Measurements::new();
        match &self.start_time {
            Some(start) => {
                let elapsed = instant_elapsed(start);
                let micros = duration_as_micros(&elapsed);
                m.insert(Column::Time, Value::Micros(micros.micros()));
                m.note_time_reading(micros);
            },
            None => {},
        }
        proof {
            assert(m@.dom() =~= (if old(self).started() {
                set![Column::Time]
            } else {
                Set::<Column>::empty()
            }));
            assert(kind_columns(BundleKind::Time).to_set() =~= set![Column::Time]) by {
                assert(kind_columns(BundleKind::Time)[0] == Column::Time);
            }
        }
        Ok(m)
    }
}

/// Reading a started time bundle reports, under `time`, the whole
/// microseconds of the clock's reading of the time elapsed since the instant
/// that enabling it noted, and carries that reading.
pub proof fn lemma_time_is_elapsed_since_start(b: TimeBundle, res: Result<Measurements, BundleError>)
    requires
        b.started(),
        b.read_gives(res),
    ensures
        res matches Ok(m) && m.time_reading() matches Some(reading) && b.start() == Some(
            reading.since(),
        ) && m@[Column::Time] == Value::Micros(reading.value()),
{
}

} // verus!
