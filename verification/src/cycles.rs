//! The cycles bundle: CPU cycles, summed over a set of CPUs.
use vstd::prelude::*;

use crate::bundles::{
    all_equal, appended, latest_reads, lemma_appended_are_latest, control_all, counter_configs, counter_histories, counter_reads, open_per_cpu, per_cpu_configs,
    pushed, pushed_prefix, read_all, sum_counts, total, Bundle, BundleError, Control, CpuEvent,
};
use crate::columns::{kind_columns, BundleKind, Column};
use crate::events::is_subsequence;
use crate::perf::{CounterConfig, EventSource, HardwareEvent, PerfCounter};
use crate::readings::{Measurements, Value};

verus! {

/// The measurement of the cycles counted on all CPUs: their sum, under
/// `cycles`, or `CountOverflow` where the sum does not fit in 64 bits.
pub fn cycles_measurement(counts: &Vec<u64>) -> (res: Result<Measurements, BundleError>)
    ensures
        res is Ok <==> total(counts@) <= u64::MAX,
        res matches Ok(m) ==> m@ == map![Column::Cycles => Value::Count(total(counts@) as u64)],
        res matches Err(e) ==> e is CountOverflow,
{
    match sum_counts(counts) {
        Some(t) => {
            let mut m = Measurements::new();
            m.insert(Column::Cycles, Value::Count(t));
            proof {
                assert(m@ =~= map![Column::Cycles => Value::Count(total(counts@) as u64)]);
            }
            Ok(m)
        },
        None => Err(BundleError::CountOverflow),
    }
}

/// The CPU cycles, summed over a set of CPUs.
pub struct CyclesBundle {
    counters: Vec<PerfCounter>,
    cpus: Ghost<Seq<usize>>,
}

/// The options of the cycle counters for the CPUs `cpus`, in order.
pub open spec fn cycles_configs(cpus: Seq<usize>) -> Seq<CounterConfig> {
    per_cpu_configs(EventSource::Hardware(HardwareEvent::CpuCycles), cpus)
}

impl CyclesBundle {
    /// The CPUs the bundle was made for.
    pub closed spec fn for_cpus(&self) -> Seq<usize> {
        self.cpus@
    }

    /// The options of the counters that opened, in order.
    pub closed spec fn configs(&self) -> Seq<CounterConfig> {
        counter_configs(self.counters@)
    }

    /// The control history of each counter, in order.
    pub closed spec fn histories(&self) -> Seq<Seq<Control>> {
        counter_histories(self.counters@)
    }

    /// The counts that the reads of each counter returned, in order.
    pub closed spec fn reads(&self) -> Seq<Seq<u64>> {
        counter_reads(self.counters@)
    }

    /// The bundle was made for the CPUs `cpus`, and its counters are cycle
    /// counters on CPUs of `cpus`, in their order, each CPU at most once.
    pub open spec fn opened_for(&self, cpus: Seq<usize>) -> bool {
        &&& self.for_cpus() == cpus
        &&& is_subsequence(self.configs(), cycles_configs(cpus))
        &&& cpus.len() == 0 ==> self.configs().len() == 0
    }

    /// Every counter has had exactly the control operations `h`.
    pub open spec fn histories_are(&self, h: Seq<Control>) -> bool {
        all_equal(self.histories(), h)
    }

    /// What reading the bundle gives: `res`.
    pub open spec fn read_gives(&self, res: Result<Measurements, BundleError>) -> bool {
        &&& res matches Ok(m) ==> exists|counts: Seq<u64>|
                    counts.len() == self.configs().len() && total(counts) <= u64::MAX && m@ == map![Column::Cycles => Value::Count(total(counts) as u64)]
        &&& self.configs().len() == 0 ==> (res matches Ok(m) && m@ == map![Column::Cycles => Value::Count(0)])
        &&& res matches Err(e) ==> e is Io || (e is CountOverflow && self.configs().len() >= 2)
    }

    fn control(&mut self, op: Control) -> (res: Result<(), BundleError>)
        ensures
            final(self).for_cpus() == old(self).for_cpus(),
            final(self).configs() == old(self).configs(),
            res is Ok ==> final(self).histories() == pushed(old(self).histories(), op),
            res is Err ==> exists|j: int|
                0 <= j < old(self).histories().len() && final(self).histories() == pushed_prefix(
                    old(self).histories(),
                    op,
                    j,
                ),
            old(self).configs().len() == 0 ==> res is Ok,
            res matches Err(e) ==> e is Io,
    {
        let r = control_all(&mut self.counters, op);
        proof {
            if r is Err {
                let j = choose|j: int|
                    0 <= j < old(self).counters@.len() && counter_histories(self.counters@) == pushed_prefix(
                        counter_histories(old(self).counters@),
                        op,
                        j,
                    );
                assert(self.histories() == pushed_prefix(old(self).histories(), op, j));
            }
        }
        r
    }
}

impl Bundle for CyclesBundle {
    open spec fn kind() -> BundleKind {
        BundleKind::Cycles
    }

    /// Opens a cycle counter on each CPU of `cpus` (all processes, kernel and
    /// hypervisor included), skipping those that fail to open; never fails.
    fn new(cpus: &[usize]) -> (res: Result<Self, BundleError>)
        ensures
            res matches Ok(b) && b.opened_for(cpus@) && b.histories_are(Seq::empty()),
    {
        let counters = open_per_cpu(CpuEvent::Cycles, cpus);
        let b = CyclesBundle { counters, cpus: Ghost(cpus@) };
        proof {
            assert(per_cpu_configs(EventSource::Hardware(HardwareEvent::CpuCycles), cpus@) == cycles_configs(cpus@));
        }
        Ok(b)
    }

    /// Enables each counter in turn, stopping at the first failure.
    fn enable(&mut self) -> (res: Result<(), BundleError>)
        ensures
            final(self).for_cpus() == old(self).for_cpus(),
            final(self).configs() == old(self).configs(),
            res is Ok ==> final(self).histories() == pushed(old(self).histories(), Control::Enable),
            res is Err ==> exists|j: int|
                0 <= j < old(self).histories().len() && final(self).histories() == pushed_prefix(
                    old(self).histories(),
                    Control::Enable,
                    j,
                ),
            old(self).configs().len() == 0 ==> res is Ok,
            res matches Err(e) ==> e is Io,
    {
        self.control(Control::Enable)
    }

    /// Disables each counter in turn, stopping at the first failure.
    fn disable(&mut self) -> (res: Result<(), BundleError>)
        ensures
            final(self).for_cpus() == old(self).for_cpus(),
            final(self).configs() == old(self).configs(),
            res is Ok ==> final(self).histories() == pushed(old(self).histories(), Control::Disable),
            res is Err ==> exists|j: int|
                0 <= j < old(self).histories().len() && final(self).histories() == pushed_prefix(
                    old(self).histories(),
                    Control::Disable,
                    j,
                ),
            old(self).configs().len() == 0 ==> res is Ok,
            res matches Err(e) ==> e is Io,
    {
        self.control(Control::Disable)
    }

    /// Resets each counter in turn, stopping at the first failure.
    fn reset(&mut self) -> (res: Result<(), BundleError>)
        ensures
            final(self).for_cpus() == old(self).for_cpus(),
            final(self).configs() == old(self).configs(),
            res is Ok ==> final(self).histories() == pushed(old(self).histories(), Control::Reset),
            res is Err ==> exists|j: int|
                0 <= j < old(self).histories().len() && final(self).histories() == pushed_prefix(
                    old(self).histories(),
                    Control::Reset,
                    j,
                ),
            old(self).configs().len() == 0 ==> res is Ok,
            res matches Err(e) ==> e is Io,
    {
        self.control(Control::Reset)
    }

    /// Reads each counter in turn, stopping at the first failure, and reports
    /// the sum under `cycles` (see `cycles_measurement`). With no counters the
    /// sum is 0; a sum can only overflow with two counters or more. What is
    /// reported is the sum of the counts just read, one from each counter.
    fn read(&mut self) -> (res: Result<Measurements, BundleError>)
        ensures
            res matches Ok(m) ==> final(self).reads().len() == old(self).reads().len() && m@ == map![
                Column::Cycles => Value::Count(total(latest_reads(final(self).reads())) as u64),
            ],
            res matches Ok(m) ==> exists|counts: Seq<u64>|
                counts.len() == old(self).reads().len() && final(self).reads() == appended(
                    old(self).reads(),
                    counts,
                ) && total(counts) <= u64::MAX && m@ == map![Column::Cycles => Value::Count(total(counts) as u64)],
            final(self).for_cpus() == old(self).for_cpus(),
            final(self).configs() == old(self).configs(),
            final(self).histories() == old(self).histories(),
            old(self).read_gives(res),
    {
        let counts = read_all(&mut self.counters)?;
        let r = cycles_measurement(&counts);
        proof {
            if counts@.len() < 2 {
                if counts@.len() == 1 {
                    assert(counts@.drop_last().len() == 0);
                    assert(total(counts@.drop_last()) == 0);
                    assert(total(counts@) == counts@[0]);
                }
                assert(total(counts@) <= u64::MAX);
            }
            if r is Ok {
                assert(counts@.len() == old(self).configs().len());
                assert(counts@.len() == old(self).reads().len());
                lemma_appended_are_latest(old(self).reads(), counts@);
                let m = r->Ok_0;
                assert(m@.dom() =~= set![Column::Cycles]);
                assert(kind_columns(BundleKind::Cycles).to_set() =~= set![Column::Cycles]) by {
                    assert(kind_columns(BundleKind::Cycles)[0] == Column::Cycles);
                }
            }
        }
        r
    }
}

} // verus!
