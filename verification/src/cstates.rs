//! The C-state bundle: residency of the core C-states on each CPU (summed
//! over the CPUs) and of the package C-states.
use vstd::prelude::*;

use crate::bundles::{
    all_equal, control_counter, counting_config, read_once, lemma_push_to_set, observe_cpu, pushed,
    pushed_prefix,
    read_counter, Bundle, BundleError, Control,
};
use crate::columns::{kind_columns, BundleKind, Column};
use crate::events::{
    core_column, core_cstates, core_sysfs_name, is_subsequence, keep_present, kept,
    lemma_kept_agree, lemma_kept_all, lemma_kept_map, pkg_column, pkg_cstates, pkg_sysfs_name,
    present_flags, present_values, CoreCState, PkgCState,
};
use crate::perf::{
    builder_build, dynamic_build, dynamic_event_builder, dynamic_pmu, dynamic_select_event,
    CounterConfig, EventSource, PerfCounter,
};
use crate::readings::{lemma_records_map_dom, record_columns, records_map, Measurements, Value};

verus! {

/// The sum of the counts of `rs` for the core C-state `e`.
pub open spec fn event_total(rs: Seq<(CoreCState, u64)>, e: CoreCState) -> int
    decreases rs.len(),
{
    if rs.len() == 0 {
        0
    } else {
        event_total(rs.drop_last(), e) + (if rs.last().0 == e {
            rs.last().1 as int
        } else {
            0
        })
    }
}

/// The measurement of core C-state residency readings: for each state that
/// occurs in `rs`, the sum of its counts under the state's column.
pub open spec fn core_residency_map(rs: Seq<(CoreCState, u64)>) -> Map<Column, Value>
    decreases rs.len(),
{
    if rs.len() == 0 {
        Map::empty()
    } else {
        core_residency_map(rs.drop_last()).insert(
            core_column(rs.last().0),
            Value::Count(event_total(rs, rs.last().0) as u64),
        )
    }
}

/// A sum over a prefix is at most the sum over the whole.
pub proof fn lemma_event_total_prefix(rs: Seq<(CoreCState, u64)>, k: int, e: CoreCState)
    requires
        0 <= k <= rs.len(),
    ensures
        0 <= event_total(rs.take(k), e) <= event_total(rs, e),
    decreases rs.len(),
{
    if k == rs.len() {
        assert(rs.take(k) =~= rs);
        if rs.len() > 0 {
            lemma_event_total_prefix(rs.drop_last(), 0, e);
        }
    } else {
        lemma_event_total_prefix(rs.drop_last(), k, e);
        assert(rs.drop_last().take(k) =~= rs.take(k));
    }
}

/// In the residency map, a state's column holds the state's total, a state
/// that has no column has no counts, and the columns are those of the states
/// read.
pub proof fn lemma_core_residency_map(rs: Seq<(CoreCState, u64)>, e: CoreCState)
    ensures
        core_residency_map(rs).contains_key(core_column(e)) ==> core_residency_map(rs)[core_column(
            e,
        )] == Value::Count(event_total(rs, e) as u64),
        !core_residency_map(rs).contains_key(core_column(e)) ==> event_total(rs, e) == 0,
        core_residency_map(rs).dom() == rs.map_values(|r: (CoreCState, u64)| core_column(r.0)).to_set(),
    decreases rs.len(),
{
    let cs = rs.map_values(|r: (CoreCState, u64)| core_column(r.0));
    if rs.len() > 0 {
        let p = rs.drop_last();
        lemma_core_residency_map(p, e);
        let pcs = p.map_values(|r: (CoreCState, u64)| core_column(r.0));
        assert(cs =~= pcs.push(core_column(rs.last().0)));
        lemma_push_to_set(pcs, core_column(rs.last().0));
        assert(core_residency_map(rs).dom() =~= cs.to_set());
    } else {
        assert(core_residency_map(rs).dom() =~= cs.to_set());
    }
}

proof fn lemma_core_columns_are_cstate_columns(e: CoreCState)
    ensures
        kind_columns(BundleKind::CStates).contains(core_column(e)),
{
    let k = kind_columns(BundleKind::CStates);
    match e {
        CoreCState::C1 => assert(k[0] == core_column(e)),
        CoreCState::C3 => assert(k[1] == core_column(e)),
        CoreCState::C6 => assert(k[2] == core_column(e)),
        CoreCState::C7 => assert(k[3] == core_column(e)),
    }
}

/// The measurement of core C-state residency readings: for each state read,
/// the sum of its counts, under the state's column; `CountOverflow` where a
/// sum does not fit in 64 bits.
pub fn core_residency_measurement(readings: &Vec<(CoreCState, u64)>) -> (res: Result<
    Measurements,
    BundleError,
>)
    ensures
        res is Ok <==> forall|e: CoreCState| event_total(readings@, e) <= u64::MAX,
        res matches Ok(m) ==> m@ == core_residency_map(readings@),
        res matches Err(e) ==> e is CountOverflow,
{
    let mut m = Measurements::new();
    let mut i: usize = 0;
    while i < readings.len()
        invariant
            i <= readings@.len(),
            m@ == core_residency_map(readings@.take(i as int)),
            forall|e: CoreCState| event_total(readings@.take(i as int), e) <= u64::MAX,
        decreases readings@.len() - i,
    {
        let (event, count) = readings[i];
        let ghost p = readings@.take(i as int);
        let ghost q = readings@.take(i + 1);
        proof {
            assert(q.drop_last() =~= p);
            assert(q.last() == (event, count));
            lemma_core_residency_map(p, event);
            assert(event_total(readings@.take(i as int), event) <= u64::MAX);
            assert(0 <= event_total(p, event)) by {
                lemma_event_total_prefix(p, 0, event);
            }
        }
        let so_far: u64 = match m.get(event.column()) {
            Some(Value::Count(t)) => t,
            _ => 0,
        };
        proof {
            assert(so_far == event_total(p, event));
            assert(event_total(q, event) == event_total(p, event) + count);
        }
        match so_far.checked_add(count) {
            Some(t) => {
                m.insert(event.column(), Value::Count(t));
                proof {
                    assert(core_residency_map(q) == core_residency_map(p).insert(
                        core_column(event),
                        Value::Count(event_total(q, event) as u64),
                    ));
                    assert forall|e: CoreCState| event_total(q, e) <= u64::MAX by {
                        if e != event {
                            assert(event_total(q, e) == event_total(p, e));
                        }
                    }
                }
            },
            None => {
                proof {
                    lemma_event_total_prefix(readings@, i + 1, event);
                    assert(event_total(readings@, event) > u64::MAX);
                }
                return Err(BundleError::CountOverflow);
            },
        }
        i = i + 1;
    }
    proof {
        assert(readings@.take(readings@.len() as int) =~= readings@);
    }
    Ok(m)
}

/// The options of a counter of the event `event` of the dynamic PMU `pmu` on
/// CPU `cpu`, for all processes, kernel and hypervisor included.
pub open spec fn dynamic_config(pmu: Seq<char>, event: Seq<char>, cpu: usize) -> CounterConfig {
    counting_config(EventSource::Dynamic { pmu, event: Some(event) }, cpu)
}

/// Opens a counter of the event `event_name` of the sysfs PMU `pmu` on CPU
/// `cpu`, for all processes, kernel and hypervisor included; `None` where any
/// step fails.
fn build_dynamic_counter(pmu: &str, event_name: &str, cpu: usize) -> (res: Option<PerfCounter>)
    ensures
        res matches Some(c) ==> c.config() == dynamic_config(pmu@, event_name@, cpu) && c.history()
            == Seq::<Control>::empty(),
{
    let mut format = match dynamic_pmu(pmu) {
        Ok(f) => f,
        Err(_) => return None,
    };
    if dynamic_select_event(&mut format, event_name).is_err() {
        return None;
    }
    let built = match dynamic_build(&format) {
        Some(d) => d,
        None => return None,
    };
    let mut builder = dynamic_event_builder(built);
    observe_cpu(&mut builder, cpu);
    match builder_build(&builder) {
        Ok(c) => Some(c),
        Err(_) => None,
    }
}

/// The options of the counter of the core C-state `e` on CPU `cpu`.
pub open spec fn core_config(e: CoreCState, cpu: usize) -> CounterConfig {
    dynamic_config("cstate_core"@, core_sysfs_name(e), cpu)
}

/// The options of the counter of the package C-state `e` (on CPU 0).
pub open spec fn pkg_config(e: PkgCState) -> CounterConfig {
    dynamic_config("cstate_pkg"@, pkg_sysfs_name(e), 0)
}

/// A core C-state residency counter on one CPU.
pub struct CoreCounter {
    pub event: CoreCState,
    pub cpu: usize,
    pub counter: PerfCounter,
}

/// A package C-state residency counter (on CPU 0).
pub struct PkgCounter {
    pub event: PkgCState,
    pub counter: PerfCounter,
}

/// Each of `events`, paired with each of `cpus`, event by event.
pub open spec fn event_cpu_pairs(events: Seq<CoreCState>, cpus: Seq<usize>) -> Seq<
    (CoreCState, usize),
>
    decreases events.len(),
{
    if events.len() == 0 {
        Seq::empty()
    } else {
        event_cpu_pairs(events.drop_last(), cpus) + cpus.map_values(
            |c: usize| (events.last(), c),
        )
    }
}

/// The (state, CPU) slots of a list of core counters.
pub open spec fn core_slots(cs: Seq<CoreCounter>) -> Seq<(CoreCState, usize)> {
    cs.map_values(|c: CoreCounter| (c.event, c.cpu))
}

/// The counter options of a list of core counters.
pub open spec fn core_counter_configs(cs: Seq<CoreCounter>) -> Seq<CounterConfig> {
    cs.map_values(|c: CoreCounter| c.counter.config())
}

/// The control histories of a list of core counters.
pub open spec fn core_counter_histories(cs: Seq<CoreCounter>) -> Seq<Seq<Control>> {
    cs.map_values(|c: CoreCounter| c.counter.history())
}

/// The counter reads of a list of core counters.
pub open spec fn core_counter_reads(cs: Seq<CoreCounter>) -> Seq<Seq<u64>> {
    cs.map_values(|c: CoreCounter| c.counter.reads())
}

/// The counter reads of a list of package counters.
pub open spec fn pkg_counter_reads(cs: Seq<PkgCounter>) -> Seq<Seq<u64>> {
    cs.map_values(|c: PkgCounter| c.counter.reads())
}

/// Each (state, CPU) pair of `opened` with the state and the latest count
/// read from the counter at the same position of `reads`.
pub open spec fn latest_core_counts(opened: Seq<(CoreCState, usize)>, reads: Seq<Seq<u64>>) -> Seq<
    (CoreCState, u64),
> {
    Seq::new(opened.len(), |k: int| (opened[k].0, reads[k].last()))
}

/// Each package state of `opened` with the latest count read from the
/// counter at the same position of `reads`.
pub open spec fn latest_pkg_counts(opened: Seq<PkgCState>, reads: Seq<Seq<u64>>) -> Seq<
    (PkgCState, u64),
> {
    Seq::new(opened.len(), |k: int| (opened[k], reads[k].last()))
}

/// The states of a list of package counters.
pub open spec fn pkg_counter_events(cs: Seq<PkgCounter>) -> Seq<PkgCState> {
    cs.map_values(|c: PkgCounter| c.event)
}

/// The counter options of a list of package counters.
pub open spec fn pkg_counter_configs(cs: Seq<PkgCounter>) -> Seq<CounterConfig> {
    cs.map_values(|c: PkgCounter| c.counter.config())
}

/// The control histories of a list of package counters.
pub open spec fn pkg_counter_histories(cs: Seq<PkgCounter>) -> Seq<Seq<Control>> {
    cs.map_values(|c: PkgCounter| c.counter.history())
}

/// C-state residencies: core states per CPU (summed over CPUs), package
/// states on CPU 0.
pub struct CStateBundle {
    core_counters: Vec<CoreCounter>,
    pkg_counters: Vec<PkgCounter>,
    cpus: Ghost<Seq<usize>>,
}

impl CStateBundle {
    /// The CPUs the bundle was made for.
    pub closed spec fn for_cpus(&self) -> Seq<usize> {
        self.cpus@
    }

    /// The (state, CPU) pairs whose core counters opened, in order.
    pub closed spec fn core_opened(&self) -> Seq<(CoreCState, usize)> {
        core_slots(self.core_counters@)
    }

    /// The package states whose counters opened, in order.
    pub closed spec fn pkg_opened(&self) -> Seq<PkgCState> {
        pkg_counter_events(self.pkg_counters@)
    }

    /// The options of each core counter, in order.
    pub closed spec fn core_configs(&self) -> Seq<CounterConfig> {
        core_counter_configs(self.core_counters@)
    }

    /// The options of each package counter, in order.
    pub closed spec fn pkg_configs(&self) -> Seq<CounterConfig> {
        pkg_counter_configs(self.pkg_counters@)
    }

    /// The counts that the reads of each core counter returned, in order.
    pub closed spec fn core_reads(&self) -> Seq<Seq<u64>> {
        core_counter_reads(self.core_counters@)
    }

    /// The counts that the reads of each package counter returned, in order.
    pub closed spec fn pkg_reads(&self) -> Seq<Seq<u64>> {
        pkg_counter_reads(self.pkg_counters@)
    }

    /// The control history of each core counter, in order.
    pub closed spec fn core_histories(&self) -> Seq<Seq<Control>> {
        core_counter_histories(self.core_counters@)
    }

    /// The control history of each package counter, in order.
    pub closed spec fn pkg_histories(&self) -> Seq<Seq<Control>> {
        pkg_counter_histories(self.pkg_counters@)
    }

    /// The bundle was made for the CPUs `cpus`; its core counters count core
    /// states on CPUs of `cpus`, state by state and CPU by CPU in their
    /// order, each pair at most once; its package counters count package
    /// states in their order, each at most once, on CPU 0.
    pub open spec fn opened_for(&self, cpus: Seq<usize>) -> bool {
        &&& self.for_cpus() == cpus
        &&& is_subsequence(self.core_opened(), event_cpu_pairs(core_cstates(), cpus))
        &&& is_subsequence(self.pkg_opened(), pkg_cstates())
        &&& self.core_configs().len() == self.core_opened().len()
        &&& forall|k: int|
            0 <= k < self.core_configs().len() ==> #[trigger] self.core_configs()[k] == core_config(
                self.core_opened()[k].0,
                self.core_opened()[k].1,
            )
        &&& self.pkg_configs().len() == self.pkg_opened().len()
        &&& forall|k: int|
            0 <= k < self.pkg_configs().len() ==> #[trigger] self.pkg_configs()[k] == pkg_config(
                self.pkg_opened()[k],
            )
    }

    /// Every counter has had exactly the control operations `h`.
    pub open spec fn histories_are(&self, h: Seq<Control>) -> bool {
        all_equal(self.core_histories(), h) && all_equal(self.pkg_histories(), h)
    }

    /// What reading the bundle gives: `res`.
    pub open spec fn read_gives(&self, res: Result<Measurements, BundleError>) -> bool {
        &&& res matches Ok(m) ==> exists|core: Seq<(CoreCState, u64)>, pkg: Seq<(PkgCState, u64)>|
            core.len() == self.core_opened().len() && pkg.len() == self.pkg_opened().len()
                && (forall|k: int| 0 <= k < core.len() ==> #[trigger] core[k].0 == self.core_opened()[k].0)
                && (forall|k: int| 0 <= k < pkg.len() ==> #[trigger] pkg[k].0 == self.pkg_opened()[k])
                && m@ == core_residency_map(core).union_prefer_right(records_map(pkg_records(pkg)))
        &&& self.core_opened().len() == 0 && self.pkg_opened().len() == 0 ==> (res matches Ok(m)
            && m@ == Map::<Column, Value>::empty())
        &&& res matches Err(e) ==> e is Io || (e is CountOverflow && self.core_opened().len() >= 2)
    }

    fn control(&mut self, op: Control) -> (res: Result<(), BundleError>)
        ensures
            final(self).for_cpus() == old(self).for_cpus(),
            final(self).core_opened() == old(self).core_opened(),
            final(self).pkg_opened() == old(self).pkg_opened(),
            final(self).core_configs() == old(self).core_configs(),
            final(self).pkg_configs() == old(self).pkg_configs(),
            res is Ok ==> final(self).core_histories() == pushed(old(self).core_histories(), op)
                && final(self).pkg_histories() == pushed(old(self).pkg_histories(), op),
            res is Err ==> (exists|j: int|
                0 <= j < old(self).core_histories().len() && final(self).core_histories()
                    == pushed_prefix(old(self).core_histories(), op, j) && final(self).pkg_histories()
                    == old(self).pkg_histories()) || (final(self).core_histories() == pushed(
                old(self).core_histories(),
                op,
            ) && exists|j: int|
                0 <= j < old(self).pkg_histories().len() && final(self).pkg_histories()
                    == pushed_prefix(old(self).pkg_histories(), op, j)),
            old(self).core_opened().len() == 0 && old(self).pkg_opened().len() == 0 ==> res is Ok,
            res matches Err(e) ==> e is Io,
    {
        let ghost core_orig = core_counter_histories(self.core_counters@);
        let ghost pkg_orig = pkg_counter_histories(self.pkg_counters@);
        let mut i: usize = 0;
        while i < self.core_counters.len()
            invariant
                i <= self.core_counters@.len(),
                self.cpus == old(self).cpus,
                self.core_counters@.len() == old(self).core_counters@.len(),
                core_orig == core_counter_histories(old(self).core_counters@),
                core_slots(self.core_counters@) == core_slots(old(self).core_counters@),
                core_counter_configs(self.core_counters@) == core_counter_configs(old(self).core_counters@),
                forall|k: int| 0 <= k < i ==> #[trigger] self.core_counters@[k].counter.history() == core_orig[k].push(op),
                forall|k: int| i <= k < self.core_counters@.len() ==> #[trigger] self.core_counters@[k].counter.history() == core_orig[k],
                self.pkg_counters == old(self).pkg_counters,
            decreases self.core_counters@.len() - i,
        {
            let ghost before = self.core_counters@;
            let r = control_counter(&mut self.core_counters[i].counter, op);
            proof {
                assert forall|k: int| 0 <= k < self.core_counters@.len() && k != i implies #[trigger] self.core_counters@[k]
                    == before[k] by {}
                assert(core_slots(self.core_counters@) =~= core_slots(before));
                assert(core_counter_configs(self.core_counters@) =~= core_counter_configs(before));
            }
            if r.is_err() {
                proof {
                    assert(core_counter_histories(self.core_counters@) =~= pushed_prefix(core_orig, op, i as int));
                    assert(self.core_histories() == pushed_prefix(old(self).core_histories(), op, i as int));
                    assert(self.pkg_histories() == old(self).pkg_histories());
                    assert(0 <= i < old(self).core_histories().len());
                }
                return r;
            }
            i = i + 1;
        }
        proof {
            assert(core_counter_histories(self.core_counters@) =~= pushed(core_orig, op));
        }
        let mut j: usize = 0;
        while j < self.pkg_counters.len()
            invariant
                j <= self.pkg_counters@.len(),
                self.cpus == old(self).cpus,
                self.pkg_counters@.len() == old(self).pkg_counters@.len(),
                pkg_orig == pkg_counter_histories(old(self).pkg_counters@),
                core_orig == core_counter_histories(old(self).core_counters@),
                core_slots(self.core_counters@) == core_slots(old(self).core_counters@),
                core_counter_configs(self.core_counters@) == core_counter_configs(old(self).core_counters@),
                core_counter_histories(self.core_counters@) == pushed(core_orig, op),
                pkg_counter_events(self.pkg_counters@) == pkg_counter_events(
                    old(self).pkg_counters@,
                ),
                pkg_counter_configs(self.pkg_counters@) == pkg_counter_configs(old(self).pkg_counters@),
                forall|k: int| 0 <= k < j ==> #[trigger] self.pkg_counters@[k].counter.history() == pkg_orig[k].push(op),
                forall|k: int| j <= k < self.pkg_counters@.len() ==> #[trigger] self.pkg_counters@[k].counter.history() == pkg_orig[k],
            decreases self.pkg_counters@.len() - j,
        {
            let ghost before = self.pkg_counters@;
            let r = control_counter(&mut self.pkg_counters[j].counter, op);
            proof {
                assert forall|k: int| 0 <= k < self.pkg_counters@.len() && k != j implies #[trigger] self.pkg_counters@[k]
                    == before[k] by {}
                assert(pkg_counter_events(self.pkg_counters@) =~= pkg_counter_events(before));
                assert(pkg_counter_configs(self.pkg_counters@) =~= pkg_counter_configs(before));
            }
            if r.is_err() {
                proof {
                    assert(pkg_counter_histories(self.pkg_counters@) =~= pushed_prefix(pkg_orig, op, j as int));
                    assert(self.core_histories() == pushed(old(self).core_histories(), op));
                    assert(self.pkg_histories() == pushed_prefix(old(self).pkg_histories(), op, j as int));
                    assert(0 <= j < old(self).pkg_histories().len());
                }
                return r;
            }
            j = j + 1;
        }
        proof {
            assert(pkg_counter_histories(self.pkg_counters@) =~= pushed(pkg_orig, op));
        }
        Ok(())
    }
}

proof fn lemma_pkg_columns_are_cstate_columns(e: PkgCState)
    ensures
        kind_columns(BundleKind::CStates).contains(pkg_column(e)),
{
    let k = kind_columns(BundleKind::CStates);
    match e {
        PkgCState::C2 => assert(k[4] == pkg_column(e)),
        PkgCState::C3 => assert(k[5] == pkg_column(e)),
        PkgCState::C6 => assert(k[6] == pkg_column(e)),
        PkgCState::C8 => assert(k[7] == pkg_column(e)),
        PkgCState::C10 => assert(k[8] == pkg_column(e)),
    }
}

/// A core counter counts its state on its CPU and has had no control
/// operation.
spec fn core_ok(c: CoreCounter) -> bool {
    c.counter.config() == core_config(c.event, c.cpu) && c.counter.history() == Seq::<Control>::empty()
}

/// A package counter counts its state on CPU 0 and has had no control
/// operation.
spec fn pkg_ok(c: PkgCounter) -> bool {
    c.counter.config() == pkg_config(c.event) && c.counter.history() == Seq::<Control>::empty()
}

impl Bundle for CStateBundle {
    open spec fn kind() -> BundleKind {
        BundleKind::CStates
    }

    /// For each core state in turn (C1, C3, C6, C7), opens its counter of the
    /// `cstate_core` PMU on each CPU of `cpus`; then for each package state in
    /// turn (C2, C3, C6, C8, C10), its counter of the `cstate_pkg` PMU on CPU
    /// 0. Counters that fail to open are skipped; never fails.
    fn new(cpus: &[usize]) -> (res: Result<Self, BundleError>)
        ensures
            res matches Ok(b) && b.opened_for(cpus@) && b.histories_are(Seq::empty()),
    {
        let core_events = CoreCState::all();
        let mut core_slots_opened: Vec<Option<CoreCounter>> = Vec::new();
        let mut k: usize = 0;
        while k < core_events.len()
            invariant
                core_events@ == core_cstates(),
                k <= core_events@.len(),
                core_slots_opened@.len() == event_cpu_pairs(core_events@.take(k as int), cpus@).len(),
                forall|x: int|
                    0 <= x < core_slots_opened@.len() && core_slots_opened@[x] is Some ==> (
                    #[trigger] core_slots_opened@[x]->0.event,
                    core_slots_opened@[x]->0.cpu,
                ) == event_cpu_pairs(core_events@.take(k as int), cpus@)[x] && core_ok(core_slots_opened@[x]->0),
            decreases core_events@.len() - k,
        {
            let event = core_events[k];
            let ghost done = event_cpu_pairs(core_events@.take(k as int), cpus@);
            let mut j: usize = 0;
            while j < cpus.len()
                invariant
                    j <= cpus@.len(),
                    core_slots_opened@.len() == done.len() + j,
                    forall|x: int|
                        0 <= x < core_slots_opened@.len() && core_slots_opened@[x] is Some ==> (
                        #[trigger] core_slots_opened@[x]->0.event,
                        core_slots_opened@[x]->0.cpu,
                    ) == (done + cpus@.take(j as int).map_values(|c: usize| (event, c)))[x] && core_ok(core_slots_opened@[x]->0),
                decreases cpus@.len() - j,
            {
                let cpu = cpus[j];
                let ghost ys = done + cpus@.take(j as int).map_values(|c: usize| (event, c));
                let slot = match build_dynamic_counter("cstate_core", event.sysfs_name(), cpu) {
                    Some(counter) => Some(CoreCounter { event, cpu, counter }),
                    None => None,
                };
                core_slots_opened.push(slot);
                proof {
                    let zs = done + cpus@.take(j + 1).map_values(|c: usize| (event, c));
                    assert(zs =~= ys.push((event, cpu)));
                }
                j = j + 1;
            }
            proof {
                assert(cpus@.take(cpus@.len() as int) =~= cpus@);
                let t = core_events@.take(k + 1);
                assert(t.drop_last() =~= core_events@.take(k as int));
                assert(t.last() == event);
                assert(event_cpu_pairs(t, cpus@) == done + cpus@.map_values(
                    |c: usize| (event, c),
                ));
            }
            k = k + 1;
        }
        proof {
            assert(core_events@.take(core_events@.len() as int) =~= core_events@);
        }
        let ghost cvalues = present_values(core_slots_opened@);
        let ghost cflags = present_flags(core_slots_opened@);
        let ghost pairs = event_cpu_pairs(core_cstates(), cpus@);
        let core_counters = keep_present(core_slots_opened);
        proof {
            let f = |c: CoreCounter| (c.event, c.cpu);
            lemma_kept_map(cvalues, cflags, f);
            assert forall|x: int| 0 <= x < cflags.len() && cflags[x] implies cvalues.map_values(
                f,
            )[x] == pairs[x] by {
                assert(core_slots_opened@[x] is Some);
            }
            lemma_kept_agree(cvalues.map_values(f), pairs, cflags);
            assert(core_slots(core_counters@) == kept(pairs, cflags));
            assert forall|x: int| 0 <= x < cflags.len() && cflags[x] implies core_ok(cvalues[x]) by {
                assert(core_slots_opened@[x] is Some);
            }
            lemma_kept_all(cvalues, cflags, |c: CoreCounter| core_ok(c));
            assert forall|x: int| 0 <= x < core_counters@.len() implies #[trigger] core_ok(core_counters@[x]) by {
                assert((|c: CoreCounter| core_ok(c))(kept(cvalues, cflags)[x]));
            }
        }
        let pkg_events = PkgCState::all();
        let mut pkg_slots: Vec<Option<PkgCounter>> = Vec::new();
        let mut i: usize = 0;
        while i < pkg_events.len()
            invariant
                pkg_events@ == pkg_cstates(),
                i <= pkg_events@.len(),
                pkg_slots@.len() == i,
                forall|x: int|
                    0 <= x < i && pkg_slots@[x] is Some ==> #[trigger] pkg_slots@[x]->0.event
                        == pkg_events@[x] && pkg_ok(pkg_slots@[x]->0),
            decreases pkg_events@.len() - i,
        {
            let event = pkg_events[i];
            let slot = match build_dynamic_counter("cstate_pkg", event.sysfs_name(), 0) {
                Some(counter) => Some(PkgCounter { event, counter }),
                None => None,
            };
            pkg_slots.push(slot);
            i = i + 1;
        }
        let ghost pvalues = present_values(pkg_slots@);
        let ghost pflags = present_flags(pkg_slots@);
        let pkg_counters = keep_present(pkg_slots);
        proof {
            let g = |c: PkgCounter| c.event;
            lemma_kept_map(pvalues, pflags, g);
            assert forall|x: int| 0 <= x < pflags.len() && pflags[x] implies pvalues.map_values(
                g,
            )[x] == pkg_cstates()[x] by {
                assert(pkg_slots@[x] is Some);
            }
            lemma_kept_agree(pvalues.map_values(g), pkg_cstates(), pflags);
            assert(pkg_counter_events(pkg_counters@) == kept(pkg_cstates(), pflags));
            assert forall|x: int| 0 <= x < pflags.len() && pflags[x] implies pkg_ok(pvalues[x]) by {
                assert(pkg_slots@[x] is Some);
            }
            lemma_kept_all(pvalues, pflags, |c: PkgCounter| pkg_ok(c));
            assert forall|x: int| 0 <= x < pkg_counters@.len() implies #[trigger] pkg_ok(pkg_counters@[x]) by {
                assert((|c: PkgCounter| pkg_ok(c))(kept(pvalues, pflags)[x]));
            }
        }
        let b = CStateBundle { core_counters, pkg_counters, cpus: Ghost(cpus@) };
        proof {
            assert forall|x: int| 0 <= x < b.core_configs().len() implies #[trigger] b.core_configs()[x] == core_config(
                b.core_opened()[x].0,
                b.core_opened()[x].1,
            ) && b.core_histories()[x] == Seq::<Control>::empty() by {
                assert(core_ok(b.core_counters@[x]));
            }
            assert forall|x: int| 0 <= x < b.pkg_configs().len() implies #[trigger] b.pkg_configs()[x] == pkg_config(
                b.pkg_opened()[x],
            ) && b.pkg_histories()[x] == Seq::<Control>::empty() by {
                assert(pkg_ok(b.pkg_counters@[x]));
            }
        }
        Ok(b)
    }

    /// Enables the core counters, then the package counters, one by one,
    /// stopping at the first failure.
    fn enable(&mut self) -> (res: Result<(), BundleError>)
        ensures
            final(self).for_cpus() == old(self).for_cpus(),
            final(self).core_opened() == old(self).core_opened(),
            final(self).pkg_opened() == old(self).pkg_opened(),
            final(self).core_configs() == old(self).core_configs(),
            final(self).pkg_configs() == old(self).pkg_configs(),
            res is Ok ==> final(self).core_histories() == pushed(old(self).core_histories(), Control::Enable)
                && final(self).pkg_histories() == pushed(old(self).pkg_histories(), Control::Enable),
            res is Err ==> (exists|j: int|
                0 <= j < old(self).core_histories().len() && final(self).core_histories()
                    == pushed_prefix(old(self).core_histories(), Control::Enable, j) && final(self).pkg_histories()
                    == old(self).pkg_histories()) || (final(self).core_histories() == pushed(
                old(self).core_histories(),
                Control::Enable,
            ) && exists|j: int|
                0 <= j < old(self).pkg_histories().len() && final(self).pkg_histories()
                    == pushed_prefix(old(self).pkg_histories(), Control::Enable, j)),
            old(self).core_opened().len() == 0 && old(self).pkg_opened().len() == 0 ==> res is Ok,
            res matches Err(e) ==> e is Io,
    {
        self.control(Control::Enable)
    }

    /// Disables the core counters, then the package counters, one by one,
    /// stopping at the first failure.
    fn disable(&mut self) -> (res: Result<(), BundleError>)
        ensures
            final(self).for_cpus() == old(self).for_cpus(),
            final(self).core_opened() == old(self).core_opened(),
            final(self).pkg_opened() == old(self).pkg_opened(),
            final(self).core_configs() == old(self).core_configs(),
            final(self).pkg_configs() == old(self).pkg_configs(),
            res is Ok ==> final(self).core_histories() == pushed(old(self).core_histories(), Control::Disable)
                && final(self).pkg_histories() == pushed(old(self).pkg_histories(), Control::Disable),
            res is Err ==> (exists|j: int|
                0 <= j < old(self).core_histories().len() && final(self).core_histories()
                    == pushed_prefix(old(self).core_histories(), Control::Disable, j) && final(self).pkg_histories()
                    == old(self).pkg_histories()) || (final(self).core_histories() == pushed(
                old(self).core_histories(),
                Control::Disable,
            ) && exists|j: int|
                0 <= j < old(self).pkg_histories().len() && final(self).pkg_histories()
                    == pushed_prefix(old(self).pkg_histories(), Control::Disable, j)),
            old(self).core_opened().len() == 0 && old(self).pkg_opened().len() == 0 ==> res is Ok,
            res matches Err(e) ==> e is Io,
    {
        self.control(Control::Disable)
    }

    /// Resets the core counters, then the package counters, one by one,
    /// stopping at the first failure.
    fn reset(&mut self) -> (res: Result<(), BundleError>)
        ensures
            final(self).for_cpus() == old(self).for_cpus(),
            final(self).core_opened() == old(self).core_opened(),
            final(self).pkg_opened() == old(self).pkg_opened(),
            final(self).core_configs() == old(self).core_configs(),
            final(self).pkg_configs() == old(self).pkg_configs(),
            res is Ok ==> final(self).core_histories() == pushed(old(self).core_histories(), Control::Reset)
                && final(self).pkg_histories() == pushed(old(self).pkg_histories(), Control::Reset),
            res is Err ==> (exists|j: int|
                0 <= j < old(self).core_histories().len() && final(self).core_histories()
                    == pushed_prefix(old(self).core_histories(), Control::Reset, j) && final(self).pkg_histories()
                    == old(self).pkg_histories()) || (final(self).core_histories() == pushed(
                old(self).core_histories(),
                Control::Reset,
            ) && exists|j: int|
                0 <= j < old(self).pkg_histories().len() && final(self).pkg_histories()
                    == pushed_prefix(old(self).pkg_histories(), Control::Reset, j)),
            old(self).core_opened().len() == 0 && old(self).pkg_opened().len() == 0 ==> res is Ok,
            res matches Err(e) ==> e is Io,
    {
        self.control(Control::Reset)
    }

    /// Reads the core counters one by one, then the package counters one by
    /// one, stopping at the first failure, and reports the sum of the core
    /// counts of each core state and the count of each package state (see
    /// `cstate_measurement`): of the counts just read, one from each counter.
    fn read(&mut self) -> (res: Result<Measurements, BundleError>)
        ensures
            res matches Ok(m) ==> read_once(old(self).core_reads(), final(self).core_reads()) && read_once(
                old(self).pkg_reads(),
                final(self).pkg_reads(),
            ) && m@ == core_residency_map(
                latest_core_counts(old(self).core_opened(), final(self).core_reads()),
            ).union_prefer_right(
                records_map(pkg_records(latest_pkg_counts(old(self).pkg_opened(), final(self).pkg_reads()))),
            ),
            final(self).for_cpus() == old(self).for_cpus(),
            final(self).core_opened() == old(self).core_opened(),
            final(self).pkg_opened() == old(self).pkg_opened(),
            final(self).core_configs() == old(self).core_configs(),
            final(self).pkg_configs() == old(self).pkg_configs(),
            final(self).core_histories() == old(self).core_histories(),
            final(self).pkg_histories() == old(self).pkg_histories(),
            old(self).read_gives(res),
    {
        let mut core: Vec<(CoreCState, u64)> = Vec::new();
        let mut i: usize = 0;
        while i < self.core_counters.len()
            invariant
                i <= self.core_counters@.len(),
                self.cpus == old(self).cpus,
                core_slots(self.core_counters@) == core_slots(old(self).core_counters@),
                core_counter_configs(self.core_counters@) == core_counter_configs(old(self).core_counters@),
                core_counter_histories(self.core_counters@) == core_counter_histories(old(self).core_counters@),
                self.pkg_counters == old(self).pkg_counters,
                core@.len() == i,
                forall|j: int|
                    0 <= j < i ==> #[trigger] core@[j].0 == core_slots(self.core_counters@)[j].0,
                self.core_counters@.len() == old(self).core_counters@.len(),
                forall|j: int| 0 <= j < i ==> #[trigger] self.core_counters@[j].counter.reads()
                    == old(self).core_counters@[j].counter.reads().push(core@[j].1),
                forall|j: int| i <= j < self.core_counters@.len() ==> #[trigger] self.core_counters@[j].counter.reads()
                    == old(self).core_counters@[j].counter.reads(),
            decreases self.core_counters@.len() - i,
        {
            let ghost before = self.core_counters@;
            let event = self.core_counters[i].event;
            let r = read_counter(&mut self.core_counters[i].counter);
            proof {
                assert(core_slots(self.core_counters@) =~= core_slots(before));
                assert(core_counter_configs(self.core_counters@) =~= core_counter_configs(before));
                assert(core_counter_histories(self.core_counters@) =~= core_counter_histories(before));
            }
            proof {
                assert forall|k: int| 0 <= k < self.core_counters@.len() && k != i implies #[trigger] self.core_counters@[k]
                    == before[k] by {}
            }
            let v = r?;
            let ghost before_core = core@;
            core.push((event, v));
            proof {
                assert forall|j: int| 0 <= j < i + 1 implies #[trigger] self.core_counters@[j].counter.reads()
                    == old(self).core_counters@[j].counter.reads().push(core@[j].1) by {
                    if j < i {
                        assert(core@[j] == before_core[j]);
                        assert(self.core_counters@[j] == before[j]);
                    }
                }
            }
            i = i + 1;
        }
        let ghost core_done = self.core_counters@;
        let mut pkg: Vec<(PkgCState, u64)> = Vec::new();
        let mut j: usize = 0;
        while j < self.pkg_counters.len()
            invariant
                j <= self.pkg_counters@.len(),
                self.cpus == old(self).cpus,
                core_slots(self.core_counters@) == core_slots(old(self).core_counters@),
                core_counter_configs(self.core_counters@) == core_counter_configs(old(self).core_counters@),
                core_counter_histories(self.core_counters@) == core_counter_histories(old(self).core_counters@),
                pkg_counter_events(self.pkg_counters@) == pkg_counter_events(
                    old(self).pkg_counters@,
                ),
                pkg_counter_configs(self.pkg_counters@) == pkg_counter_configs(old(self).pkg_counters@),
                pkg_counter_histories(self.pkg_counters@) == pkg_counter_histories(old(self).pkg_counters@),
                pkg@.len() == j,
                forall|k: int|
                    0 <= k < j ==> #[trigger] pkg@[k].0 == pkg_counter_events(self.pkg_counters@)[k],
                self.core_counters@ == core_done,
                self.pkg_counters@.len() == old(self).pkg_counters@.len(),
                forall|k: int| 0 <= k < j ==> #[trigger] self.pkg_counters@[k].counter.reads()
                    == old(self).pkg_counters@[k].counter.reads().push(pkg@[k].1),
                forall|k: int| j <= k < self.pkg_counters@.len() ==> #[trigger] self.pkg_counters@[k].counter.reads()
                    == old(self).pkg_counters@[k].counter.reads(),
            decreases self.pkg_counters@.len() - j,
        {
            let ghost before = self.pkg_counters@;
            let event = self.pkg_counters[j].event;
            let r = read_counter(&mut self.pkg_counters[j].counter);
            proof {
                assert(pkg_counter_events(self.pkg_counters@) =~= pkg_counter_events(before));
                assert(pkg_counter_configs(self.pkg_counters@) =~= pkg_counter_configs(before));
                assert(pkg_counter_histories(self.pkg_counters@) =~= pkg_counter_histories(before));
            }
            proof {
                assert forall|k: int| 0 <= k < self.pkg_counters@.len() && k != j implies #[trigger] self.pkg_counters@[k]
                    == before[k] by {}
            }
            let v = r?;
            let ghost before_pkg = pkg@;
            pkg.push((event, v));
            proof {
                assert forall|k: int| 0 <= k < j + 1 implies #[trigger] self.pkg_counters@[k].counter.reads()
                    == old(self).pkg_counters@[k].counter.reads().push(pkg@[k].1) by {
                    if k < j {
                        assert(pkg@[k] == before_pkg[k]);
                        assert(self.pkg_counters@[k] == before[k]);
                    }
                }
            }
            j = j + 1;
        }
        proof {
            let oc = old(self).core_counters@;
            let op = old(self).pkg_counters@;
            assert forall|k: int| 0 <= k < core@.len() implies #[trigger] latest_core_counts(old(self).core_opened(), self.core_reads())[k] == core@[k] by {
                assert(core@[k].0 == core_slots(self.core_counters@)[k].0);
                assert(self.core_reads()[k] == oc[k].counter.reads().push(core@[k].1));
            }
            assert(latest_core_counts(old(self).core_opened(), self.core_reads()) =~= core@);
            assert forall|k: int| 0 <= k < pkg@.len() implies #[trigger] latest_pkg_counts(old(self).pkg_opened(), self.pkg_reads())[k] == pkg@[k] by {
                assert(pkg@[k].0 == pkg_counter_events(self.pkg_counters@)[k]);
                assert(self.pkg_reads()[k] == op[k].counter.reads().push(pkg@[k].1));
            }
            assert(latest_pkg_counts(old(self).pkg_opened(), self.pkg_reads()) =~= pkg@);
            assert forall|k: int| 0 <= k < self.core_reads().len() implies #[trigger] self.core_reads()[k].len()
                == old(self).core_reads()[k].len() + 1 && self.core_reads()[k].drop_last() == old(self).core_reads()[k] by {
                assert(self.core_reads()[k].drop_last() =~= old(self).core_reads()[k]);
            }
            assert forall|k: int| 0 <= k < self.pkg_reads().len() implies #[trigger] self.pkg_reads()[k].len()
                == old(self).pkg_reads()[k].len() + 1 && self.pkg_reads()[k].drop_last() == old(self).pkg_reads()[k] by {
                assert(self.pkg_reads()[k].drop_last() =~= old(self).pkg_reads()[k]);
            }
        }
        let r = cstate_measurement(&core, &pkg);
        proof {
            if r is Ok {
                let m = r->Ok_0;
                assert(m@ == core_residency_map(core@).union_prefer_right(records_map(pkg_records(pkg@))));
                assert(core@.len() == old(self).core_opened().len());
                assert(pkg@.len() == old(self).pkg_opened().len());
                assert(forall|k: int| 0 <= k < core@.len() ==> #[trigger] core@[k].0 == old(self).core_opened()[k].0);
                assert(forall|k: int| 0 <= k < pkg@.len() ==> #[trigger] pkg@[k].0 == old(self).pkg_opened()[k]);
                assert(exists|c: Seq<(CoreCState, u64)>, p: Seq<(PkgCState, u64)>|
                    c.len() == old(self).core_opened().len() && p.len() == old(self).pkg_opened().len()
                        && (forall|k: int| 0 <= k < c.len() ==> #[trigger] c[k].0 == old(self).core_opened()[k].0)
                        && (forall|k: int| 0 <= k < p.len() ==> #[trigger] p[k].0 == old(self).pkg_opened()[k])
                        && m@ == core_residency_map(c).union_prefer_right(records_map(pkg_records(p))));
            }
            if core@.len() < 2 {
                assert forall|e: CoreCState| event_total(core@, e) <= u64::MAX by {
                    if core@.len() == 1 {
                        assert(core@.drop_last().len() == 0);
                        assert(event_total(core@.drop_last(), e) == 0);
                    }
                }
            }
            if core@.len() == 0 && pkg@.len() == 0 {
                assert(core_residency_map(core@) == Map::<Column, Value>::empty());
                assert(records_map(pkg_records(pkg@)) == Map::<Column, Value>::empty());
            }
            if r is Ok {
                let m = r->Ok_0;
                lemma_core_residency_map(core@, CoreCState::C1);
                lemma_records_map_dom(pkg_records(pkg@));
                let ccols = core@.map_values(|r: (CoreCState, u64)| core_column(r.0));
                let pcols = record_columns(pkg_records(pkg@));
                assert forall|c: Column| m@.dom().contains(c) implies kind_columns(
                    BundleKind::CStates,
                ).to_set().contains(c) by {
                    if ccols.to_set().contains(c) {
                        let x = choose|x: int| 0 <= x < ccols.len() && ccols[x] == c;
                        lemma_core_columns_are_cstate_columns(core@[x].0);
                    } else {
                        let x = choose|x: int| 0 <= x < pcols.len() && pcols[x] == c;
                        lemma_pkg_columns_are_cstate_columns(pkg@[x].0);
                    }
                }
            }
        }
        proof {
            assert(r matches Ok(m) ==> exists|c: Seq<(CoreCState, u64)>, p: Seq<(PkgCState, u64)>|
                    c.len() == old(self).core_opened().len() && p.len() == old(self).pkg_opened().len()
                        && (forall|k: int| 0 <= k < c.len() ==> #[trigger] c[k].0 == old(self).core_opened()[k].0)
                        && (forall|k: int| 0 <= k < p.len() ==> #[trigger] p[k].0 == old(self).pkg_opened()[k])
                        && m@ == core_residency_map(c).union_prefer_right(records_map(pkg_records(p))));
            assert(old(self).core_opened().len() == 0 && old(self).pkg_opened().len() == 0 ==> (r matches Ok(m)
            && m@ == Map::<Column, Value>::empty()));
            assert(r matches Err(e) ==> e is Io || (e is CountOverflow && old(self).core_opened().len() >= 2));
        }
        r
    }
}

/// The records of package C-state readings: each count under its state's
/// column.
pub open spec fn pkg_records(readings: Seq<(PkgCState, u64)>) -> Seq<(Column, Value)> {
    readings.map_values(|r: (PkgCState, u64)| (pkg_column(r.0), Value::Count(r.1)))
}

/// The measurement of package C-state readings: each count under its state's
/// column.
pub fn pkg_residency_measurement(readings: &Vec<(PkgCState, u64)>) -> (res: Measurements)
    ensures
        res@ == records_map(pkg_records(readings@)),
{
    let mut m = Measurements::new();
    let mut i: usize = 0;
    while i < readings.len()
        invariant
            i <= readings@.len(),
            m@ == records_map(pkg_records(readings@.take(i as int))),
        decreases readings@.len() - i,
    {
        let (event, count) = readings[i];
        m.insert(event.column(), Value::Count(count));
        proof {
            let r = pkg_records(readings@.take(i + 1));
            assert(r.drop_last() =~= pkg_records(readings@.take(i as int)));
        }
        i = i + 1;
    }
    proof {
        assert(readings@.take(readings@.len() as int) =~= readings@);
    }
    m
}

/// The measurement of C-state readings: the core residency (see
/// `core_residency_measurement`) joined with the package residency (see
/// `pkg_residency_measurement`); `CountOverflow` where a core sum does not
/// fit in 64 bits.
pub fn cstate_measurement(core: &Vec<(CoreCState, u64)>, pkg: &Vec<(PkgCState, u64)>) -> (res:
    Result<Measurements, BundleError>)
    ensures
        res is Ok <==> forall|e: CoreCState| event_total(core@, e) <= u64::MAX,
        res matches Ok(m) ==> m@ == core_residency_map(core@).union_prefer_right(
            records_map(pkg_records(pkg@)),
        ),
        res matches Err(e) ==> e is CountOverflow,
{
    let mut m = core_residency_measurement(core)?;
    m.extend(pkg_residency_measurement(pkg));
    Ok(m)
}

} // verus!
