//! Measurement bundles: each opens a set of counters, starts, stops and resets
//! them together, and reports what they counted.
use vstd::prelude::*;

use crate::columns::{kind_columns, BundleKind, Column};
use crate::config::BundleConfig;
use crate::cstates::CStateBundle;
use crate::cycles::CyclesBundle;
use crate::events::{
    is_subsequence, keep_present, kept, lemma_kept_agree, lemma_kept_all, lemma_kept_map,
    miss_hardware_event, present_flags, present_values, MissEvent,
};
use crate::misses::MissesBundle;
pub use crate::perf::Control;
use crate::perf::{
    builder_any_pid, builder_build, builder_exclude_hv, builder_exclude_kernel, builder_one_cpu,
    counter_disable, counter_enable, counter_read, counter_reset, group_disable, group_enable,
    group_reset, hardware_builder, CounterConfig, EventSource, HardwareEvent, PerfBuilder,
    PerfCounter, PerfGroup,
};
use crate::rapl::RaplBundle;
use crate::readings::Measurements;
use crate::time_bundle::TimeBundle;

verus! {

/// Why a bundle operation failed.
#[derive(Debug)]
pub enum BundleError {
    /// The kernel interface refused the operation.
    Io(std::io::Error),
    /// A sum of counts does not fit in 64 bits.
    CountOverflow,
}

/// The sum of `vs`.
pub open spec fn total(vs: Seq<u64>) -> int
    decreases vs.len(),
{
    if vs.len() == 0 {
        0
    } else {
        total(vs.drop_last()) + vs.last()
    }
}

/// A sum only grows as more values are added.
pub proof fn lemma_total_prefix(vs: Seq<u64>, k: int)
    requires
        0 <= k <= vs.len(),
    ensures
        0 <= total(vs.take(k)) <= total(vs),
    decreases vs.len(),
{
    if k == vs.len() {
        assert(vs.take(k) =~= vs);
        if vs.len() > 0 {
            lemma_total_prefix(vs.drop_last(), 0);
        }
    } else {
        lemma_total_prefix(vs.drop_last(), k);
        assert(vs.drop_last().take(k) =~= vs.take(k));
    }
}

/// The sum of `values`, or `None` when it does not fit in a `u64`.
pub fn sum_counts(values: &Vec<u64>) -> (res: Option<u64>)
    ensures
        res is Some <==> total(values@) <= u64::MAX,
        res matches Some(t) ==> t == total(values@),
{
    let mut sum: u64 = 0;
    let mut i: usize = 0;
    while i < values.len()
        invariant
            i <= values@.len(),
            sum == total(values@.take(i as int)),
        decreases values@.len() - i,
    {
        proof {
            assert(values@.take(i + 1).drop_last() =~= values@.take(i as int));
        }
        match sum.checked_add(values[i]) {
            Some(s) => {
                sum = s;
            },
            None => {
                proof {
                    lemma_total_prefix(values@, i + 1);
                }
                return None;
            },
        }
        i = i + 1;
    }
    proof {
        assert(values@.take(values@.len() as int) =~= values@);
    }
    Some(sum)
}

/// The options of a counter of `source` that observes CPU `cpu` for all
/// processes, kernel and hypervisor included.
pub open spec fn counting_config(source: EventSource, cpu: usize) -> CounterConfig {
    CounterConfig {
        source,
        cpu: Some(cpu),
        any_pid: true,
        exclude_kernel: false,
        exclude_hv: false,
        group_read: false,
    }
}

/// The options of a counter of `source` on each CPU of `cpus`, in order.
pub open spec fn per_cpu_configs(source: EventSource, cpus: Seq<usize>) -> Seq<CounterConfig> {
    cpus.map_values(|c: usize| counting_config(source, c))
}

/// The options of each of a list of counters.
pub open spec fn counter_configs(cs: Seq<PerfCounter>) -> Seq<CounterConfig> {
    cs.map_values(|c: PerfCounter| c.config())
}

/// The control history of each of a list of counters.
pub open spec fn counter_histories(cs: Seq<PerfCounter>) -> Seq<Seq<Control>> {
    cs.map_values(|c: PerfCounter| c.history())
}

/// The reads of each of a list of counters.
pub open spec fn counter_reads(cs: Seq<PerfCounter>) -> Seq<Seq<u64>> {
    cs.map_values(|c: PerfCounter| c.reads())
}

/// The reads `rs` of a list of counters, with the count at `k` of `counts`
/// noted as one more read of the counter at `k`.
pub open spec fn appended(rs: Seq<Seq<u64>>, counts: Seq<u64>) -> Seq<Seq<u64>> {
    Seq::new(rs.len(), |k: int| rs[k].push(counts[k]))
}

/// The latest count read from each of a list of counters.
pub open spec fn latest_reads(rs: Seq<Seq<u64>>) -> Seq<u64> {
    rs.map_values(|r: Seq<u64>| r.last())
}

/// `after` is `before` with one more read noted for each counter.
pub open spec fn read_once(before: Seq<Seq<u64>>, after: Seq<Seq<u64>>) -> bool {
    &&& after.len() == before.len()
    &&& forall|j: int|
        0 <= j < after.len() ==> #[trigger] after[j].len() == before[j].len() + 1 && after[j].drop_last()
            == before[j]
}

/// Noting one count per counter is reading each counter once.
pub proof fn lemma_appended_read_once(rs: Seq<Seq<u64>>, counts: Seq<u64>)
    requires
        counts.len() == rs.len(),
    ensures
        read_once(rs, appended(rs, counts)),
{
    assert forall|j: int| 0 <= j < rs.len() implies #[trigger] appended(rs, counts)[j].len() == rs[j].len() + 1
        && appended(rs, counts)[j].drop_last() == rs[j] by {
        assert(appended(rs, counts)[j].drop_last() =~= rs[j]);
    }
}

/// Noting one more read of each counter makes those counts the latest: the
/// counts noted are exactly the latest reads afterwards.
pub proof fn lemma_appended_are_latest(rs: Seq<Seq<u64>>, counts: Seq<u64>)
    requires
        counts.len() == rs.len(),
    ensures
        latest_reads(appended(rs, counts)) == counts,
{
    assert(latest_reads(appended(rs, counts)) =~= counts);
}

/// Each history of `hs`, with `op` appended.
pub open spec fn pushed(hs: Seq<Seq<Control>>, op: Control) -> Seq<Seq<Control>> {
    hs.map_values(|h: Seq<Control>| h.push(op))
}

/// The histories `hs`, with `op` appended to the first `j` of them: the
/// effect of applying `op` in turn until it fails on the one at `j`.
pub open spec fn pushed_prefix(hs: Seq<Seq<Control>>, op: Control, j: int) -> Seq<Seq<Control>> {
    Seq::new(hs.len(), |k: int| if k < j { hs[k].push(op) } else { hs[k] })
}

/// Each history of each list of `hss`, with `op` appended.
pub open spec fn pushed_each(hss: Seq<Seq<Seq<Control>>>, op: Control) -> Seq<Seq<Seq<Control>>> {
    hss.map_values(|hs: Seq<Seq<Control>>| pushed(hs, op))
}

/// The lists of histories `hss`, with `op` appended to every history of the
/// first `g` lists and to the first `j` histories of the list at `g`: the
/// effect of applying `op` in turn, list by list, until it fails on the
/// history at `j` of the list at `g`.
pub open spec fn pushed_each_prefix(
    hss: Seq<Seq<Seq<Control>>>,
    op: Control,
    g: int,
    j: int,
) -> Seq<Seq<Seq<Control>>> {
    Seq::new(
        hss.len(),
        |k: int|
            if k < g {
                pushed(hss[k], op)
            } else if k == g {
                pushed_prefix(hss[k], op, j)
            } else {
                hss[k]
            },
    )
}

/// Whether every history of `hs` is `h`.
pub open spec fn all_equal(hs: Seq<Seq<Control>>, h: Seq<Control>) -> bool {
    forall|k: int| 0 <= k < hs.len() ==> #[trigger] hs[k] == h
}

/// Sets `builder` to observe CPU `cpu` for all processes, kernel and
/// hypervisor included.
pub(crate) fn observe_cpu(builder: &mut PerfBuilder, cpu: usize)
    ensures
        final(builder).config() == (CounterConfig {
            cpu: Some(cpu),
            any_pid: true,
            exclude_kernel: false,
            exclude_hv: false,
            ..old(builder).config()
        }),
{
    builder_one_cpu(builder, cpu);
    builder_any_pid(builder);
    builder_exclude_kernel(builder, false);
    builder_exclude_hv(builder, false);
}

/// Opens a counter of the generalised event `event` on CPU `cpu`, for all
/// processes, kernel and hypervisor included.
pub(crate) fn open_hardware_counter(event: HardwareEvent, cpu: usize) -> (res: Result<
    PerfCounter,
    std::io::Error,
>)
    ensures
        res matches Ok(c) ==> c.config() == counting_config(EventSource::Hardware(event), cpu)
            && c.history() == Seq::<Control>::empty(),
{
    let mut builder = hardware_builder(event);
    observe_cpu(&mut builder, cpu);
    builder_build(&builder)
}

/// Applies `op` to `counter`; a failure is the kernel's, reported as `Io`.
pub(crate) fn control_counter(counter: &mut PerfCounter, op: Control) -> (res: Result<(), BundleError>)
    ensures
        final(counter).config() == old(counter).config(),
        final(counter).reads() == old(counter).reads(),
        res is Ok ==> final(counter).history() == old(counter).history().push(op),
        res is Err ==> final(counter).history() == old(counter).history(),
        res matches Err(e) ==> e is Io,
{
    let r = match op {
        Control::Enable => counter_enable(counter),
        Control::Disable => counter_disable(counter),
        Control::Reset => counter_reset(counter),
    };
    match r {
        Ok(()) => Ok(()),
        Err(e) => Err(BundleError::Io(e)),
    }
}

/// Applies `op` to all counters of `group`; a failure is the kernel's,
/// reported as `Io`.
pub(crate) fn control_group(group: &mut PerfGroup, op: Control) -> (res: Result<(), BundleError>)
    ensures
        final(group).leader() == old(group).leader(),
        final(group).members() == old(group).members(),
        res is Ok ==> final(group).history() == old(group).history().push(op),
        res is Err ==> final(group).history() == old(group).history(),
        res matches Err(e) ==> e is Io,
{
    let r = match op {
        Control::Enable => group_enable(group),
        Control::Disable => group_disable(group),
        Control::Reset => group_reset(group),
    };
    match r {
        Ok(()) => Ok(()),
        Err(e) => Err(BundleError::Io(e)),
    }
}

/// The count of `counter`; a failure is the kernel's, reported as `Io`.
pub(crate) fn read_counter(counter: &mut PerfCounter) -> (res: Result<u64, BundleError>)
    ensures
        final(counter).config() == old(counter).config(),
        final(counter).history() == old(counter).history(),
        final(counter).reads() == (match res {
            Ok(v) => old(counter).reads().push(v),
            Err(_) => old(counter).reads(),
        }),
        res matches Err(e) ==> e is Io,
{
    match counter_read(counter) {
        Ok(v) => Ok(v),
        Err(e) => Err(BundleError::Io(e)),
    }
}

/// Applies `op` to each counter in turn, stopping at the first failure.
pub(crate) fn control_all(counters: &mut Vec<PerfCounter>, op: Control) -> (res: Result<(), BundleError>)
    ensures
        counter_configs(final(counters)@) == counter_configs(old(counters)@),
        counter_reads(final(counters)@) == counter_reads(old(counters)@),
        res is Ok ==> counter_histories(final(counters)@) == pushed(counter_histories(old(counters)@), op),
        res is Err ==> exists|j: int|
            0 <= j < old(counters)@.len() && counter_histories(final(counters)@) == pushed_prefix(
                counter_histories(old(counters)@),
                op,
                j,
            ),
        old(counters)@.len() == 0 ==> res is Ok,
        res matches Err(e) ==> e is Io,
{
    let ghost orig = counter_histories(counters@);
    let mut i: usize = 0;
    while i < counters.len()
        invariant
            i <= counters@.len(),
            counters@.len() == old(counters)@.len(),
            orig == counter_histories(old(counters)@),
            counter_configs(counters@) == counter_configs(old(counters)@),
            counter_reads(counters@) == counter_reads(old(counters)@),
            forall|k: int| 0 <= k < i ==> #[trigger] counters@[k].history() == orig[k].push(op),
            forall|k: int| i <= k < counters@.len() ==> #[trigger] counters@[k].history() == orig[k],
        decreases counters@.len() - i,
    {
        let ghost before = counters@;
        let r = control_counter(&mut counters[i], op);
        proof {
            assert(counter_configs(counters@) =~= counter_configs(before));
            assert(counter_reads(counters@) =~= counter_reads(before));
            assert forall|k: int| 0 <= k < counters@.len() && k != i implies #[trigger] counters@[k]
                == before[k] by {}
        }
        if r.is_err() {
            proof {
                assert(counter_histories(counters@) =~= pushed_prefix(orig, op, i as int));
            }
            return r;
        }
        i = i + 1;
    }
    proof {
        assert(counter_histories(counters@) =~= pushed(orig, op));
    }
    Ok(())
}

/// Reads each counter in turn, stopping at the first failure.
pub(crate) fn read_all(counters: &mut Vec<PerfCounter>) -> (res: Result<Vec<u64>, BundleError>)
    ensures
        counter_configs(final(counters)@) == counter_configs(old(counters)@),
        counter_histories(final(counters)@) == counter_histories(old(counters)@),
        res matches Ok(v) ==> v@.len() == old(counters)@.len() && counter_reads(final(counters)@)
            == appended(counter_reads(old(counters)@), v@),
        old(counters)@.len() == 0 ==> res is Ok,
        res matches Err(e) ==> e is Io,
{
    let mut values: Vec<u64> = Vec::new();
    let mut i: usize = 0;
    while i < counters.len()
        invariant
            i <= counters@.len(),
            values@.len() == i,
            counters@.len() == old(counters)@.len(),
            counter_configs(counters@) == counter_configs(old(counters)@),
            counter_histories(counters@) == counter_histories(old(counters)@),
            forall|k: int| 0 <= k < i ==> #[trigger] counters@[k].reads() == old(counters)@[k].reads().push(values@[k]),
            forall|k: int| i <= k < counters@.len() ==> #[trigger] counters@[k].reads() == old(counters)@[k].reads(),
        decreases counters@.len() - i,
    {
        let ghost before = counters@;
        let r = read_counter(&mut counters[i]);
        proof {
            assert(counter_configs(counters@) =~= counter_configs(before));
            assert(counter_histories(counters@) =~= counter_histories(before));
            assert forall|k: int| 0 <= k < counters@.len() && k != i implies #[trigger] counters@[k]
                == before[k] by {}
        }
        match r {
            Ok(v) => values.push(v),
            Err(e) => return Err(e),
        }
        i = i + 1;
    }
    proof {
        assert(counter_reads(counters@) =~= appended(counter_reads(old(counters)@), values@));
    }
    Ok(values)
}

/// A set of counters that is started, stopped, reset and read as one.
pub trait Bundle: Sized {
    /// The kind of bundle, which fixes the columns it can report.
    spec fn kind() -> BundleKind;

    /// Opens the bundle's counters for the CPUs `cpus` (where it counts per
    /// CPU).
    fn new(cpus: &[usize]) -> Result<Self, BundleError>;

    /// Starts counting.
    fn enable(&mut self) -> Result<(), BundleError>;

    /// Stops counting.
    fn disable(&mut self) -> Result<(), BundleError>;

    /// Sets the counts back to zero.
    fn reset(&mut self) -> Result<(), BundleError>;

    /// The current counts, by column.
    fn read(&mut self) -> (res: Result<Measurements, BundleError>)
        ensures
            res matches Ok(m) ==> m@.dom().subset_of(kind_columns(Self::kind()).to_set()),
    ;
}

/// An event counted per CPU by a hardware counter.
#[derive(Clone, Copy, Debug, PartialEq, Eq, Structural)]
pub enum CpuEvent {
    Cycles,
    Miss(MissEvent),
}

/// The generalised hardware event of a per-CPU event.
pub open spec fn cpu_event_hardware(e: CpuEvent) -> HardwareEvent {
    match e {
        CpuEvent::Cycles => HardwareEvent::CpuCycles,
        CpuEvent::Miss(m) => miss_hardware_event(m),
    }
}

/// Opens a counter of `event` on each CPU of `cpus` in turn, keeping those
/// that opened.
pub(crate) fn open_per_cpu(event: CpuEvent, cpus: &[usize]) -> (res: Vec<PerfCounter>)
    ensures
        is_subsequence(
            counter_configs(res@),
            per_cpu_configs(EventSource::Hardware(cpu_event_hardware(event)), cpus@),
        ),
        all_equal(counter_histories(res@), Seq::<Control>::empty()),
{
    let ghost source = EventSource::Hardware(cpu_event_hardware(event));
    let mut slots: Vec<Option<PerfCounter>> = Vec::new();
    let mut i: usize = 0;
    while i < cpus.len()
        invariant
            i <= cpus@.len(),
            slots@.len() == i,
            source == EventSource::Hardware(cpu_event_hardware(event)),
            forall|k: int|
                0 <= k < i && slots@[k] is Some ==> #[trigger] slots@[k]->0.config() == counting_config(
                    source,
                    cpus@[k],
                ) && slots@[k]->0.history() == Seq::<Control>::empty(),
        decreases cpus@.len() - i,
    {
        let cpu = cpus[i];
        let opened = match event {
            CpuEvent::Cycles => open_hardware_counter(HardwareEvent::CpuCycles, cpu),
            CpuEvent::Miss(e) => e.build_counter(cpu),
        };
        let slot = match opened {
            Ok(counter) => Some(counter),
            Err(_) => None,
        };
        proof {
            if slot is Some {
                assert(slot->0.config() == counting_config(source, cpu));
            }
        }
        let ghost before = slots@;
        slots.push(slot);
        proof {
            assert forall|k: int| 0 <= k < i && slots@[k] is Some implies #[trigger] slots@[k]->0.config()
                == counting_config(source, cpus@[k]) && slots@[k]->0.history() == Seq::<Control>::empty() by {
                assert(slots@[k] == before[k]);
            }
        }
        i = i + 1;
    }
    let ghost values = present_values(slots@);
    let ghost flags = present_flags(slots@);
    let res = keep_present(slots);
    proof {
        let targets = per_cpu_configs(source, cpus@);
        lemma_kept_map(values, flags, |c: PerfCounter| c.config());
        lemma_kept_map(values, flags, |c: PerfCounter| c.history());
        assert forall|k: int| 0 <= k < flags.len() && flags[k] implies values.map_values(
            |c: PerfCounter| c.config(),
        )[k] == targets[k] by {
            assert(slots@[k] is Some);
        }
        lemma_kept_agree(values.map_values(|c: PerfCounter| c.config()), targets, flags);
        assert(counter_configs(res@) == kept(targets, flags));
        let hs = values.map_values(|c: PerfCounter| c.history());
        assert forall|k: int| 0 <= k < flags.len() && flags[k] implies hs[k] == Seq::<
            Control,
        >::empty() by {
            assert(slots@[k] is Some);
        }
        lemma_kept_all(hs, flags, |h: Seq<Control>| h == Seq::<Control>::empty());
        assert(counter_histories(res@) == kept(hs, flags));
    }
    res
}

/// Appending an element to a sequence adds it to the sequence's set.
pub proof fn lemma_push_to_set<T>(s: Seq<T>, x: T)
    ensures
        s.push(x).to_set() == s.to_set().insert(x),
{
    assert forall|y: T| #[trigger] s.push(x).to_set().contains(y) implies s.to_set().insert(
        x,
    ).contains(y) by {
        let j = choose|j: int| 0 <= j < s.push(x).len() && s.push(x)[j] == y;
        if j < s.len() {
            assert(s[j] == y);
        }
    }
    assert forall|y: T| #[trigger] s.to_set().insert(x).contains(y) implies s.push(x).to_set().contains(
        y,
    ) by {
        if y == x {
            assert(s.push(x)[s.len() as int] == x);
        } else {
            let j = choose|j: int| 0 <= j < s.len() && s[j] == y;
            assert(s.push(x)[j] == y);
        }
    }
    assert(s.push(x).to_set() =~= s.to_set().insert(x));
}

/// A bundle of any kind.
pub enum AnyBundle {
    Time(TimeBundle),
    Rapl(RaplBundle),
    Cycles(CyclesBundle),
    Misses(MissesBundle),
    CStates(CStateBundle),
}

impl AnyBundle {
    pub open spec fn kind(&self) -> BundleKind {
        match self {
            AnyBundle::Time(_) => BundleKind::Time,
            AnyBundle::Rapl(_) => BundleKind::Rapl,
            AnyBundle::Cycles(_) => BundleKind::Cycles,
            AnyBundle::Misses(_) => BundleKind::Misses,
            AnyBundle::CStates(_) => BundleKind::CStates,
        }
    }

    /// Whether enabling, disabling or resetting this bundle asks the kernel
    /// anything: the RAPL bundle always has its group; the other counting
    /// bundles only where a counter opened.
    pub open spec fn controls_counters(&self) -> bool {
        match self {
            AnyBundle::Time(_) => false,
            AnyBundle::Rapl(_) => true,
            AnyBundle::Cycles(b) => b.configs().len() > 0,
            AnyBundle::Misses(b) => b.events().len() > 0,
            AnyBundle::CStates(b) => b.core_opened().len() > 0 || b.pkg_opened().len() > 0,
        }
    }

    /// Whether reading this bundle asks the kernel anything: only where a
    /// counter opened.
    pub open spec fn reads_counters(&self) -> bool {
        match self {
            AnyBundle::Time(_) => false,
            AnyBundle::Rapl(b) => b.events().len() > 0,
            AnyBundle::Cycles(b) => b.configs().len() > 0,
            AnyBundle::Misses(b) => b.events().len() > 0,
            AnyBundle::CStates(b) => b.core_opened().len() > 0 || b.pkg_opened().len() > 0,
        }
    }

    /// Whether this is a time bundle that has been started.
    pub open spec fn time_started(&self) -> bool {
        match self {
            AnyBundle::Time(b) => b.started(),
            _ => false,
        }
    }

    /// Whether the bundle's counters are those its constructor opens for the
    /// CPUs `cpus` (see each bundle's `new`); the time and RAPL bundles do
    /// not depend on the CPUs.
    pub open spec fn opened_for(&self, cpus: Seq<usize>) -> bool {
        match self {
            AnyBundle::Time(_) => true,
            AnyBundle::Rapl(b) => b.opened(),
            AnyBundle::Cycles(b) => b.opened_for(cpus),
            AnyBundle::Misses(b) => b.opened_for(cpus),
            AnyBundle::CStates(b) => b.opened_for(cpus),
        }
    }

    /// Whether every counter of the bundle (the group, for RAPL) has had
    /// exactly the control operations `h`; always so of the time bundle.
    pub open spec fn histories_are(&self, h: Seq<Control>) -> bool {
        match self {
            AnyBundle::Time(_) => true,
            AnyBundle::Rapl(b) => b.histories_are(h),
            AnyBundle::Cycles(b) => b.histories_are(h),
            AnyBundle::Misses(b) => b.histories_are(h),
            AnyBundle::CStates(b) => b.histories_are(h),
        }
    }

    /// A bundle as made: the time not started, no counter ever enabled,
    /// disabled or reset.
    pub open spec fn idle(&self) -> bool {
        match self {
            AnyBundle::Time(b) => !b.started(),
            _ => self.histories_are(Seq::empty()),
        }
    }

    /// A bundle as a measurement starts it: the time started, every counter
    /// reset and then enabled, and nothing else done to it.
    pub open spec fn running(&self) -> bool {
        match self {
            AnyBundle::Time(b) => b.started(),
            _ => self.histories_are(seq![Control::Reset, Control::Enable]),
        }
    }

    /// What reading this bundle gives: `res` (see each bundle's
    /// `read_gives`).
    pub open spec fn read_gives(&self, res: Result<Measurements, BundleError>) -> bool {
        match self {
            AnyBundle::Time(b) => b.read_gives(res),
            AnyBundle::Rapl(b) => b.read_gives(res),
            AnyBundle::Cycles(b) => b.read_gives(res),
            AnyBundle::Misses(b) => b.read_gives(res),
            AnyBundle::CStates(b) => b.read_gives(res),
        }
    }

    /// The kind of this bundle.
    pub fn bundle_kind(&self) -> (res: BundleKind)
        ensures
            res == self.kind(),
    {
        match self {
            AnyBundle::Time(_) => BundleKind::Time,
            AnyBundle::Rapl(_) => BundleKind::Rapl,
            AnyBundle::Cycles(_) => BundleKind::Cycles,
            AnyBundle::Misses(_) => BundleKind::Misses,
            AnyBundle::CStates(_) => BundleKind::CStates,
        }
    }

    /// Starts counting: enables every counter of the bundle, or notes the
    /// start time.
    pub fn enable(&mut self) -> (res: Result<(), BundleError>)
        ensures
            final(self).kind() == old(self).kind(),
            final(self).controls_counters() == old(self).controls_counters(),
            final(self).reads_counters() == old(self).reads_counters(),
            forall|cpus: Seq<usize>| #[trigger] final(self).opened_for(cpus) == old(self).opened_for(cpus),
            res is Ok ==> forall|h: Seq<Control>| #[trigger] old(self).histories_are(h) ==> final(self).histories_are(h.push(Control::Enable)),
            !old(self).controls_counters() ==> res is Ok,
            res matches Err(e) ==> e is Io,
            old(self).kind() == BundleKind::Time ==> final(self).time_started(),
    {
        match self {
            AnyBundle::Time(b) => b.enable(),
            AnyBundle::Rapl(b) => b.enable(),
            AnyBundle::Cycles(b) => b.enable(),
            AnyBundle::Misses(b) => b.enable(),
            AnyBundle::CStates(b) => b.enable(),
        }
    }

    /// Stops counting: disables every counter of the bundle.
    pub fn disable(&mut self) -> (res: Result<(), BundleError>)
        ensures
            final(self).kind() == old(self).kind(),
            final(self).controls_counters() == old(self).controls_counters(),
            final(self).reads_counters() == old(self).reads_counters(),
            forall|cpus: Seq<usize>| #[trigger] final(self).opened_for(cpus) == old(self).opened_for(cpus),
            res is Ok ==> forall|h: Seq<Control>| #[trigger] old(self).histories_are(h) ==> final(self).histories_are(h.push(Control::Disable)),
            forall|r: Result<Measurements, BundleError>| #[trigger] final(self).read_gives(r) == old(self).read_gives(r),
            !old(self).controls_counters() ==> res is Ok,
            res matches Err(e) ==> e is Io,
            final(self).time_started() == old(self).time_started(),
    {
        match self {
            AnyBundle::Time(b) => b.disable(),
            AnyBundle::Rapl(b) => b.disable(),
            AnyBundle::Cycles(b) => b.disable(),
            AnyBundle::Misses(b) => b.disable(),
            AnyBundle::CStates(b) => b.disable(),
        }
    }

    /// Sets the counts back to zero: resets every counter of the bundle, or
    /// forgets the start time.
    pub fn reset(&mut self) -> (res: Result<(), BundleError>)
        ensures
            final(self).kind() == old(self).kind(),
            final(self).controls_counters() == old(self).controls_counters(),
            final(self).reads_counters() == old(self).reads_counters(),
            forall|cpus: Seq<usize>| #[trigger] final(self).opened_for(cpus) == old(self).opened_for(cpus),
            res is Ok ==> forall|h: Seq<Control>| #[trigger] old(self).histories_are(h) ==> final(self).histories_are(h.push(Control::Reset)),
            !old(self).controls_counters() ==> res is Ok,
            res matches Err(e) ==> e is Io,
            !final(self).time_started(),
    {
        match self {
            AnyBundle::Time(b) => b.reset(),
            AnyBundle::Rapl(b) => b.reset(),
            AnyBundle::Cycles(b) => b.reset(),
            AnyBundle::Misses(b) => b.reset(),
            AnyBundle::CStates(b) => b.reset(),
        }
    }

    /// The current counts, under columns of the bundle's kind.
    pub fn read(&mut self) -> (res: Result<Measurements, BundleError>)
        ensures
            final(self).kind() == old(self).kind(),
            final(self).controls_counters() == old(self).controls_counters(),
            final(self).reads_counters() == old(self).reads_counters(),
            final(self).time_started() == old(self).time_started(),
            forall|cpus: Seq<usize>| #[trigger] final(self).opened_for(cpus) == old(self).opened_for(cpus),
            forall|h: Seq<Control>| #[trigger] final(self).histories_are(h) == old(self).histories_are(h),
            forall|r: Result<Measurements, BundleError>| #[trigger] final(self).read_gives(r) == old(self).read_gives(r),
            res matches Ok(m) ==> m@.dom().subset_of(kind_columns(old(self).kind()).to_set()),
            old(self).read_gives(res),
            !old(self).reads_counters() ==> res is Ok,
            old(self).kind() == BundleKind::Time ==> (res matches Ok(m) && m@.dom() == (if old(
                self,
            ).time_started() {
                set![Column::Time]
            } else {
                Set::<Column>::empty()
            })),
    {
        match self {
            AnyBundle::Time(b) => b.read(),
            AnyBundle::Rapl(b) => b.read(),
            AnyBundle::Cycles(b) => b.read(),
            AnyBundle::Misses(b) => b.read(),
            AnyBundle::CStates(b) => b.read(),
        }
    }
}

/// The kinds of a list of bundles.
pub open spec fn bundle_kinds(bs: Seq<AnyBundle>) -> Seq<BundleKind> {
    bs.map_values(|b: AnyBundle| b.kind())
}

/// Every bundle of `bs` is idle and opened for the CPUs `cpus`.
pub open spec fn all_built_for(bs: Seq<AnyBundle>, cpus: Seq<usize>) -> bool {
    forall|k: int| #![trigger bs[k]] 0 <= k < bs.len() ==> bs[k].opened_for(cpus) && bs[k].idle()
}

impl BundleConfig {
    /// Creates the bundles that this configuration asks for, in order: time,
    /// then RAPL, cycles, misses and C-states as enabled, with `cpus` as the
    /// CPUs to count on. Each is made by its own `new` and is idle. Only the
    /// RAPL bundle can fail to be created (when its group cannot be opened);
    /// its error is returned.
    pub fn create_bundles(&self, cpus: &[usize]) -> (res: Result<Vec<AnyBundle>, BundleError>)
        ensures
            res matches Ok(v) ==> bundle_kinds(v@) == self.planned() && all_built_for(v@, cpus@),
            res matches Err(e) ==> self.rapl && e is Io,
    {
        let mut bundles: Vec<AnyBundle> = Vec::new();
        let empty: Vec<usize> = Vec::new();
        let time = match TimeBundle::new(empty.as_slice()) {
            Ok(b) => b,
            Err(e) => return Err(e),
        };
        bundles.push(AnyBundle::Time(time));
        let ghost mut expected: Seq<BundleKind> = seq![BundleKind::Time];
        proof {
            assert(bundle_kinds(bundles@) =~= expected);
            assert(all_built_for(bundles@, cpus@));
        }
        if self.rapl {
            let b = match RaplBundle::new(empty.as_slice()) {
                Ok(b) => b,
                Err(e) => return Err(e),
            };
            let ghost before = bundles@;
            bundles.push(AnyBundle::Rapl(b));
            proof {
                expected = expected.push(BundleKind::Rapl);
                assert(bundles@[bundles@.len() - 1] == AnyBundle::Rapl(b));
                assert forall|k: int| 0 <= k < bundles@.len() implies #[trigger] bundles@[k].opened_for(cpus@)
                    && bundles@[k].idle() by {
                    if k < before.len() {
                        assert(bundles@[k] == before[k]);
                    }
                }
            }
        }
        proof {
            assert(bundle_kinds(bundles@) =~= expected);
        }
        if self.cycles {
            let b = match CyclesBundle::new(cpus) {
                Ok(b) => b,
                Err(e) => return Err(e),
            };
            let ghost before = bundles@;
            bundles.push(AnyBundle::Cycles(b));
            proof {
                expected = expected.push(BundleKind::Cycles);
                assert(bundles@[bundles@.len() - 1] == AnyBundle::Cycles(b));
                assert forall|k: int| 0 <= k < bundles@.len() implies #[trigger] bundles@[k].opened_for(cpus@)
                    && bundles@[k].idle() by {
                    if k < before.len() {
                        assert(bundles@[k] == before[k]);
                    }
                }
            }
        }
        proof {
            assert(bundle_kinds(bundles@) =~= expected);
        }
        if self.misses {
            let b = match MissesBundle::new(cpus) {
                Ok(b) => b,
                Err(e) => return Err(e),
            };
            let ghost before = bundles@;
            bundles.push(AnyBundle::Misses(b));
            proof {
                expected = expected.push(BundleKind::Misses);
                assert(bundles@[bundles@.len() - 1] == AnyBundle::Misses(b));
                assert forall|k: int| 0 <= k < bundles@.len() implies #[trigger] bundles@[k].opened_for(cpus@)
                    && bundles@[k].idle() by {
                    if k < before.len() {
                        assert(bundles@[k] == before[k]);
                    }
                }
            }
        }
        proof {
            assert(bundle_kinds(bundles@) =~= expected);
        }
        if self.cstates {
            let b = match CStateBundle::new(cpus) {
                Ok(b) => b,
                Err(e) => return Err(e),
            };
            let ghost before = bundles@;
            bundles.push(AnyBundle::CStates(b));
            proof {
                expected = expected.push(BundleKind::CStates);
                assert(bundles@[bundles@.len() - 1] == AnyBundle::CStates(b));
                assert forall|k: int| 0 <= k < bundles@.len() implies #[trigger] bundles@[k].opened_for(cpus@)
                    && bundles@[k].idle() by {
                    if k < before.len() {
                        assert(bundles@[k] == before[k]);
                    }
                }
            }
        }
        proof {
            assert(bundle_kinds(bundles@) =~= expected);
            assert(expected =~= self.planned());
        }
        Ok(bundles)
    }
}

} // verus!
