//! The calls into `perf_event` (the `perf-event2` package), each behind a
//! small wrapper whose contract Verus takes on trust.
//!
//! Each builder, counter and group of `perf_event` is held together with a
//! ghost model of it: the configuration it was built with, and the control
//! operations (enable, disable, reset) that the kernel accepted on it. The
//! wrappers state how each call changes that model. Whether a counter opens,
//! and what it counts once open, depends on the machine and on the permissions
//! of the process, so no wrapper states that a call succeeds or what a read
//! returns.
use vstd::prelude::*;

use perf_event::events::{Cache, CacheId, CacheOp, CacheResult, Dynamic, DynamicBuilder, Hardware, Software};
use perf_event::{Builder, Counter, Group};
use perf_event_data::ReadFormat;

verus! {

#[verifier::external_type_specification]
#[verifier::external_body]
pub struct ExIoError(std::io::Error);

#[verifier::external_type_specification]
#[verifier::external_body]
pub struct ExCounter(perf_event::Counter);

#[verifier::external_type_specification]
#[verifier::external_body]
pub struct ExGroup(perf_event::Group);

#[verifier::external_type_specification]
#[verifier::external_body]
pub struct ExBuilder<'a>(perf_event::Builder<'a>);

#[verifier::external_type_specification]
#[verifier::external_body]
pub struct ExDynamic(perf_event::events::Dynamic);

#[verifier::external_type_specification]
#[verifier::external_body]
pub struct ExDynamicBuilder(perf_event::events::DynamicBuilder);

/// What a bundle does to all of its counters at once.
#[derive(Clone, Copy, Debug, PartialEq, Eq, Structural)]
pub enum Control {
    Enable,
    Disable,
    Reset,
}

/// The generalised hardware events that this library counts.
#[derive(Clone, Copy, Debug, PartialEq, Eq, Structural)]
pub enum HardwareEvent {
    /// `Hardware::CPU_CYCLES`.
    CpuCycles,
    /// `Hardware::BRANCH_MISSES`.
    BranchMisses,
    /// The cache event "L1 data cache, read, miss".
    L1dReadMiss,
    /// The cache event "L1 instruction cache, read, miss".
    L1iReadMiss,
    /// The cache event "last-level cache, read, miss".
    LlcReadMiss,
}

/// What a counter counts.
pub enum EventSource {
    /// A generalised hardware or cache event.
    Hardware(HardwareEvent),
    /// `Software::DUMMY`, which counts nothing; a group leader.
    Dummy,
    /// An event of the dynamic PMU named `pmu` (under
    /// `/sys/bus/event_source/devices`), configured from the event file named
    /// `event` where one was selected.
    Dynamic { pmu: Seq<char>, event: Option<Seq<char>> },
}

/// The options a counter is built with.
pub struct CounterConfig {
    /// The event counted.
    pub source: EventSource,
    /// The one CPU observed, or `None` for any CPU.
    pub cpu: Option<usize>,
    /// Whether all processes are observed (else only the calling one).
    pub any_pid: bool,
    /// Whether events in kernel space are left out.
    pub exclude_kernel: bool,
    /// Whether events in the hypervisor are left out.
    pub exclude_hv: bool,
    /// Whether reads return the values of the whole group
    /// (`ReadFormat::GROUP | ReadFormat::TOTAL_TIME_RUNNING`); otherwise the
    /// read format is the builder's default.
    pub group_read: bool,
}

/// The options of a fresh builder for `source`: as `Builder::new` sets them,
/// the calling process on any CPU, kernel and hypervisor left out, the
/// default read format.
pub open spec fn fresh_config(source: EventSource) -> CounterConfig {
    CounterConfig {
        source,
        cpu: None,
        any_pid: false,
        exclude_kernel: true,
        exclude_hv: true,
        group_read: false,
    }
}

/// A `perf_event` builder, with the options set on it so far.
pub struct PerfBuilder {
    builder: Builder<'static>,
    config: Ghost<CounterConfig>,
}

impl PerfBuilder {
    /// The options set on this builder.
    pub closed spec fn config(&self) -> CounterConfig {
        self.config@
    }
}

/// An open `perf_event` counter, with the options it was built with, the
/// control operations that the kernel has accepted on it, in order, and the
/// counts that reads of it returned, in order.
pub struct PerfCounter {
    counter: Counter,
    config: Ghost<CounterConfig>,
    history: Ghost<Seq<Control>>,
    reads: Ghost<Seq<u64>>,
}

impl PerfCounter {
    /// The options this counter was built with.
    pub closed spec fn config(&self) -> CounterConfig {
        self.config@
    }

    /// The control operations that succeeded on this counter, in order.
    pub closed spec fn history(&self) -> Seq<Control> {
        self.history@
    }

    /// The counts that successful reads of this counter returned, in order.
    pub closed spec fn reads(&self) -> Seq<u64> {
        self.reads@
    }
}

/// An open `perf_event` group: its leader's options, the options of the
/// counters opened into it, in order, and the control operations that the
/// kernel has accepted on the group, in order.
pub struct PerfGroup {
    group: Group,
    leader: Ghost<CounterConfig>,
    members: Ghost<Seq<CounterConfig>>,
    history: Ghost<Seq<Control>>,
}

impl PerfGroup {
    /// The options the group leader was built with.
    pub closed spec fn leader(&self) -> CounterConfig {
        self.leader@
    }

    /// The options of the counters opened into the group, in order.
    pub closed spec fn members(&self) -> Seq<CounterConfig> {
        self.members@
    }

    /// The control operations that succeeded on the group, in order.
    pub closed spec fn history(&self) -> Seq<Control> {
        self.history@
    }
}

/// The format of a dynamic PMU read from sysfs, with the event selected in
/// it, if any.
pub struct PmuFormat {
    builder: DynamicBuilder,
    pmu: Ghost<Seq<char>>,
    event: Ghost<Option<Seq<char>>>,
}

impl PmuFormat {
    /// The name of the PMU.
    pub closed spec fn pmu(&self) -> Seq<char> {
        self.pmu@
    }

    /// The event selected, if any.
    pub closed spec fn event(&self) -> Option<Seq<char>> {
        self.event@
    }
}

/// A dynamic PMU event, ready to be counted.
pub struct DynamicEvent {
    event: Dynamic,
    pmu: Ghost<Seq<char>>,
    name: Ghost<Option<Seq<char>>>,
}

impl DynamicEvent {
    /// The name of the PMU.
    pub closed spec fn pmu(&self) -> Seq<char> {
        self.pmu@
    }

    /// The event file it was configured from, if any.
    pub closed spec fn name(&self) -> Option<Seq<char>> {
        self.name@
    }
}

/// `Builder::new` for the generalised event `event` (one arm per event).
#[verifier::external_body]
pub(crate) fn hardware_builder(event: HardwareEvent) -> (res: PerfBuilder)
    ensures
        res.config() == fresh_config(EventSource::Hardware(event)),
{
    let builder = match event {
        HardwareEvent::CpuCycles => Builder::new(Hardware::CPU_CYCLES),
        HardwareEvent::BranchMisses => Builder::new(Hardware::BRANCH_MISSES),
        HardwareEvent::L1dReadMiss => Builder::new(Cache { which: CacheId::L1D, operation: CacheOp::READ, result: CacheResult::MISS }),
        HardwareEvent::L1iReadMiss => Builder::new(Cache { which: CacheId::L1I, operation: CacheOp::READ, result: CacheResult::MISS }),
        HardwareEvent::LlcReadMiss => Builder::new(Cache { which: CacheId::LL, operation: CacheOp::READ, result: CacheResult::MISS }),
    };
    PerfBuilder { builder, config: Ghost(fresh_config(EventSource::Hardware(event))) }
}

/// `Builder::new` for the software event `Software::DUMMY`.
#[verifier::external_body]
pub(crate) fn dummy_builder() -> (res: PerfBuilder)
    ensures
        res.config() == fresh_config(EventSource::Dummy),
{
    PerfBuilder { builder: Builder::new(Software::DUMMY), config: Ghost(fresh_config(EventSource::Dummy)) }
}

/// `Builder::new` for the dynamic PMU event `event`.
#[verifier::external_body]
pub(crate) fn dynamic_event_builder(event: DynamicEvent) -> (res: PerfBuilder)
    ensures
        res.config() == fresh_config(EventSource::Dynamic { pmu: event.pmu(), event: event.name() }),
{
    let config = Ghost(fresh_config(EventSource::Dynamic { pmu: event.pmu(), event: event.name() }));
    PerfBuilder { builder: Builder::new(event.event), config }
}

/// `Builder::one_cpu`: observe only CPU `cpu`.
#[verifier::external_body]
pub(crate) fn builder_one_cpu(builder: &mut PerfBuilder, cpu: usize)
    ensures
        final(builder).config() == (CounterConfig { cpu: Some(cpu), ..old(builder).config() }),
{
    builder.builder.one_cpu(cpu);
}

/// `Builder::any_pid`: observe all processes.
#[verifier::external_body]
pub(crate) fn builder_any_pid(builder: &mut PerfBuilder)
    ensures
        final(builder).config() == (CounterConfig { any_pid: true, ..old(builder).config() }),
{
    builder.builder.any_pid();
}

/// `Builder::exclude_kernel`: whether to leave out events in kernel space.
#[verifier::external_body]
pub(crate) fn builder_exclude_kernel(builder: &mut PerfBuilder, exclude: bool)
    ensures
        final(builder).config() == (CounterConfig { exclude_kernel: exclude, ..old(builder).config() }),
{
    builder.builder.exclude_kernel(exclude);
}

/// `Builder::exclude_hv`: whether to leave out events in the hypervisor.
#[verifier::external_body]
pub(crate) fn builder_exclude_hv(builder: &mut PerfBuilder, exclude: bool)
    ensures
        final(builder).config() == (CounterConfig { exclude_hv: exclude, ..old(builder).config() }),
{
    builder.builder.exclude_hv(exclude);
}

/// `Builder::read_format` with `ReadFormat::GROUP | ReadFormat::TOTAL_TIME_RUNNING`:
/// reads return the values of the whole group.
#[verifier::external_body]
pub(crate) fn builder_read_group(builder: &mut PerfBuilder)
    ensures
        final(builder).config() == (CounterConfig { group_read: true, ..old(builder).config() }),
{
    builder.builder.read_format(ReadFormat::GROUP | ReadFormat::TOTAL_TIME_RUNNING);
}

/// `Builder::build`: opens a counter with the builder's options. A new
/// counter has had no control operation. (The crate's assertion on the size
/// of the attribute struct cannot fail: no wrapper changes that size.)
#[verifier::external_body]
pub(crate) fn builder_build(builder: &PerfBuilder) -> (res: Result<PerfCounter, std::io::Error>)
    ensures
        res matches Ok(c) ==> c.config() == builder.config() && c.history() == Seq::<Control>::empty()
            && c.reads() == Seq::<u64>::empty(),
{
    match builder.builder.build() {
        Ok(counter) => Ok(PerfCounter { counter, config: Ghost(builder.config()), history: Ghost(Seq::empty()), reads: Ghost(Seq::empty()) }),
        Err(e) => Err(e),
    }
}

/// `Builder::build_group`: opens a group leader with the builder's options;
/// the crate refuses to where the options do not ask for group reads. A new
/// group has no member and has had no control operation.
#[verifier::external_body]
pub(crate) fn builder_build_group(builder: &PerfBuilder) -> (res: Result<PerfGroup, std::io::Error>)
    ensures
        !builder.config().group_read ==> res is Err,
        res matches Ok(g) ==> g.leader() == builder.config() && g.members() == Seq::<CounterConfig>::empty()
            && g.history() == Seq::<Control>::empty(),
{
    match builder.builder.build_group() {
        Ok(group) => Ok(PerfGroup { group, leader: Ghost(builder.config()), members: Ghost(Seq::empty()), history: Ghost(Seq::empty()) }),
        Err(e) => Err(e),
    }
}

/// `Builder::build_with_group`: opens a counter with the builder's options as
/// a member of `group`. On success the group counts one member more; on
/// failure it is left as it was. (The crate panics when the group already
/// counts `u32::MAX` counters, its leader included.)
#[verifier::external_body]
pub(crate) fn builder_build_with_group(builder: &PerfBuilder, group: &mut PerfGroup) -> (res: Result<
    PerfCounter,
    std::io::Error,
>)
    requires
        old(group).members().len() + 1 < u32::MAX,
    ensures
        final(group).leader() == old(group).leader(),
        final(group).history() == old(group).history(),
        res matches Ok(c) ==> c.config() == builder.config() && c.history() == Seq::<Control>::empty()
            && c.reads() == Seq::<u64>::empty() && final(group).members() == old(group).members().push(builder.config()),
        res is Err ==> final(group).members() == old(group).members(),
{
    match builder.builder.build_with_group(&mut group.group) {
        Ok(counter) => Ok(PerfCounter { counter, config: Ghost(builder.config()), history: Ghost(Seq::empty()), reads: Ghost(Seq::empty()) }),
        Err(e) => Err(e),
    }
}

/// `Dynamic::builder`: reads the format of the sysfs PMU named `pmu`; no
/// event is selected yet.
#[verifier::external_body]
pub(crate) fn dynamic_pmu(pmu: &str) -> (res: Result<PmuFormat, std::io::Error>)
    ensures
        res matches Ok(f) ==> f.pmu() == pmu@ && f.event() is None,
{
    match Dynamic::builder(pmu) {
        Ok(builder) => Ok(PmuFormat { builder, pmu: Ghost(pmu@), event: Ghost(None) }),
        Err(e) => Err(e),
    }
}

/// `DynamicBuilder::event`: configures the format from the sysfs event file
/// named `event` of its PMU. On failure the format may be partly configured,
/// so nothing is stated of its event then.
#[verifier::external_body]
pub(crate) fn dynamic_select_event(format: &mut PmuFormat, event: &str) -> (res: Result<(), std::io::Error>)
    requires
        old(format).event() is None,
    ensures
        final(format).pmu() == old(format).pmu(),
        res is Ok ==> final(format).event() == Some(event@),
{
    format.builder.event(event).map(|_| ())
}

/// `DynamicBuilder::scale`: the scale factor of the selected event, if the
/// PMU gives one, handed over as the bit pattern of the `f64` (`to_bits`).
/// What the sysfs file holds is not stated.
#[verifier::external_body]
pub(crate) fn dynamic_scale_bits(format: &PmuFormat) -> Result<Option<u64>, std::io::Error> {
    format.builder.scale().map(|scale| scale.map(|s| s.to_bits()))
}

/// `DynamicBuilder::build`, with its error (a missing parameter) dropped: the
/// event of the format's PMU, as the selected event configured it.
#[verifier::external_body]
pub(crate) fn dynamic_build(format: &PmuFormat) -> (res: Option<DynamicEvent>)
    ensures
        res matches Some(d) ==> d.pmu() == format.pmu() && d.name() == format.event(),
{
    match format.builder.build() {
        Ok(event) => Some(DynamicEvent { event, pmu: Ghost(format.pmu()), name: Ghost(format.event()) }),
        Err(_) => None,
    }
}

/// `Counter::enable`; on success the kernel has accepted an enable.
#[verifier::external_body]
pub(crate) fn counter_enable(counter: &mut PerfCounter) -> (res: Result<(), std::io::Error>)
    ensures
        final(counter).config() == old(counter).config(),
        final(counter).reads() == old(counter).reads(),
        final(counter).history() == (if res is Ok {
            old(counter).history().push(Control::Enable)
        } else {
            old(counter).history()
        }),
{
    counter.counter.enable()
}

/// `Counter::disable`; on success the kernel has accepted a disable.
#[verifier::external_body]
pub(crate) fn counter_disable(counter: &mut PerfCounter) -> (res: Result<(), std::io::Error>)
    ensures
        final(counter).config() == old(counter).config(),
        final(counter).reads() == old(counter).reads(),
        final(counter).history() == (if res is Ok {
            old(counter).history().push(Control::Disable)
        } else {
            old(counter).history()
        }),
{
    counter.counter.disable()
}

/// `Counter::reset`; on success the kernel has accepted a reset.
#[verifier::external_body]
pub(crate) fn counter_reset(counter: &mut PerfCounter) -> (res: Result<(), std::io::Error>)
    ensures
        final(counter).config() == old(counter).config(),
        final(counter).reads() == old(counter).reads(),
        final(counter).history() == (if res is Ok {
            old(counter).history().push(Control::Reset)
        } else {
            old(counter).history()
        }),
{
    counter.counter.reset()
}

/// `Counter::read`: the counter's current count, which depends on the
/// machine and is not stated; a count read is noted in the counter's reads.
#[verifier::external_body]
pub(crate) fn counter_read(counter: &mut PerfCounter) -> (res: Result<u64, std::io::Error>)
    ensures
        final(counter).config() == old(counter).config(),
        final(counter).history() == old(counter).history(),
        final(counter).reads() == (match res {
            Ok(v) => old(counter).reads().push(v),
            Err(_) => old(counter).reads(),
        }),
{
    counter.counter.read()
}

/// `Group::enable`; on success the kernel has accepted an enable of the
/// whole group.
#[verifier::external_body]
pub(crate) fn group_enable(group: &mut PerfGroup) -> (res: Result<(), std::io::Error>)
    ensures
        final(group).leader() == old(group).leader(),
        final(group).members() == old(group).members(),
        final(group).history() == (if res is Ok {
            old(group).history().push(Control::Enable)
        } else {
            old(group).history()
        }),
{
    group.group.enable()
}

/// `Group::disable`; on success the kernel has accepted a disable of the
/// whole group.
#[verifier::external_body]
pub(crate) fn group_disable(group: &mut PerfGroup) -> (res: Result<(), std::io::Error>)
    ensures
        final(group).leader() == old(group).leader(),
        final(group).members() == old(group).members(),
        final(group).history() == (if res is Ok {
            old(group).history().push(Control::Disable)
        } else {
            old(group).history()
        }),
{
    group.group.disable()
}

/// `Group::reset`; on success the kernel has accepted a reset of the whole
/// group.
#[verifier::external_body]
pub(crate) fn group_reset(group: &mut PerfGroup) -> (res: Result<(), std::io::Error>)
    ensures
        final(group).leader() == old(group).leader(),
        final(group).members() == old(group).members(),
        final(group).history() == (if res is Ok {
            old(group).history().push(Control::Reset)
        } else {
            old(group).history()
        }),
{
    group.group.reset()
}

} // verus!
