//! The RAPL bundle: energy counters of the RAPL domains, read together as
//! one group on CPU 0.
use vstd::prelude::*;

use crate::bundles::{
    control_group, counting_config, observe_cpu, read_counter, read_once, Bundle, BundleError, Control,
};
use crate::columns::{kind_columns, BundleKind, Column};
use crate::events::{
    is_subsequence, kept, lemma_kept_push, rapl_column, rapl_events, rapl_sysfs_name, RaplEvent,
};
use crate::perf::{
    builder_build_group, builder_build_with_group, builder_read_group, dummy_builder,
    dynamic_build, dynamic_event_builder, dynamic_pmu, dynamic_scale_bits, dynamic_select_event,
    CounterConfig, EventSource, PerfCounter, PerfGroup,
};
use crate::readings::{lemma_records_map_dom, record_columns, records_map, Measurements, Value};

verus! {

/// The counter of one RAPL domain, with the factor that scales its count to
/// joules (as the bit pattern of an IEEE-754 double).
pub struct RaplCounter {
    pub event: RaplEvent,
    pub scale_bits: u64,
    pub counter: PerfCounter,
}

/// RAPL energy counters, read together as one group on CPU 0.
pub struct RaplBundle {
    group: PerfGroup,
    counters: Vec<RaplCounter>,
}

/// The domains of a list of RAPL counters.
pub open spec fn rapl_counter_events(cs: Seq<RaplCounter>) -> Seq<RaplEvent> {
    cs.map_values(|c: RaplCounter| c.event)
}

/// The scale factors of a list of RAPL counters.
pub open spec fn rapl_counter_scales(cs: Seq<RaplCounter>) -> Seq<u64> {
    cs.map_values(|c: RaplCounter| c.scale_bits)
}

/// The counter reads of a list of RAPL counters.
pub open spec fn rapl_counter_reads(cs: Seq<RaplCounter>) -> Seq<Seq<u64>> {
    cs.map_values(|c: RaplCounter| c.counter.reads())
}

/// Each domain of `events` with the latest count read from the counter at
/// the same position of `reads` and the scale factor at that position of
/// `scales`.
pub open spec fn latest_rapl_readings(events: Seq<RaplEvent>, scales: Seq<u64>, reads: Seq<Seq<u64>>) -> Seq<
    (RaplEvent, u64, u64),
> {
    Seq::new(events.len(), |k: int| (events[k], reads[k].last(), scales[k]))
}

/// The counter options of a list of RAPL counters.
pub open spec fn rapl_counter_configs(cs: Seq<RaplCounter>) -> Seq<CounterConfig> {
    cs.map_values(|c: RaplCounter| c.counter.config())
}

/// The options of the counter of the RAPL domain `e`: the domain's event of
/// the `power` PMU, on CPU 0, all processes, kernel and hypervisor included.
pub open spec fn rapl_config(e: RaplEvent) -> CounterConfig {
    counting_config(EventSource::Dynamic { pmu: "power"@, event: Some(rapl_sysfs_name(e)) }, 0)
}

/// The options of the counters of the RAPL domains `es`, in order.
pub open spec fn rapl_configs(es: Seq<RaplEvent>) -> Seq<CounterConfig> {
    es.map_values(|e: RaplEvent| rapl_config(e))
}

/// The options of the RAPL group leader: the dummy software event on CPU 0,
/// all processes, kernel and hypervisor included, reading the whole group.
pub open spec fn rapl_leader_config() -> CounterConfig {
    CounterConfig {
        source: EventSource::Dummy,
        cpu: Some(0),
        any_pid: true,
        exclude_kernel: false,
        exclude_hv: false,
        group_read: true,
    }
}

/// Opens the counter of the RAPL domain `event` in `group`: the domain's
/// event must be known to the `power` PMU and have a scale factor.
fn open_energy_counter(event: RaplEvent, group: &mut PerfGroup) -> (res: Option<RaplCounter>)
    requires
        old(group).members().len() + 1 < u32::MAX,
    ensures
        final(group).leader() == old(group).leader(),
        final(group).history() == old(group).history(),
        res matches Some(c) ==> c.event == event && c.counter.config() == rapl_config(event)
            && final(group).members() == old(group).members().push(rapl_config(event)),
        res is None ==> final(group).members() == old(group).members(),
{
    let mut format = match dynamic_pmu("power") {
        Ok(f) => f,
        Err(_) => return None,
    };
    if dynamic_select_event(&mut format, event.sysfs_name()).is_err() {
        return None;
    }
    let scale_bits = match dynamic_scale_bits(&format) {
        Ok(Some(bits)) => bits,
        _ => return None,
    };
    let built = match dynamic_build(&format) {
        Some(d) => d,
        None => return None,
    };
    let mut member = dynamic_event_builder(built);
    observe_cpu(&mut member, 0);
    proof {
        reveal_strlit("power");
        assert(member.config() == rapl_config(event));
    }
    match builder_build_with_group(&member, group) {
        Ok(counter) => Some(RaplCounter { event, scale_bits, counter }),
        Err(_) => None,
    }
}

impl RaplBundle {
    /// The domains whose counters opened, in order.
    pub closed spec fn events(&self) -> Seq<RaplEvent> {
        rapl_counter_events(self.counters@)
    }

    /// The scale factor of each counter of `events()`.
    pub closed spec fn scales(&self) -> Seq<u64> {
        rapl_counter_scales(self.counters@)
    }

    /// The counts that the reads of each counter of `events()` returned, in
    /// order.
    pub closed spec fn reads(&self) -> Seq<Seq<u64>> {
        rapl_counter_reads(self.counters@)
    }

    /// The options of each counter of `events()`.
    pub closed spec fn configs(&self) -> Seq<CounterConfig> {
        rapl_counter_configs(self.counters@)
    }

    /// The options of the group leader.
    pub closed spec fn leader(&self) -> CounterConfig {
        self.group.leader()
    }

    /// The options of the counters opened into the group, in order.
    pub closed spec fn members(&self) -> Seq<CounterConfig> {
        self.group.members()
    }

    /// The control operations that succeeded on the group, in order.
    pub closed spec fn group_history(&self) -> Seq<Control> {
        self.group.history()
    }

    /// The group leader is the dummy event on CPU 0 reading the whole group;
    /// its members are the counters of the domains that opened, in their
    /// order, each at most once, with a scale factor each.
    pub open spec fn opened(&self) -> bool {
        &&& is_subsequence(self.events(), rapl_events())
        &&& self.scales().len() == self.events().len()
        &&& self.configs() == rapl_configs(self.events())
        &&& self.leader() == rapl_leader_config()
        &&& self.members() == self.configs()
    }

    /// The group has had exactly the control operations `h`.
    pub open spec fn histories_are(&self, h: Seq<Control>) -> bool {
        self.group_history() == h
    }

    /// What reading the bundle gives: `res`.
    pub open spec fn read_gives(&self, res: Result<Measurements, BundleError>) -> bool {
        &&& res matches Ok(m) ==> exists|readings: Seq<(RaplEvent, u64, u64)>|
                    readings.len() == self.events().len() && (forall|k: int|
                        0 <= k < readings.len() ==> #[trigger] readings[k].0 == self.events()[k]
                            && readings[k].2 == self.scales()[k]) && m@ == records_map(
                        rapl_records(readings),
                    )
        &&& self.events().len() == 0 ==> (res matches Ok(m) && m@ == Map::<Column, Value>::empty())
        &&& res matches Err(e) ==> e is Io
    }

    fn control(&mut self, op: Control) -> (res: Result<(), BundleError>)
        ensures
            final(self).events() == old(self).events(),
            final(self).scales() == old(self).scales(),
            final(self).configs() == old(self).configs(),
            final(self).leader() == old(self).leader(),
            final(self).members() == old(self).members(),
            res is Ok ==> final(self).group_history() == old(self).group_history().push(op),
            res is Err ==> final(self).group_history() == old(self).group_history(),
            res matches Err(e) ==> e is Io,
    {
        control_group(&mut self.group, op)
    }
}

proof fn lemma_rapl_columns_are_rapl_columns(e: RaplEvent)
    ensures
        kind_columns(BundleKind::Rapl).contains(rapl_column(e)),
{
    let k = kind_columns(BundleKind::Rapl);
    match e {
        RaplEvent::Pkg => assert(k[0] == rapl_column(e)),
        RaplEvent::Cores => assert(k[1] == rapl_column(e)),
        RaplEvent::Gpu => assert(k[2] == rapl_column(e)),
        RaplEvent::Ram => assert(k[3] == rapl_column(e)),
        RaplEvent::Psys => assert(k[4] == rapl_column(e)),
    }
}

/// The RAPL bundle on the group that opening its leader gave: the leader's
/// error where it did not open. Once it has opened, the bundle is made
/// whatever happens next: for each domain in turn (pkg, cores, gpu, psys,
/// ram) its counter is added to the group (see `open_energy_counter`), and a
/// domain whose counter cannot be opened is left out.
pub fn rapl_from_leader(leader: Result<PerfGroup, std::io::Error>) -> (res: Result<
    RaplBundle,
    BundleError,
>)
    requires
        leader matches Ok(g) ==> g.members().len() == 0,
    ensures
        res is Err <==> leader is Err,
        res matches Err(err) ==> leader matches Err(e) && err == BundleError::Io(e),
        res matches Ok(b) ==> leader matches Ok(g) && b.leader() == g.leader() && b.group_history()
            == g.history() && is_subsequence(b.events(), rapl_events()) && b.scales().len()
            == b.events().len() && b.configs() == rapl_configs(b.events()) && b.members()
            == b.configs(),
{
    let mut group = match leader {
        Ok(g) => g,
        Err(e) => return Err(BundleError::Io(e)),
    };
    let ghost leader_config = group.leader();
    let ghost leader_history = group.history();
        let events = RaplEvent::all();
        let mut counters: Vec<RaplCounter> = Vec::new();
        let ghost mut keep: Seq<bool> = Seq::empty();
        let mut i: usize = 0;
        while i < events.len()
            invariant
                events@ == rapl_events(),
                i <= events@.len(),
                keep.len() == i,
                rapl_counter_events(counters@) == kept(events@.take(i as int), keep),
                counters@.len() <= i,
                rapl_counter_scales(counters@).len() == counters@.len(),
                rapl_counter_configs(counters@) == rapl_configs(rapl_counter_events(counters@)),
                group.members() == rapl_counter_configs(counters@),
                group.leader() == leader_config,
                group.history() == leader_history,
            decreases events@.len() - i,
        {
            let event = events[i];
            let slot = open_energy_counter(event, &mut group);
            let ghost before = counters@;
            let ghost took = slot is Some;
            match slot {
                Some(c) => counters.push(c),
                None => {},
            }
            proof {
                assert(events@.take(i + 1) =~= events@.take(i as int).push(event));
                lemma_kept_push(events@.take(i as int), keep, event, took);
                keep = keep.push(took);
                if took {
                    assert(rapl_counter_events(counters@) =~= rapl_counter_events(before).push(event));
                    assert(rapl_counter_configs(counters@) =~= rapl_counter_configs(before).push(rapl_config(event)));
                    assert(rapl_configs(rapl_counter_events(counters@)) =~= rapl_configs(rapl_counter_events(before)).push(rapl_config(event)));
                } else {
                    assert(counters@ == before);
                }
            }
            i = i + 1;
        }
        proof {
            assert(events@.take(events@.len() as int) =~= events@);
        }
        Ok(RaplBundle { group, counters })
}

impl Bundle for RaplBundle {
    open spec fn kind() -> BundleKind {
        BundleKind::Rapl
    }

    /// Opens the group leader, the dummy software event on CPU 0 reading the
    /// whole group, and makes the bundle on it (see `rapl_from_leader`): the
    /// only error is the leader's. The CPUs are not used: energy is counted
    /// on CPU 0.
    fn new(cpus: &[usize]) -> (res: Result<Self, BundleError>)
        ensures
            res matches Ok(b) ==> b.opened() && b.histories_are(Seq::empty()),
            res matches Err(e) ==> e is Io,
    {
        let mut leader = dummy_builder();
        builder_read_group(&mut leader);
        observe_cpu(&mut leader, 0);
        rapl_from_leader(builder_build_group(&leader))
    }

    /// Enables the group.
    fn enable(&mut self) -> (res: Result<(), BundleError>)
        ensures
            final(self).events() == old(self).events(),
            final(self).scales() == old(self).scales(),
            final(self).configs() == old(self).configs(),
            final(self).leader() == old(self).leader(),
            final(self).members() == old(self).members(),
            res is Ok ==> final(self).group_history() == old(self).group_history().push(Control::Enable),
            res is Err ==> final(self).group_history() == old(self).group_history(),
            res matches Err(e) ==> e is Io,
    {
        self.control(Control::Enable)
    }

    /// Disables the group.
    fn disable(&mut self) -> (res: Result<(), BundleError>)
        ensures
            final(self).events() == old(self).events(),
            final(self).scales() == old(self).scales(),
            final(self).configs() == old(self).configs(),
            final(self).leader() == old(self).leader(),
            final(self).members() == old(self).members(),
            res is Ok ==> final(self).group_history() == old(self).group_history().push(Control::Disable),
            res is Err ==> final(self).group_history() == old(self).group_history(),
            res matches Err(e) ==> e is Io,
    {
        self.control(Control::Disable)
    }

    /// Resets the group.
    fn reset(&mut self) -> (res: Result<(), BundleError>)
        ensures
            final(self).events() == old(self).events(),
            final(self).scales() == old(self).scales(),
            final(self).configs() == old(self).configs(),
            final(self).leader() == old(self).leader(),
            final(self).members() == old(self).members(),
            res is Ok ==> final(self).group_history() == old(self).group_history().push(Control::Reset),
            res is Err ==> final(self).group_history() == old(self).group_history(),
            res matches Err(e) ==> e is Io,
    {
        self.control(Control::Reset)
    }

    /// Reads each domain's counter in turn, stopping at the first failure,
    /// and reports its raw count with its scale factor under the domain's
    /// column (see `rapl_measurement`): the counts just read, one from each
    /// counter.
    fn read(&mut self) -> (res: Result<Measurements, BundleError>)
        ensures
            res matches Ok(m) ==> read_once(old(self).reads(), final(self).reads()) && m@ == records_map(
                rapl_records(latest_rapl_readings(old(self).events(), old(self).scales(), final(self).reads())),
            ),
            final(self).events() == old(self).events(),
            final(self).scales() == old(self).scales(),
            final(self).configs() == old(self).configs(),
            final(self).leader() == old(self).leader(),
            final(self).members() == old(self).members(),
            final(self).group_history() == old(self).group_history(),
            old(self).read_gives(res),
    {
        let mut readings: Vec<(RaplEvent, u64, u64)> = Vec::new();
        let mut i: usize = 0;
        while i < self.counters.len()
            invariant
                i <= self.counters@.len(),
                rapl_counter_events(self.counters@) == rapl_counter_events(old(self).counters@),
                rapl_counter_scales(self.counters@) == rapl_counter_scales(old(self).counters@),
                rapl_counter_configs(self.counters@) == rapl_counter_configs(old(self).counters@),
                self.group == old(self).group,
                readings@.len() == i,
                forall|k: int|
                    0 <= k < i ==> #[trigger] readings@[k].0 == rapl_counter_events(self.counters@)[k]
                        && readings@[k].2 == rapl_counter_scales(self.counters@)[k],
                self.counters@.len() == old(self).counters@.len(),
                forall|k: int| 0 <= k < i ==> #[trigger] self.counters@[k].counter.reads()
                    == old(self).counters@[k].counter.reads().push(readings@[k].1),
                forall|k: int| i <= k < self.counters@.len() ==> #[trigger] self.counters@[k].counter.reads()
                    == old(self).counters@[k].counter.reads(),
            decreases self.counters@.len() - i,
        {
            let ghost before = self.counters@;
            let event = self.counters[i].event;
            let scale_bits = self.counters[i].scale_bits;
            let r = read_counter(&mut self.counters[i].counter);
            proof {
                assert(rapl_counter_events(self.counters@) =~= rapl_counter_events(before));
                assert(rapl_counter_scales(self.counters@) =~= rapl_counter_scales(before));
                assert(rapl_counter_configs(self.counters@) =~= rapl_counter_configs(before));
            }
            proof {
                assert forall|k: int| 0 <= k < self.counters@.len() && k != i implies #[trigger] self.counters@[k]
                    == before[k] by {}
            }
            let raw = r?;
            let ghost before_readings = readings@;
            readings.push((event, raw, scale_bits));
            proof {
                assert forall|k: int| 0 <= k < i + 1 implies #[trigger] self.counters@[k].counter.reads()
                    == old(self).counters@[k].counter.reads().push(readings@[k].1) by {
                    if k < i {
                        assert(readings@[k] == before_readings[k]);
                        assert(self.counters@[k] == before[k]);
                    }
                }
            }
            i = i + 1;
        }
        let m = rapl_measurement(&readings);
        proof {
            let oc = old(self).counters@;
            assert forall|k: int| 0 <= k < readings@.len() implies #[trigger] latest_rapl_readings(
                old(self).events(),
                old(self).scales(),
                self.reads(),
            )[k] == readings@[k] by {
                assert(readings@[k].0 == rapl_counter_events(self.counters@)[k]);
                assert(self.reads()[k] == oc[k].counter.reads().push(readings@[k].1));
            }
            assert(latest_rapl_readings(old(self).events(), old(self).scales(), self.reads()) =~= readings@);
            assert forall|k: int| 0 <= k < self.reads().len() implies #[trigger] self.reads()[k].len()
                == old(self).reads()[k].len() + 1 && self.reads()[k].drop_last() == old(self).reads()[k] by {
                assert(self.reads()[k].drop_last() =~= old(self).reads()[k]);
            }
            let rs = rapl_records(readings@);
            lemma_records_map_dom(rs);
            assert forall|c: Column| m@.dom().contains(c) implies kind_columns(
                BundleKind::Rapl,
            ).to_set().contains(c) by {
                let cols = record_columns(rs);
                let j = choose|j: int| 0 <= j < cols.len() && cols[j] == c;
                lemma_rapl_columns_are_rapl_columns(readings@[j].0);
            }
        }
        Ok(m)
    }
}

/// The records of a RAPL measurement: each raw count with its scale factor,
/// under its domain's column.
pub open spec fn rapl_records(readings: Seq<(RaplEvent, u64, u64)>) -> Seq<(Column, Value)> {
    readings.map_values(
        |r: (RaplEvent, u64, u64)| (rapl_column(r.0), Value::Energy { raw: r.1, scale_bits: r.2 }),
    )
}

/// The measurement of RAPL readings, each a domain with its raw count and
/// scale factor: the count and scale under the domain's column.
pub fn rapl_measurement(readings: &Vec<(RaplEvent, u64, u64)>) -> (res: Measurements)
    ensures
        res@ == records_map(rapl_records(readings@)),
{
    let mut m = Measurements::new();
    let mut i: usize = 0;
    while i < readings.len()
        invariant
            i <= readings@.len(),
            m@ == records_map(rapl_records(readings@.take(i as int))),
        decreases readings@.len() - i,
    {
        let (event, raw, scale_bits) = readings[i];
        m.insert(event.column(), Value::Energy { raw, scale_bits });
        proof {
            let r = rapl_records(readings@.take(i + 1));
            assert(r.drop_last() =~= rapl_records(readings@.take(i as int)));
        }
        i = i + 1;
    }
    proof {
        assert(readings@.take(readings@.len() as int) =~= readings@);
    }
    m
}

} // verus!
