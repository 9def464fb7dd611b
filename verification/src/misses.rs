//! The misses bundle: cache and branch misses, each summed over a set of
//! CPUs.
use vstd::prelude::*;

use crate::bundles::{
    all_equal, appended, control_all, counter_configs, counter_histories, counter_reads,
    counting_config, latest_reads, lemma_appended_are_latest, lemma_appended_read_once, read_once,
    open_hardware_counter, open_per_cpu, per_cpu_configs, pushed, pushed_each, pushed_each_prefix, pushed_prefix, read_all,
    sum_counts, total, Bundle, BundleError, Control, CpuEvent,
};
use crate::columns::{kind_columns, BundleKind, Column};
use crate::events::{
    is_subsequence, keep_present, kept, lemma_kept_agree, lemma_kept_all, lemma_kept_map,
    miss_column, miss_events, miss_hardware_event, present_flags, present_values, MissEvent,
};
use crate::perf::{CounterConfig, EventSource, PerfCounter};
use crate::readings::{lemma_records_map_dom, record_columns, records_map, Measurements, Value};

verus! {

/// The options of a counter of the miss event `e` on CPU `cpu`.
pub open spec fn miss_config(e: MissEvent, cpu: usize) -> CounterConfig {
    counting_config(EventSource::Hardware(miss_hardware_event(e)), cpu)
}

/// The options of the counters of the miss event `e` for the CPUs `cpus`, in
/// order.
pub open spec fn miss_configs(e: MissEvent, cpus: Seq<usize>) -> Seq<CounterConfig> {
    per_cpu_configs(EventSource::Hardware(miss_hardware_event(e)), cpus)
}

impl MissEvent {
    /// Opens a counter of this event (its generalised hardware or cache
    /// event) on CPU `cpu`, for all processes, kernel and hypervisor
    /// included; the error of the kernel where it does not open.
    pub fn build_counter(&self, cpu: usize) -> (res: Result<PerfCounter, std::io::Error>)
        ensures
            res matches Ok(c) ==> c.config() == miss_config(*self, cpu) && c.history()
                == Seq::<Control>::empty(),
    {
        open_hardware_counter(self.hardware_event(), cpu)
    }
}

/// The counters of one miss event, one per CPU.
pub struct MissGroup {
    pub event: MissEvent,
    pub counters: Vec<PerfCounter>,
}

/// Cache and branch misses, each summed over a set of CPUs.
pub struct MissesBundle {
    groups: Vec<MissGroup>,
    cpus: Ghost<Seq<usize>>,
}

/// The events of a list of miss groups.
pub open spec fn group_events(gs: Seq<MissGroup>) -> Seq<MissEvent> {
    gs.map_values(|g: MissGroup| g.event)
}

/// The counter options of each of a list of miss groups.
pub open spec fn group_configs(gs: Seq<MissGroup>) -> Seq<Seq<CounterConfig>> {
    gs.map_values(|g: MissGroup| counter_configs(g.counters@))
}

/// The counter reads of each of a list of miss groups.
pub open spec fn group_reads(gs: Seq<MissGroup>) -> Seq<Seq<Seq<u64>>> {
    gs.map_values(|g: MissGroup| counter_reads(g.counters@))
}

/// Each event of `events` with the latest count read from each of its
/// counters, whose reads are at the same position of `reads`.
pub open spec fn latest_miss_counts(events: Seq<MissEvent>, reads: Seq<Seq<Seq<u64>>>) -> Seq<
    (MissEvent, Seq<u64>),
> {
    Seq::new(events.len(), |k: int| (events[k], latest_reads(reads[k])))
}

/// The counter histories of each of a list of miss groups.
pub open spec fn group_histories(gs: Seq<MissGroup>) -> Seq<Seq<Seq<Control>>> {
    gs.map_values(|g: MissGroup| counter_histories(g.counters@))
}

impl MissesBundle {
    /// The CPUs the bundle was made for.
    pub closed spec fn for_cpus(&self) -> Seq<usize> {
        self.cpus@
    }

    /// The events that have counters, in order.
    pub closed spec fn events(&self) -> Seq<MissEvent> {
        group_events(self.groups@)
    }

    /// For each event of `events()`, the options of its counters, in order.
    pub closed spec fn configs(&self) -> Seq<Seq<CounterConfig>> {
        group_configs(self.groups@)
    }

    /// For each event of `events()`, the counts that the reads of each of its
    /// counters returned.
    pub closed spec fn reads(&self) -> Seq<Seq<Seq<u64>>> {
        group_reads(self.groups@)
    }

    /// For each event of `events()`, the control history of each counter.
    pub closed spec fn histories(&self) -> Seq<Seq<Seq<Control>>> {
        group_histories(self.groups@)
    }

    /// The bundle was made for the CPUs `cpus`; its events are miss events
    /// in their order, each at most once, and each has at least one counter;
    /// the counters of an event count it on CPUs of `cpus`, in their order,
    /// each CPU at most once.
    pub open spec fn opened_for(&self, cpus: Seq<usize>) -> bool {
        &&& self.for_cpus() == cpus
        &&& is_subsequence(self.events(), miss_events())
        &&& cpus.len() == 0 ==> self.events().len() == 0
        &&& self.configs().len() == self.events().len()
        &&& forall|k: int|
            0 <= k < self.configs().len() ==> #[trigger] self.configs()[k].len() > 0
                && is_subsequence(self.configs()[k], miss_configs(self.events()[k], cpus))
    }

    /// Every counter has had exactly the control operations `h`.
    pub open spec fn histories_are(&self, h: Seq<Control>) -> bool {
        forall|k: int| 0 <= k < self.histories().len() ==> all_equal(#[trigger] self.histories()[k], h)
    }

    /// What reading the bundle gives: `res`.
    pub open spec fn read_gives(&self, res: Result<Measurements, BundleError>) -> bool {
        &&& res matches Ok(m) ==> exists|counts: Seq<(MissEvent, Seq<u64>)>|
                    counts.len() == self.events().len() && (forall|k: int|
                        0 <= k < counts.len() ==> #[trigger] counts[k].0 == self.events()[k]
                            && counts[k].1.len() == self.configs()[k].len()) && m@ == records_map(
                        miss_records(counts),
                    )
        &&& self.events().len() == 0 ==> (res matches Ok(m) && m@ == Map::<Column, Value>::empty())
        &&& res matches Err(e) ==> e is Io || e is CountOverflow
    }

    fn control(&mut self, op: Control) -> (res: Result<(), BundleError>)
        ensures
            final(self).for_cpus() == old(self).for_cpus(),
            final(self).events() == old(self).events(),
            final(self).configs() == old(self).configs(),
            res is Ok ==> final(self).histories() == pushed_each(old(self).histories(), op),
            res is Err ==> exists|g: int, j: int|
                0 <= g < old(self).histories().len() && 0 <= j < old(self).histories()[g].len()
                    && final(self).histories() == pushed_each_prefix(old(self).histories(), op, g, j),
            old(self).events().len() == 0 ==> res is Ok,
            res matches Err(e) ==> e is Io,
    {
        let ghost orig = group_histories(self.groups@);
        let mut i: usize = 0;
        while i < self.groups.len()
            invariant
                i <= self.groups@.len(),
                self.cpus == old(self).cpus,
                self.groups@.len() == old(self).groups@.len(),
                orig == group_histories(old(self).groups@),
                group_events(self.groups@) == group_events(old(self).groups@),
                group_configs(self.groups@) == group_configs(old(self).groups@),
                forall|k: int| 0 <= k < i ==> #[trigger] counter_histories(self.groups@[k].counters@) == pushed(orig[k], op),
                forall|k: int| i <= k < self.groups@.len() ==> #[trigger] counter_histories(self.groups@[k].counters@) == orig[k],
            decreases self.groups@.len() - i,
        {
            let ghost before = self.groups@;
            let r = control_all(&mut self.groups[i].counters, op);
            proof {
                assert forall|k: int| 0 <= k < self.groups@.len() && k != i implies #[trigger] self.groups@[k]
                    == before[k] by {}
                assert(group_events(self.groups@) =~= group_events(before));
                assert(group_configs(self.groups@) =~= group_configs(before));
            }
            if r.is_err() {
                proof {
                    assert(counter_histories(before[i as int].counters@) == orig[i as int]);
                    let j = choose|j: int|
                        0 <= j < before[i as int].counters@.len() && counter_histories(self.groups@[i as int].counters@)
                            == pushed_prefix(counter_histories(before[i as int].counters@), op, j);
                    assert(group_histories(self.groups@) =~= pushed_each_prefix(orig, op, i as int, j));
                    assert(old(self).histories() == orig);
                    assert(0 <= j < orig[i as int].len());
                    assert(self.histories() == pushed_each_prefix(old(self).histories(), op, i as int, j));
                }
                return r;
            }
            i = i + 1;
        }
        proof {
            assert(group_histories(self.groups@) =~= pushed_each(orig, op));
        }
        Ok(())
    }
}

proof fn lemma_miss_columns_are_misses_columns(e: MissEvent)
    ensures
        kind_columns(BundleKind::Misses).contains(miss_column(e)),
{
    let k = kind_columns(BundleKind::Misses);
    match e {
        MissEvent::L1d => assert(k[0] == miss_column(e)),
        MissEvent::L1i => assert(k[1] == miss_column(e)),
        MissEvent::Llc => assert(k[2] == miss_column(e)),
        MissEvent::Branch => assert(k[3] == miss_column(e)),
    }
}

/// The records of a misses measurement: for each event, the sum of its
/// counts, under the event's column.
pub open spec fn miss_records(counts: Seq<(MissEvent, Seq<u64>)>) -> Seq<(Column, Value)> {
    counts.map_values(|c: (MissEvent, Seq<u64>)| (miss_column(c.0), Value::Count(total(c.1) as u64)))
}

/// The counts of a list of (event, counts) pairs, as sequences.
pub open spec fn count_views(counts: Seq<(MissEvent, Vec<u64>)>) -> Seq<(MissEvent, Seq<u64>)> {
    counts.map_values(|c: (MissEvent, Vec<u64>)| (c.0, c.1@))
}

/// The measurement of the miss counts read per event: for each event, the sum
/// of its counts, under the event's column; `CountOverflow` where a sum does
/// not fit in 64 bits.
pub fn misses_measurement(counts: &Vec<(MissEvent, Vec<u64>)>) -> (res: Result<
    Measurements,
    BundleError,
>)
    ensures
        res is Ok <==> forall|k: int|
            0 <= k < counts@.len() ==> total(#[trigger] counts@[k].1@) <= u64::MAX,
        res matches Ok(m) ==> m@ == records_map(miss_records(count_views(counts@))),
        res matches Err(e) ==> e is CountOverflow,
{
    let mut m = Measurements::new();
    let mut i: usize = 0;
    while i < counts.len()
        invariant
            i <= counts@.len(),
            m@ == records_map(miss_records(count_views(counts@.take(i as int)))),
            forall|k: int| 0 <= k < i ==> total(#[trigger] counts@[k].1@) <= u64::MAX,
        decreases counts@.len() - i,
    {
        let event = counts[i].0;
        let t = match sum_counts(&counts[i].1) {
            Some(t) => t,
            None => {
                return Err(BundleError::CountOverflow);
            },
        };
        m.insert(event.column(), Value::Count(t));
        proof {
            let r = miss_records(count_views(counts@.take(i + 1)));
            assert(r.drop_last() =~= miss_records(count_views(counts@.take(i as int))));
            assert(r.last() == (miss_column(event), Value::Count(t)));
        }
        i = i + 1;
    }
    proof {
        assert(counts@.take(counts@.len() as int) =~= counts@);
    }
    Ok(m)
}

/// The (event, counts) pairs follow the groups: one pair per group, in order,
/// with as many counts as the group has counters.
spec fn counts_follow(counts: Seq<(MissEvent, Vec<u64>)>, gs: Seq<MissGroup>) -> bool {
    forall|k: int|
        0 <= k < counts.len() ==> counts[k].0 == #[trigger] gs[k].event && counts[k].1@.len()
            == gs[k].counters@.len()
}

impl Bundle for MissesBundle {
    open spec fn kind() -> BundleKind {
        BundleKind::Misses
    }

    /// For each miss event in turn (L1d, L1i, LLC, branch), opens a counter
    /// on each CPU of `cpus` (see `MissEvent::build_counter`), skipping those
    /// that fail to open; keeps the event if at least one counter opened.
    /// Never fails.
    fn new(cpus: &[usize]) -> (res: Result<Self, BundleError>)
        ensures
            res matches Ok(b) && b.opened_for(cpus@) && b.histories_are(Seq::empty()),
    {
        let events = MissEvent::all();
        let mut slots: Vec<Option<MissGroup>> = Vec::new();
        let mut i: usize = 0;
        while i < events.len()
            invariant
                events@ == miss_events(),
                i <= events@.len(),
                slots@.len() == i,
                forall|k: int|
                    0 <= k < i && slots@[k] is Some ==> #[trigger] slots@[k]->0.event == events@[k]
                        && slots@[k]->0.counters@.len() > 0 && is_subsequence(
                        counter_configs(slots@[k]->0.counters@),
                        miss_configs(events@[k], cpus@),
                    ) && all_equal(counter_histories(slots@[k]->0.counters@), Seq::empty()),
            decreases events@.len() - i,
        {
            let event = events[i];
            let counters = open_per_cpu(CpuEvent::Miss(event), cpus);
            let slot = if counters.len() > 0 {
                Some(MissGroup { event, counters })
            } else {
                None
            };
            slots.push(slot);
            i = i + 1;
        }
        let ghost values = present_values(slots@);
        let ghost flags = present_flags(slots@);
        let groups = keep_present(slots);
        proof {
            lemma_kept_map(values, flags, |g: MissGroup| g.event);
            assert forall|k: int| 0 <= k < flags.len() && flags[k] implies values.map_values(
                |g: MissGroup| g.event,
            )[k] == miss_events()[k] by {
                assert(slots@[k] is Some);
            }
            lemma_kept_agree(values.map_values(|g: MissGroup| g.event), miss_events(), flags);
            assert(group_events(groups@) == kept(miss_events(), flags));
            let p = |g: MissGroup| g.counters@.len() > 0 && is_subsequence(
                counter_configs(g.counters@),
                miss_configs(g.event, cpus@),
            ) && all_equal(counter_histories(g.counters@), Seq::empty());
            assert forall|k: int| 0 <= k < flags.len() && flags[k] implies p(values[k]) by {
                assert(slots@[k] is Some);
            }
            lemma_kept_all(values, flags, p);
            assert forall|k: int| 0 <= k < group_configs(groups@).len() implies #[trigger] group_configs(
                groups@,
            )[k].len() > 0 && is_subsequence(
                group_configs(groups@)[k],
                miss_configs(group_events(groups@)[k], cpus@),
            ) && all_equal(group_histories(groups@)[k], Seq::empty()) by {
                assert(p(groups@[k]));
            }
        }
        proof {
            if cpus@.len() == 0 && groups@.len() > 0 {
                let c = group_configs(groups@)[0];
                assert(c.len() > 0);
                let keep = choose|keep: Seq<bool>| keep.len() == miss_configs(group_events(groups@)[0], cpus@).len()
                    && c == kept(miss_configs(group_events(groups@)[0], cpus@), keep);
                assert(miss_configs(group_events(groups@)[0], cpus@).len() == 0);
            }
        }
        Ok(MissesBundle { groups, cpus: Ghost(cpus@) })
    }

    /// Enables the counters group by group, stopping at the first failure.
    fn enable(&mut self) -> (res: Result<(), BundleError>)
        ensures
            final(self).for_cpus() == old(self).for_cpus(),
            final(self).events() == old(self).events(),
            final(self).configs() == old(self).configs(),
            res is Ok ==> final(self).histories() == pushed_each(old(self).histories(), Control::Enable),
            res is Err ==> exists|g: int, j: int|
                0 <= g < old(self).histories().len() && 0 <= j < old(self).histories()[g].len()
                    && final(self).histories() == pushed_each_prefix(old(self).histories(), Control::Enable, g, j),
            old(self).events().len() == 0 ==> res is Ok,
            res matches Err(e) ==> e is Io,
    {
        self.control(Control::Enable)
    }

    /// Disables the counters group by group, stopping at the first failure.
    fn disable(&mut self) -> (res: Result<(), BundleError>)
        ensures
            final(self).for_cpus() == old(self).for_cpus(),
            final(self).events() == old(self).events(),
            final(self).configs() == old(self).configs(),
            res is Ok ==> final(self).histories() == pushed_each(old(self).histories(), Control::Disable),
            res is Err ==> exists|g: int, j: int|
                0 <= g < old(self).histories().len() && 0 <= j < old(self).histories()[g].len()
                    && final(self).histories() == pushed_each_prefix(old(self).histories(), Control::Disable, g, j),
            old(self).events().len() == 0 ==> res is Ok,
            res matches Err(e) ==> e is Io,
    {
        self.control(Control::Disable)
    }

    /// Resets the counters group by group, stopping at the first failure.
    fn reset(&mut self) -> (res: Result<(), BundleError>)
        ensures
            final(self).for_cpus() == old(self).for_cpus(),
            final(self).events() == old(self).events(),
            final(self).configs() == old(self).configs(),
            res is Ok ==> final(self).histories() == pushed_each(old(self).histories(), Control::Reset),
            res is Err ==> exists|g: int, j: int|
                0 <= g < old(self).histories().len() && 0 <= j < old(self).histories()[g].len()
                    && final(self).histories() == pushed_each_prefix(old(self).histories(), Control::Reset, g, j),
            old(self).events().len() == 0 ==> res is Ok,
            res matches Err(e) ==> e is Io,
    {
        self.control(Control::Reset)
    }

    /// Reads the counters group by group, stopping at the first failure, and
    /// reports the sum of each group under its event's column (see
    /// `misses_measurement`): the sum of the counts just read, one from each
    /// of the event's counters.
    fn read(&mut self) -> (res: Result<Measurements, BundleError>)
        ensures
            res matches Ok(m) ==> final(self).reads().len() == old(self).reads().len() && (forall|k: int|
                0 <= k < old(self).reads().len() ==> read_once(old(self).reads()[k], #[trigger] final(self).reads()[k]))
                && m@ == records_map(
                miss_records(latest_miss_counts(old(self).events(), final(self).reads())),
            ),
            final(self).for_cpus() == old(self).for_cpus(),
            final(self).events() == old(self).events(),
            final(self).configs() == old(self).configs(),
            final(self).histories() == old(self).histories(),
            old(self).read_gives(res),
    {
        let mut counts: Vec<(MissEvent, Vec<u64>)> = Vec::new();
        let mut i: usize = 0;
        while i < self.groups.len()
            invariant
                i <= self.groups@.len(),
                self.cpus == old(self).cpus,
                group_events(self.groups@) == group_events(old(self).groups@),
                group_configs(self.groups@) == group_configs(old(self).groups@),
                group_histories(self.groups@) == group_histories(old(self).groups@),
                self.groups@.len() == old(self).groups@.len(),
                counts@.len() == i,
                counts_follow(counts@, old(self).groups@),
                forall|k: int| 0 <= k < i ==> #[trigger] group_reads(self.groups@)[k] == appended(
                    group_reads(old(self).groups@)[k],
                    counts@[k].1@,
                ),
                forall|k: int| i <= k < self.groups@.len() ==> #[trigger] group_reads(self.groups@)[k]
                    == group_reads(old(self).groups@)[k],
            decreases self.groups@.len() - i,
        {
            let ghost before = self.groups@;
            let event = self.groups[i].event;
            let r = read_all(&mut self.groups[i].counters);
            proof {
                assert(group_events(self.groups@) =~= group_events(before));
                assert(group_configs(self.groups@) =~= group_configs(before));
                assert(group_histories(self.groups@) =~= group_histories(before));
            }
            let values = r?;
            proof {
                let gs = old(self).groups@;
                assert(group_events(gs)[i as int] == gs[i as int].event);
                assert(group_configs(gs)[i as int].len() == gs[i as int].counters@.len());
                assert(group_configs(before)[i as int].len() == before[i as int].counters@.len());
            }
            let ghost before_counts = counts@;
            let ghost vals = values@;
            counts.push((event, values));
            proof {
                assert forall|k: int| 0 <= k < self.groups@.len() && k != i implies #[trigger] self.groups@[k]
                    == before[k] by {}
                assert(group_reads(self.groups@)[i as int] == appended(group_reads(before)[i as int], vals));
                assert forall|k: int| 0 <= k < i + 1 implies #[trigger] group_reads(self.groups@)[k] == appended(
                    group_reads(old(self).groups@)[k],
                    counts@[k].1@,
                ) by {
                    if k < i {
                        assert(counts@[k] == before_counts[k]);
                        assert(self.groups@[k] == before[k]);
                        assert(group_reads(before)[k] == appended(group_reads(old(self).groups@)[k], before_counts[k].1@));
                    } else {
                        assert(group_reads(before)[k] == group_reads(old(self).groups@)[k]);
                    }
                }
                assert forall|k: int| i + 1 <= k < self.groups@.len() implies #[trigger] group_reads(self.groups@)[k]
                    == group_reads(old(self).groups@)[k] by {
                    assert(self.groups@[k] == before[k]);
                    assert(group_reads(before)[k] == group_reads(old(self).groups@)[k]);
                }
                let gs = old(self).groups@;
                assert forall|k: int| 0 <= k < counts@.len() implies counts@[k].0 == #[trigger] gs[
                    k
                ].event && counts@[k].1@.len() == gs[k].counters@.len() by {
                    if k < i {
                        assert(counts@[k] == before_counts[k]);
                    }
                }
            }
            i = i + 1;
        }
        let r = misses_measurement(&counts);
        proof {
            let cs = count_views(counts@);
            if r is Ok {
                let m = r->Ok_0;
                lemma_records_map_dom(miss_records(cs));
                assert forall|c: Column| m@.dom().contains(c) implies kind_columns(
                    BundleKind::Misses,
                ).to_set().contains(c) by {
                    let cols = record_columns(miss_records(cs));
                    let j = choose|j: int| 0 <= j < cols.len() && cols[j] == c;
                    lemma_miss_columns_are_misses_columns(cs[j].0);
                }
                let gs = old(self).groups@;
                assert forall|k: int| 0 <= k < cs.len() implies #[trigger] cs[k].0 == old(
                    self,
                ).events()[k] && cs[k].1.len() == old(self).configs()[k].len() by {
                    assert(counts@[k].0 == gs[k].event);
                    assert(group_events(gs)[k] == gs[k].event);
                    assert(group_configs(gs)[k].len() == gs[k].counters@.len());
                }
                assert forall|k: int| 0 <= k < cs.len() implies #[trigger] latest_miss_counts(old(self).events(), self.reads())[k] == cs[k] by {
                    assert(counts@[k].0 == gs[k].event);
                    assert(group_events(gs)[k] == gs[k].event);
                    assert(counts@[k].1@.len() == gs[k].counters@.len());
                    assert(group_reads(gs)[k].len() == gs[k].counters@.len());
                    assert(group_reads(self.groups@)[k] == appended(group_reads(gs)[k], counts@[k].1@));
                    lemma_appended_are_latest(group_reads(gs)[k], counts@[k].1@);
                }
                assert(latest_miss_counts(old(self).events(), self.reads()) =~= cs);
                assert forall|k: int| 0 <= k < old(self).reads().len() implies read_once(old(self).reads()[k], #[trigger] self.reads()[k]) by {
                    assert(group_reads(gs)[k].len() == gs[k].counters@.len());
                    assert(counts@[k].0 == gs[k].event);
                    assert(counts@[k].1@.len() == gs[k].counters@.len());
                    assert(group_reads(self.groups@)[k] == appended(group_reads(gs)[k], counts@[k].1@));
                    assert(self.reads()[k] == appended(old(self).reads()[k], counts@[k].1@));
                    lemma_appended_read_once(old(self).reads()[k], counts@[k].1@);
                }
                assert(self.reads().len() == old(self).reads().len());
                assert(m@ == records_map(miss_records(latest_miss_counts(old(self).events(), self.reads()))));
            }
        }
        r
    }
}

} // verus!
