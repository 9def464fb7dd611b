//! A measurement: the bundles that a configuration asks for are created and
//! started; when the measurement stops they are stopped and read, the end time
//! is added, and the readings are laid out as one row of the measurement file.
use vstd::prelude::*;

use std::path::PathBuf;

use crate::bundles::{bundle_kinds, AnyBundle, BundleError, Control};
use crate::columns::{
    column_order, kind_columns, lemma_column_order_lists_each_column_once, spec_column_order,
    BundleKind, Column,
};
use crate::config::{lemma_planned_kinds, names_metric, parse_config, planned_kinds, BundleConfig, Metric};
use crate::host::{available_cpu_count, strictly_increasing, thread_affinity, utc_now_micros, UtcMicros};
use crate::readings::{Measurements, Value};

verus! {

/// The CPUs `0, 1, ..., count - 1`.
pub fn all_cpus(count: usize) -> (res: Vec<usize>)
    ensures
        res@ == Seq::new(count as nat, |i: int| i as usize),
{
    let mut cpus: Vec<usize> = Vec::new();
    let mut i: usize = 0;
    while i < count
        invariant
            i <= count,
            cpus@ == Seq::new(i as nat, |k: int| k as usize),
        decreases count - i,
    {
        cpus.push(i);
        i = i + 1;
        assert(cpus@ =~= Seq::new(i as nat, |k: int| k as usize));
    }
    cpus
}

/// The CPUs to count on, given the CPUs the calling thread may run on (where
/// they could be found out) and the number of CPUs available to the process:
/// the former, or else all CPUs `0, 1, ..., count - 1`.
pub open spec fn cpu_choice(affinity: Option<Seq<usize>>, count: usize) -> Seq<usize> {
    match affinity {
        Some(cpus) => cpus,
        None => Seq::new(count as nat, |i: int| i as usize),
    }
}

/// The CPUs to count on (see `cpu_choice`), given the thread's affinity, if
/// known, and the number of CPUs available to the process.
pub fn cpus_to_use(affinity: Option<Vec<usize>>, count: usize) -> (res: Vec<usize>)
    ensures
        res@ == cpu_choice(
            match affinity {
                Some(v) => Some(v@),
                None => None,
            },
            count,
        ),
{
    match affinity {
        Some(cpus) => cpus,
        None => all_cpus(count),
    }
}

/// The CPUs to count on: those the calling thread may run on, or, where that
/// cannot be found out, all CPUs available to the process (see
/// `cpus_to_use`); in increasing order, so each CPU at most once.
pub fn resolve_cpus() -> (res: Vec<usize>)
    ensures
        strictly_increasing(res@),
        exists|affinity: Option<Seq<usize>>, count: usize|
            (affinity matches Some(v) ==> strictly_increasing(v)) && res@ == cpu_choice(
                affinity,
                count,
            ),
{
    let affinity = thread_affinity();
    let ghost known = match &affinity {
        Some(v) => Some(v@),
        None => None,
    };
    let count = match &affinity {
        Some(_) => 0,
        None => available_cpu_count(),
    };
    let res = cpus_to_use(affinity, count);
    proof {
        assert(known matches Some(v) ==> strictly_increasing(v));
        assert(res@ == cpu_choice(known, count));
    }
    res
}

/// Why a measurement could not be started.
#[derive(Debug)]
pub enum StartError {
    /// A bundle could not be created.
    Create(BundleError),
    /// A bundle could not be reset or enabled.
    Enable(BundleError),
}

/// A running measurement: its bundles, and the file that the readings go to.
pub struct MeasurementContext {
    bundles: Vec<AnyBundle>,
    output_path: PathBuf,
}

/// What stopping a measurement gives.
pub struct StopReport {
    /// The readings of all bundles that could be read, and the end time.
    pub data: Measurements,
    /// The errors of the bundles that could not be disabled, in bundle order.
    pub disable_errors: Vec<BundleError>,
    /// The errors of the bundles that could not be read, in bundle order.
    pub read_errors: Vec<BundleError>,
    /// The reading of the system clock taken when the measurement stopped,
    /// which `data` holds under `ended`.
    pub ended_at: UtcMicros,
}

/// The columns that bundles of the given kinds can report.
pub open spec fn columns_of_kinds(kinds: Seq<BundleKind>) -> Set<Column> {
    Set::new(|c: Column| exists|k: int| 0 <= k < kinds.len() && kind_columns(kinds[k]).contains(c))
}

/// The readings that succeeded, joined in order (a later reading of a column
/// overrides an earlier one).
pub open spec fn joined_readings(reads: Seq<Result<Measurements, BundleError>>) -> Map<Column, Value>
    decreases reads.len(),
{
    if reads.len() == 0 {
        Map::empty()
    } else {
        let before = joined_readings(reads.drop_last());
        match reads.last() {
            Ok(m) => before.union_prefer_right(m@),
            Err(_) => before,
        }
    }
}

/// The errors of the readings that failed, in order.
pub open spec fn failed_reads(reads: Seq<Result<Measurements, BundleError>>) -> Seq<BundleError>
    decreases reads.len(),
{
    if reads.len() == 0 {
        Seq::empty()
    } else {
        let before = failed_reads(reads.drop_last());
        match reads.last() {
            Ok(_) => before,
            Err(e) => before.push(e),
        }
    }
}

/// The errors of the control operations that failed, in order.
pub open spec fn failed_controls(results: Seq<Result<(), BundleError>>) -> Seq<BundleError>
    decreases results.len(),
{
    if results.len() == 0 {
        Seq::empty()
    } else {
        let before = failed_controls(results.drop_last());
        match results.last() {
            Ok(_) => before,
            Err(e) => before.push(e),
        }
    }
}

/// A column of a reading that succeeded is a column of the joined readings.
pub proof fn lemma_joined_contains(reads: Seq<Result<Measurements, BundleError>>, k: int, c: Column)
    requires
        0 <= k < reads.len(),
        reads[k] matches Ok(m) && m@.contains_key(c),
    ensures
        joined_readings(reads).contains_key(c),
    decreases reads.len(),
{
    if k < reads.len() - 1 {
        lemma_joined_contains(reads.drop_last(), k, c);
    }
}

/// The joined readings have no column that no reading that succeeded has.
pub proof fn lemma_joined_dom(reads: Seq<Result<Measurements, BundleError>>, cols: Set<Column>)
    requires
        forall|k: int| 0 <= k < reads.len() ==> (#[trigger] reads[k] matches Ok(m) ==> m@.dom().subset_of(cols)),
    ensures
        joined_readings(reads).dom().subset_of(cols),
    decreases reads.len(),
{
    if reads.len() > 0 {
        let d = reads.drop_last();
        assert forall|k: int| 0 <= k < d.len() implies (#[trigger] d[k] matches Ok(m) ==> m@.dom().subset_of(cols)) by {
            assert(d[k] == reads[k]);
        }
        lemma_joined_dom(d, cols);
        assert(reads[reads.len() - 1] == reads.last());
    }
}

/// Joins the readings of the bundles in order (see `joined_readings`), adds
/// `ended` under `ended`, and gathers the errors of the readings that failed.
pub fn join_readings(reads: Vec<Result<Measurements, BundleError>>, ended: i64) -> (res: (
    Measurements,
    Vec<BundleError>,
))
    ensures
        res.0@ == joined_readings(reads@).insert(Column::Ended, Value::Timestamp(ended)),
        res.1@ == failed_reads(reads@),
{
    let ghost orig = reads@;
    let mut reads = reads;
    let mut data = Measurements::new();
    let mut errors: Vec<BundleError> = Vec::new();
    let ghost mut i: int = 0;
    while reads.len() > 0
        invariant
            0 <= i <= orig.len(),
            reads@ == orig.skip(i),
            data@ == joined_readings(orig.take(i)),
            errors@ == failed_reads(orig.take(i)),
        decreases reads@.len(),
    {
        let r = reads.remove(0);
        proof {
            assert(orig[i] == r);
            assert(orig.take(i + 1).drop_last() =~= orig.take(i));
            assert(orig.take(i + 1).last() == r);
        }
        match r {
            Ok(m) => data.extend(m),
            Err(e) => errors.push(e),
        }
        proof {
            i = i + 1;
            assert(reads@ =~= orig.skip(i));
        }
    }
    proof {
        assert(orig.take(i) =~= orig);
    }
    data.insert(Column::Ended, Value::Timestamp(ended));
    (data, errors)
}

/// What stopping a measurement did to its bundles, from `before` to `after`
/// (in order), and gave, `report`. Every bundle was disabled once, in order:
/// a disable that failed failed in the kernel (`Io`), a bundle that controls
/// no counter disabled without error, and each bundle whose disable
/// succeeded had a disable added to the control operations of every counter;
/// `disable_errors` are the errors of the disables that failed, in order.
/// Then every bundle, so disabled, was read once, in order, and gave what its
/// `read_gives` says, under columns of its kind (reading changes no bundle's
/// model); `data` holds what the readings that succeeded hold, joined in
/// order (see `joined_readings`), and under `ended` the reading of the
/// system clock that `ended_at` holds; `read_errors`
/// are the errors of the readings that failed, in order.
pub open spec fn stop_report_of(before: Seq<AnyBundle>, after: Seq<AnyBundle>, report: StopReport) -> bool {
    &&& after.len() == before.len()
    &&& forall|k: int|
        0 <= k < before.len() ==> #[trigger] after[k].kind() == before[k].kind()
            && after[k].time_started() == before[k].time_started()
    &&& exists|disables: Seq<Result<(), BundleError>>|
        {
            &&& disables.len() == before.len()
            &&& forall|k: int| 0 <= k < disables.len() ==> (#[trigger] disables[k] matches Err(e) ==> e is Io)
            &&& forall|k: int|
                0 <= k < disables.len() && !before[k].controls_counters() ==> #[trigger] disables[k] is Ok
            &&& forall|k: int, h: Seq<Control>|
                0 <= k < disables.len() && disables[k] is Ok && #[trigger] before[k].histories_are(h)
                    ==> after[k].histories_are(h.push(Control::Disable))
            &&& report.disable_errors@ == failed_controls(disables)
        }
    &&& exists|reads: Seq<Result<Measurements, BundleError>>|
        {
            &&& reads.len() == after.len()
            &&& forall|k: int| 0 <= k < reads.len() ==> #[trigger] after[k].read_gives(reads[k])
            &&& forall|k: int|
                0 <= k < reads.len() ==> (#[trigger] reads[k] matches Ok(m) ==> m@.dom().subset_of(
                    kind_columns(after[k].kind()).to_set(),
                ))
            &&& report.data@ == joined_readings(reads).insert(
                Column::Ended,
                Value::Timestamp(report.ended_at.value()),
            )
            &&& report.read_errors@ == failed_reads(reads)
        }
}

impl MeasurementContext {
    /// The measurement's bundles, in order.
    pub closed spec fn bundles(&self) -> Seq<AnyBundle> {
        self.bundles@
    }

    /// The kinds of the measurement's bundles, in order.
    pub open spec fn kinds(&self) -> Seq<BundleKind> {
        bundle_kinds(self.bundles())
    }

    /// The file that the readings go to.
    pub closed spec fn path(&self) -> PathBuf {
        self.output_path
    }

    /// The file that the readings go to.
    pub fn output_path(&self) -> (res: &PathBuf)
        ensures
            *res == self.path(),
    {
        &self.output_path
    }

    /// Every bundle was opened for the CPUs `cpus`.
    pub open spec fn opened_for(&self, cpus: Seq<usize>) -> bool {
        forall|k: int| 0 <= k < self.bundles().len() ==> #[trigger] self.bundles()[k].opened_for(cpus)
    }

    /// Every bundle is running: the time started, every counter reset and
    /// then enabled.
    pub open spec fn running(&self) -> bool {
        forall|k: int| 0 <= k < self.bundles().len() ==> #[trigger] self.bundles()[k].running()
    }

    /// Creates the bundles that `config` asks for on the CPUs `cpus` (see
    /// `BundleConfig::create_bundles`), then resets and enables each in turn.
    /// Stops at the first failure, which is returned. Where no bundle can
    /// hold a counter (no RAPL and no C-states asked for, and either no CPU
    /// or neither cycles nor misses), starting cannot fail.
    pub fn start(config: &BundleConfig, cpus: &[usize], output_path: PathBuf) -> (res: Result<
        MeasurementContext,
        StartError,
    >)
        ensures
            res matches Ok(ctx) ==> ctx.kinds() == config.planned() && ctx.path() == output_path
                && ctx.opened_for(cpus@) && ctx.running(),
            !config.rapl && !config.cstates && (cpus@.len() == 0 || (!config.cycles && !config.misses))
                ==> res is Ok,
            res matches Err(StartError::Create(e)) ==> config.rapl && e is Io,
            res matches Err(StartError::Enable(e)) ==> e is Io,
    {
        let mut bundles = match config.create_bundles(cpus) {
            Ok(b) => b,
            Err(e) => return Err(StartError::Create(e)),
        };
        let ghost quiet = !config.rapl && !config.cstates && (cpus@.len() == 0 || (!config.cycles
            && !config.misses));
        proof {
            if quiet {
                assert forall|k: int| 0 <= k < bundles@.len() implies !(#[trigger] bundles@[k]).controls_counters() by {
                    assert(bundle_kinds(bundles@)[k] == bundles@[k].kind());
                    lemma_planned_kinds(*config, bundles@[k].kind());
                    assert(config.planned().contains(bundles@[k].kind()));
                    assert(bundles@[k].opened_for(cpus@));
                }
            }
        }
        let mut i: usize = 0;
        while i < bundles.len()
            invariant
                i <= bundles@.len(),
                bundle_kinds(bundles@) == config.planned(),
                quiet == (!config.rapl && !config.cstates && (cpus@.len() == 0 || (!config.cycles
                    && !config.misses))),
                quiet ==> forall|k: int| 0 <= k < bundles@.len() ==> !(#[trigger] bundles@[k]).controls_counters(),
                forall|k: int| 0 <= k < bundles@.len() ==> #[trigger] bundles@[k].opened_for(cpus@),
                forall|k: int| 0 <= k < i ==> #[trigger] bundles@[k].running(),
                forall|k: int| i <= k < bundles@.len() ==> #[trigger] bundles@[k].idle(),
            decreases bundles@.len() - i,
        {

            assert(bundles@[i as int].idle());
            assert(quiet ==> !bundles@[i as int].controls_counters());
            let ghost before = bundles@;
            let r = bundles[i].reset();
            proof {
                assert(bundle_kinds(bundles@) =~= bundle_kinds(before));
                assert forall|k: int| 0 <= k < bundles@.len() && k != i implies #[trigger] bundles@[k]
                    == before[k] by {}
                assert(bundles@[i as int].opened_for(cpus@) == before[i as int].opened_for(cpus@));
            }
            if let Err(e) = r {
                return Err(StartError::Enable(e));
            }
            proof {
                assert(before[i as int].histories_are(Seq::empty()) ==> bundles@[i as int].histories_are(
                    Seq::<Control>::empty().push(Control::Reset),
                ));
                assert(Seq::<Control>::empty().push(Control::Reset) =~= seq![Control::Reset]);
            }
            let ghost before = bundles@;
            let r = bundles[i].enable();
            proof {
                assert(bundle_kinds(bundles@) =~= bundle_kinds(before));
                assert forall|k: int| 0 <= k < bundles@.len() && k != i implies #[trigger] bundles@[k]
                    == before[k] by {}
                assert(bundles@[i as int].opened_for(cpus@) == before[i as int].opened_for(cpus@));
            }
            if let Err(e) = r {
                return Err(StartError::Enable(e));
            }
            proof {
                assert(before[i as int].histories_are(seq![Control::Reset]) ==> bundles@[i as int].histories_are(
                    seq![Control::Reset].push(Control::Enable),
                ));
                assert(seq![Control::Reset].push(Control::Enable) =~= seq![Control::Reset, Control::Enable]);
                assert(bundles@[i as int].running());
            }
            i = i + 1;
        }
        Ok(MeasurementContext { bundles, output_path })
    }

    /// Disables every bundle (noting each failure and going on), then reads
    /// every bundle (noting each failure and going on), and joins the
    /// readings with the current time in microseconds since the Unix epoch
    /// under `ended` (see `join_readings` and `stop_report_of`). The bundles
    /// stay in the context, disabled, for the caller to drop.
    pub fn stop(&mut self) -> (res: StopReport)
        ensures
            stop_report_of(old(self).bundles(), final(self).bundles(), res),
            final(self).path() == old(self).path(),
            forall|k: int, cpus: Seq<usize>|
                0 <= k < old(self).bundles().len() ==> #[trigger] final(self).bundles()[k].opened_for(cpus)
                    == old(self).bundles()[k].opened_for(cpus),
            res.data@.contains_key(Column::Ended),
            res.data@[Column::Ended] is Timestamp,
            res.data@[Column::Ended] == Value::Timestamp(res.ended_at.value()),
            res.data@.dom().subset_of(columns_of_kinds(old(self).kinds()).insert(Column::Ended)),
            forall|k: int|
                0 <= k < old(self).bundles().len() && #[trigger] old(self).bundles()[k].time_started()
                    ==> res.data@.contains_key(Column::Time),
            res.disable_errors@.len() <= old(self).kinds().len(),
            (forall|k: int|
                0 <= k < old(self).bundles().len() ==> !(#[trigger] old(self).bundles()[k]).controls_counters())
                ==> res.disable_errors@.len() == 0,
            res.read_errors@.len() <= old(self).kinds().len(),
    {
        let ghost orig = self.bundles@;
        let ghost kinds = self.kinds();
        let mut disable_errors: Vec<BundleError> = Vec::new();
        let ghost mut disables: Seq<Result<(), BundleError>> = Seq::empty();
        let mut i: usize = 0;
        while i < self.bundles.len()
            invariant
                i <= self.bundles@.len(),
                self.bundles@.len() == orig.len(),
                orig == old(self).bundles@,
                self.output_path == old(self).output_path,
                kinds == bundle_kinds(orig),
                forall|k: int| 0 <= k < self.bundles@.len() ==> #[trigger] self.bundles@[k].kind() == orig[k].kind()
                    && self.bundles@[k].reads_counters() == orig[k].reads_counters()
                    && self.bundles@[k].controls_counters() == orig[k].controls_counters()
                    && self.bundles@[k].time_started() == orig[k].time_started(),
                forall|k: int, r: Result<Measurements, BundleError>| 0 <= k < self.bundles@.len() ==> #[trigger] self.bundles@[k].read_gives(r) == orig[k].read_gives(r),
                forall|k: int, cpus: Seq<usize>| 0 <= k < self.bundles@.len() ==> #[trigger] self.bundles@[k].opened_for(cpus) == orig[k].opened_for(cpus),
                forall|k: int| i <= k < self.bundles@.len() ==> #[trigger] self.bundles@[k] == orig[k],
                disable_errors@.len() <= i,
                (forall|k: int| 0 <= k < orig.len() ==> !(#[trigger] orig[k]).controls_counters())
                    ==> disable_errors@.len() == 0,
                disables.len() == i,
                forall|k: int| 0 <= k < i ==> (#[trigger] disables[k] matches Err(e) ==> e is Io),
                forall|k: int| 0 <= k < i && !orig[k].controls_counters() ==> #[trigger] disables[k] is Ok,
                forall|k: int, h: Seq<Control>|
                    0 <= k < i && disables[k] is Ok && #[trigger] orig[k].histories_are(h)
                        ==> self.bundles@[k].histories_are(h.push(Control::Disable)),
                disable_errors@ == failed_controls(disables),
            decreases self.bundles@.len() - i,
        {
            let ghost before = self.bundles@;
            let r = self.bundles[i].disable();
            proof {
                assert forall|k: int| 0 <= k < self.bundles@.len() && k != i implies #[trigger] self.bundles@[k]
                    == before[k] by {}
            }
            let ghost result = r;
            let ghost before_disables = disables;
            if let Err(e) = r {
                disable_errors.push(e);
            }
            proof {
                disables = disables.push(result);
                assert(disables.drop_last() =~= before_disables);
                assert forall|k: int| 0 <= k < i + 1 && !orig[k].controls_counters() implies #[trigger] disables[k] is Ok by {
                    if k < i {
                        assert(disables[k] == before_disables[k]);
                    }
                }
                assert forall|k: int| 0 <= k < i + 1 implies (#[trigger] disables[k] matches Err(e) ==> e is Io) by {
                    if k < i {
                        assert(disables[k] == before_disables[k]);
                    }
                }
                assert forall|k: int, h: Seq<Control>|
                    0 <= k < i + 1 && disables[k] is Ok && #[trigger] orig[k].histories_are(h)
                        implies self.bundles@[k].histories_are(h.push(Control::Disable)) by {
                    if k < i {
                        assert(disables[k] == before_disables[k]);
                        assert(self.bundles@[k] == before[k]);
                    } else {
                        assert(before[k] == orig[k]);
                    }
                }
            }
            i = i + 1;
        }
        let ghost disabled = self.bundles@;
        let mut reads: Vec<Result<Measurements, BundleError>> = Vec::new();
        let mut j: usize = 0;
        while j < self.bundles.len()
            invariant
                j <= self.bundles@.len(),
                self.bundles@.len() == orig.len(),
                disabled.len() == orig.len(),
                self.output_path == old(self).output_path,
                kinds == bundle_kinds(orig),
                forall|k: int| 0 <= k < self.bundles@.len() ==> #[trigger] self.bundles@[k].kind() == orig[k].kind()
                    && self.bundles@[k].reads_counters() == orig[k].reads_counters()
                    && self.bundles@[k].time_started() == orig[k].time_started(),
                forall|k: int, r: Result<Measurements, BundleError>| 0 <= k < self.bundles@.len() ==> #[trigger] self.bundles@[k].read_gives(r) == orig[k].read_gives(r),
                forall|k: int, cpus: Seq<usize>| 0 <= k < self.bundles@.len() ==> #[trigger] self.bundles@[k].opened_for(cpus) == orig[k].opened_for(cpus),
                forall|k: int, h: Seq<Control>| 0 <= k < self.bundles@.len() ==> #[trigger] self.bundles@[k].histories_are(h) == disabled[k].histories_are(h),
                reads@.len() == j,
                forall|k: int|
                    0 <= k < j ==> (#[trigger] reads@[k] matches Ok(m) ==> m@.dom().subset_of(
                        kind_columns(orig[k].kind()).to_set(),
                    )),
                forall|k: int| 0 <= k < j ==> #[trigger] orig[k].read_gives(reads@[k]),
            decreases self.bundles@.len() - j,
        {
            let ghost before = self.bundles@;
            let r = self.bundles[j].read();
            proof {
                assert forall|k: int| 0 <= k < self.bundles@.len() && k != j implies #[trigger] self.bundles@[k]
                    == before[k] by {}
                assert(before[j as int].read_gives(r) == orig[j as int].read_gives(r));
            }
            let ghost before_reads = reads@;
            reads.push(r);
            proof {
                assert forall|k: int| 0 <= k < j implies #[trigger] reads@[k] == before_reads[k] by {}
            }
            j = j + 1;
        }
        let ghost all_reads = reads@;
        let ended = utc_now_micros();
        let (data, read_errors) = join_readings(reads, ended.micros());
        let res = StopReport { data, disable_errors, read_errors, ended_at: ended };
        proof {
            let after = self.bundles@;
            assert forall|k: int| 0 <= k < all_reads.len() implies #[trigger] after[k].read_gives(all_reads[k]) by {
                assert(orig[k].read_gives(all_reads[k]));
            }
            assert forall|k: int, h: Seq<Control>|
                0 <= k < disables.len() && disables[k] is Ok && #[trigger] orig[k].histories_are(h)
                    implies after[k].histories_are(h.push(Control::Disable)) by {
                assert(disabled[k].histories_are(h.push(Control::Disable)));
            }
            assert(stop_report_of(orig, after, res));
            let cols = columns_of_kinds(kinds);
            assert forall|k: int| 0 <= k < all_reads.len() implies (#[trigger] all_reads[k] matches Ok(m) ==> m@.dom().subset_of(cols)) by {
                if all_reads[k] is Ok {
                    assert forall|c: Column| all_reads[k]->Ok_0@.dom().contains(c) implies cols.contains(c) by {
                        assert(kinds[k] == orig[k].kind());
                        assert(kind_columns(kinds[k]).contains(c));
                    }
                }
            }
            lemma_joined_dom(all_reads, cols);
            assert forall|k: int| 0 <= k < orig.len() && #[trigger] orig[k].time_started() implies res.data@.contains_key(Column::Time) by {
                assert(orig[k].read_gives(all_reads[k]));
                lemma_joined_contains(all_reads, k, Column::Time);
            }
            assert(failed_reads(all_reads).len() <= all_reads.len()) by {
                lemma_failed_reads_len(all_reads);
            }
        }
        res
    }
}


/// Wall time is always measured: the report of stopping a measurement that
/// `start` started, whatever its configuration, holds the time under `time`
/// and the end time under `ended`.
pub proof fn lemma_started_measurement_reports_time(
    ctx: MeasurementContext,
    config: BundleConfig,
    after: Seq<AnyBundle>,
    report: StopReport,
)
    requires
        ctx.kinds() == config.planned(),
        ctx.running(),
        stop_report_of(ctx.bundles(), after, report),
    ensures
        report.data@.contains_key(Column::Time),
        report.data@.contains_key(Column::Ended),
{
    let bs = ctx.bundles();
    assert(config.planned().len() >= 1 && config.planned()[0] == BundleKind::Time);
    assert(bundle_kinds(bs).len() == bs.len());
    assert(bundle_kinds(bs)[0] == bs[0].kind());
    assert(bs[0].running());
    assert(after[0].kind() == bs[0].kind() && after[0].time_started() == bs[0].time_started());
    let reads = choose|reads: Seq<Result<Measurements, BundleError>>|
        {
            &&& reads.len() == after.len()
            &&& forall|k: int| 0 <= k < reads.len() ==> #[trigger] after[k].read_gives(reads[k])
            &&& forall|k: int|
                0 <= k < reads.len() ==> (#[trigger] reads[k] matches Ok(m) ==> m@.dom().subset_of(
                    kind_columns(after[k].kind()).to_set(),
                ))
            &&& report.data@ == joined_readings(reads).insert(
                Column::Ended,
                Value::Timestamp(report.ended_at.value()),
            )
            &&& report.read_errors@ == failed_reads(reads)
        };
    assert(after[0].read_gives(reads[0]));
    lemma_joined_contains(reads, 0, Column::Time);
}

/// Stopping stamps the clock: the end time that the report holds under
/// `ended` is the reading of the system clock taken when the measurement
/// stopped, unchanged: microseconds since the Unix epoch.
pub proof fn lemma_stop_stamps_the_clock(before: Seq<AnyBundle>, after: Seq<AnyBundle>, report: StopReport)
    requires
        stop_report_of(before, after, report),
    ensures
        report.data@.contains_key(Column::Ended),
        report.data@[Column::Ended] == Value::Timestamp(report.ended_at.value()),
{
}

/// A measurement of wall time alone writes exactly two columns: the report
/// of stopping a started measurement whose only bundle is the time bundle
/// holds the time under `time`, the end time under `ended`, and nothing else.
pub proof fn lemma_time_only_measurement_columns(
    before: Seq<AnyBundle>,
    after: Seq<AnyBundle>,
    report: StopReport,
)
    requires
        bundle_kinds(before) == seq![BundleKind::Time],
        before[0].time_started(),
        stop_report_of(before, after, report),
    ensures
        report.data@.dom() == set![Column::Time, Column::Ended],
{
    assert(bundle_kinds(before).len() == before.len());
    assert(bundle_kinds(before)[0] == before[0].kind());
    assert(after[0].kind() == before[0].kind() && after[0].time_started() == before[0].time_started());
    let reads = choose|reads: Seq<Result<Measurements, BundleError>>|
        {
            &&& reads.len() == after.len()
            &&& forall|k: int| 0 <= k < reads.len() ==> #[trigger] after[k].read_gives(reads[k])
            &&& forall|k: int|
                0 <= k < reads.len() ==> (#[trigger] reads[k] matches Ok(m) ==> m@.dom().subset_of(
                    kind_columns(after[k].kind()).to_set(),
                ))
            &&& report.data@ == joined_readings(reads).insert(
                Column::Ended,
                Value::Timestamp(report.ended_at.value()),
            )
            &&& report.read_errors@ == failed_reads(reads)
        };
    assert(after[0].read_gives(reads[0]));
    let m = reads[0]->Ok_0;
    assert(m@.dom() == set![Column::Time]);
    assert(reads.drop_last().len() == 0);
    assert(joined_readings(reads.drop_last()) == Map::<Column, Value>::empty());
    assert(reads.last() == reads[0]);
    assert(joined_readings(reads).dom() =~= set![Column::Time]);
    assert(report.data@.dom() =~= set![Column::Time, Column::Ended]);
}

/// At most one error per reading.
proof fn lemma_failed_reads_len(reads: Seq<Result<Measurements, BundleError>>)
    ensures
        failed_reads(reads).len() <= reads.len(),
    decreases reads.len(),
{
    if reads.len() > 0 {
        lemma_failed_reads_len(reads.drop_last());
    }
}

/// The kinds of bundle that the comma-separated metric list `metrics` asks
/// for, in creation order.
pub open spec fn metrics_plan(metrics: Seq<char>) -> Seq<BundleKind> {
    planned_kinds(
        names_metric(metrics, Metric::Rapl),
        names_metric(metrics, Metric::Cycles),
        names_metric(metrics, Metric::Misses),
        names_metric(metrics, Metric::CStates),
    )
}

/// Starts measuring the metrics named in the comma-separated list `metrics`
/// (see `parse_config`) on the CPUs of `resolve_cpus` (those the thread may
/// run on, or else all CPUs), with the readings to go to `output_path` (see
/// `MeasurementContext::start`). A list that names no metric starts the time
/// bundle alone, which cannot fail.
pub fn measure_start(metrics: &str, output_path: PathBuf) -> (res: Result<
    MeasurementContext,
    StartError,
>)
    ensures
        res matches Ok(ctx) ==> ctx.kinds() == metrics_plan(metrics@) && ctx.path() == output_path
            && ctx.running() && exists|affinity: Option<Seq<usize>>, count: usize|
            (affinity matches Some(v) ==> strictly_increasing(v)) && ctx.opened_for(
                cpu_choice(affinity, count),
            ),
        metrics_plan(metrics@) == seq![BundleKind::Time] ==> res is Ok,
        res matches Err(StartError::Create(e)) ==> names_metric(metrics@, Metric::Rapl) && e is Io,
        res matches Err(StartError::Enable(e)) ==> e is Io,
{
    let config = parse_config(metrics);
    let cpus = resolve_cpus();
    let res = MeasurementContext::start(&config, cpus.as_slice(), output_path);
    proof {
        if metrics_plan(metrics@) == seq![BundleKind::Time] {
            assert(metrics_plan(metrics@).len() == 1);
            if config.rapl || config.cycles || config.misses || config.cstates {
                assert(config.planned().len() > 1);
            }
        }
        if res is Ok {
            let (a, n) = choose|affinity: Option<Seq<usize>>, count: usize|
                (affinity matches Some(v) ==> strictly_increasing(v)) && cpus@ == cpu_choice(
                    affinity,
                    count,
                );
            assert(res->Ok_0.opened_for(cpu_choice(a, n)));
        }
    }
    res
}

/// Stops the measurement `context` (see `MeasurementContext::stop`); the
/// caller drops it afterwards.
pub fn measure_stop(context: &mut MeasurementContext) -> (res: StopReport)
    ensures
        stop_report_of(old(context).bundles(), final(context).bundles(), res),
        final(context).path() == old(context).path(),
        forall|k: int, cpus: Seq<usize>|
            0 <= k < old(context).bundles().len() ==> #[trigger] final(context).bundles()[k].opened_for(cpus)
                == old(context).bundles()[k].opened_for(cpus),
        res.data@.contains_key(Column::Ended),
        res.data@[Column::Ended] is Timestamp,
        res.data@[Column::Ended] == Value::Timestamp(res.ended_at.value()),
        res.data@.dom().subset_of(columns_of_kinds(old(context).kinds()).insert(Column::Ended)),
        forall|k: int|
            0 <= k < old(context).bundles().len() && #[trigger] old(context).bundles()[k].time_started()
                ==> res.data@.contains_key(Column::Time),
        res.disable_errors@.len() <= old(context).kinds().len(),
        (forall|k: int|
            0 <= k < old(context).bundles().len() ==> !(#[trigger] old(context).bundles()[k]).controls_counters())
            ==> res.disable_errors@.len() == 0,
        res.read_errors@.len() <= old(context).kinds().len(),
{
    context.stop()
}

/// The columns of the measurement file that `data` has values for, in file
/// order, each with its value: the row that is written, and, with the column
/// names, its header.
pub fn csv_record(data: &Measurements) -> (res: Vec<(Column, Value)>)
    ensures
        res@.map_values(|p: (Column, Value)| p.0) == spec_column_order().filter(
            |c: Column| data@.contains_key(c),
        ),
        forall|k: int| 0 <= k < res@.len() ==> #[trigger] res@[k].1 == data@[res@[k].0],
{
    let order = column_order();
    let ghost pred = |c: Column| data@.contains_key(c);
    let mut row: Vec<(Column, Value)> = Vec::new();
    let mut i: usize = 0;
    while i < order.len()
        invariant
            order@ == spec_column_order(),
            i <= order@.len(),
            pred == (|c: Column| data@.contains_key(c)),
            row@.map_values(|p: (Column, Value)| p.0) == order@.take(i as int).filter(pred),
            forall|k: int| 0 <= k < row@.len() ==> #[trigger] row@[k].1 == data@[row@[k].0],
        decreases order@.len() - i,
    {
        let c = order[i];
        let ghost before = row@;
        match data.get(c) {
            Some(v) => row.push((c, v)),
            None => {},
        }
        proof {
            let t = order@.take(i + 1);
            assert(t.drop_last() =~= order@.take(i as int));
            assert(t.last() == c);
            reveal_with_fuel(Seq::filter, 1);
            assert(row@.map_values(|p: (Column, Value)| p.0) =~= t.filter(pred));
        }
        i = i + 1;
    }
    proof {
        assert(order@.take(order@.len() as int) =~= order@);
    }
    row
}

/// What is appended to the measurement file for `data`: a header first where
/// the file does not exist yet, then the row.
pub struct CsvOutput {
    /// The columns of the row, to be written by name, where the file is new.
    pub header: Option<Vec<Column>>,
    /// The row (see `csv_record`).
    pub row: Vec<(Column, Value)>,
}

/// The records to append to the measurement file for `data`: the row of
/// `csv_record`, and before it, where the file does not exist yet
/// (`file_exists` false), the header naming the row's columns.
pub fn csv_output(data: &Measurements, file_exists: bool) -> (res: CsvOutput)
    ensures
        res.row@.map_values(|p: (Column, Value)| p.0) == spec_column_order().filter(
            |c: Column| data@.contains_key(c),
        ),
        forall|k: int| 0 <= k < res.row@.len() ==> #[trigger] res.row@[k].1 == data@[res.row@[k].0],
        res.header is Some <==> !file_exists,
        res.header matches Some(h) ==> h@ == res.row@.map_values(|p: (Column, Value)| p.0),
{
    let row = csv_record(data);
    if file_exists {
        return CsvOutput { header: None, row };
    }
    let mut header: Vec<Column> = Vec::new();
    let mut i: usize = 0;
    while i < row.len()
        invariant
            i <= row@.len(),
            header@ == row@.take(i as int).map_values(|p: (Column, Value)| p.0),
        decreases row@.len() - i,
    {
        header.push(row[i].0);
        proof {
            assert(row@.take(i + 1).drop_last() =~= row@.take(i as int));
            assert(header@ =~= row@.take(i + 1).map_values(|p: (Column, Value)| p.0));
        }
        i = i + 1;
    }
    proof {
        assert(row@.take(row@.len() as int) =~= row@);
    }
    CsvOutput { header: Some(header), row }
}

proof fn lemma_filter_no_duplicates(s: Seq<Column>, p: spec_fn(Column) -> bool)
    requires
        s.no_duplicates(),
    ensures
        s.filter(p).no_duplicates(),
    decreases s.len(),
{
    reveal_with_fuel(Seq::filter, 1);
    if s.len() > 0 {
        let d = s.drop_last();
        assert(d.no_duplicates());
        lemma_filter_no_duplicates(d, p);
        if p(s.last()) {
            if d.filter(p).contains(s.last()) {
                d.lemma_filter_contains_rev(p, s.last());
                let j = choose|j: int| 0 <= j < d.len() && d[j] == s.last();
                assert(s[j] == s[s.len() - 1]);
            }
            let f = d.filter(p);
            assert forall|a: int, b: int|
                0 <= a < f.push(s.last()).len() && 0 <= b < f.push(s.last()).len() && a != b
                    implies f.push(s.last())[a] != f.push(s.last())[b] by {
                if a < f.len() && b < f.len() {
                } else if a < f.len() {
                    assert(f[a] != s.last());
                } else {
                    assert(f[b] != s.last());
                }
            }
        }
    }
}

/// The row of the measurement file names each column that has a value, and
/// only those, each once.
pub proof fn lemma_csv_columns_once_each(data: Map<Column, Value>, c: Column)
    ensures
        spec_column_order().filter(|x: Column| data.contains_key(x)).no_duplicates(),
        spec_column_order().filter(|x: Column| data.contains_key(x)).contains(c)
            <==> data.contains_key(c),
{
    let p = |x: Column| data.contains_key(x);
    let o = spec_column_order();
    lemma_column_order_lists_each_column_once(c);
    lemma_filter_no_duplicates(o, p);
    if data.contains_key(c) {
        let j = choose|j: int| 0 <= j < o.len() && o[j] == c;
        o.lemma_filter_contains(p, j);
    }
    if o.filter(p).contains(c) {
        let j = choose|j: int| 0 <= j < o.filter(p).len() && o.filter(p)[j] == c;
        o.lemma_filter_pred(p, j);
    }
}

} // verus!
