//! The events that the bundles count, the columns they are reported under,
//! and the sysfs names by which dynamic PMUs know them.
use vstd::prelude::*;

use crate::columns::{column_name, kind_columns, BundleKind, Column};
use crate::perf::HardwareEvent;

verus! {

/// The elements of `ys` whose flag in `keep` is set, in order.
pub open spec fn kept<T>(ys: Seq<T>, keep: Seq<bool>) -> Seq<T>
    decreases ys.len(),
{
    if ys.len() == 0 || keep.len() != ys.len() {
        Seq::empty()
    } else {
        let p = kept(ys.drop_last(), keep.drop_last());
        if keep.last() {
            p.push(ys.last())
        } else {
            p
        }
    }
}

/// `xs` is made of elements of `ys`, taken in order, each at most once.
pub open spec fn is_subsequence<T>(xs: Seq<T>, ys: Seq<T>) -> bool {
    exists|keep: Seq<bool>| keep.len() == ys.len() && xs == kept(ys, keep)
}

/// Extending `ys` by one element, kept or not, extends the kept elements
/// accordingly.
pub proof fn lemma_kept_push<T>(ys: Seq<T>, keep: Seq<bool>, y: T, b: bool)
    requires
        keep.len() == ys.len(),
    ensures
        kept(ys.push(y), keep.push(b)) == (if b {
            kept(ys, keep).push(y)
        } else {
            kept(ys, keep)
        }),
{
    assert(ys.push(y).drop_last() =~= ys);
    assert(keep.push(b).drop_last() =~= keep);
}

/// Keeping commutes with mapping.
pub proof fn lemma_kept_map<T, U>(ys: Seq<T>, keep: Seq<bool>, f: spec_fn(T) -> U)
    ensures
        kept(ys, keep).map_values(f) == kept(ys.map_values(f), keep),
    decreases ys.len(),
{
    if ys.len() > 0 && keep.len() == ys.len() {
        lemma_kept_map(ys.drop_last(), keep.drop_last(), f);
        assert(ys.map_values(f).drop_last() =~= ys.drop_last().map_values(f));
        let p = kept(ys.drop_last(), keep.drop_last());
        assert(p.push(ys.last()).map_values(f) =~= p.map_values(f).push(f(ys.last())));
    } else {
        assert(kept(ys, keep).map_values(f) =~= kept(ys.map_values(f), keep));
    }
}

/// Sequences that agree wherever an element is kept keep the same elements.
pub proof fn lemma_kept_agree<T>(xs: Seq<T>, ys: Seq<T>, keep: Seq<bool>)
    requires
        xs.len() == ys.len(),
        keep.len() == ys.len(),
        forall|k: int| 0 <= k < keep.len() && keep[k] ==> xs[k] == ys[k],
    ensures
        kept(xs, keep) == kept(ys, keep),
    decreases ys.len(),
{
    if ys.len() > 0 {
        lemma_kept_agree(xs.drop_last(), ys.drop_last(), keep.drop_last());
    }
}

/// What holds of every kept element holds of every element of the result.
pub proof fn lemma_kept_all<T>(ys: Seq<T>, keep: Seq<bool>, p: spec_fn(T) -> bool)
    requires
        keep.len() == ys.len(),
        forall|k: int| 0 <= k < keep.len() && keep[k] ==> p(ys[k]),
    ensures
        forall|j: int| 0 <= j < kept(ys, keep).len() ==> p(#[trigger] kept(ys, keep)[j]),
    decreases ys.len(),
{
    if ys.len() > 0 {
        let q = kept(ys.drop_last(), keep.drop_last());
        lemma_kept_all(ys.drop_last(), keep.drop_last(), p);
        assert forall|j: int| 0 <= j < kept(ys, keep).len() implies p(
            #[trigger] kept(ys, keep)[j],
        ) by {
            if j < q.len() {
                assert(kept(ys, keep)[j] == q[j]);
            } else {
                assert(kept(ys, keep)[j] == ys.last());
                assert(keep[keep.len() - 1]);
            }
        }
    }
}

/// Whether each item is present.
pub open spec fn present_flags<T>(items: Seq<Option<T>>) -> Seq<bool> {
    items.map_values(|o: Option<T>| o is Some)
}

/// The values of the items (arbitrary where absent).
pub open spec fn present_values<T>(items: Seq<Option<T>>) -> Seq<T> {
    items.map_values(|o: Option<T>| o->0)
}

/// The values of the present items, in order.
pub fn keep_present<T>(items: Vec<Option<T>>) -> (res: Vec<T>)
    ensures
        res@ == kept(present_values(items@), present_flags(items@)),
{
    let ghost orig = items@;
    let mut items = items;
    let mut res: Vec<T> = Vec::new();
    let ghost mut i: int = 0;
    while items.len() > 0
        invariant
            0 <= i <= orig.len(),
            items@ == orig.skip(i),
            res@ == kept(present_values(orig.take(i)), present_flags(orig.take(i))),
        decreases items@.len(),
    {
        let item = items.remove(0);
        proof {
            assert(orig[i] == item);
            lemma_kept_push(
                present_values(orig.take(i)),
                present_flags(orig.take(i)),
                item->0,
                item is Some,
            );
            assert(present_values(orig.take(i + 1)) =~= present_values(orig.take(i)).push(
                item->0,
            ));
            assert(present_flags(orig.take(i + 1)) =~= present_flags(orig.take(i)).push(
                item is Some,
            ));
        }
        match item {
            Some(x) => res.push(x),
            None => {},
        }
        proof {
            i = i + 1;
            assert(items@ =~= orig.skip(i));
        }
    }
    proof {
        assert(orig.take(i) =~= orig);
    }
    res
}

/// A RAPL energy domain.
#[derive(Clone, Copy, Debug, PartialEq, Eq, Structural)]
pub enum RaplEvent {
    Pkg,
    Cores,
    Gpu,
    Psys,
    Ram,
}

/// The RAPL domains in the order in which their counters are opened.
pub open spec fn rapl_events() -> Seq<RaplEvent> {
    seq![RaplEvent::Pkg, RaplEvent::Cores, RaplEvent::Gpu, RaplEvent::Psys, RaplEvent::Ram]
}

pub open spec fn rapl_column(e: RaplEvent) -> Column {
    match e {
        RaplEvent::Pkg => Column::Pkg,
        RaplEvent::Cores => Column::Cores,
        RaplEvent::Gpu => Column::Gpu,
        RaplEvent::Psys => Column::Psys,
        RaplEvent::Ram => Column::Ram,
    }
}

/// The event file of the `power` PMU for a RAPL domain.
pub open spec fn rapl_sysfs_name(e: RaplEvent) -> Seq<char> {
    match e {
        RaplEvent::Pkg => "energy-pkg"@,
        RaplEvent::Cores => "energy-cores"@,
        RaplEvent::Gpu => "energy-gpu"@,
        RaplEvent::Psys => "energy-psys"@,
        RaplEvent::Ram => "energy-ram"@,
    }
}

impl RaplEvent {
    /// The domains in the order in which their counters are opened.
    pub fn all() -> (res: Vec<RaplEvent>)
        ensures
            res@ == rapl_events(),
    {
        let res = vec![RaplEvent::Pkg, RaplEvent::Cores, RaplEvent::Gpu, RaplEvent::Psys, RaplEvent::Ram];
        assert(res@ =~= rapl_events());
        res
    }

    /// The event file of the `power` PMU for this domain.
    pub fn sysfs_name(&self) -> (res: &'static str)
        ensures
            res@ == rapl_sysfs_name(*self),
    {
        match self {
            RaplEvent::Pkg => "energy-pkg",
            RaplEvent::Cores => "energy-cores",
            RaplEvent::Gpu => "energy-gpu",
            RaplEvent::Psys => "energy-psys",
            RaplEvent::Ram => "energy-ram",
        }
    }

    /// The column under which this domain is reported.
    pub fn column(&self) -> (res: Column)
        ensures
            res == rapl_column(*self),
    {
        match self {
            RaplEvent::Pkg => Column::Pkg,
            RaplEvent::Cores => Column::Cores,
            RaplEvent::Gpu => Column::Gpu,
            RaplEvent::Psys => Column::Psys,
            RaplEvent::Ram => Column::Ram,
        }
    }
}

/// A cache or branch miss event.
#[derive(Clone, Copy, Debug, PartialEq, Eq, Structural)]
pub enum MissEvent {
    L1d,
    L1i,
    Llc,
    Branch,
}

/// The miss events in the order in which their counters are opened.
pub open spec fn miss_events() -> Seq<MissEvent> {
    seq![MissEvent::L1d, MissEvent::L1i, MissEvent::Llc, MissEvent::Branch]
}

pub open spec fn miss_column(e: MissEvent) -> Column {
    match e {
        MissEvent::L1d => Column::L1dMisses,
        MissEvent::L1i => Column::L1iMisses,
        MissEvent::Llc => Column::LlcMisses,
        MissEvent::Branch => Column::BranchMisses,
    }
}

/// The generalised hardware event that counts a miss event.
pub open spec fn miss_hardware_event(e: MissEvent) -> HardwareEvent {
    match e {
        MissEvent::L1d => HardwareEvent::L1dReadMiss,
        MissEvent::L1i => HardwareEvent::L1iReadMiss,
        MissEvent::Llc => HardwareEvent::LlcReadMiss,
        MissEvent::Branch => HardwareEvent::BranchMisses,
    }
}

impl MissEvent {
    /// The generalised hardware event that counts this miss event.
    pub fn hardware_event(&self) -> (res: HardwareEvent)
        ensures
            res == miss_hardware_event(*self),
    {
        match self {
            MissEvent::L1d => HardwareEvent::L1dReadMiss,
            MissEvent::L1i => HardwareEvent::L1iReadMiss,
            MissEvent::Llc => HardwareEvent::LlcReadMiss,
            MissEvent::Branch => HardwareEvent::BranchMisses,
        }
    }

    /// The miss events in the order in which their counters are opened.
    pub fn all() -> (res: Vec<MissEvent>)
        ensures
            res@ == miss_events(),
    {
        let res = vec![MissEvent::L1d, MissEvent::L1i, MissEvent::Llc, MissEvent::Branch];
        assert(res@ =~= miss_events());
        res
    }

    /// The column under which this event is reported.
    pub fn column(&self) -> (res: Column)
        ensures
            res == miss_column(*self),
    {
        match self {
            MissEvent::L1d => Column::L1dMisses,
            MissEvent::L1i => Column::L1iMisses,
            MissEvent::Llc => Column::LlcMisses,
            MissEvent::Branch => Column::BranchMisses,
        }
    }

    /// The name under which this event is reported: its column's name.
    pub fn name(&self) -> (res: &'static str)
        ensures
            res@ == column_name(miss_column(*self)),
    {
        self.column().name()
    }
}

/// A core C-state residency event.
#[derive(Clone, Copy, Debug, PartialEq, Eq, Structural)]
pub enum CoreCState {
    C1,
    C3,
    C6,
    C7,
}

/// The core C-states in the order in which their counters are opened.
pub open spec fn core_cstates() -> Seq<CoreCState> {
    seq![CoreCState::C1, CoreCState::C3, CoreCState::C6, CoreCState::C7]
}

pub open spec fn core_column(e: CoreCState) -> Column {
    match e {
        CoreCState::C1 => Column::C1CoreResidency,
        CoreCState::C3 => Column::C3CoreResidency,
        CoreCState::C6 => Column::C6CoreResidency,
        CoreCState::C7 => Column::C7CoreResidency,
    }
}

/// The event file of the `cstate_core` PMU for a core C-state.
pub open spec fn core_sysfs_name(e: CoreCState) -> Seq<char> {
    match e {
        CoreCState::C1 => "c1-residency"@,
        CoreCState::C3 => "c3-residency"@,
        CoreCState::C6 => "c6-residency"@,
        CoreCState::C7 => "c7-residency"@,
    }
}

impl CoreCState {
    /// The core C-states in the order in which their counters are opened.
    pub fn all() -> (res: Vec<CoreCState>)
        ensures
            res@ == core_cstates(),
    {
        let res = vec![CoreCState::C1, CoreCState::C3, CoreCState::C6, CoreCState::C7];
        assert(res@ =~= core_cstates());
        res
    }

    /// The event file of the `cstate_core` PMU for this state.
    pub fn sysfs_name(&self) -> (res: &'static str)
        ensures
            res@ == core_sysfs_name(*self),
    {
        match self {
            CoreCState::C1 => "c1-residency",
            CoreCState::C3 => "c3-residency",
            CoreCState::C6 => "c6-residency",
            CoreCState::C7 => "c7-residency",
        }
    }

    /// The column under which this state is reported.
    pub fn column(&self) -> (res: Column)
        ensures
            res == core_column(*self),
    {
        match self {
            CoreCState::C1 => Column::C1CoreResidency,
            CoreCState::C3 => Column::C3CoreResidency,
            CoreCState::C6 => Column::C6CoreResidency,
            CoreCState::C7 => Column::C7CoreResidency,
        }
    }
}

/// A package C-state residency event.
#[derive(Clone, Copy, Debug, PartialEq, Eq, Structural)]
pub enum PkgCState {
    C2,
    C3,
    C6,
    C8,
    C10,
}

/// The package C-states in the order in which their counters are opened.
pub open spec fn pkg_cstates() -> Seq<PkgCState> {
    seq![PkgCState::C2, PkgCState::C3, PkgCState::C6, PkgCState::C8, PkgCState::C10]
}

pub open spec fn pkg_column(e: PkgCState) -> Column {
    match e {
        PkgCState::C2 => Column::C2PkgResidency,
        PkgCState::C3 => Column::C3PkgResidency,
        PkgCState::C6 => Column::C6PkgResidency,
        PkgCState::C8 => Column::C8PkgResidency,
        PkgCState::C10 => Column::C10PkgResidency,
    }
}

/// The event file of the `cstate_pkg` PMU for a package C-state.
pub open spec fn pkg_sysfs_name(e: PkgCState) -> Seq<char> {
    match e {
        PkgCState::C2 => "c2-residency"@,
        PkgCState::C3 => "c3-residency"@,
        PkgCState::C6 => "c6-residency"@,
        PkgCState::C8 => "c8-residency"@,
        PkgCState::C10 => "c10-residency"@,
    }
}

impl PkgCState {
    /// The package C-states in the order in which their counters are opened.
    pub fn all() -> (res: Vec<PkgCState>)
        ensures
            res@ == pkg_cstates(),
    {
        let res = vec![PkgCState::C2, PkgCState::C3, PkgCState::C6, PkgCState::C8, PkgCState::C10];
        assert(res@ =~= pkg_cstates());
        res
    }

    /// The event file of the `cstate_pkg` PMU for this state.
    pub fn sysfs_name(&self) -> (res: &'static str)
        ensures
            res@ == pkg_sysfs_name(*self),
    {
        match self {
            PkgCState::C2 => "c2-residency",
            PkgCState::C3 => "c3-residency",
            PkgCState::C6 => "c6-residency",
            PkgCState::C8 => "c8-residency",
            PkgCState::C10 => "c10-residency",
        }
    }

    /// The column under which this state is reported.
    pub fn column(&self) -> (res: Column)
        ensures
            res == pkg_column(*self),
    {
        match self {
            PkgCState::C2 => Column::C2PkgResidency,
            PkgCState::C3 => Column::C3PkgResidency,
            PkgCState::C6 => Column::C6PkgResidency,
            PkgCState::C8 => Column::C8PkgResidency,
            PkgCState::C10 => Column::C10PkgResidency,
        }
    }
}

/// Each RAPL domain is reported under the column named after it: the
/// domain's event file of the `power` PMU is `energy-` followed by the
/// column's name.
pub proof fn lemma_rapl_column_named_after_domain(e: RaplEvent)
    ensures
        rapl_sysfs_name(e) == "energy-"@ + column_name(rapl_column(e)),
{
    reveal_strlit("energy-");
    reveal_strlit("energy-pkg");
    reveal_strlit("energy-cores");
    reveal_strlit("energy-gpu");
    reveal_strlit("energy-psys");
    reveal_strlit("energy-ram");
    reveal_strlit("pkg");
    reveal_strlit("cores");
    reveal_strlit("gpu");
    reveal_strlit("psys");
    reveal_strlit("ram");
    assert(rapl_sysfs_name(e) =~= "energy-"@ + column_name(rapl_column(e)));
}

/// Each core C-state is reported under the column named after it: where its
/// event file of the `cstate_core` PMU is `<state>-residency`, its column is
/// `<state>_core_residency`.
pub proof fn lemma_core_column_named_after_state(e: CoreCState)
    ensures
        core_sysfs_name(e).len() > 10,
        core_sysfs_name(e).skip(core_sysfs_name(e).len() - 10) == "-residency"@,
        column_name(core_column(e)) == core_sysfs_name(e).take(core_sysfs_name(e).len() - 10)
            + "_core_residency"@,
{
    reveal_strlit("-residency");
    reveal_strlit("_core_residency");
    reveal_strlit("c1-residency");
    reveal_strlit("c3-residency");
    reveal_strlit("c6-residency");
    reveal_strlit("c7-residency");
    reveal_strlit("c1_core_residency");
    reveal_strlit("c3_core_residency");
    reveal_strlit("c6_core_residency");
    reveal_strlit("c7_core_residency");
    let n = core_sysfs_name(e);
    assert(n.skip(n.len() - 10) =~= "-residency"@);
    assert(column_name(core_column(e)) =~= n.take(n.len() - 10) + "_core_residency"@);
}

/// Each package C-state is reported under the column named after it: where
/// its event file of the `cstate_pkg` PMU is `<state>-residency`, its column
/// is `<state>_pkg_residency`.
pub proof fn lemma_pkg_column_named_after_state(e: PkgCState)
    ensures
        pkg_sysfs_name(e).len() > 10,
        pkg_sysfs_name(e).skip(pkg_sysfs_name(e).len() - 10) == "-residency"@,
        column_name(pkg_column(e)) == pkg_sysfs_name(e).take(pkg_sysfs_name(e).len() - 10)
            + "_pkg_residency"@,
{
    reveal_strlit("-residency");
    reveal_strlit("_pkg_residency");
    reveal_strlit("c2-residency");
    reveal_strlit("c3-residency");
    reveal_strlit("c6-residency");
    reveal_strlit("c8-residency");
    reveal_strlit("c10-residency");
    reveal_strlit("c2_pkg_residency");
    reveal_strlit("c3_pkg_residency");
    reveal_strlit("c6_pkg_residency");
    reveal_strlit("c8_pkg_residency");
    reveal_strlit("c10_pkg_residency");
    let n = pkg_sysfs_name(e);
    assert(n.skip(n.len() - 10) =~= "-residency"@);
    assert(column_name(pkg_column(e)) =~= n.take(n.len() - 10) + "_pkg_residency"@);
}

/// The C-states are reported in the order in which they are opened: the
/// core states under the first four C-state columns, the package states under
/// the last five, each state at the position of its column.
pub proof fn lemma_cstate_columns_in_order(k: int)
    ensures
        0 <= k < core_cstates().len() ==> kind_columns(BundleKind::CStates)[k] == core_column(
            core_cstates()[k],
        ),
        0 <= k < pkg_cstates().len() ==> kind_columns(BundleKind::CStates)[core_cstates().len() + k]
            == pkg_column(pkg_cstates()[k]),
        kind_columns(BundleKind::CStates).len() == core_cstates().len() + pkg_cstates().len(),
{
}

/// The miss events are reported in the order in which they are opened, each
/// at the position of its column among the misses columns.
pub proof fn lemma_miss_columns_in_order(k: int)
    ensures
        0 <= k < miss_events().len() ==> kind_columns(BundleKind::Misses)[k] == miss_column(
            miss_events()[k],
        ),
        kind_columns(BundleKind::Misses).len() == miss_events().len(),
{
}

} // verus!
