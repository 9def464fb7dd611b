use vstd::prelude::*;

verus! {

/// A column of the measurement file: one per value that a bundle can report,
/// plus the time at which the measurement ended.
#[derive(Clone, Copy, Debug, PartialEq, Eq, Structural)]
pub enum Column {
    Time,
    Pkg,
    Cores,
    Gpu,
    Ram,
    Psys,
    Cycles,
    L1dMisses,
    L1iMisses,
    LlcMisses,
    BranchMisses,
    C1CoreResidency,
    C3CoreResidency,
    C6CoreResidency,
    C7CoreResidency,
    C2PkgResidency,
    C3PkgResidency,
    C6PkgResidency,
    C8PkgResidency,
    C10PkgResidency,
    Ended,
}

/// The header text of a column.
pub open spec fn column_name(c: Column) -> Seq<char> {
    match c {
        Column::Time => "time"@,
        Column::Pkg => "pkg"@,
        Column::Cores => "cores"@,
        Column::Gpu => "gpu"@,
        Column::Ram => "ram"@,
        Column::Psys => "psys"@,
        Column::Cycles => "cycles"@,
        Column::L1dMisses => "l1d_misses"@,
        Column::L1iMisses => "l1i_misses"@,
        Column::LlcMisses => "llc_misses"@,
        Column::BranchMisses => "branch_misses"@,
        Column::C1CoreResidency => "c1_core_residency"@,
        Column::C3CoreResidency => "c3_core_residency"@,
        Column::C6CoreResidency => "c6_core_residency"@,
        Column::C7CoreResidency => "c7_core_residency"@,
        Column::C2PkgResidency => "c2_pkg_residency"@,
        Column::C3PkgResidency => "c3_pkg_residency"@,
        Column::C6PkgResidency => "c6_pkg_residency"@,
        Column::C8PkgResidency => "c8_pkg_residency"@,
        Column::C10PkgResidency => "c10_pkg_residency"@,
        Column::Ended => "ended"@,
    }
}

impl Column {
    /// The header text of this column.
    pub fn name(&self) -> (res: &'static str)
        ensures
            res@ == column_name(*self),
    {
        match self {
            Column::Time => "time",
            Column::Pkg => "pkg",
            Column::Cores => "cores",
            Column::Gpu => "gpu",
            Column::Ram => "ram",
            Column::Psys => "psys",
            Column::Cycles => "cycles",
            Column::L1dMisses => "l1d_misses",
            Column::L1iMisses => "l1i_misses",
            Column::LlcMisses => "llc_misses",
            Column::BranchMisses => "branch_misses",
            Column::C1CoreResidency => "c1_core_residency",
            Column::C3CoreResidency => "c3_core_residency",
            Column::C6CoreResidency => "c6_core_residency",
            Column::C7CoreResidency => "c7_core_residency",
            Column::C2PkgResidency => "c2_pkg_residency",
            Column::C3PkgResidency => "c3_pkg_residency",
            Column::C6PkgResidency => "c6_pkg_residency",
            Column::C8PkgResidency => "c8_pkg_residency",
            Column::C10PkgResidency => "c10_pkg_residency",
            Column::Ended => "ended",
        }
    }
}

/// The kinds of measurement bundle, in the order in which they are created.
#[derive(Clone, Copy, Debug, PartialEq, Eq, Structural)]
pub enum BundleKind {
    Time,
    Rapl,
    Cycles,
    Misses,
    CStates,
}

/// The columns that a bundle of the given kind can report, in file order.
pub open spec fn kind_columns(k: BundleKind) -> Seq<Column> {
    match k {
        BundleKind::Time => seq![Column::Time],
        BundleKind::Rapl => seq![Column::Pkg, Column::Cores, Column::Gpu, Column::Ram, Column::Psys],
        BundleKind::Cycles => seq![Column::Cycles],
        BundleKind::Misses => seq![
            Column::L1dMisses,
            Column::L1iMisses,
            Column::LlcMisses,
            Column::BranchMisses,
        ],
        BundleKind::CStates => seq![
            Column::C1CoreResidency,
            Column::C3CoreResidency,
            Column::C6CoreResidency,
            Column::C7CoreResidency,
            Column::C2PkgResidency,
            Column::C3PkgResidency,
            Column::C6PkgResidency,
            Column::C8PkgResidency,
            Column::C10PkgResidency,
        ],
    }
}

/// The order of the columns in the measurement file: the columns of each
/// kind of bundle in creation order, then the end time.
pub open spec fn spec_column_order() -> Seq<Column> {
    kind_columns(BundleKind::Time) + kind_columns(BundleKind::Rapl) + kind_columns(
        BundleKind::Cycles,
    ) + kind_columns(BundleKind::Misses) + kind_columns(BundleKind::CStates) + seq![Column::Ended]
}

impl BundleKind {
    /// The columns that a bundle of this kind can report, in file order.
    pub fn columns(&self) -> (res: Vec<Column>)
        ensures
            res@ == kind_columns(*self),
    {
        match self {
            BundleKind::Time => vec![Column::Time],
            BundleKind::Rapl => vec![
                Column::Pkg,
                Column::Cores,
                Column::Gpu,
                Column::Ram,
                Column::Psys,
            ],
            BundleKind::Cycles => vec![Column::Cycles],
            BundleKind::Misses => vec![
                Column::L1dMisses,
                Column::L1iMisses,
                Column::LlcMisses,
                Column::BranchMisses,
            ],
            BundleKind::CStates => vec![
                Column::C1CoreResidency,
                Column::C3CoreResidency,
                Column::C6CoreResidency,
                Column::C7CoreResidency,
                Column::C2PkgResidency,
                Column::C3PkgResidency,
                Column::C6PkgResidency,
                Column::C8PkgResidency,
                Column::C10PkgResidency,
            ],
        }
    }
}

fn append_columns(out: &mut Vec<Column>, cols: Vec<Column>)
    ensures
        final(out)@ == old(out)@ + cols@,
{
    let mut i: usize = 0;
    let ghost start = out@;
    while i < cols.len()
        invariant
            i <= cols.len(),
            out@ == start + cols@.take(i as int),
        decreases cols.len() - i,
    {
        out.push(cols[i]);
        i = i + 1;
        assert(cols@.take(i as int) == cols@.take(i - 1).push(cols@[i - 1]));
    }
    assert(cols@.take(cols.len() as int) == cols@);
}

/// The order of the columns in the measurement file.
pub fn column_order() -> (res: Vec<Column>)
    ensures
        res@ == spec_column_order(),
{
    let mut order: Vec<Column> = Vec::new();
    append_columns(&mut order, BundleKind::Time.columns());
    append_columns(&mut order, BundleKind::Rapl.columns());
    append_columns(&mut order, BundleKind::Cycles.columns());
    append_columns(&mut order, BundleKind::Misses.columns());
    append_columns(&mut order, BundleKind::CStates.columns());
    order.push(Column::Ended);
    assert(order@ =~= spec_column_order());
    order
}

/// Every column occurs in the file order, and exactly once.
pub proof fn lemma_column_order_lists_each_column_once(c: Column)
    ensures
        spec_column_order().contains(c),
        spec_column_order().no_duplicates(),
        spec_column_order().len() == 21,
{
    let o = spec_column_order();
    assert(o =~= seq![
        Column::Time,
        Column::Pkg,
        Column::Cores,
        Column::Gpu,
        Column::Ram,
        Column::Psys,
        Column::Cycles,
        Column::L1dMisses,
        Column::L1iMisses,
        Column::LlcMisses,
        Column::BranchMisses,
        Column::C1CoreResidency,
        Column::C3CoreResidency,
        Column::C6CoreResidency,
        Column::C7CoreResidency,
        Column::C2PkgResidency,
        Column::C3PkgResidency,
        Column::C6PkgResidency,
        Column::C8PkgResidency,
        Column::C10PkgResidency,
        Column::Ended,
    ]);
    let i: int = match c {
        Column::Time => 0,
        Column::Pkg => 1,
        Column::Cores => 2,
        Column::Gpu => 3,
        Column::Ram => 4,
        Column::Psys => 5,
        Column::Cycles => 6,
        Column::L1dMisses => 7,
        Column::L1iMisses => 8,
        Column::LlcMisses => 9,
        Column::BranchMisses => 10,
        Column::C1CoreResidency => 11,
        Column::C3CoreResidency => 12,
        Column::C6CoreResidency => 13,
        Column::C7CoreResidency => 14,
        Column::C2PkgResidency => 15,
        Column::C3PkgResidency => 16,
        Column::C6PkgResidency => 17,
        Column::C8PkgResidency => 18,
        Column::C10PkgResidency => 19,
        Column::Ended => 20,
    };
    assert(o[i] == c);
}

/// No two columns have the same name, so a header names each column once.
pub proof fn lemma_column_names_distinct(a: Column, b: Column)
    ensures
        column_name(a) == column_name(b) ==> a == b,
{
    if column_name(a) == column_name(b) {
        reveal_strlit("time");
        reveal_strlit("pkg");
        reveal_strlit("cores");
        reveal_strlit("gpu");
        reveal_strlit("ram");
        reveal_strlit("psys");
        reveal_strlit("cycles");
        reveal_strlit("l1d_misses");
        reveal_strlit("l1i_misses");
        reveal_strlit("llc_misses");
        reveal_strlit("branch_misses");
        reveal_strlit("c1_core_residency");
        reveal_strlit("c3_core_residency");
        reveal_strlit("c6_core_residency");
        reveal_strlit("c7_core_residency");
        reveal_strlit("c2_pkg_residency");
        reveal_strlit("c3_pkg_residency");
        reveal_strlit("c6_pkg_residency");
        reveal_strlit("c8_pkg_residency");
        reveal_strlit("c10_pkg_residency");
        reveal_strlit("ended");
        let (x, y) = (column_name(a), column_name(b));
        assert(x.len() == y.len());
        if x.len() > 2 {
            assert(x[0] == y[0] && x[1] == y[1] && x[2] == y[2]);
        } else {
            assert(x[0] == y[0]);
        }
    }
}

/// Bundles of different kinds report disjoint sets of columns, and none of
/// them reports the end time.
pub proof fn lemma_kind_columns_disjoint(k1: BundleKind, k2: BundleKind, c: Column)
    ensures
        kind_columns(k1).contains(c) && kind_columns(k2).contains(c) ==> k1 == k2,
        !kind_columns(k1).contains(Column::Ended),
{
    if kind_columns(k1).contains(c) && kind_columns(k2).contains(c) {
        let i = choose|i: int| 0 <= i < kind_columns(k1).len() && kind_columns(k1)[i] == c;
        let j = choose|j: int| 0 <= j < kind_columns(k2).len() && kind_columns(k2)[j] == c;
        assert(kind_columns(k1)[i] == kind_columns(k2)[j]);
    }
    if kind_columns(k1).contains(Column::Ended) {
        let i = choose|i: int|
            0 <= i < kind_columns(k1).len() && kind_columns(k1)[i] == Column::Ended;
        assert(kind_columns(k1)[i] == Column::Ended);
    }
}

} // verus!
