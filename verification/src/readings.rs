use vstd::prelude::*;

use crate::columns::Column;
use crate::host::ElapsedMicros;

verus! {

/// A measured value, in the form in which its bundle reports it.
#[derive(Clone, Copy, Debug, PartialEq, Eq, Structural)]
pub enum Value {
    /// An event count (cycles, misses, residency).
    Count(u64),
    /// Microseconds of wall time.
    Micros(u128),
    /// A raw RAPL energy count together with the bit pattern of the IEEE-754
    /// double by which the count is scaled into joules.
    Energy { raw: u64, scale_bits: u64 },
    /// Microseconds since the Unix epoch.
    Timestamp(i64),
}

/// The map that a sequence of (column, value) records denotes: a later record
/// for a column replaces an earlier one.
pub open spec fn records_map(s: Seq<(Column, Value)>) -> Map<Column, Value>
    decreases s.len(),
{
    if s.len() == 0 {
        Map::empty()
    } else {
        records_map(s.drop_last()).insert(s.last().0, s.last().1)
    }
}

/// A set of measurements: at most one value per column; where the wall time
/// was read from the clock, the clock's reading too.
pub struct Measurements {
    records: Vec<(Column, Value)>,
    time_reading: Option<ElapsedMicros>,
}

impl View for Measurements {
    type V = Map<Column, Value>;

    closed spec fn view(&self) -> Map<Column, Value> {
        records_map(self.records@)
    }
}

/// The records of `a` followed by those of `b` denote `a`'s map overridden by
/// `b`'s.
pub proof fn lemma_records_map_concat(a: Seq<(Column, Value)>, b: Seq<(Column, Value)>)
    ensures
        records_map(a + b) == records_map(a).union_prefer_right(records_map(b)),
    decreases b.len(),
{
    if b.len() == 0 {
        assert(a + b =~= a);
        assert(records_map(a).union_prefer_right(records_map(b)) =~= records_map(a));
    } else {
        lemma_records_map_concat(a, b.drop_last());
        assert((a + b).drop_last() =~= a + b.drop_last());
        assert((a + b).last() == b.last());
        assert(records_map(a + b) =~= records_map(a).union_prefer_right(records_map(b)));
    }
}

/// The records at and after `i` do not mention `c`, so the value of `c` is
/// decided by the records before `i`.
proof fn lemma_records_map_prefix(s: Seq<(Column, Value)>, i: int, c: Column)
    requires
        0 <= i <= s.len(),
        forall|j: int| i <= j < s.len() ==> s[j].0 != c,
    ensures
        records_map(s).contains_key(c) == records_map(s.take(i)).contains_key(c),
        records_map(s).contains_key(c) ==> records_map(s)[c] == records_map(s.take(i))[c],
    decreases s.len() - i,
{
    if i < s.len() {
        lemma_records_map_prefix(s.drop_last(), i, c);
        assert(s.drop_last().take(i) =~= s.take(i));
    } else {
        assert(s.take(i) =~= s);
    }
}

/// The columns of a sequence of records.
pub open spec fn record_columns(s: Seq<(Column, Value)>) -> Seq<Column> {
    s.map_values(|r: (Column, Value)| r.0)
}

/// The domain of a records map is the set of columns named by its records.
pub proof fn lemma_records_map_dom(s: Seq<(Column, Value)>)
    ensures
        records_map(s).dom() == record_columns(s).to_set(),
    decreases s.len(),
{
    if s.len() > 0 {
        let p = s.drop_last();
        lemma_records_map_dom(p);
        let c = s.last().0;
        assert(record_columns(s) =~= record_columns(p).push(c));
        assert forall|x: Column| #[trigger] record_columns(s).to_set().contains(x) == record_columns(
            p,
        ).to_set().insert(c).contains(x) by {
            if record_columns(s).contains(x) {
                let j = choose|j: int| 0 <= j < record_columns(s).len() && record_columns(s)[j] == x;
                if j < p.len() {
                    assert(record_columns(p)[j] == x);
                }
            }
            if record_columns(p).contains(x) {
                let j = choose|j: int| 0 <= j < record_columns(p).len() && record_columns(p)[j] == x;
                assert(record_columns(s)[j] == x);
            }
            if x == c {
                assert(record_columns(s)[s.len() - 1] == x);
            }
        }
        assert(records_map(s).dom() =~= record_columns(s).to_set());
    } else {
        assert(records_map(s).dom() =~= record_columns(s).to_set());
    }
}

impl Measurements {
    /// An empty set of measurements.
    pub fn new() -> (res: Self)
        ensures
            res@ == Map::<Column, Value>::empty(),
            res.time_reading() is None,
    {
        Measurements { records: Vec::new(), time_reading: None }
    }

    /// The clock reading that the wall time was taken from, if noted.
    pub closed spec fn time_reading(&self) -> Option<ElapsedMicros> {
        self.time_reading
    }

    /// Notes `reading` as the clock reading that the wall time was taken
    /// from; the values are unchanged.
    pub fn note_time_reading(&mut self, reading: ElapsedMicros)
        ensures
            final(self)@ == old(self)@,
            final(self).time_reading() == Some(reading),
    {
        self.time_reading = Some(reading);
    }

    /// Records `value` for `column`, replacing any earlier value of it.
    pub fn insert(&mut self, column: Column, value: Value)
        ensures
            final(self)@ == old(self)@.insert(column, value),
    {
        self.records.push((column, value));
        proof {
            assert(self.records@.drop_last() =~= old(self).records@);
        }
    }

    /// The value recorded for `column`, if any.
    pub fn get(&self, column: Column) -> (res: Option<Value>)
        ensures
            res == (if self@.contains_key(column) {
                Some(self@[column])
            } else {
                None
            }),
    {
        let mut i = self.records.len();
        while i > 0
            invariant
                i <= self.records@.len(),
                forall|j: int| i <= j < self.records@.len() ==> self.records@[j].0 != column,
            decreases i,
        {
            if self.records[i - 1].0 == column {
                proof {
                    lemma_records_map_prefix(self.records@, i as int, column);
                    let t = self.records@.take(i as int);
                    assert(t.drop_last() =~= self.records@.take(i - 1));
                    assert(t.last() == self.records@[i - 1]);
                }
                return Some(self.records[i - 1].1);
            }
            i = i - 1;
        }
        proof {
            lemma_records_map_prefix(self.records@, 0, column);
            assert(self.records@.take(0) =~= Seq::<(Column, Value)>::empty());
        }
        None
    }

    /// Whether a value is recorded for `column`.
    pub fn contains(&self, column: Column) -> (res: bool)
        ensures
            res == self@.contains_key(column),
    {
        self.get(column).is_some()
    }

    /// Adds all measurements of `other`; where both hold a column, `other`'s
    /// value wins.
    pub fn extend(&mut self, other: Measurements)
        ensures
            final(self)@ == old(self)@.union_prefer_right(other@),
    {
        let ghost start = self.records@;
        let mut i: usize = 0;
        while i < other.records.len()
            invariant
                i <= other.records@.len(),
                self.records@ == start + other.records@.take(i as int),
            decreases other.records@.len() - i,
        {
            self.records.push(other.records[i]);
            i = i + 1;
            assert(other.records@.take(i as int) =~= other.records@.take(i - 1).push(
                other.records@[i - 1],
            ));
        }
        proof {
            assert(other.records@.take(i as int) =~= other.records@);
            lemma_records_map_concat(start, other.records@);
        }
    }
}

} // verus!
