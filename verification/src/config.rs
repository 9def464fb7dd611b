use vstd::prelude::*;
use vstd::string::*;

use crate::columns::BundleKind;

verus! {

/// Which optional bundles to create; the time bundle is always created.
pub struct BundleConfig {
    pub rapl: bool,
    pub misses: bool,
    pub cstates: bool,
    pub cycles: bool,
}

/// The kinds of the bundles that a configuration asks for, in creation order:
/// time first, then RAPL, cycles, misses and C-states as enabled.
pub open spec fn planned_kinds(rapl: bool, cycles: bool, misses: bool, cstates: bool) -> Seq<
    BundleKind,
> {
    seq![BundleKind::Time] + (if rapl {
        seq![BundleKind::Rapl]
    } else {
        Seq::empty()
    }) + (if cycles {
        seq![BundleKind::Cycles]
    } else {
        Seq::empty()
    }) + (if misses {
        seq![BundleKind::Misses]
    } else {
        Seq::empty()
    }) + (if cstates {
        seq![BundleKind::CStates]
    } else {
        Seq::empty()
    })
}

impl BundleConfig {
    pub open spec fn planned(&self) -> Seq<BundleKind> {
        planned_kinds(self.rapl, self.cycles, self.misses, self.cstates)
    }
}

/// Whether `c` has the Unicode `White_Space` property, which is what
/// `char::is_whitespace` and `str::trim` go by.
pub open spec fn is_white_space(c: char) -> bool {
    let u = c as u32;
    (0x9 <= u <= 0xd) || u == 0x20 || u == 0x85 || u == 0xa0 || u == 0x1680 || (0x2000 <= u
        <= 0x200a) || u == 0x2028 || u == 0x2029 || u == 0x202f || u == 0x205f || u == 0x3000
}

/// Whether `c` is white space (see `is_white_space`).
pub fn char_is_white_space(c: char) -> (res: bool)
    ensures
        res == is_white_space(c),
{
    let u = c as u32;
    (0x9 <= u && u <= 0xd) || u == 0x20 || u == 0x85 || u == 0xa0 || u == 0x1680 || (0x2000 <= u
        && u <= 0x200a) || u == 0x2028 || u == 0x2029 || u == 0x202f || u == 0x205f || u == 0x3000
}

/// `s` without its leading white space.
pub open spec fn trim_start(s: Seq<char>) -> Seq<char>
    decreases s.len(),
{
    if s.len() > 0 && is_white_space(s[0]) {
        trim_start(s.drop_first())
    } else {
        s
    }
}

/// `s` without its trailing white space.
pub open spec fn trim_end(s: Seq<char>) -> Seq<char>
    decreases s.len(),
{
    if s.len() > 0 && is_white_space(s.last()) {
        trim_end(s.drop_last())
    } else {
        s
    }
}

/// `s` without leading and trailing white space.
pub open spec fn trim(s: Seq<char>) -> Seq<char> {
    trim_start(trim_end(s))
}

/// The pieces of `s` between commas, as `str::split(',')` yields them: an
/// empty text is one empty piece, and each comma starts a new piece.
pub open spec fn split_commas(s: Seq<char>) -> Seq<Seq<char>>
    decreases s.len(),
{
    if s.len() == 0 {
        seq![Seq::empty()]
    } else {
        let p = split_commas(s.drop_last());
        if s.last() == ',' {
            p.push(Seq::empty())
        } else {
            p.update(p.len() - 1, p.last().push(s.last()))
        }
    }
}

/// The metric names of a comma-separated list, each trimmed.
pub open spec fn metric_names(s: Seq<char>) -> Seq<Seq<char>> {
    split_commas(s).map_values(|t: Seq<char>| trim(t))
}

proof fn lemma_split_commas_nonempty(s: Seq<char>)
    ensures
        split_commas(s).len() >= 1,
    decreases s.len(),
{
    if s.len() > 0 {
        lemma_split_commas_nonempty(s.drop_last());
    }
}

/// `trim_start` of `s` is what follows its first `k` characters, when these
/// are white space and the next one is not (or there is none).
proof fn lemma_trim_start_at(s: Seq<char>, k: int)
    requires
        0 <= k <= s.len(),
        forall|j: int| 0 <= j < k ==> is_white_space(#[trigger] s[j]),
        k < s.len() ==> !is_white_space(s[k]),
    ensures
        trim_start(s) == s.subrange(k, s.len() as int),
    decreases k,
{
    if k == 0 {
        assert(s.subrange(0, s.len() as int) =~= s);
    } else {
        assert(is_white_space(s[0]));
        let t = s.drop_first();
        assert forall|j: int| 0 <= j < k - 1 implies is_white_space(#[trigger] t[j]) by {
            assert(t[j] == s[j + 1]);
        }
        lemma_trim_start_at(t, k - 1);
        assert(t.subrange(k - 1, t.len() as int) =~= s.subrange(k, s.len() as int));
    }
}

/// `trim_end` of `s` is its first `k` characters, when all after them are
/// white space and the one before them is not (or there is none).
proof fn lemma_trim_end_at(s: Seq<char>, k: int)
    requires
        0 <= k <= s.len(),
        forall|j: int| k <= j < s.len() ==> is_white_space(#[trigger] s[j]),
        k > 0 ==> !is_white_space(s[k - 1]),
    ensures
        trim_end(s) == s.take(k),
    decreases s.len() - k,
{
    if k == s.len() {
        assert(s.take(k) =~= s);
    } else {
        assert(is_white_space(s.last()));
        let t = s.drop_last();
        lemma_trim_end_at(t, k);
        assert(t.take(k) =~= s.take(k));
    }
}


proof fn lemma_split_commas_join(a: Seq<char>, b: Seq<char>)
    ensures
        split_commas(a + seq![','] + b) == split_commas(a) + split_commas(b),
    decreases b.len(),
{
    let j = a + seq![','] + b;
    if b.len() == 0 {
        assert(j =~= a.push(','));
        assert(j.drop_last() =~= a);
        assert(split_commas(a) + split_commas(b) =~= split_commas(a).push(Seq::empty()));
    } else {
        lemma_split_commas_join(a, b.drop_last());
        lemma_split_commas_nonempty(b.drop_last());
        assert(j.drop_last() =~= a + seq![','] + b.drop_last());
        assert(j.last() == b.last());
        let pa = split_commas(a);
        let pb = split_commas(b.drop_last());
        if b.last() == ',' {
            assert((pa + pb).push(Seq::empty()) =~= pa + pb.push(Seq::empty()));
        } else {
            let pj = pa + pb;
            assert(pj.update(pj.len() - 1, pj.last().push(b.last())) =~= pa + pb.update(
                pb.len() - 1,
                pb.last().push(b.last()),
            ));
        }
    }
}

proof fn lemma_concat_contains(s: Seq<Seq<char>>, t: Seq<Seq<char>>, w: Seq<char>)
    ensures
        (s + t).contains(w) == (s.contains(w) || t.contains(w)),
{
    if s.contains(w) {
        let j = choose|j: int| 0 <= j < s.len() && s[j] == w;
        assert((s + t)[j] == w);
    }
    if t.contains(w) {
        let j = choose|j: int| 0 <= j < t.len() && t[j] == w;
        assert((s + t)[s.len() + j] == w);
    }
    if (s + t).contains(w) {
        let j = choose|j: int| 0 <= j < (s + t).len() && (s + t)[j] == w;
        if j < s.len() {
            assert(s[j] == w);
        } else {
            assert(t[j - s.len()] == w);
        }
    }
}

/// Joining two metric lists with a comma names exactly the metrics that
/// either list names.
pub proof fn lemma_metric_lists_join(a: Seq<char>, b: Seq<char>, m: Metric)
    ensures
        names_metric(a + seq![','] + b, m) == (names_metric(a, m) || names_metric(b, m)),
{
    lemma_split_commas_join(a, b);
    assert(metric_names(a + seq![','] + b) =~= metric_names(a) + metric_names(b));
    lemma_concat_contains(metric_names(a), metric_names(b), metric_word(m));
}

/// A metric name of the list: one of those that select a bundle.
#[derive(Clone, Copy, Debug, PartialEq, Eq, Structural)]
pub enum Metric {
    Rapl,
    Misses,
    CStates,
    Cycles,
}

/// The word by which a metric is selected.
pub open spec fn metric_word(m: Metric) -> Seq<char> {
    match m {
        Metric::Rapl => seq!['r', 'a', 'p', 'l'],
        Metric::Misses => seq!['m', 'i', 's', 's', 'e', 's'],
        Metric::CStates => seq!['c', 's', 't', 'a', 't', 'e', 's'],
        Metric::Cycles => seq!['c', 'y', 'c', 'l', 'e', 's'],
    }
}

/// Whether the comma-separated list `s` names metric `m`.
pub open spec fn names_metric(s: Seq<char>, m: Metric) -> bool {
    metric_names(s).contains(metric_word(m))
}

fn word_chars(m: Metric) -> (res: Vec<char>)
    ensures
        res@ == metric_word(m),
{
    let res = match m {
        Metric::Rapl => vec!['r', 'a', 'p', 'l'],
        Metric::Misses => vec!['m', 'i', 's', 's', 'e', 's'],
        Metric::CStates => vec!['c', 's', 't', 'a', 't', 'e', 's'],
        Metric::Cycles => vec!['c', 'y', 'c', 'l', 'e', 's'],
    };
    assert(res@ =~= metric_word(m));
    res
}

/// Whether the characters `t[lo..hi]` spell `w`.
fn spells(t: &Vec<char>, lo: usize, hi: usize, w: &Vec<char>) -> (res: bool)
    requires
        lo <= hi <= t@.len(),
    ensures
        res == (t@.subrange(lo as int, hi as int) == w@),
{
    if hi - lo != w.len() {
        proof {
            if t@.subrange(lo as int, hi as int) == w@ {
                assert(t@.subrange(lo as int, hi as int).len() == w@.len());
            }
        }
        return false;
    }
    let mut i: usize = 0;
    while i < w.len()
        invariant
            hi - lo == w@.len(),
            lo <= hi <= t@.len(),
            i <= w@.len(),
            forall|j: int| 0 <= j < i ==> t@[lo + j] == w@[j],
        decreases w@.len() - i,
    {
        if t[lo + i] != w[i] {
            proof {
                assert(t@.subrange(lo as int, hi as int)[i as int] != w@[i as int]);
            }
            return false;
        }
        i = i + 1;
    }
    assert(t@.subrange(lo as int, hi as int) =~= w@);
    true
}

/// Whether `t`, trimmed, is the word `w`.
fn trimmed_is(t: &Vec<char>, w: &Vec<char>) -> (res: bool)
    ensures
        res == (trim(t@) == w@),
{
    let mut hi = t.len();
    while hi > 0 && char_is_white_space(t[hi - 1])
        invariant
            hi <= t@.len(),
            forall|j: int| hi <= j < t@.len() ==> is_white_space(#[trigger] t@[j]),
        decreases hi,
    {
        hi = hi - 1;
    }
    proof {
        lemma_trim_end_at(t@, hi as int);
    }
    let mut lo: usize = 0;
    while lo < hi && char_is_white_space(t[lo])
        invariant
            lo <= hi <= t@.len(),
            forall|j: int| 0 <= j < lo ==> is_white_space(#[trigger] t@[j]),
        decreases hi - lo,
    {
        lo = lo + 1;
    }
    proof {
        let e = t@.take(hi as int);
        assert forall|j: int| 0 <= j < lo implies is_white_space(#[trigger] e[j]) by {
            assert(e[j] == t@[j]);
        }
        lemma_trim_start_at(e, lo as int);
        assert(e.subrange(lo as int, e.len() as int) =~= t@.subrange(lo as int, hi as int));
    }
    spells(t, lo, hi, w)
}

/// Reads the comma-separated list of metric names `metrics` (names are
/// trimmed of white space): each optional bundle is enabled when its name
/// (`rapl`, `misses`, `cstates`, `cycles`) occurs in the list. Unknown names
/// are ignored.
pub fn parse_config(metrics: &str) -> (res: BundleConfig)
    ensures
        res.rapl == names_metric(metrics@, Metric::Rapl),
        res.misses == names_metric(metrics@, Metric::Misses),
        res.cstates == names_metric(metrics@, Metric::CStates),
        res.cycles == names_metric(metrics@, Metric::Cycles),
{
    let rapl_w = word_chars(Metric::Rapl);
    let misses_w = word_chars(Metric::Misses);
    let cstates_w = word_chars(Metric::CStates);
    let cycles_w = word_chars(Metric::Cycles);
    let n = metrics.unicode_len();
    let mut cfg = BundleConfig { rapl: false, misses: false, cstates: false, cycles: false };
    let mut current: Vec<char> = Vec::new();
    let ghost mut done: Seq<Seq<char>> = Seq::empty();
    let mut i: usize = 0;
    while i < n
        invariant
            n == metrics@.len(),
            i <= n,
            rapl_w@ == metric_word(Metric::Rapl),
            misses_w@ == metric_word(Metric::Misses),
            cstates_w@ == metric_word(Metric::CStates),
            cycles_w@ == metric_word(Metric::Cycles),
            split_commas(metrics@.take(i as int)) == done.push(current@),
            cfg.rapl == done.map_values(|t: Seq<char>| trim(t)).contains(
                metric_word(Metric::Rapl),
            ),
            cfg.misses == done.map_values(|t: Seq<char>| trim(t)).contains(
                metric_word(Metric::Misses),
            ),
            cfg.cstates == done.map_values(|t: Seq<char>| trim(t)).contains(
                metric_word(Metric::CStates),
            ),
            cfg.cycles == done.map_values(|t: Seq<char>| trim(t)).contains(
                metric_word(Metric::Cycles),
            ),
        decreases n - i,
    {
        let c = metrics.get_char(i);
        let ghost prefix = metrics@.take(i as int);
        proof {
            assert(metrics@.take(i + 1).drop_last() =~= prefix);
            assert(metrics@.take(i + 1).last() == c);
        }
        if c == ',' {
            let a = trimmed_is(&current, &rapl_w);
            let b = trimmed_is(&current, &misses_w);
            let d = trimmed_is(&current, &cstates_w);
            let e = trimmed_is(&current, &cycles_w);
            proof {
                let old_names = done.map_values(|t: Seq<char>| trim(t));
                let new_done = done.push(current@);
                assert(new_done.map_values(|t: Seq<char>| trim(t)) =~= old_names.push(
                    trim(current@),
                ));
                assert(old_names.push(trim(current@)) =~= old_names + seq![trim(current@)]);
                assert(seq![trim(current@)][0] == trim(current@));
                lemma_concat_contains(old_names, seq![trim(current@)], metric_word(Metric::Rapl));
                lemma_concat_contains(old_names, seq![trim(current@)], metric_word(Metric::Misses));
                lemma_concat_contains(old_names, seq![trim(current@)], metric_word(Metric::CStates));
                lemma_concat_contains(old_names, seq![trim(current@)], metric_word(Metric::Cycles));
                done = new_done;
            }
            cfg.rapl = cfg.rapl || a;
            cfg.misses = cfg.misses || b;
            cfg.cstates = cfg.cstates || d;
            cfg.cycles = cfg.cycles || e;
            current = Vec::new();
            proof {
                assert(split_commas(metrics@.take(i + 1)) =~= done.push(current@));
            }
        } else {
            current.push(c);
            proof {
                let p = split_commas(prefix);
                assert(p.len() - 1 == done.len());
                assert(split_commas(metrics@.take(i + 1)) =~= done.push(current@));
            }
        }
        i = i + 1;
    }
    let a = trimmed_is(&current, &rapl_w);
    let b = trimmed_is(&current, &misses_w);
    let d = trimmed_is(&current, &cstates_w);
    let e = trimmed_is(&current, &cycles_w);
    proof {
        assert(metrics@.take(n as int) =~= metrics@);
        let old_names = done.map_values(|t: Seq<char>| trim(t));
        assert(metric_names(metrics@) =~= old_names.push(trim(current@)));
        assert(old_names.push(trim(current@)) =~= old_names + seq![trim(current@)]);
        assert(seq![trim(current@)][0] == trim(current@));
        lemma_concat_contains(old_names, seq![trim(current@)], metric_word(Metric::Rapl));
        lemma_concat_contains(old_names, seq![trim(current@)], metric_word(Metric::Misses));
        lemma_concat_contains(old_names, seq![trim(current@)], metric_word(Metric::CStates));
        lemma_concat_contains(old_names, seq![trim(current@)], metric_word(Metric::Cycles));
    }
    cfg.rapl = cfg.rapl || a;
    cfg.misses = cfg.misses || b;
    cfg.cstates = cfg.cstates || d;
    cfg.cycles = cfg.cycles || e;
    cfg
}

/// The time bundle always comes first, and each kind of bundle is created at
/// most once: the time bundle always, the others where the configuration
/// enables them.
pub proof fn lemma_planned_kinds(cfg: BundleConfig, k: BundleKind)
    ensures
        cfg.planned()[0] == BundleKind::Time,
        cfg.planned().no_duplicates(),
        cfg.planned().contains(k) <==> match k {
            BundleKind::Time => true,
            BundleKind::Rapl => cfg.rapl,
            BundleKind::Cycles => cfg.cycles,
            BundleKind::Misses => cfg.misses,
            BundleKind::CStates => cfg.cstates,
        },
{
    let p = cfg.planned();
    if cfg.rapl {
        if cfg.cycles {
            if cfg.misses {
                if cfg.cstates {
                    let q = seq![BundleKind::Time, BundleKind::Rapl, BundleKind::Cycles, BundleKind::Misses, BundleKind::CStates];
                    assert(p =~= q);
                } else {
                    let q = seq![BundleKind::Time, BundleKind::Rapl, BundleKind::Cycles, BundleKind::Misses];
                    assert(p =~= q);
                }
            } else {
                if cfg.cstates {
                    let q = seq![BundleKind::Time, BundleKind::Rapl, BundleKind::Cycles, BundleKind::CStates];
                    assert(p =~= q);
                } else {
                    let q = seq![BundleKind::Time, BundleKind::Rapl, BundleKind::Cycles];
                    assert(p =~= q);
                }
            }
        } else {
            if cfg.misses {
                if cfg.cstates {
                    let q = seq![BundleKind::Time, BundleKind::Rapl, BundleKind::Misses, BundleKind::CStates];
                    assert(p =~= q);
                } else {
                    let q = seq![BundleKind::Time, BundleKind::Rapl, BundleKind::Misses];
                    assert(p =~= q);
                }
            } else {
                if cfg.cstates {
                    let q = seq![BundleKind::Time, BundleKind::Rapl, BundleKind::CStates];
                    assert(p =~= q);
                } else {
                    let q = seq![BundleKind::Time, BundleKind::Rapl];
                    assert(p =~= q);
                }
            }
        }
    } else {
        if cfg.cycles {
            if cfg.misses {
                if cfg.cstates {
                    let q = seq![BundleKind::Time, BundleKind::Cycles, BundleKind::Misses, BundleKind::CStates];
                    assert(p =~= q);
                } else {
                    let q = seq![BundleKind::Time, BundleKind::Cycles, BundleKind::Misses];
                    assert(p =~= q);
                }
            } else {
                if cfg.cstates {
                    let q = seq![BundleKind::Time, BundleKind::Cycles, BundleKind::CStates];
                    assert(p =~= q);
                } else {
                    let q = seq![BundleKind::Time, BundleKind::Cycles];
                    assert(p =~= q);
                }
            }
        } else {
            if cfg.misses {
                if cfg.cstates {
                    let q = seq![BundleKind::Time, BundleKind::Misses, BundleKind::CStates];
                    assert(p =~= q);
                } else {
                    let q = seq![BundleKind::Time, BundleKind::Misses];
                    assert(p =~= q);
                }
            } else {
                if cfg.cstates {
                    let q = seq![BundleKind::Time, BundleKind::CStates];
                    assert(p =~= q);
                } else {
                    let q = seq![BundleKind::Time];
                    assert(p =~= q);
                }
            }
        }
    }
    assert(p[0] == BundleKind::Time);
    if p.contains(k) {
        let j = choose|j: int| 0 <= j < p.len() && p[j] == k;
    } else {
        assert(forall|j: int| 0 <= j < p.len() ==> p[j] != k);
    }
}

} // verus!
