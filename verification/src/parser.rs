//! Per-language report data: cumulative totals across report
//! categories, and the clean-up pass that drops data formats and joins
//! the C and C++ spellings.
//!
//! Reading the report files from disk and decoding them is a caller's
//! concern; the types here hold the decoded values.

use vstd::prelude::*;
use crate::strutil::str_eq;
use vstd::string::StringExecFns;

verus! {

/// Line counts of one report entry.
pub struct TokeiStats {
    pub blanks: u32,
    pub code: u32,
    pub comments: u32,
    pub blobs: Vec<(String, TokeiCodeStatistics)>,
}

/// One per-file report.
pub struct TokeiReport {
    pub name: String,
    pub stats: TokeiStats,
}

/// Line statistics of one language in one category.
pub struct TokeiCodeStatistics {
    pub children: Option<Vec<(String, Vec<TokeiReport>)>>,
    pub blanks: u32,
    pub code: u32,
    pub comments: u32,
    pub reports: Option<Vec<TokeiReport>>,
}

/// The numeric part of a `TokeiCodeStatistics`; the cumulative passes
/// read and produce nothing else.
pub ghost struct TcsNums {
    pub blanks: u32,
    pub code: u32,
    pub comments: u32,
}

/// The numbers of one entry.
pub open spec fn nums_of(t: TokeiCodeStatistics) -> TcsNums {
    TcsNums { blanks: t.blanks, code: t.code, comments: t.comments }
}

/// The all-zero numbers.
pub open spec fn zero_nums() -> TcsNums {
    TcsNums { blanks: 0, code: 0, comments: 0 }
}

/// Addition clamped into `u32`.
pub open spec fn sat_u32(a: int, b: int) -> u32 {
    if a + b > 0xffff_ffff {
        0xffff_ffffu32
    } else {
        (a + b) as u32
    }
}

/// Field-wise join of two entries' numbers.
pub open spec fn spec_nums_join(a: TcsNums, b: TcsNums) -> TcsNums {
    TcsNums {
        blanks: sat_u32(a.blanks as int, b.blanks as int),
        code: sat_u32(a.code as int, b.code as int),
        comments: sat_u32(a.comments as int, b.comments as int),
    }
}

impl Default for TokeiCodeStatistics {
    /// An empty entry: zero counts, no children, no reports.
    fn default() -> (r: Self)
        ensures
            nums_of(r) == zero_nums(),
            r.children is None,
            r.reports is None,
    {
        TokeiCodeStatistics { children: None, blanks: 0, code: 0, comments: 0, reports: None }
    }
}

impl TokeiCodeStatistics {
    /// Adds another entry's numbers into this one; the children and
    /// reports of both sides are left as they are.
    pub fn join(&mut self, other: &TokeiCodeStatistics)
        ensures
            nums_of(*final(self)) == spec_nums_join(nums_of(*old(self)), nums_of(*other)),
            final(self).children == old(self).children,
            final(self).reports == old(self).reports,
    {
        self.blanks = self.blanks.saturating_add(other.blanks);
        self.code = self.code.saturating_add(other.code);
        self.comments = self.comments.saturating_add(other.comments);
    }
}

/// Reading an association list of languages as a map of numbers.
pub open spec fn tcs_assoc(s: Seq<(String, TokeiCodeStatistics)>) -> Map<Seq<char>, TcsNums>
    decreases s.len(),
{
    if s.len() == 0 {
        Map::empty()
    } else {
        tcs_assoc(s.drop_last()).insert(s.last().0@, nums_of(s.last().1))
    }
}

/// No language name occurs twice in the list.
pub open spec fn tcs_unique(s: Seq<(String, TokeiCodeStatistics)>) -> bool {
    forall|i: int, j: int| 0 <= i < j < s.len() ==> s[i].0@ != s[j].0@
}

/// Distinct positions of a unique-keyed list carry distinct keys.
pub proof fn lemma_tcs_unique_at(s: Seq<(String, TokeiCodeStatistics)>, p: int, q: int)
    requires
        tcs_unique(s),
        0 <= p < q < s.len(),
    ensures
        s[p].0@ != s[q].0@,
{
}

/// Every entry of the list carries numbers only.
pub open spec fn tcs_plain(s: Seq<(String, TokeiCodeStatistics)>) -> bool {
    forall|i: int| 0 <= i < s.len() ==> (#[trigger] s[i].1).children is None
        && s[i].1.reports is None
}

/// Summing one category's entries into the cumulative map, first to
/// last: each language's numbers are joined onto what the map holds.
pub open spec fn sum_into(
    m: Map<Seq<char>, TcsNums>,
    s: Seq<(String, TokeiCodeStatistics)>,
) -> Map<Seq<char>, TcsNums>
    decreases s.len(),
{
    if s.len() == 0 {
        m
    } else {
        let prev = sum_into(m, s.drop_last());
        let k = s.last().0@;
        let cur = if prev.contains_key(k) {
            prev[k]
        } else {
            zero_nums()
        };
        prev.insert(k, spec_nums_join(cur, nums_of(s.last().1)))
    }
}

proof fn lemma_tcs_lookup(s: Seq<(String, TokeiCodeStatistics)>, i: int)
    requires
        tcs_unique(s),
        0 <= i < s.len(),
    ensures
        tcs_assoc(s).contains_key(s[i].0@),
        tcs_assoc(s)[s[i].0@] == nums_of(s[i].1),
    decreases s.len(),
{
    if i < s.len() - 1 {
        assert(tcs_unique(s.drop_last()));
        assert(s.drop_last()[i] == s[i]);
        lemma_tcs_lookup(s.drop_last(), i);
    }
}

proof fn lemma_tcs_not_found(s: Seq<(String, TokeiCodeStatistics)>, k: Seq<char>)
    requires
        forall|i: int| 0 <= i < s.len() ==> s[i].0@ != k,
    ensures
        !tcs_assoc(s).contains_key(k),
    decreases s.len(),
{
    if s.len() > 0 {
        assert(s.drop_last().len() == s.len() - 1);
        lemma_tcs_not_found(s.drop_last(), k);
    }
}

proof fn lemma_tcs_update(s: Seq<(String, TokeiCodeStatistics)>, i: int, v: TokeiCodeStatistics)
    requires
        tcs_unique(s),
        0 <= i < s.len(),
    ensures
        tcs_assoc(s.update(i, (s[i].0, v))) == tcs_assoc(s).insert(s[i].0@, nums_of(v)),
    decreases s.len(),
{
    let s2 = s.update(i, (s[i].0, v));
    if i == s.len() - 1 {
        assert(s2.drop_last() =~= s.drop_last());
        assert(tcs_assoc(s2) =~= tcs_assoc(s).insert(s[i].0@, nums_of(v)));
    } else {
        assert(tcs_unique(s.drop_last()));
        assert(s.drop_last()[i] == s[i]);
        lemma_tcs_update(s.drop_last(), i, v);
        assert(s2.drop_last() =~= s.drop_last().update(i, (s[i].0, v)));
        assert(s2.last() == s.last());
        assert(s[i].0@ != s.last().0@);
        assert(tcs_assoc(s2) =~= tcs_assoc(s).insert(s[i].0@, nums_of(v)));
    }
}

proof fn lemma_tcs_remove(s: Seq<(String, TokeiCodeStatistics)>, i: int)
    requires
        tcs_unique(s),
        0 <= i < s.len(),
    ensures
        tcs_assoc(s.remove(i)) == tcs_assoc(s).remove(s[i].0@),
    decreases s.len(),
{
    if i == s.len() - 1 {
        assert(s.remove(i) =~= s.drop_last());
        assert(forall|j: int| 0 <= j < s.drop_last().len() ==> s.drop_last()[j].0@ != s[i].0@);
        lemma_tcs_not_found(s.drop_last(), s[i].0@);
        assert(tcs_assoc(s.remove(i)) =~= tcs_assoc(s).remove(s[i].0@));
    } else {
        assert(tcs_unique(s.drop_last()));
        assert(s.drop_last()[i] == s[i]);
        lemma_tcs_remove(s.drop_last(), i);
        assert(s.remove(i).drop_last() =~= s.drop_last().remove(i));
        assert(s.remove(i).last() == s.last());
        assert(s[i].0@ != s.last().0@);
        assert(tcs_assoc(s.remove(i)) =~= tcs_assoc(s).remove(s[i].0@));
    }
}

/// Finds the position of a language in the list.
fn tcs_find(v: &Vec<(String, TokeiCodeStatistics)>, key: &str) -> (r: Option<usize>)
    ensures
        match r {
            Some(i) => i < v@.len() && v@[i as int].0@ == key@,
            None => forall|i: int| 0 <= i < v@.len() ==> v@[i].0@ != key@,
        },
{
    let n = v.len();
    let mut i: usize = 0;
    while i < n
        invariant
            i <= n,
            n == v@.len(),
            forall|k: int| 0 <= k < i ==> v@[k].0@ != key@,
        decreases n - i,
    {
        if str_eq(v[i].0.as_str(), key) {
            return Some(i);
        }
        i += 1;
    }
    None
}

/// Joins one language's numbers into the cumulative list.
fn tcs_add_one(acc: &mut Vec<(String, TokeiCodeStatistics)>, key: &String, val: &TokeiCodeStatistics)
    requires
        tcs_unique(old(acc)@),
        tcs_plain(old(acc)@),
    ensures
        tcs_unique(final(acc)@),
        tcs_plain(final(acc)@),
        tcs_assoc(final(acc)@) == (tcs_assoc(old(acc)@).insert(
            key@,
            spec_nums_join(
                if tcs_assoc(old(acc)@).contains_key(key@) {
                    tcs_assoc(old(acc)@)[key@]
                } else {
                    zero_nums()
                },
                nums_of(*val),
            ),
        )),
{
    match tcs_find(acc, key.as_str()) {
        Some(i) => {
            proof {
                lemma_tcs_lookup(acc@, i as int);
            }
            let slot = &mut acc[i];
            slot.1.join(val);
            proof {
                lemma_tcs_update(old(acc)@, i as int, acc@[i as int].1);
                assert(forall|p: int, q: int|
                    0 <= p < q < acc@.len() ==> acc@[p].0@ != acc@[q].0@);
                assert(forall|p: int| 0 <= p < acc@.len() ==> (#[trigger] acc@[p].1).children
                    is None && acc@[p].1.reports is None);
            }
        },
        None => {
            proof {
                lemma_tcs_not_found(acc@, key@);
            }
            let mut entry = TokeiCodeStatistics::default();
            entry.join(val);
            let ghost before = acc@;
            acc.push((key.clone(), entry));
            proof {
                assert(acc@.drop_last() =~= before);
                assert(forall|p: int, q: int|
                    0 <= p < q < acc@.len() ==> acc@[p].0@ != acc@[q].0@);
                assert(forall|p: int| 0 <= p < acc@.len() ==> (#[trigger] acc@[p].1).children
                    is None && acc@[p].1.reports is None);
            }
        },
    }
}

/// Sums one whole category into the cumulative list.
fn tcs_sum_into(acc: &mut Vec<(String, TokeiCodeStatistics)>, other: &Vec<(String, TokeiCodeStatistics)>)
    requires
        tcs_unique(old(acc)@),
        tcs_plain(old(acc)@),
    ensures
        tcs_unique(final(acc)@),
        tcs_plain(final(acc)@),
        tcs_assoc(final(acc)@) == sum_into(tcs_assoc(old(acc)@), other@),
{
    let n = other.len();
    let mut i: usize = 0;
    while i < n
        invariant
            i <= n,
            n == other@.len(),
            tcs_unique(acc@),
            tcs_plain(acc@),
            tcs_assoc(acc@) == sum_into(tcs_assoc(old(acc)@), other@.take(i as int)),
        decreases n - i,
    {
        let pair = &other[i];
        tcs_add_one(acc, &pair.0, &pair.1);
        proof {
            assert(other@.take(i as int + 1).drop_last() =~= other@.take(i as int));
            assert(other@.take(i as int + 1).last() == other@[i as int]);
        }
        i += 1;
    }
    proof {
        assert(other@.take(n as int) =~= other@);
    }
}

/// Joins a group member's numbers, if the language is present, and
/// takes the member out of the list.
fn tcs_collect(data: &mut Vec<(String, TokeiCodeStatistics)>, key: &str, sum: &mut TokeiCodeStatistics)
    requires
        tcs_unique(old(data)@),
        tcs_plain(old(data)@),
    ensures
        tcs_unique(final(data)@),
        tcs_plain(final(data)@),
        tcs_assoc(final(data)@) == tcs_assoc(old(data)@).remove(key@),
        nums_of(*final(sum)) == (if tcs_assoc(old(data)@).contains_key(key@) {
            spec_nums_join(nums_of(*old(sum)), tcs_assoc(old(data)@)[key@])
        } else {
            nums_of(*old(sum))
        }),
        final(sum).children == old(sum).children,
        final(sum).reports == old(sum).reports,
{
    match tcs_find(data, key) {
        Some(i) => {
            proof {
                lemma_tcs_lookup(data@, i as int);
            }
            sum.join(&data[i].1);
            let ghost before = data@;
            let removed = data.remove(i);
            proof {
                lemma_tcs_remove(before, i as int);
                assert(forall|p: int, q: int|
                    0 <= p < q < data@.len() ==> data@[p].0@ != data@[q].0@);
                assert(forall|p: int| 0 <= p < data@.len() ==> (#[trigger] data@[p].1).children
                    is None && data@[p].1.reports is None);
            }
        },
        None => {
            proof {
                lemma_tcs_not_found(data@, key@);
                assert(tcs_assoc(data@).remove(key@) =~= tcs_assoc(data@));
            }
        },
    }
}

/// Taking one language out of the map while its numbers, if present,
/// are joined onto a running group sum.
pub open spec fn spec_collect(
    m: Map<Seq<char>, TcsNums>,
    k: Seq<char>,
    acc: TcsNums,
) -> (Map<Seq<char>, TcsNums>, TcsNums) {
    (
        m.remove(k),
        if m.contains_key(k) {
            spec_nums_join(acc, m[k])
        } else {
            acc
        },
    )
}

/// What the clean-up pass leaves: the non-language rows and the raw C
/// and C++ spellings are taken out, one group at a time, and one joined
/// row per group is put back under the canonical name.
pub open spec fn spec_filter_langs(m: Map<Seq<char>, TcsNums>) -> Map<Seq<char>, TcsNums> {
    let m1 = m.remove("Total"@).remove("XML"@).remove("HTML"@).remove("JSON"@);
    let s1 = spec_collect(m1, "C++ Header"@, zero_nums());
    let s2 = spec_collect(s1.0, "C++"@, s1.1);
    let s3 = spec_collect(s2.0, "Cpp"@, s2.1);
    let m2 = s3.0.insert("C++"@, s3.1);
    let t1 = spec_collect(m2, "C Header"@, zero_nums());
    let t2 = spec_collect(t1.0, "C"@, t1.1);
    t2.0.insert("C"@, t2.1)
}

/// Data as decoded from the per-category report files.
pub struct Data {
    pub core: Vec<(String, TokeiCodeStatistics)>,
    pub devtools: Vec<(String, TokeiCodeStatistics)>,
    pub sdks: Vec<(String, TokeiCodeStatistics)>,
    pub thirdparty: Vec<(String, TokeiCodeStatistics)>,
    pub userspace: Vec<(String, TokeiCodeStatistics)>,
}

/// The cumulative numbers across all five categories.
pub open spec fn spec_total(d: Data) -> Map<Seq<char>, TcsNums> {
    sum_into(
        sum_into(
            sum_into(sum_into(sum_into(Map::empty(), d.core@), d.devtools@), d.sdks@),
            d.thirdparty@,
        ),
        d.userspace@,
    )
}

impl Data {
    /// Accumulates the numbers across the five categories.
    fn compute_total(&self) -> (r: Vec<(String, TokeiCodeStatistics)>)
        ensures
            tcs_unique(r@),
            tcs_plain(r@),
            tcs_assoc(r@) == spec_total(*self),
    {
        let mut map: Vec<(String, TokeiCodeStatistics)> = Vec::new();
        proof {
            assert(map@.len() == 0);
        }
        tcs_sum_into(&mut map, &self.core);
        tcs_sum_into(&mut map, &self.devtools);
        tcs_sum_into(&mut map, &self.sdks);
        tcs_sum_into(&mut map, &self.thirdparty);
        tcs_sum_into(&mut map, &self.userspace);
        map
    }

    /// Filters the cumulative rows down to real, actionable languages:
    /// drops the "Total" row and the data formats, and joins the C++
    /// and C spellings each into one row.
    fn filter_langs(data: Vec<(String, TokeiCodeStatistics)>) -> (r: Vec<(String, TokeiCodeStatistics)>)
        requires
            tcs_unique(data@),
            tcs_plain(data@),
        ensures
            tcs_unique(r@),
            tcs_plain(r@),
            tcs_assoc(r@) == spec_filter_langs(tcs_assoc(data@)),
    {
        let mut data = data;
        let mut none_sum = TokeiCodeStatistics::default();
        tcs_collect(&mut data, "Total", &mut none_sum);
        tcs_collect(&mut data, "XML", &mut none_sum);
        tcs_collect(&mut data, "HTML", &mut none_sum);
        tcs_collect(&mut data, "JSON", &mut none_sum);

        let mut cpp_stats = TokeiCodeStatistics::default();
        tcs_collect(&mut data, "C++ Header", &mut cpp_stats);
        tcs_collect(&mut data, "C++", &mut cpp_stats);
        tcs_collect(&mut data, "Cpp", &mut cpp_stats);
        tcs_insert_fresh(&mut data, String::from_str("C++"), cpp_stats);

        let mut c_stats = TokeiCodeStatistics::default();
        tcs_collect(&mut data, "C Header", &mut c_stats);
        tcs_collect(&mut data, "C", &mut c_stats);
        tcs_insert_fresh(&mut data, String::from_str("C"), c_stats);
        data
    }

    /// Cumulative statistics across all categories, with the language
    /// rows cleaned up.
    pub fn lang_overview(&self) -> (r: Vec<(String, TokeiCodeStatistics)>)
        ensures
            tcs_unique(r@),
            tcs_plain(r@),
            tcs_assoc(r@) == spec_filter_langs(spec_total(*self)),
    {
        let total = self.compute_total();
        Self::filter_langs(total)
    }
}

/// Puts a language the list does not hold yet at its end.
fn tcs_insert_fresh(data: &mut Vec<(String, TokeiCodeStatistics)>, key: String, val: TokeiCodeStatistics)
    requires
        tcs_unique(old(data)@),
        tcs_plain(old(data)@),
        !tcs_assoc(old(data)@).contains_key(key@),
        val.children is None,
        val.reports is None,
    ensures
        tcs_unique(final(data)@),
        tcs_plain(final(data)@),
        tcs_assoc(final(data)@) == tcs_assoc(old(data)@).insert(key@, nums_of(val)),
{
    proof {
        lemma_tcs_contrapos(old(data)@, key@);
    }
    let ghost before = data@;
    data.push((key, val));
    proof {
        assert(data@.drop_last() =~= before);
        assert(forall|p: int, q: int| 0 <= p < q < data@.len() ==> data@[p].0@ != data@[q].0@);
        assert(forall|p: int| 0 <= p < data@.len() ==> (#[trigger] data@[p].1).children is None
            && data@[p].1.reports is None);
    }
}

proof fn lemma_tcs_contrapos(s: Seq<(String, TokeiCodeStatistics)>, k: Seq<char>)
    requires
        !tcs_assoc(s).contains_key(k),
    ensures
        forall|i: int| 0 <= i < s.len() ==> s[i].0@ != k,
    decreases s.len(),
{
    if s.len() > 0 {
        lemma_tcs_contrapos(s.drop_last(), k);
        assert(forall|i: int| 0 <= i < s.len() - 1 ==> s[i] == s.drop_last()[i]);
    }
}

} // verus!
