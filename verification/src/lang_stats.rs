//! The Language Rollup: per-language cumulative totals over all file
//! records of a tree, and the proof that rolling up any split of the
//! records and joining the partial totals gives the same result.
//!
//! Every counter saturates at its type's maximum instead of overflowing.

use vstd::prelude::*;
use vstd::multiset::Multiset;
use crate::counter::CountContext;
use crate::counter::CtxView;
use crate::counter::FileView;
use crate::counter::SourceFile;
use crate::counter::ctx_view;
use crate::counter::dirs_view;
use crate::counter::files_view;
use crate::counter::lemma_dirs_view_index;
use crate::file_stats::FileStats;
use crate::file_stats::sat_add_u16;
use crate::language::LangTag;
use crate::language::Language;

verus! {

/// Detailed per-language statistics on source code.  The total counters
/// let a consumer check the split against the per-bucket counters.
#[derive(Clone, Copy, Debug, PartialEq, Eq, Structural)]
pub struct LangStats {
    pub total_files: u16,
    pub code_files: u16,
    pub test_files: u16,
    pub total_lines: u32,
    /// Lines in non-test files (comments and blank lines included).
    pub code_lines: u32,
    /// Comment lines in non-test files.
    pub code_comment_lines: u32,
    /// Blank lines in non-test files.
    pub code_empty_lines: u32,
    /// Lines in test files (comments and blank lines included).
    pub test_lines: u32,
    /// Comment lines in test files.
    pub test_comment_lines: u32,
    /// Blank lines in test files.
    pub test_empty_lines: u32,
}

/// Addition clamped into `u32`.
pub open spec fn sat_add_u32(a: int, b: int) -> u32 {
    if a + b > 0xffff_ffff {
        0xffff_ffffu32
    } else {
        (a + b) as u32
    }
}

/// The all-zero totals.
pub open spec fn zero_stats() -> LangStats {
    LangStats {
        total_files: 0,
        code_files: 0,
        test_files: 0,
        total_lines: 0,
        code_lines: 0,
        code_comment_lines: 0,
        code_empty_lines: 0,
        test_lines: 0,
        test_comment_lines: 0,
        test_empty_lines: 0,
    }
}

/// All lines of one bucket of one file.
pub open spec fn file_total(s: FileStats) -> int {
    s.code_lines + s.comment_lines + s.empty_lines
}

/// Totals after counting one more file with the given buckets.
pub open spec fn spec_add(
    st: LangStats,
    code: Option<FileStats>,
    test: Option<FileStats>,
) -> LangStats {
    let st1 = LangStats { total_files: sat_add_u16(st.total_files as int, 1), ..st };
    let st2 = match code {
        Some(s) => LangStats {
            code_files: sat_add_u16(st1.code_files as int, 1),
            total_lines: sat_add_u32(st1.total_lines as int, file_total(s)),
            code_lines: sat_add_u32(st1.code_lines as int, file_total(s)),
            code_comment_lines: sat_add_u32(
                st1.code_comment_lines as int,
                s.comment_lines as int,
            ),
            code_empty_lines: sat_add_u32(st1.code_empty_lines as int, s.empty_lines as int),
            ..st1
        },
        None => st1,
    };
    match test {
        Some(s) => LangStats {
            test_files: sat_add_u16(st2.test_files as int, 1),
            total_lines: sat_add_u32(st2.total_lines as int, file_total(s)),
            test_lines: sat_add_u32(st2.test_lines as int, file_total(s)),
            test_comment_lines: sat_add_u32(
                st2.test_comment_lines as int,
                s.comment_lines as int,
            ),
            test_empty_lines: sat_add_u32(st2.test_empty_lines as int, s.empty_lines as int),
            ..st2
        },
        None => st2,
    }
}

/// Field-wise join of two totals.
pub open spec fn spec_join(a: LangStats, b: LangStats) -> LangStats {
    LangStats {
        total_files: sat_add_u16(a.total_files as int, b.total_files as int),
        code_files: sat_add_u16(a.code_files as int, b.code_files as int),
        test_files: sat_add_u16(a.test_files as int, b.test_files as int),
        total_lines: sat_add_u32(a.total_lines as int, b.total_lines as int),
        code_lines: sat_add_u32(a.code_lines as int, b.code_lines as int),
        code_comment_lines: sat_add_u32(a.code_comment_lines as int, b.code_comment_lines as int),
        code_empty_lines: sat_add_u32(a.code_empty_lines as int, b.code_empty_lines as int),
        test_lines: sat_add_u32(a.test_lines as int, b.test_lines as int),
        test_comment_lines: sat_add_u32(a.test_comment_lines as int, b.test_comment_lines as int),
        test_empty_lines: sat_add_u32(a.test_empty_lines as int, b.test_empty_lines as int),
    }
}

impl LangStats {
    /// The all-zero totals.
    pub fn new() -> (r: Self)
        ensures
            r == zero_stats(),
    {
        LangStats {
            total_files: 0,
            code_files: 0,
            test_files: 0,
            total_lines: 0,
            code_lines: 0,
            code_comment_lines: 0,
            code_empty_lines: 0,
            test_lines: 0,
            test_comment_lines: 0,
            test_empty_lines: 0,
        }
    }

    /// Counts one file into the totals.
    pub fn add(&mut self, file: &SourceFile)
        ensures
            *final(self) == spec_add(*old(self), file.code_stats, file.test_stats),
    {
        self.total_files = self.total_files.saturating_add(1);
        if let Some(s) = file.code_stats {
            let t = s.code_lines as u32 + s.comment_lines as u32 + s.empty_lines as u32;
            self.code_files = self.code_files.saturating_add(1);
            self.total_lines = self.total_lines.saturating_add(t);
            self.code_lines = self.code_lines.saturating_add(t);
            self.code_comment_lines = self.code_comment_lines.saturating_add(
                s.comment_lines as u32,
            );
            self.code_empty_lines = self.code_empty_lines.saturating_add(s.empty_lines as u32);
        }
        if let Some(s) = file.test_stats {
            let t = s.code_lines as u32 + s.comment_lines as u32 + s.empty_lines as u32;
            self.test_files = self.test_files.saturating_add(1);
            self.total_lines = self.total_lines.saturating_add(t);
            self.test_lines = self.test_lines.saturating_add(t);
            self.test_comment_lines = self.test_comment_lines.saturating_add(
                s.comment_lines as u32,
            );
            self.test_empty_lines = self.test_empty_lines.saturating_add(s.empty_lines as u32);
        }
    }

    /// Joins another language's-worth of totals into these, field-wise.
    pub fn join(&mut self, other: &Self)
        ensures
            *final(self) == spec_join(*old(self), *other),
    {
        self.total_files = self.total_files.saturating_add(other.total_files);
        self.code_files = self.code_files.saturating_add(other.code_files);
        self.test_files = self.test_files.saturating_add(other.test_files);
        self.total_lines = self.total_lines.saturating_add(other.total_lines);
        self.code_lines = self.code_lines.saturating_add(other.code_lines);
        self.code_comment_lines = self.code_comment_lines.saturating_add(
            other.code_comment_lines,
        );
        self.code_empty_lines = self.code_empty_lines.saturating_add(other.code_empty_lines);
        self.test_lines = self.test_lines.saturating_add(other.test_lines);
        self.test_comment_lines = self.test_comment_lines.saturating_add(
            other.test_comment_lines,
        );
        self.test_empty_lines = self.test_empty_lines.saturating_add(other.test_empty_lines);
    }
}

/// What one file means to the rollup: its language and its two buckets;
/// its name and position play no part.
pub ghost struct StatsEntry {
    pub lang: LangTag,
    pub code_stats: Option<FileStats>,
    pub test_stats: Option<FileStats>,
}

/// The rollup identity of a file record.
pub open spec fn stats_entry(f: FileView) -> StatsEntry {
    StatsEntry { lang: f.lang, code_stats: f.code_stats, test_stats: f.test_stats }
}

/// Counting one file into a per-language map.
pub open spec fn stats_upsert(
    m: Map<LangTag, LangStats>,
    e: StatsEntry,
) -> Map<LangTag, LangStats> {
    let cur = if m.contains_key(e.lang) {
        m[e.lang]
    } else {
        zero_stats()
    };
    m.insert(e.lang, spec_add(cur, e.code_stats, e.test_stats))
}

/// The per-language totals of a collection of file records.
pub open spec fn roll(m: Multiset<StatsEntry>) -> Map<LangTag, LangStats>
    decreases m.len(),
        via roll_decreases
{
    if m.len() == 0 {
        Map::empty()
    } else {
        stats_upsert(roll(m.remove(m.choose())), m.choose())
    }
}

proof fn lemma_remove_len(m: Multiset<StatsEntry>, x: StatsEntry)
    requires
        m.count(x) > 0,
    ensures
        m.remove(x).len() == m.len() - 1,
{
    assert(m.remove(x).insert(x) =~= m);
}

#[via_fn]
proof fn roll_decreases(m: Multiset<StatsEntry>) {
    if m.len() != 0 {
        lemma_remove_len(m, m.choose());
    }
}

/// Two clamped additions in a row add up, clamped once.
pub broadcast proof fn lemma_sat_u16_merge(x: int, p: int, q: int)
    requires
        0 <= x,
        0 <= p,
        0 <= q,
    ensures
        #[trigger] sat_add_u16(sat_add_u16(x, p) as int, q) == sat_add_u16(x, p + q),
{
}

/// Two clamped additions in a row add up, clamped once.
pub broadcast proof fn lemma_sat_u32_merge(x: int, p: int, q: int)
    requires
        0 <= x,
        0 <= p,
        0 <= q,
    ensures
        #[trigger] sat_add_u32(sat_add_u32(x, p) as int, q) == sat_add_u32(x, p + q),
{
}

/// Adding two files to the same language's totals commutes.
#[verifier::rlimit(100)]
proof fn lemma_add_comm(st: LangStats, a: StatsEntry, b: StatsEntry)
    ensures
        spec_add(spec_add(st, a.code_stats, a.test_stats), b.code_stats, b.test_stats)
            == spec_add(spec_add(st, b.code_stats, b.test_stats), a.code_stats, a.test_stats),
{
    broadcast use lemma_sat_u16_merge, lemma_sat_u32_merge;

}

/// The rollup counts the same file the same way wherever it sits: the
/// totals after adding two files do not depend on their order.
proof fn lemma_upsert_comm(m: Map<LangTag, LangStats>, a: StatsEntry, b: StatsEntry)
    ensures
        stats_upsert(stats_upsert(m, a), b) == stats_upsert(stats_upsert(m, b), a),
{
    if a.lang == b.lang {
        let cur = if m.contains_key(a.lang) {
            m[a.lang]
        } else {
            zero_stats()
        };
        lemma_add_comm(cur, a, b);
        assert(stats_upsert(stats_upsert(m, a), b) =~= stats_upsert(stats_upsert(m, b), a));
    } else {
        assert(stats_upsert(stats_upsert(m, a), b) =~= stats_upsert(stats_upsert(m, b), a));
    }
}

/// Taking any present file out first and counting it last changes
/// nothing.
proof fn lemma_roll_remove(m: Multiset<StatsEntry>, x: StatsEntry)
    requires
        m.count(x) > 0,
    ensures
        roll(m) == stats_upsert(roll(m.remove(x)), x),
    decreases m.len(),
{
    let c = m.choose();
    assert(m.len() > 0);
    if c == x {
    } else {
        assert(m.count(c) > 0);
        lemma_remove_len(m, c);
        lemma_remove_len(m, x);
        assert(m.remove(c).count(x) > 0);
        assert(m.remove(x).count(c) > 0);
        lemma_roll_remove(m.remove(c), x);
        lemma_roll_remove(m.remove(x), c);
        assert(m.remove(c).remove(x) =~= m.remove(x).remove(c));
        lemma_upsert_comm(roll(m.remove(c).remove(x)), x, c);
    }
}

/// Counting one more file is one upsert.
proof fn lemma_roll_insert(m: Multiset<StatsEntry>, e: StatsEntry)
    ensures
        roll(m.insert(e)) == stats_upsert(roll(m), e),
{
    lemma_roll_remove(m.insert(e), e);
    assert(m.insert(e).remove(e) =~= m);
}

/// Key-wise join of two per-language maps.
pub open spec fn join_maps(
    a: Map<LangTag, LangStats>,
    b: Map<LangTag, LangStats>,
) -> Map<LangTag, LangStats> {
    Map::new(
        |k: LangTag| a.contains_key(k) || b.contains_key(k),
        |k: LangTag|
            if a.contains_key(k) && b.contains_key(k) {
                spec_join(a[k], b[k])
            } else if a.contains_key(k) {
                a[k]
            } else {
                b[k]
            },
    )
}

proof fn lemma_join_empty(a: Map<LangTag, LangStats>)
    ensures
        join_maps(a, Map::empty()) == a,
{
    assert(join_maps(a, Map::empty()) =~= a);
}

/// Joining distributes over counting one more file.
proof fn lemma_join_upsert(a: Map<LangTag, LangStats>, b: Map<LangTag, LangStats>, e: StatsEntry)
    ensures
        join_maps(a, stats_upsert(b, e)) == stats_upsert(join_maps(a, b), e),
{
    assert(join_maps(a, stats_upsert(b, e)) =~= stats_upsert(join_maps(a, b), e));
}

/// Rollup additivity: rolling up any two collections of file records
/// separately and joining the resulting per-language totals gives the
/// rollup of the two collections together.
pub proof fn lemma_rollup_join(m1: Multiset<StatsEntry>, m2: Multiset<StatsEntry>)
    ensures
        roll(m1.add(m2)) == join_maps(roll(m1), roll(m2)),
    decreases m2.len(),
{
    if m2.len() == 0 {
        assert(m1.add(m2) =~= m1);
        lemma_join_empty(roll(m1));
    } else {
        let e = m2.choose();
        assert(m2.count(e) > 0);
        lemma_remove_len(m2, e);
        lemma_rollup_join(m1, m2.remove(e));
        assert(m1.add(m2) =~= m1.add(m2.remove(e)).insert(e));
        lemma_roll_insert(m1.add(m2.remove(e)), e);
        lemma_join_upsert(roll(m1), roll(m2.remove(e)), e);
    }
}

/// Rollup additivity over trees: rolling two subtrees up separately and
/// joining the per-language totals gives the rollup of both together.
pub proof fn lemma_tree_rollup_join(a: CtxView, b: CtxView)
    ensures
        roll(stats_content(a).add(stats_content(b)))
            == join_maps(roll(stats_content(a)), roll(stats_content(b))),
{
    lemma_rollup_join(stats_content(a), stats_content(b));
}

/// The rollup identities of a file list.
pub open spec fn files_stats(fs: Seq<FileView>) -> Multiset<StatsEntry>
    decreases fs.len(),
{
    if fs.len() == 0 {
        Multiset::empty()
    } else {
        files_stats(fs.drop_last()).insert(stats_entry(fs.last()))
    }
}

/// The rollup identities of every file record below an aggregate.
pub open spec fn stats_content(c: CtxView) -> Multiset<StatsEntry>
    decreases c, 0int,
{
    files_stats(c.files).add(dirs_stats(c.dirs))
}

/// The rollup identities of a list of sub-aggregates.
pub open spec fn dirs_stats(ds: Seq<CtxView>) -> Multiset<StatsEntry>
    decreases ds, 1int,
{
    if ds.len() == 0 {
        Multiset::empty()
    } else {
        dirs_stats(ds.drop_last()).add(stats_content(ds.last()))
    }
}

/// Reading an association list of languages as a map.
pub open spec fn assoc_map(s: Seq<(Language, LangStats)>) -> Map<LangTag, LangStats>
    decreases s.len(),
{
    if s.len() == 0 {
        Map::empty()
    } else {
        assoc_map(s.drop_last()).insert(s.last().0.deep_view(), s.last().1)
    }
}

/// No language occurs twice in the list.
pub open spec fn unique_langs(s: Seq<(Language, LangStats)>) -> bool {
    forall|i: int, j: int|
        0 <= i < j < s.len() ==> s[i].0.deep_view() != s[j].0.deep_view()
}

/// Joining one language's totals into a map.
pub open spec fn join_one_spec(
    m: Map<LangTag, LangStats>,
    k: LangTag,
    v: LangStats,
) -> Map<LangTag, LangStats> {
    if m.contains_key(k) {
        m.insert(k, spec_join(m[k], v))
    } else {
        m.insert(k, v)
    }
}

proof fn lemma_assoc_lookup(s: Seq<(Language, LangStats)>, i: int)
    requires
        unique_langs(s),
        0 <= i < s.len(),
    ensures
        assoc_map(s).contains_key(s[i].0.deep_view()),
        assoc_map(s)[s[i].0.deep_view()] == s[i].1,
    decreases s.len(),
{
    if i < s.len() - 1 {
        assert(unique_langs(s.drop_last()));
        assert(s.drop_last()[i] == s[i]);
        lemma_assoc_lookup(s.drop_last(), i);
    }
}

proof fn lemma_assoc_not_found(s: Seq<(Language, LangStats)>, k: LangTag)
    requires
        forall|i: int| 0 <= i < s.len() ==> s[i].0.deep_view() != k,
    ensures
        !assoc_map(s).contains_key(k),
    decreases s.len(),
{
    if s.len() > 0 {
        assert(s.drop_last().len() == s.len() - 1);
        lemma_assoc_not_found(s.drop_last(), k);
    }
}

proof fn lemma_assoc_update(s: Seq<(Language, LangStats)>, i: int, v: LangStats)
    requires
        unique_langs(s),
        0 <= i < s.len(),
    ensures
        assoc_map(s.update(i, (s[i].0, v))) == assoc_map(s).insert(s[i].0.deep_view(), v),
    decreases s.len(),
{
    let s2 = s.update(i, (s[i].0, v));
    if i == s.len() - 1 {
        assert(s2.drop_last() =~= s.drop_last());
        assert(assoc_map(s2) =~= assoc_map(s).insert(s[i].0.deep_view(), v));
    } else {
        assert(unique_langs(s.drop_last()));
        assert(s.drop_last()[i] == s[i]);
        lemma_assoc_update(s.drop_last(), i, v);
        assert(s2.drop_last() =~= s.drop_last().update(i, (s[i].0, v)));
        assert(s2.last() == s.last());
        assert(s[i].0.deep_view() != s.last().0.deep_view());
        assert(assoc_map(s2) =~= assoc_map(s).insert(s[i].0.deep_view(), v));
    }
}

/// Joins one language's totals into an association list, preserving key
/// uniqueness.
fn join_one(acc: &mut Vec<(Language, LangStats)>, lang: Language, st: LangStats)
    requires
        unique_langs(old(acc)@),
    ensures
        unique_langs(final(acc)@),
        assoc_map(final(acc)@) == join_one_spec(assoc_map(old(acc)@), lang.deep_view(), st),
{
    let n = acc.len();
    let mut i: usize = 0;
    while i < n
        invariant
            i <= n,
            n == acc@.len(),
            *acc == *old(acc),
            unique_langs(acc@),
            forall|k: int| 0 <= k < i ==> acc@[k].0.deep_view() != lang.deep_view(),
        decreases n - i,
    {
        if acc[i].0.eq(&lang) {
            proof {
                lemma_assoc_lookup(acc@, i as int);
            }
            let slot = &mut acc[i];
            slot.1.join(&st);
            proof {
                lemma_assoc_update(old(acc)@, i as int, spec_join(old(acc)@[i as int].1, st));
                assert(forall|p: int, q: int|
                    0 <= p < q < acc@.len() ==> acc@[p].0.deep_view() != acc@[q].0.deep_view());
            }
            return ;
        }
        i += 1;
    }
    proof {
        lemma_assoc_not_found(acc@, lang.deep_view());
    }
    let ghost before = acc@;
    acc.push((lang, st));
    proof {
        assert(acc@.drop_last() =~= before);
        assert(forall|p: int, q: int|
            0 <= p < q < acc@.len() ==> acc@[p].0.deep_view() != acc@[q].0.deep_view());
    }
}

/// Folding an association list into a map, one language at a time.
pub open spec fn fold_join(
    m: Map<LangTag, LangStats>,
    s: Seq<(Language, LangStats)>,
) -> Map<LangTag, LangStats>
    decreases s.len(),
{
    if s.len() == 0 {
        m
    } else {
        join_one_spec(fold_join(m, s.drop_last()), s.last().0.deep_view(), s.last().1)
    }
}

proof fn lemma_join_insert_fresh(
    a: Map<LangTag, LangStats>,
    b: Map<LangTag, LangStats>,
    k: LangTag,
    v: LangStats,
)
    requires
        !b.contains_key(k),
    ensures
        join_maps(a, b.insert(k, v)) == join_one_spec(join_maps(a, b), k, v),
{
    assert(join_maps(a, b.insert(k, v)) =~= join_one_spec(join_maps(a, b), k, v));
}

proof fn lemma_fold_join_is_join(m: Map<LangTag, LangStats>, s: Seq<(Language, LangStats)>)
    requires
        unique_langs(s),
    ensures
        fold_join(m, s) == join_maps(m, assoc_map(s)),
    decreases s.len(),
{
    if s.len() == 0 {
        lemma_join_empty(m);
    } else {
        assert(unique_langs(s.drop_last()));
        lemma_fold_join_is_join(m, s.drop_last());
        assert(forall|i: int|
            0 <= i < s.drop_last().len()
                ==> s.drop_last()[i].0.deep_view() != s.last().0.deep_view());
        lemma_assoc_not_found(s.drop_last(), s.last().0.deep_view());
        lemma_join_insert_fresh(m, assoc_map(s.drop_last()), s.last().0.deep_view(), s.last().1);
    }
}

/// Joins a whole association list into the accumulator.
fn join_into(acc: &mut Vec<(Language, LangStats)>, other: &Vec<(Language, LangStats)>)
    requires
        unique_langs(old(acc)@),
        unique_langs(other@),
    ensures
        unique_langs(final(acc)@),
        assoc_map(final(acc)@) == join_maps(assoc_map(old(acc)@), assoc_map(other@)),
{
    let n = other.len();
    let mut i: usize = 0;
    while i < n
        invariant
            i <= n,
            n == other@.len(),
            unique_langs(other@),
            unique_langs(acc@),
            assoc_map(acc@) == fold_join(assoc_map(old(acc)@), other@.take(i as int)),
        decreases n - i,
    {
        let lang = other[i].0.clone();
        let st = other[i].1;
        join_one(acc, lang, st);
        proof {
            assert(other@.take(i as int + 1).drop_last() =~= other@.take(i as int));
            assert(other@.take(i as int + 1).last() == other@[i as int]);
        }
        i += 1;
    }
    proof {
        assert(other@.take(n as int) =~= other@);
        lemma_fold_join_is_join(assoc_map(old(acc)@), other@);
    }
}

/// Anything that can report per-language statistics of its subtree and
/// a display name.
pub trait HasStats {
    /// The per-language totals this node stands for.
    spec fn stats_spec(&self) -> Map<LangTag, LangStats>;

    /// The name this node is shown under.
    spec fn name_spec(&self) -> Seq<char>;

    /// Per-language totals of the subtree, one entry per language.
    fn stats(&self) -> (r: Vec<(Language, LangStats)>)
        ensures
            unique_langs(r@),
            assoc_map(r@) == self.stats_spec(),
    ;

    /// The display name.
    fn name(&self) -> (r: String)
        ensures
            r@ == self.name_spec(),
    ;
}

impl HasStats for SourceFile {
    open spec fn stats_spec(&self) -> Map<LangTag, LangStats> {
        stats_upsert(Map::empty(), stats_entry(self@))
    }

    open spec fn name_spec(&self) -> Seq<char> {
        self.file_name@
    }

    fn stats(&self) -> (r: Vec<(Language, LangStats)>)
        ensures
            unique_langs(r@),
            assoc_map(r@) == self.stats_spec(),
    {
        let mut st = LangStats::new();
        st.add(self);
        let mut r: Vec<(Language, LangStats)> = Vec::new();
        r.push((self.lang.clone(), st));
        proof {
            assert(r@.drop_last() =~= Seq::<(Language, LangStats)>::empty());
            assert(r@.last().0.deep_view() == self.lang.deep_view());
            assert(r@.last().1 == spec_add(zero_stats(), self.code_stats, self.test_stats));
            assert(assoc_map(r@) == assoc_map(Seq::empty()).insert(
                r@.last().0.deep_view(),
                r@.last().1,
            ));
            assert(assoc_map(r@) =~= stats_upsert(Map::empty(), stats_entry(self@)));
        }
        r
    }

    fn name(&self) -> (r: String)
        ensures
            r@ == self.name_spec(),
    {
        self.file_name.clone()
    }
}

impl HasStats for CountContext {
    open spec fn stats_spec(&self) -> Map<LangTag, LangStats> {
        roll(stats_content(ctx_view(*self)))
    }

    open spec fn name_spec(&self) -> Seq<char> {
        self.dir_name@
    }

    fn stats(&self) -> (r: Vec<(Language, LangStats)>)
        ensures
            unique_langs(r@),
            assoc_map(r@) == self.stats_spec(),
    {
        self.stats_impl()
    }

    fn name(&self) -> (r: String)
        ensures
            r@ == self.name_spec(),
    {
        self.dir_name.clone()
    }
}

impl CountContext {
    /// Rolls the whole subtree up: every file of this directory, then
    /// every sub-directory's rollup, joined language by language.
    fn stats_impl(&self) -> (r: Vec<(Language, LangStats)>)
        ensures
            unique_langs(r@),
            assoc_map(r@) == roll(stats_content(ctx_view(*self))),
        decreases *self,
    {
        let ghost fv = files_view(self.files@);
        let ghost dv = dirs_view(self.dirs@);
        let mut all: Vec<(Language, LangStats)> = Vec::new();
        proof {
            assert(files_stats(fv.take(0)) =~= Multiset::<StatsEntry>::empty());
        }
        let n = self.files.len();
        let mut i: usize = 0;
        while i < n
            invariant
                i <= n,
                n == self.files@.len(),
                fv == files_view(self.files@),
                unique_langs(all@),
                assoc_map(all@) == roll(files_stats(fv.take(i as int))),
            decreases n - i,
        {
            let one = self.files[i].stats();
            join_into(&mut all, &one);
            proof {
                assert(fv.take(i as int + 1).drop_last() =~= fv.take(i as int));
                assert(fv.take(i as int + 1).last() == self.files@[i as int]@);
                lemma_files_stats_push(fv.take(i as int), self.files@[i as int]@);
                lemma_roll_insert(
                    files_stats(fv.take(i as int)),
                    stats_entry(self.files@[i as int]@),
                );
                lemma_join_single(
                    roll(files_stats(fv.take(i as int))),
                    stats_entry(self.files@[i as int]@),
                );
            }
            i += 1;
        }
        proof {
            assert(fv.take(n as int) =~= fv);
            assert(dirs_stats(dv.take(0)) =~= Multiset::<StatsEntry>::empty());
            assert(files_stats(fv).add(dirs_stats(dv.take(0))) =~= files_stats(fv));
            lemma_dirs_view_index(self.dirs@);
        }
        let dn = self.dirs.len();
        let mut j: usize = 0;
        while j < dn
            invariant
                j <= dn,
                dn == self.dirs@.len(),
                fv == files_view(self.files@),
                dv == dirs_view(self.dirs@),
                dv.len() == dn,
                forall|k: int| 0 <= k < dn ==> dv[k] == ctx_view(self.dirs@[k]),
                unique_langs(all@),
                assoc_map(all@) == roll(files_stats(fv).add(dirs_stats(dv.take(j as int)))),
            decreases dn - j,
        {
            let sub = self.dirs[j].stats_impl();
            join_into(&mut all, &sub);
            proof {
                assert(dv.take(j as int + 1).drop_last() =~= dv.take(j as int));
                assert(dv.take(j as int + 1).last() == dv[j as int]);
                lemma_rollup_join(
                    files_stats(fv).add(dirs_stats(dv.take(j as int))),
                    stats_content(dv[j as int]),
                );
                assert(files_stats(fv).add(dirs_stats(dv.take(j as int))).add(
                    stats_content(dv[j as int]),
                ) =~= files_stats(fv).add(dirs_stats(dv.take(j as int + 1))));
            }
            j += 1;
        }
        proof {
            assert(dv.take(dn as int) =~= dv);
        }
        all
    }
}

proof fn lemma_files_stats_push(fs: Seq<FileView>, f: FileView)
    ensures
        files_stats(fs.push(f)) == files_stats(fs).insert(stats_entry(f)),
{
    assert(fs.push(f).drop_last() =~= fs);
    assert(fs.push(f).last() == f);
}

/// Joining a single-language list equals one upsert.
proof fn lemma_join_single(m: Map<LangTag, LangStats>, e: StatsEntry)
    ensures
        join_maps(m, stats_upsert(Map::empty(), e)) == stats_upsert(m, e),
{
    assert(join_maps(m, stats_upsert(Map::empty(), e)) =~= stats_upsert(m, e));
}

} // verus!
