//! Regrouping of the decoded reports into display categories: one
//! category per report file, plus cross-cutting "Tests" and "Docs"
//! categories collected from report names.

use vstd::prelude::*;
use vstd::string::StringExecFns;
use crate::parser::Data;
use crate::parser::TokeiCodeStatistics;
use crate::parser::TokeiReport;
use crate::parser::lemma_tcs_unique_at;
use crate::parser::tcs_unique;
use crate::strutil::contains_seq;
use crate::strutil::str_contains;
use crate::strutil::str_eq;

verus! {

/// Code, comment and blank line counts of one display row.  Sums
/// saturate at `u32::MAX` instead of overflowing.
#[derive(Clone, Copy, Debug, PartialEq, Eq, Structural)]
pub struct CodeStats {
    pub code: u32,
    pub comment: u32,
    pub blank: u32,
}

/// One display category: its own per-language rows and their sum.
pub struct CodeCategory {
    pub name: String,
    pub total: CodeStats,
    pub details: Vec<(String, CodeStats)>,
}

/// The report data regrouped for display.
pub struct ExtractedData {
    pub core: CodeCategory,
    pub devtools: CodeCategory,
    pub sdks: CodeCategory,
    pub thirdparty: CodeCategory,
    pub userspace: CodeCategory,
    pub tests: CodeCategory,
    pub docs: CodeCategory,
}

/// The all-zero counts.
pub open spec fn zero_cs() -> CodeStats {
    CodeStats { code: 0, comment: 0, blank: 0 }
}

/// Addition clamped into `u32`.
pub open spec fn cs_sat(a: int, b: int) -> u32 {
    if a + b > 0xffff_ffff {
        0xffff_ffffu32
    } else {
        (a + b) as u32
    }
}

/// Counts after adding one report's numbers.
pub open spec fn cs_add(a: CodeStats, code: u32, comments: u32, blanks: u32) -> CodeStats {
    CodeStats {
        code: cs_sat(a.code as int, code as int),
        comment: cs_sat(a.comment as int, comments as int),
        blank: cs_sat(a.blank as int, blanks as int),
    }
}

/// Field-wise sum of two rows.
pub open spec fn cs_join(a: CodeStats, b: CodeStats) -> CodeStats {
    CodeStats {
        code: cs_sat(a.code as int, b.code as int),
        comment: cs_sat(a.comment as int, b.comment as int),
        blank: cs_sat(a.blank as int, b.blank as int),
    }
}

impl Default for CodeStats {
    /// The all-zero counts.
    fn default() -> (r: Self)
        ensures
            r == zero_cs(),
    {
        Self { code: 0, comment: 0, blank: 0 }
    }
}

impl CodeCategory {
    /// An empty category.
    fn new(name: String) -> (r: Self)
        ensures
            r.name == name,
            r.total == zero_cs(),
            r.details@ == Seq::<(String, CodeStats)>::empty(),
    {
        Self { name, total: CodeStats::default(), details: Vec::new() }
    }
}

/// Where one report's numbers go, decided by its path-like name.
pub ghost enum ReportDest {
    Test,
    Doc,
    Prod,
}

/// A report whose name contains `"test"` counts as test code; failing
/// that, one whose name contains a `doc` path segment counts as
/// documentation; everything else is production code.
pub open spec fn spec_dest(name: Seq<char>) -> ReportDest {
    if contains_seq(name, "test"@) {
        ReportDest::Test
    } else if contains_seq(name, "/doc/"@) || contains_seq(name, "/docs/"@) {
        ReportDest::Doc
    } else {
        ReportDest::Prod
    }
}

/// Language rows that hold data formats rather than code; they are
/// left out of the categories.
pub open spec fn spec_data_lang(lang: Seq<char>) -> bool {
    ||| lang == "Json"@
    ||| lang == "Xml"@
    ||| lang == "Yaml"@
    ||| lang == "Toml"@
    ||| lang == "Ini"@
}

fn is_data_lang(lang: &str) -> (r: bool)
    ensures
        r == spec_data_lang(lang@),
{
    str_eq(lang, "Json") || str_eq(lang, "Xml") || str_eq(lang, "Yaml") || str_eq(lang, "Toml")
        || str_eq(lang, "Ini")
}

/// The production sum of a report list: every report bound for neither
/// tests nor docs, added up first to last.
pub open spec fn prod_sum(files: Seq<TokeiReport>, acc: CodeStats) -> CodeStats
    decreases files.len(),
{
    if files.len() == 0 {
        acc
    } else {
        let prev = prod_sum(files.drop_last(), acc);
        let f = files.last();
        if spec_dest(f.name@) is Prod {
            cs_add(prev, f.stats.code, f.stats.comments, f.stats.blanks)
        } else {
            prev
        }
    }
}

/// One language's test (or doc) reports added into a cross-cutting
/// bucket map, first to last.
pub open spec fn bucket_add(
    m: Map<Seq<char>, CodeStats>,
    lang: Seq<char>,
    files: Seq<TokeiReport>,
    want_test: bool,
) -> Map<Seq<char>, CodeStats>
    decreases files.len(),
{
    if files.len() == 0 {
        m
    } else {
        let prev = bucket_add(m, lang, files.drop_last(), want_test);
        let f = files.last();
        let hit = if want_test {
            spec_dest(f.name@) is Test
        } else {
            spec_dest(f.name@) is Doc
        };
        if hit {
            let cur = if prev.contains_key(lang) {
                prev[lang]
            } else {
                zero_cs()
            };
            prev.insert(lang, cs_add(cur, f.stats.code, f.stats.comments, f.stats.blanks))
        } else {
            prev
        }
    }
}

/// Everything one category's children produce: its own rows and total,
/// and the grown test and doc buckets.
pub ghost struct ExtractState {
    pub details: Seq<(Seq<char>, CodeStats)>,
    pub total: CodeStats,
    pub tests: Map<Seq<char>, CodeStats>,
    pub docs: Map<Seq<char>, CodeStats>,
}

/// Processing a children list, language by language: data-format rows
/// are skipped; every other language contributes one detail row with
/// its production sum, and its test and doc reports go to the buckets.
pub open spec fn spec_extract(
    ch: Seq<(String, Vec<TokeiReport>)>,
    tests0: Map<Seq<char>, CodeStats>,
    docs0: Map<Seq<char>, CodeStats>,
) -> ExtractState
    decreases ch.len(),
{
    if ch.len() == 0 {
        ExtractState { details: Seq::empty(), total: zero_cs(), tests: tests0, docs: docs0 }
    } else {
        let prev = spec_extract(ch.drop_last(), tests0, docs0);
        let lang = ch.last().0@;
        let files = ch.last().1@;
        if spec_data_lang(lang) {
            prev
        } else {
            let ls = prod_sum(files, zero_cs());
            ExtractState {
                details: prev.details.push((lang, ls)),
                total: cs_join(prev.total, ls),
                tests: bucket_add(prev.tests, lang, files, true),
                docs: bucket_add(prev.docs, lang, files, false),
            }
        }
    }
}

/// Reading a bucket list as a map.
pub open spec fn cs_assoc(s: Seq<(String, CodeStats)>) -> Map<Seq<char>, CodeStats>
    decreases s.len(),
{
    if s.len() == 0 {
        Map::empty()
    } else {
        cs_assoc(s.drop_last()).insert(s.last().0@, s.last().1)
    }
}

/// No language occurs twice in the list.
pub open spec fn cs_unique(s: Seq<(String, CodeStats)>) -> bool {
    forall|i: int, j: int| 0 <= i < j < s.len() ==> s[i].0@ != s[j].0@
}

/// The detail rows with their names abstracted to character sequences.
pub open spec fn details_view(s: Seq<(String, CodeStats)>) -> Seq<(Seq<char>, CodeStats)> {
    s.map_values(|p: (String, CodeStats)| (p.0@, p.1))
}

proof fn lemma_cs_lookup(s: Seq<(String, CodeStats)>, i: int)
    requires
        cs_unique(s),
        0 <= i < s.len(),
    ensures
        cs_assoc(s).contains_key(s[i].0@),
        cs_assoc(s)[s[i].0@] == s[i].1,
    decreases s.len(),
{
    if i < s.len() - 1 {
        assert(cs_unique(s.drop_last()));
        assert(s.drop_last()[i] == s[i]);
        lemma_cs_lookup(s.drop_last(), i);
    }
}

proof fn lemma_cs_not_found(s: Seq<(String, CodeStats)>, k: Seq<char>)
    requires
        forall|i: int| 0 <= i < s.len() ==> s[i].0@ != k,
    ensures
        !cs_assoc(s).contains_key(k),
    decreases s.len(),
{
    if s.len() > 0 {
        assert(s.drop_last().len() == s.len() - 1);
        lemma_cs_not_found(s.drop_last(), k);
    }
}

proof fn lemma_cs_update(s: Seq<(String, CodeStats)>, i: int, v: CodeStats)
    requires
        cs_unique(s),
        0 <= i < s.len(),
    ensures
        cs_assoc(s.update(i, (s[i].0, v))) == cs_assoc(s).insert(s[i].0@, v),
    decreases s.len(),
{
    let s2 = s.update(i, (s[i].0, v));
    if i == s.len() - 1 {
        assert(s2.drop_last() =~= s.drop_last());
        assert(cs_assoc(s2) =~= cs_assoc(s).insert(s[i].0@, v));
    } else {
        assert(cs_unique(s.drop_last()));
        assert(s.drop_last()[i] == s[i]);
        lemma_cs_update(s.drop_last(), i, v);
        assert(s2.drop_last() =~= s.drop_last().update(i, (s[i].0, v)));
        assert(s2.last() == s.last());
        assert(s[i].0@ != s.last().0@);
        assert(cs_assoc(s2) =~= cs_assoc(s).insert(s[i].0@, v));
    }
}

/// Adds one report's numbers into a bucket's row for `lang`, creating
/// the row when it is new.
fn cs_upsert(bucket: &mut Vec<(String, CodeStats)>, lang: &String, code: u32, comments: u32, blanks: u32)
    requires
        cs_unique(old(bucket)@),
    ensures
        cs_unique(final(bucket)@),
        cs_assoc(final(bucket)@) == (cs_assoc(old(bucket)@).insert(
            lang@,
            cs_add(
                if cs_assoc(old(bucket)@).contains_key(lang@) {
                    cs_assoc(old(bucket)@)[lang@]
                } else {
                    zero_cs()
                },
                code,
                comments,
                blanks,
            ),
        )),
{
    let n = bucket.len();
    let mut i: usize = 0;
    while i < n
        invariant
            i <= n,
            n == bucket@.len(),
            *bucket == *old(bucket),
            cs_unique(bucket@),
            forall|k: int| 0 <= k < i ==> bucket@[k].0@ != lang@,
        decreases n - i,
    {
        if str_eq(bucket[i].0.as_str(), lang.as_str()) {
            proof {
                lemma_cs_lookup(bucket@, i as int);
            }
            let slot = &mut bucket[i];
            slot.1.code = slot.1.code.saturating_add(code);
            slot.1.comment = slot.1.comment.saturating_add(comments);
            slot.1.blank = slot.1.blank.saturating_add(blanks);
            proof {
                lemma_cs_update(old(bucket)@, i as int, bucket@[i as int].1);
                assert(forall|p: int, q: int|
                    0 <= p < q < bucket@.len() ==> bucket@[p].0@ != bucket@[q].0@);
            }
            return ;
        }
        i += 1;
    }
    proof {
        lemma_cs_not_found(bucket@, lang@);
    }
    let ghost before = bucket@;
    bucket.push((lang.clone(), CodeStats { code, comment: comments, blank: blanks }));
    proof {
        assert(bucket@.drop_last() =~= before);
        assert(cs_add(zero_cs(), code, comments, blanks) == bucket@.last().1);
        assert(forall|p: int, q: int|
            0 <= p < q < bucket@.len() ==> bucket@[p].0@ != bucket@[q].0@);
    }
}

/// Whether a category list holds a `"Total"` row.
pub open spec fn has_total(s: Seq<(String, TokeiCodeStatistics)>) -> bool {
    exists|i: int| 0 <= i < s.len() && s[i].0@ == "Total"@
}

/// The children of the `"Total"` row.
pub open spec fn total_children(
    s: Seq<(String, TokeiCodeStatistics)>,
) -> Seq<(String, Vec<TokeiReport>)> {
    let i = choose|i: int| 0 <= i < s.len() && s[i].0@ == "Total"@;
    match s[i].1.children {
        Some(c) => c@,
        None => Seq::empty(),
    }
}

/// Takes the `"Total"` row out of a category list.
fn find_total(rows: Vec<(String, TokeiCodeStatistics)>) -> (r: Option<TokeiCodeStatistics>)
    requires
        tcs_unique(rows@),
    ensures
        ({
            if has_total(rows@) {
                let i = choose|i: int| 0 <= i < rows@.len() && rows@[i].0@ == "Total"@;
                r == Some(rows@[i].1)
            } else {
                r is None
            }
        }),
{
    let n = rows.len();
    let mut j: usize = 0;
    while j < n
        invariant
            j <= n,
            n == rows@.len(),
            tcs_unique(rows@),
            forall|k: int| 0 <= k < j ==> rows@[k].0@ != "Total"@,
        decreases n - j,
    {
        if str_eq(rows[j].0.as_str(), "Total") {
            proof {
                assert(has_total(rows@));
                let i = choose|i: int| 0 <= i < rows@.len() && rows@[i].0@ == "Total"@;
                if i < j as int {
                    lemma_tcs_unique_at(rows@, i, j as int);
                } else if (j as int) < i {
                    lemma_tcs_unique_at(rows@, j as int, i);
                }
                assert(i == j);
            }
            let mut rows = rows;
            let pair = rows.remove(j);
            return Some(pair.1);
        }
        j += 1;
    }
    proof {
        if has_total(rows@) {
            let i = choose|i: int| 0 <= i < rows@.len() && rows@[i].0@ == "Total"@;
            assert(false);
        }
    }
    None
}

/// The sum of a bucket's rows.
pub open spec fn sum_cs(s: Seq<(String, CodeStats)>) -> CodeStats
    decreases s.len(),
{
    if s.len() == 0 {
        zero_cs()
    } else {
        cs_join(sum_cs(s.drop_last()), s.last().1)
    }
}

/// Sums a bucket's rows into one row.
fn sum_details(v: &Vec<(String, CodeStats)>) -> (r: CodeStats)
    ensures
        r == sum_cs(v@),
{
    let n = v.len();
    let mut r = CodeStats::default();
    let mut i: usize = 0;
    while i < n
        invariant
            i <= n,
            n == v@.len(),
            r == sum_cs(v@.take(i as int)),
        decreases n - i,
    {
        proof {
            assert(v@.take(i as int + 1).drop_last() =~= v@.take(i as int));
            assert(v@.take(i as int + 1).last() == v@[i as int]);
        }
        r.code = r.code.saturating_add(v[i].1.code);
        r.comment = r.comment.saturating_add(v[i].1.comment);
        r.blank = r.blank.saturating_add(v[i].1.blank);
        i += 1;
    }
    proof {
        assert(v@.take(n as int) =~= v@);
    }
    r
}

impl ExtractedData {
    /// Regroups one category's children: skips the data-format rows,
    /// sums each remaining language's production reports into a detail
    /// row, and routes its test and doc reports into the buckets.
    fn extract(
        name: &str,
        stats: TokeiCodeStatistics,
        tests: &mut Vec<(String, CodeStats)>,
        docs: &mut Vec<(String, CodeStats)>,
    ) -> (r: CodeCategory)
        requires
            cs_unique(old(tests)@),
            cs_unique(old(docs)@),
        ensures
            cs_unique(final(tests)@),
            cs_unique(final(docs)@),
            ({
                let st = spec_extract(
                    match stats.children {
                        Some(c) => c@,
                        None => Seq::empty(),
                    },
                    cs_assoc(old(tests)@),
                    cs_assoc(old(docs)@),
                );
                &&& r.name@ == name@
                &&& r.total == st.total
                &&& details_view(r.details@) == st.details
                &&& cs_assoc(final(tests)@) == st.tests
                &&& cs_assoc(final(docs)@) == st.docs
            }),
    {
        let ghost tests0 = cs_assoc(tests@);
        let ghost docs0 = cs_assoc(docs@);
        let mut res = CodeCategory::new(String::from_str(name));
        let children = match stats.children {
            Some(c) => c,
            None => Vec::new(),
        };
        let ghost ch = children@;
        let cn = children.len();
        let mut ci: usize = 0;
        while ci < cn
            invariant
                ci <= cn,
                cn == ch.len(),
                ch == children@,
                res.name@ == name@,
                cs_unique(tests@),
                cs_unique(docs@),
                ({
                    let st = spec_extract(ch.take(ci as int), tests0, docs0);
                    &&& res.total == st.total
                    &&& details_view(res.details@) == st.details
                    &&& cs_assoc(tests@) == st.tests
                    &&& cs_assoc(docs@) == st.docs
                }),
            decreases cn - ci,
        {
            proof {
                assert(ch.take(ci as int + 1).drop_last() =~= ch.take(ci as int));
                assert(ch.take(ci as int + 1).last() == ch[ci as int]);
            }
            let lang_is_data = is_data_lang(children[ci].0.as_str());
            if !lang_is_data {
                let ghost st_prev = spec_extract(ch.take(ci as int), tests0, docs0);
                let ghost langv = ch[ci as int].0@;
                let ghost files = ch[ci as int].1@;
                let mut lang_stats = CodeStats::default();
                let rn = children[ci].1.len();
                let mut ri: usize = 0;
                while ri < rn
                    invariant
                        ri <= rn,
                        ci < cn,
                        cn == ch.len(),
                        ch == children@,
                        rn == files.len(),
                        langv == ch[ci as int].0@,
                        files == ch[ci as int].1@,
                        cs_unique(tests@),
                        cs_unique(docs@),
                        lang_stats == prod_sum(files.take(ri as int), zero_cs()),
                        cs_assoc(tests@) == bucket_add(st_prev.tests, langv, files.take(ri as int), true),
                        cs_assoc(docs@) == bucket_add(st_prev.docs, langv, files.take(ri as int), false),
                    decreases rn - ri,
                {
                    proof {
                        assert(files.take(ri as int + 1).drop_last() =~= files.take(ri as int));
                        assert(files.take(ri as int + 1).last() == files[ri as int]);
                    }
                    let report = &children[ci].1[ri];
                    if str_contains(report.name.as_str(), "test") {
                        cs_upsert(
                            tests,
                            &children[ci].0,
                            report.stats.code,
                            report.stats.comments,
                            report.stats.blanks,
                        );
                    } else if str_contains(report.name.as_str(), "/doc/")
                        || str_contains(report.name.as_str(), "/docs/") {
                        cs_upsert(
                            docs,
                            &children[ci].0,
                            report.stats.code,
                            report.stats.comments,
                            report.stats.blanks,
                        );
                    } else {
                        lang_stats.code = lang_stats.code.saturating_add(report.stats.code);
                        lang_stats.comment = lang_stats.comment.saturating_add(
                            report.stats.comments,
                        );
                        lang_stats.blank = lang_stats.blank.saturating_add(report.stats.blanks);
                    }
                    ri += 1;
                }
                proof {
                    assert(files.take(rn as int) =~= files);
                }
                res.total.code = res.total.code.saturating_add(lang_stats.code);
                res.total.comment = res.total.comment.saturating_add(lang_stats.comment);
                res.total.blank = res.total.blank.saturating_add(lang_stats.blank);
                let lang = children[ci].0.clone();
                let ghost det_before = res.details@;
                res.details.push((lang, lang_stats));
                proof {
                    assert(details_view(res.details@) =~= details_view(det_before).push(
                        (langv, lang_stats),
                    ));
                }
            }
            ci += 1;
        }
        proof {
            assert(ch.take(cn as int) =~= ch);
        }
        res
    }

    /// Regroups the five categories' `"Total"` rows for display and
    /// collects the cross-cutting test and documentation rows.
    pub fn new(data: Data) -> (r: Self)
        requires
            tcs_unique(data.core@),
            has_total(data.core@),
            tcs_unique(data.devtools@),
            has_total(data.devtools@),
            tcs_unique(data.sdks@),
            has_total(data.sdks@),
            tcs_unique(data.thirdparty@),
            has_total(data.thirdparty@),
            tcs_unique(data.userspace@),
            has_total(data.userspace@),
        ensures
            ({
                let st1 = spec_extract(total_children(data.core@), Map::empty(), Map::empty());
                let st2 = spec_extract(total_children(data.devtools@), st1.tests, st1.docs);
                let st3 = spec_extract(total_children(data.sdks@), st2.tests, st2.docs);
                let st4 = spec_extract(total_children(data.thirdparty@), st3.tests, st3.docs);
                let st5 = spec_extract(total_children(data.userspace@), st4.tests, st4.docs);
                &&& r.core.name@ == "Core"@
                &&& r.core.total == st1.total
                &&& details_view(r.core.details@) == st1.details
                &&& r.devtools.name@ == "Devtools"@
                &&& r.devtools.total == st2.total
                &&& details_view(r.devtools.details@) == st2.details
                &&& r.sdks.name@ == "SDKs"@
                &&& r.sdks.total == st3.total
                &&& details_view(r.sdks.details@) == st3.details
                &&& r.thirdparty.name@ == "Third-party"@
                &&& r.thirdparty.total == st4.total
                &&& details_view(r.thirdparty.details@) == st4.details
                &&& r.userspace.name@ == "Userspace"@
                &&& r.userspace.total == st5.total
                &&& details_view(r.userspace.details@) == st5.details
                &&& r.tests.name@ == "Tests"@
                &&& cs_unique(r.tests.details@)
                &&& cs_assoc(r.tests.details@) == st5.tests
                &&& r.tests.total == sum_cs(r.tests.details@)
                &&& r.docs.name@ == "Docs"@
                &&& cs_unique(r.docs.details@)
                &&& cs_assoc(r.docs.details@) == st5.docs
                &&& r.docs.total == sum_cs(r.docs.details@)
            }),
    {
        let Data { core, devtools, sdks, thirdparty, userspace } = data;
        let mut tests_details: Vec<(String, CodeStats)> = Vec::new();
        // Documentation only files.
        let mut doc_details: Vec<(String, CodeStats)> = Vec::new();
        proof {
            assert(tests_details@.len() == 0);
            assert(doc_details@.len() == 0);
        }

        let core_total = match find_total(core) {
            Some(t) => t,
            None => {
                proof {
                    assert(false);
                }
                TokeiCodeStatistics::default()
            },
        };
        let core_cat = Self::extract("Core", core_total, &mut tests_details, &mut doc_details);

        let devtools_total = match find_total(devtools) {
            Some(t) => t,
            None => {
                proof {
                    assert(false);
                }
                TokeiCodeStatistics::default()
            },
        };
        let devtools_cat = Self::extract(
            "Devtools",
            devtools_total,
            &mut tests_details,
            &mut doc_details,
        );

        let sdks_total = match find_total(sdks) {
            Some(t) => t,
            None => {
                proof {
                    assert(false);
                }
                TokeiCodeStatistics::default()
            },
        };
        let sdks_cat = Self::extract("SDKs", sdks_total, &mut tests_details, &mut doc_details);

        let thirdparty_total = match find_total(thirdparty) {
            Some(t) => t,
            None => {
                proof {
                    assert(false);
                }
                TokeiCodeStatistics::default()
            },
        };
        let thirdparty_cat = Self::extract(
            "Third-party",
            thirdparty_total,
            &mut tests_details,
            &mut doc_details,
        );

        let userspace_total = match find_total(userspace) {
            Some(t) => t,
            None => {
                proof {
                    assert(false);
                }
                TokeiCodeStatistics::default()
            },
        };
        let userspace_cat = Self::extract(
            "Userspace",
            userspace_total,
            &mut tests_details,
            &mut doc_details,
        );

        let tests_total = sum_details(&tests_details);
        let tests = CodeCategory {
            name: String::from_str("Tests"),
            details: tests_details,
            total: tests_total,
        };

        let docs_total = sum_details(&doc_details);
        let docs = CodeCategory {
            name: String::from_str("Docs"),
            details: doc_details,
            total: docs_total,
        };

        ExtractedData {
            core: core_cat,
            devtools: devtools_cat,
            sdks: sdks_cat,
            thirdparty: thirdparty_cat,
            userspace: userspace_cat,
            tests,
            docs,
        }
    }
}

} // verus!
