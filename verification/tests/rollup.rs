use code_stats::counter::{merge_results, CountContext, ScanResult, SourceFile};
use code_stats::lang_stats::{HasStats, LangStats};
use code_stats::language::Language;

fn get(stats: &[(Language, LangStats)], lang: &Language) -> Option<LangStats> {
    stats.iter().find(|(l, _)| l == lang).map(|(_, s)| *s)
}

/// Joins two rollup lists the way the rollup itself would.
fn join_lists(
    a: &[(Language, LangStats)],
    b: &[(Language, LangStats)],
) -> Vec<(Language, LangStats)> {
    let mut out: Vec<(Language, LangStats)> = a.to_vec();
    for (lang, st) in b {
        match out.iter_mut().find(|(l, _)| l == lang) {
            Some(slot) => slot.1.join(st),
            None => out.push((lang.clone(), *st)),
        }
    }
    out
}

fn same_totals(a: &[(Language, LangStats)], b: &[(Language, LangStats)]) -> bool {
    a.len() == b.len() && a.iter().all(|(l, s)| get(b, l) == Some(*s))
}

fn prod_file(name: &str, content: &[u8]) -> SourceFile {
    SourceFile::new(name, "main/x", Some(content)).expect("classified")
}

fn test_file(name: &str, content: &[u8]) -> SourceFile {
    SourceFile::new(name, "test/x", Some(content)).expect("classified")
}

#[test]
fn lang_stats_add_counts_one_file() {
    let f = prod_file("a.rs", b"code\n// c\n\nmore\n");
    // 4 lines: 1 comment, 1 blank, 2 code
    let mut st = LangStats::new();
    st.add(&f);
    assert_eq!(st.total_files, 1);
    assert_eq!(st.code_files, 1);
    assert_eq!(st.test_files, 0);
    assert_eq!(st.total_lines, 4);
    assert_eq!(st.code_lines, 4);
    assert_eq!(st.code_comment_lines, 1);
    assert_eq!(st.code_empty_lines, 1);
    assert_eq!(st.test_lines, 0);
}

#[test]
fn lang_stats_add_routes_test_files() {
    let f = test_file("a.rs", b"x\ny\n");
    let mut st = LangStats::new();
    st.add(&f);
    assert_eq!(st.total_files, 1);
    assert_eq!(st.code_files, 0);
    assert_eq!(st.test_files, 1);
    assert_eq!(st.total_lines, 2);
    assert_eq!(st.code_lines, 0);
    assert_eq!(st.test_lines, 2);
}

#[test]
fn lang_stats_add_counts_unreadable_files() {
    let f = SourceFile::new("a.rs", "src/a.rs", None).expect("classified");
    let mut st = LangStats::new();
    st.add(&f);
    assert_eq!(st.total_files, 1);
    assert_eq!(st.code_files, 0);
    assert_eq!(st.test_files, 0);
    assert_eq!(st.total_lines, 0);
}

#[test]
fn lang_stats_join_adds_field_wise() {
    let mut a = LangStats::new();
    a.add(&prod_file("a.rs", b"x\n\ny\n"));
    let mut b = LangStats::new();
    b.add(&test_file("b.rs", b"x\n// c\n"));
    let mut joined = a;
    joined.join(&b);
    assert_eq!(joined.total_files, 2);
    assert_eq!(joined.code_files, 1);
    assert_eq!(joined.test_files, 1);
    assert_eq!(joined.total_lines, 5);
    assert_eq!(joined.code_lines, 3);
    assert_eq!(joined.test_lines, 2);
    assert_eq!(joined.code_empty_lines, 1);
    assert_eq!(joined.test_comment_lines, 1);
}

#[test]
fn lang_stats_join_saturates() {
    let mut a = LangStats::new();
    a.total_files = u16::MAX - 1;
    a.total_lines = u32::MAX - 10;
    let mut b = LangStats::new();
    b.total_files = 5;
    b.total_lines = 100;
    a.join(&b);
    assert_eq!(a.total_files, u16::MAX);
    assert_eq!(a.total_lines, u32::MAX);
}

#[test]
fn file_rollup_has_one_language() {
    let f = prod_file("a.py", b"x\n# c\n\n");
    let stats = f.stats();
    assert_eq!(stats.len(), 1);
    let st = get(&stats, &Language::PYTHON).expect("python entry");
    assert_eq!(st.total_files, 1);
    assert_eq!(st.total_lines, 3);
    assert_eq!(st.code_comment_lines, 1);
}

#[test]
fn tree_rollup_covers_subdirectories() {
    let sub = merge_results(
        "sub",
        vec![
            ScanResult::File(prod_file("x.rs", b"a\nb\n")),
            ScanResult::File(prod_file("y.py", b"c\n")),
        ],
    );
    let top = merge_results(
        "top",
        vec![ScanResult::Dir(sub), ScanResult::File(prod_file("z.rs", b"d\ne\nf\n"))],
    );
    let stats = top.stats();
    assert_eq!(stats.len(), 2);
    let rust = get(&stats, &Language::RUST).expect("rust entry");
    assert_eq!(rust.total_files, 2);
    assert_eq!(rust.total_lines, 5);
    let py = get(&stats, &Language::PYTHON).expect("python entry");
    assert_eq!(py.total_files, 1);
    assert_eq!(py.total_lines, 1);
}

#[test]
fn rollup_of_join_equals_join_of_rollups() {
    let a = merge_results(
        "a",
        vec![
            ScanResult::File(prod_file("x.rs", b"a\nb\n")),
            ScanResult::File(test_file("t.rs", b"c\n")),
            ScanResult::File(prod_file("m.py", b"d\n\n")),
        ],
    );
    let b = merge_results(
        "b",
        vec![
            ScanResult::File(prod_file("y.rs", b"e\n// f\n")),
            ScanResult::File(prod_file("n.java", b"g\n")),
        ],
    );
    let a_stats = a.stats();
    let b_stats = b.stats();
    let joined = join_lists(&a_stats, &b_stats);

    let whole = merge_results("p", vec![ScanResult::Dir(a), ScanResult::Dir(b)]);
    let whole_stats = whole.stats();
    assert!(same_totals(&whole_stats, &joined));
}

#[test]
fn names_come_back_unchanged() {
    let f = prod_file("a.rs", b"x\n");
    assert_eq!(f.name(), "a.rs");
    let ctx = CountContext::new(String::from("dir"));
    assert_eq!(ctx.name(), "dir");
}
