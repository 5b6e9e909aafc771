use code_stats::counter::{combine, merge_results, CountContext, ScanResult, SourceFile};
use code_stats::language::Language;

fn file(name: &str, path: &str) -> SourceFile {
    SourceFile::new(name, path, Some(b"code();\nmore();\n")).expect("classified")
}

/// All files of the tree as (path, language) pairs, sorted.
fn flatten(ctx: &CountContext) -> Vec<(String, Language)> {
    let mut out = Vec::new();
    collect(ctx, "", &mut out);
    out.sort_by(|a, b| a.0.cmp(&b.0));
    out
}

fn collect(ctx: &CountContext, prefix: &str, out: &mut Vec<(String, Language)>) {
    for f in &ctx.files {
        out.push((format!("{prefix}{}", f.file_name), f.lang.clone()));
    }
    for d in &ctx.dirs {
        let sub = format!("{prefix}{}/", d.dir_name);
        collect(d, &sub, out);
    }
}

#[test]
fn source_file_buckets_by_path() {
    // a path containing "test" routes the counts to the test bucket
    let f = SourceFile::new("FooTest.java", "app/src/test/FooTest.java", Some(b"a\nb\n"))
        .expect("classified");
    assert_eq!(f.lang, Language::JAVA);
    assert!(f.test_stats.is_some());
    assert!(f.code_stats.is_none());
    // otherwise to the production bucket
    let g = SourceFile::new("Foo.java", "app/src/main/Foo.java", Some(b"a\nb\n")).expect("classified");
    assert!(g.code_stats.is_some());
    assert!(g.test_stats.is_none());
}

#[test]
fn source_file_unreadable_keeps_both_buckets_empty() {
    let f = SourceFile::new("a.rs", "src/a.rs", None).expect("classified");
    assert!(f.code_stats.is_none());
    assert!(f.test_stats.is_none());
}

#[test]
fn source_file_excluded_yields_no_record() {
    assert!(SourceFile::new("a.jar", "libs/a.jar", Some(b"x\n")).is_none());
    assert!(SourceFile::new("README", "doc/README", Some(b"x\n")).is_none());
}

#[test]
fn merge_is_order_and_grouping_insensitive() {
    let build = |order: [usize; 3], grouping_left: bool| {
        let mk = |i: usize| -> ScanResult {
            match i {
                0 => ScanResult::File(file("a.rs", "p/a.rs")),
                1 => ScanResult::File(file("b.c", "p/b.c")),
                _ => {
                    let sub = merge_results(
                        "sub",
                        vec![ScanResult::File(file("inner.py", "p/sub/inner.py")),
                             ScanResult::File(file("other.py", "p/sub/other.py"))],
                    );
                    ScanResult::Dir(sub)
                },
            }
        };
        let (x, y, z) = (mk(order[0]), mk(order[1]), mk(order[2]));
        let merged = if grouping_left {
            combine("p", combine("p", x, y), z)
        } else {
            combine("p", x, combine("p", y, z))
        };
        let ctx = merge_results("p", vec![merged]);
        flatten(&ctx)
    };
    let reference = build([0, 1, 2], true);
    assert_eq!(reference.len(), 4);
    for order in [[0usize, 1, 2], [2, 1, 0], [1, 2, 0], [0, 2, 1]] {
        for grouping_left in [true, false] {
            assert_eq!(build(order, grouping_left), reference);
        }
    }
}

#[test]
fn merge_absorbs_empty_aggregates() {
    let empty = ScanResult::Dir(CountContext::new(String::new()));
    let f = ScanResult::File(file("a.rs", "p/a.rs"));
    let ctx = merge_results("p", vec![empty, f]);
    assert_eq!(ctx.dir_name, "p");
    assert_eq!(ctx.files.len(), 1);
    assert_eq!(ctx.dirs.len(), 0);
}

#[test]
fn single_file_directory_compresses_into_parent() {
    // the example tree: src holds main.rs and util, util holds only helper.rs
    let util = merge_results(
        "util",
        vec![ScanResult::File(file("helper.rs", "src/util/helper.rs"))],
    );
    assert_eq!(util.files.len(), 1);
    let src = merge_results(
        "src",
        vec![ScanResult::File(file("main.rs", "src/main.rs")), ScanResult::Dir(util)],
    );
    assert_eq!(src.dir_name, "src");
    assert_eq!(src.files.len(), 2);
    assert_eq!(src.dirs.len(), 0);
    let mut names: Vec<&str> = src.files.iter().map(|f| f.file_name.as_str()).collect();
    names.sort();
    assert_eq!(names, ["main.rs", "util/helper.rs"]);
}

#[test]
fn compression_collapses_one_level_per_insertion() {
    // outer/inner/file.ext collapses over two insertions
    let inner = merge_results("inner", vec![ScanResult::File(file("file.rs", "x/file.rs"))]);
    let outer = merge_results("outer", vec![ScanResult::Dir(inner)]);
    assert_eq!(outer.files.len(), 1);
    assert_eq!(outer.files[0].file_name, "inner/file.rs");
    let mut parent = CountContext::new(String::from("top"));
    parent.insert_context(outer);
    assert_eq!(parent.dirs.len(), 0);
    assert_eq!(parent.files.len(), 1);
    assert_eq!(parent.files[0].file_name, "outer/inner/file.rs");
}

#[test]
fn compression_skips_identical_names() {
    let sub = merge_results("a.rs", vec![ScanResult::File(file("a.rs", "x/a.rs"))]);
    let mut parent = CountContext::new(String::from("top"));
    parent.insert_context(sub);
    // the directory and its single file share the name: no prefix is added
    assert_eq!(parent.files.len(), 1);
    assert_eq!(parent.files[0].file_name, "a.rs");
}

#[test]
fn excluded_only_directory_stays_empty_and_unattached() {
    // a directory holding only ".git" and "a.jpg" contributes nothing
    let mut results: Vec<ScanResult> = Vec::new();
    assert!(code_stats::scanner::skip_entry(".git", false, false));
    assert!(code_stats::scanner::skip_entry("a.jpg", true, false));
    // neither entry survives the filter, so the reduction sees nothing
    let ctx = merge_results("empty_dir", std::mem::take(&mut results));
    assert_eq!(ctx.files.len(), 0);
    assert_eq!(ctx.dirs.len(), 0);
    // and attaching the empty aggregate to a parent changes nothing
    let mut parent = CountContext::new(String::from("p"));
    parent.insert_context(ctx);
    assert_eq!(parent.files.len(), 0);
    assert_eq!(parent.dirs.len(), 0);
}

#[test]
fn deep_directories_stay_nested() {
    let sub = merge_results(
        "sub",
        vec![ScanResult::File(file("a.rs", "p/sub/a.rs")), ScanResult::File(file("b.rs", "p/sub/b.rs"))],
    );
    let top = merge_results("top", vec![ScanResult::Dir(sub), ScanResult::File(file("c.rs", "p/c.rs"))]);
    assert_eq!(top.files.len(), 1);
    assert_eq!(top.dirs.len(), 1);
    assert_eq!(top.dirs[0].dir_name, "sub");
    assert_eq!(top.dirs[0].files.len(), 2);
}
