use code_stats::parser::{Data, TokeiCodeStatistics};

fn tcs(code: u32, comments: u32, blanks: u32) -> TokeiCodeStatistics {
    TokeiCodeStatistics { children: None, blanks, code, comments, reports: None }
}

fn entry(name: &str, code: u32, comments: u32, blanks: u32) -> (String, TokeiCodeStatistics) {
    (String::from(name), tcs(code, comments, blanks))
}

fn get<'a>(
    rows: &'a [(String, TokeiCodeStatistics)],
    key: &str,
) -> Option<&'a TokeiCodeStatistics> {
    rows.iter().find(|(k, _)| k == key).map(|(_, v)| v)
}

#[test]
fn tokei_join_adds_numbers() {
    let mut a = tcs(10, 2, 3);
    a.join(&tcs(5, 1, 1));
    assert_eq!(a.code, 15);
    assert_eq!(a.comments, 3);
    assert_eq!(a.blanks, 4);
    assert!(a.children.is_none());
}

#[test]
fn tokei_join_saturates() {
    let mut a = tcs(u32::MAX - 2, 0, 0);
    a.join(&tcs(10, 0, 0));
    assert_eq!(a.code, u32::MAX);
}

#[test]
fn tokei_default_is_empty() {
    let d = TokeiCodeStatistics::default();
    assert_eq!((d.code, d.comments, d.blanks), (0, 0, 0));
    assert!(d.children.is_none());
    assert!(d.reports.is_none());
}

#[test]
fn lang_overview_sums_categories_and_joins_spellings() {
    let data = Data {
        core: vec![
            entry("Total", 1000, 10, 10),
            entry("Rust", 100, 20, 30),
            entry("C++", 40, 4, 4),
        ],
        devtools: vec![
            entry("Rust", 50, 5, 5),
            entry("C++ Header", 7, 1, 1),
            entry("JSON", 99, 0, 0),
        ],
        sdks: vec![entry("Cpp", 3, 0, 0), entry("XML", 5, 5, 5)],
        thirdparty: vec![entry("C Header", 11, 2, 2), entry("HTML", 8, 0, 0)],
        userspace: vec![entry("C", 9, 1, 1)],
    };
    let rows = data.lang_overview();

    // the non-language rows are gone
    assert!(get(&rows, "Total").is_none());
    assert!(get(&rows, "XML").is_none());
    assert!(get(&rows, "HTML").is_none());
    assert!(get(&rows, "JSON").is_none());

    // the raw spellings are folded into one row per family
    assert!(get(&rows, "C++ Header").is_none());
    assert!(get(&rows, "Cpp").is_none());
    assert!(get(&rows, "C Header").is_none());

    let rust = get(&rows, "Rust").expect("rust row");
    assert_eq!((rust.code, rust.comments, rust.blanks), (150, 25, 35));

    let cpp = get(&rows, "C++").expect("c++ row");
    assert_eq!((cpp.code, cpp.comments, cpp.blanks), (50, 5, 5));

    let c = get(&rows, "C").expect("c row");
    assert_eq!((c.code, c.comments, c.blanks), (20, 3, 3));

    assert_eq!(rows.len(), 3);
}

#[test]
fn lang_overview_inserts_group_rows_even_when_absent() {
    let data = Data {
        core: vec![entry("Rust", 1, 0, 0)],
        devtools: vec![],
        sdks: vec![],
        thirdparty: vec![],
        userspace: vec![],
    };
    let rows = data.lang_overview();
    // the C and C++ rows appear with zero counts, as the clean-up pass
    // always puts one row per family back
    let cpp = get(&rows, "C++").expect("c++ row");
    assert_eq!((cpp.code, cpp.comments, cpp.blanks), (0, 0, 0));
    let c = get(&rows, "C").expect("c row");
    assert_eq!((c.code, c.comments, c.blanks), (0, 0, 0));
    assert_eq!(rows.len(), 3);
}

#[test]
fn lang_overview_joins_duplicate_rows_in_one_category() {
    // the same language twice in one category list is summed as well
    let data = Data {
        core: vec![entry("Rust", 1, 1, 1), entry("Rust", 2, 2, 2)],
        devtools: vec![],
        sdks: vec![],
        thirdparty: vec![],
        userspace: vec![],
    };
    let rows = data.lang_overview();
    let rust = get(&rows, "Rust").expect("rust row");
    assert_eq!((rust.code, rust.comments, rust.blanks), (3, 3, 3));
}
