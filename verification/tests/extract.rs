use code_stats::extractor::ExtractedData;
use code_stats::parser::{Data, TokeiCodeStatistics, TokeiReport, TokeiStats};

fn report(name: &str, code: u32, comments: u32, blanks: u32) -> TokeiReport {
    TokeiReport {
        name: String::from(name),
        stats: TokeiStats { blanks, code, comments, blobs: Vec::new() },
    }
}

fn total_row(children: Vec<(String, Vec<TokeiReport>)>) -> (String, TokeiCodeStatistics) {
    (
        String::from("Total"),
        TokeiCodeStatistics {
            children: Some(children),
            blanks: 0,
            code: 0,
            comments: 0,
            reports: None,
        },
    )
}

fn empty_category() -> Vec<(String, TokeiCodeStatistics)> {
    vec![total_row(Vec::new())]
}

#[test]
fn extract_partitions_reports() {
    let core_children = vec![
        (
            String::from("Rust"),
            vec![report("src/lib.rs", 10, 1, 2), report("x/test/y.rs", 5, 0, 0)],
        ),
        (String::from("Json"), vec![report("conf.json", 99, 0, 0)]),
        (String::from("C"), vec![report("a/doc/z.c", 7, 1, 1)]),
    ];
    let data = Data {
        core: vec![total_row(core_children)],
        devtools: empty_category(),
        sdks: empty_category(),
        thirdparty: empty_category(),
        userspace: empty_category(),
    };
    let extracted = ExtractedData::new(data);

    assert_eq!(extracted.core.name, "Core");
    // the data-format row is skipped; the other languages each get one
    // row holding their production sums only
    assert_eq!(extracted.core.details.len(), 2);
    assert_eq!(extracted.core.details[0].0, "Rust");
    let rust = &extracted.core.details[0].1;
    assert_eq!((rust.code, rust.comment, rust.blank), (10, 1, 2));
    assert_eq!(extracted.core.details[1].0, "C");
    let c = &extracted.core.details[1].1;
    assert_eq!((c.code, c.comment, c.blank), (0, 0, 0));
    let t = &extracted.core.total;
    assert_eq!((t.code, t.comment, t.blank), (10, 1, 2));

    // the test report went to the cross-cutting Tests category
    assert_eq!(extracted.tests.name, "Tests");
    assert_eq!(extracted.tests.details.len(), 1);
    assert_eq!(extracted.tests.details[0].0, "Rust");
    let tr = &extracted.tests.details[0].1;
    assert_eq!((tr.code, tr.comment, tr.blank), (5, 0, 0));
    let tt = &extracted.tests.total;
    assert_eq!((tt.code, tt.comment, tt.blank), (5, 0, 0));

    // the doc report went to the Docs category
    assert_eq!(extracted.docs.details.len(), 1);
    assert_eq!(extracted.docs.details[0].0, "C");
    let dr = &extracted.docs.details[0].1;
    assert_eq!((dr.code, dr.comment, dr.blank), (7, 1, 1));

    // the untouched categories are empty
    assert_eq!(extracted.devtools.details.len(), 0);
    let dt = &extracted.devtools.total;
    assert_eq!((dt.code, dt.comment, dt.blank), (0, 0, 0));
}

#[test]
fn extract_accumulates_buckets_across_categories() {
    let mk = |lang: &str, name: &str| {
        vec![total_row(vec![(String::from(lang), vec![report(name, 3, 1, 1)])])]
    };
    let data = Data {
        core: mk("Rust", "a/test/one.rs"),
        devtools: mk("Rust", "b/test/two.rs"),
        sdks: empty_category(),
        thirdparty: empty_category(),
        userspace: empty_category(),
    };
    let extracted = ExtractedData::new(data);
    // both test reports land in the same Tests row
    assert_eq!(extracted.tests.details.len(), 1);
    let tr = &extracted.tests.details[0].1;
    assert_eq!((tr.code, tr.comment, tr.blank), (6, 2, 2));
    // the categories keep their (empty) production rows
    assert_eq!(extracted.core.details.len(), 1);
    assert_eq!(extracted.core.details[0].1.code, 0);
}
