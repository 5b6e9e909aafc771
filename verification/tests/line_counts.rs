use code_stats::file_stats::{count_differentiated_lines, CommentStyle, FileStats};
use code_stats::language::Language;

#[test]
fn newline_count_is_the_line_total() {
    let (t, _, _) = count_differentiated_lines(b"a\nb\nc\n", CommentStyle::UNKNOWN);
    assert_eq!(t, 3);
    // a final line without a trailing newline is not counted
    let (t, _, _) = count_differentiated_lines(b"a\nb\nc", CommentStyle::UNKNOWN);
    assert_eq!(t, 2);
    let (t, c, b) = count_differentiated_lines(b"", CommentStyle::C);
    assert_eq!((t, c, b), (0, 0, 0));
}

#[test]
fn unknown_style_counts_no_comments() {
    let (t, c, b) = count_differentiated_lines(b"# x\n// y\ncode\n", CommentStyle::UNKNOWN);
    assert_eq!(t, 3);
    assert_eq!(c, 0);
    assert_eq!(b, 0);
}

#[test]
fn blank_lines_consume_their_closing_newline() {
    // one blank line between code lines
    let (_, _, b) = count_differentiated_lines(b"a\n\nb\n", CommentStyle::UNKNOWN);
    assert_eq!(b, 1);
    // a whitespace-only line is blank
    let (_, _, b) = count_differentiated_lines(b"a\n \t\r\nb\n", CommentStyle::UNKNOWN);
    assert_eq!(b, 1);
    // two adjacent blank lines: the first match eats the shared newline
    let (_, _, b) = count_differentiated_lines(b"a\n\n\nb\n", CommentStyle::UNKNOWN);
    assert_eq!(b, 1);
    // three newlines in a row after one more give two matches
    let (_, _, b) = count_differentiated_lines(b"a\n\n\n\nb\n", CommentStyle::UNKNOWN);
    assert_eq!(b, 2);
}

#[test]
fn hash_comments_need_an_opening_newline() {
    let (t, c, b) = count_differentiated_lines(b"x=1\n# c\n\n#c2\n", CommentStyle::BASH);
    assert_eq!(t, 4);
    assert_eq!(c, 2);
    assert_eq!(b, 1);
    // a comment on the very first line has no opening newline and is missed
    let (_, c, _) = count_differentiated_lines(b"# first\ncode\n", CommentStyle::BASH);
    assert_eq!(c, 0);
    // leading whitespace before the hash is fine
    let (_, c, _) = count_differentiated_lines(b"x\n   # indented\ny\n", CommentStyle::BASH);
    assert_eq!(c, 1);
}

#[test]
fn slash_comments_single_and_block() {
    let (t, c, b) = count_differentiated_lines(b"x\n// note\ny\n", CommentStyle::C);
    assert_eq!((t, c, b), (3, 1, 0));
    // block comments count the newlines inside the block
    let (t, c, b) = count_differentiated_lines(b"a\n/* x\ny\n*/\nb\n", CommentStyle::C);
    assert_eq!(t, 5);
    assert_eq!(c, 2);
    assert_eq!(b, 0);
    // an unclosed block comment matches nothing
    let (_, c, _) = count_differentiated_lines(b"a\n/* open\nb\n", CommentStyle::C);
    assert_eq!(c, 0);
    // a one-line block has no inner newline
    let (_, c, _) = count_differentiated_lines(b"a\n/* x */ b\nc\n", CommentStyle::C);
    assert_eq!(c, 0);
}

#[test]
fn line_count_conservation_on_plain_files() {
    for content in [
        &b"fn f() {}\n// c\n\nlet x;\n"[..],
        &b"a\nb\n\nc\n# h\n"[..],
        &b"x=1\n# c\n\n#c2\n"[..],
    ] {
        for style in [CommentStyle::BASH, CommentStyle::C, CommentStyle::UNKNOWN] {
            let (t, c, b) = count_differentiated_lines(content, style);
            assert!(c + b <= t);
            let code = t - (c + b);
            assert_eq!(code + c + b, t);
        }
    }
}

#[test]
fn code_count_clamps_at_zero() {
    // every line of this file sits inside the block comment, and the
    // blank scan matches one of them again: comment 3 + blank 1 > total 3
    let stats = FileStats::new(b"/*\n\n\n*/", &Language::RUST);
    assert_eq!(stats.comment_lines, 3);
    assert_eq!(stats.empty_lines, 1);
    assert_eq!(stats.code_lines, 0);
}

#[test]
fn fifty_line_source_file() {
    // 50 newline-terminated lines: 5 slash comments, 3 blank, 42 code
    let mut content = String::new();
    for i in 0..50 {
        if [5, 10, 15, 20, 25].contains(&i) {
            content.push_str("// comment\n");
        } else if [7, 30, 40].contains(&i) {
            content.push('\n');
        } else {
            content.push_str("code();\n");
        }
    }
    let stats = FileStats::new(content.as_bytes(), &Language::RUST);
    assert_eq!(stats.code_lines, 42);
    assert_eq!(stats.comment_lines, 5);
    assert_eq!(stats.empty_lines, 3);
}

#[test]
fn styles_follow_the_language() {
    let content = &b"x\n# h\n// s\ny\n"[..];
    // hash style sees the hash line only
    let py = FileStats::new(content, &Language::PYTHON);
    assert_eq!(py.comment_lines, 1);
    // slash style sees the slash line only
    let rs = FileStats::new(content, &Language::RUST);
    assert_eq!(rs.comment_lines, 1);
    // unknown style sees neither
    let other = FileStats::new(content, &Language::OTHER(String::from("txt")));
    assert_eq!(other.comment_lines, 0);
    let assembly = FileStats::new(content, &Language::ASSEMBLY);
    assert_eq!(assembly.comment_lines, 0);
}
