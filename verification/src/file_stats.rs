//! The Line Classifier: splits a file's content into total, comment and
//! blank line counts with one linear text scan per pattern.
//!
//! The patterns work on bytes; every anchor byte (newline, `#`, `/`, `*`,
//! the intra-line whitespace set) is ASCII, so the scan sees the same
//! matches on UTF-8 text as a character-level scan would.
//!
//! The counts are deliberate heuristics: a matched blank or comment line
//! consumes its closing newline, so the immediately following blank or
//! comment line is not matched again; block comments are matched shortest
//! first; comments inside string literals are not recognised.  These
//! limitations are part of the counts' definition, not defects.

use vstd::prelude::*;
use vstd::slice::slice_index_get;
use crate::language::Language;
use crate::language::LangTag;

verus! {

/// Line counts of one file, for one bucket (production or test).
///
/// Every count saturates at `u16::MAX` instead of overflowing, and the
/// code count is clamped at zero when the comment and blank heuristics
/// together match more lines than the file holds.
#[derive(Clone, Copy, Debug, PartialEq, Eq, Structural)]
pub struct FileStats {
    pub code_lines: u16,
    pub empty_lines: u16,
    pub comment_lines: u16,
}

/// The comment convention a language is scanned with.
#[derive(Clone, Copy, Debug, PartialEq, Eq, Structural)]
pub enum CommentStyle {
    /// Comments between `#` and the end of the line.
    BASH,
    /// Comments between `//` and the end of the line, or `/*` and `*/`.
    C,
    /// No comment counting.
    UNKNOWN,
}

/// Intra-line whitespace: ASCII whitespace other than the newline.
pub open spec fn is_line_ws(b: u8) -> bool {
    b == 32 || b == 9 || b == 13 || b == 11 || b == 12
}

fn is_ws_byte(b: u8) -> (r: bool)
    ensures
        r == is_line_ws(b),
{
    b == 32 || b == 9 || b == 13 || b == 11 || b == 12
}

/// First position at or after `i` that does not hold intra-line
/// whitespace (`s.len()` when the tail is all whitespace).
pub open spec fn ws_end(s: Seq<u8>, i: int) -> int
    decreases s.len() - i,
        when 0 <= i <= s.len()
{
    if i >= s.len() {
        i
    } else if is_line_ws(s[i]) {
        ws_end(s, i + 1)
    } else {
        i
    }
}

/// First position at or after `i` holding a newline (`s.len()` when none).
pub open spec fn line_end(s: Seq<u8>, i: int) -> int
    decreases s.len() - i,
        when 0 <= i <= s.len()
{
    if i >= s.len() {
        i
    } else if s[i] == 10 {
        i
    } else {
        line_end(s, i + 1)
    }
}

/// First position at or after `i` where a `*/` pair starts (`s.len()`
/// when none follows).
pub open spec fn close_at(s: Seq<u8>, i: int) -> int
    decreases s.len() - i,
        when 0 <= i <= s.len()
{
    if i + 1 >= s.len() {
        s.len() as int
    } else if s[i] == 42 && s[i + 1] == 47 {
        i
    } else {
        close_at(s, i + 1)
    }
}

/// Number of newline bytes in `s` before position `i`.
pub open spec fn nl_upto(s: Seq<u8>, i: int) -> nat
    decreases i,
        when 0 <= i <= s.len()
{
    if i <= 0 {
        0
    } else {
        nl_upto(s, i - 1) + (if s[i - 1] == 10 { 1nat } else { 0nat })
    }
}

pub proof fn lemma_ws_end_bounds(s: Seq<u8>, i: int)
    requires
        0 <= i <= s.len(),
    ensures
        i <= ws_end(s, i) <= s.len(),
    decreases s.len() - i,
{
    if i < s.len() && is_line_ws(s[i]) {
        lemma_ws_end_bounds(s, i + 1);
    }
}

proof fn lemma_ws_end_at(s: Seq<u8>, i: int, e: int)
    requires
        0 <= i <= e <= s.len(),
        forall|j: int| i <= j < e ==> is_line_ws(s[j]),
        e == s.len() || !is_line_ws(s[e]),
    ensures
        ws_end(s, i) == e,
    decreases e - i,
{
    if i < e {
        lemma_ws_end_at(s, i + 1, e);
    }
}

pub proof fn lemma_line_end_bounds(s: Seq<u8>, i: int)
    requires
        0 <= i <= s.len(),
    ensures
        i <= line_end(s, i) <= s.len(),
        line_end(s, i) < s.len() ==> s[line_end(s, i)] == 10,
    decreases s.len() - i,
{
    if i < s.len() && s[i] != 10 {
        lemma_line_end_bounds(s, i + 1);
    }
}

proof fn lemma_line_end_at(s: Seq<u8>, i: int, e: int)
    requires
        0 <= i <= e <= s.len(),
        forall|j: int| i <= j < e ==> s[j] != 10,
        e == s.len() || s[e] == 10,
    ensures
        line_end(s, i) == e,
    decreases e - i,
{
    if i < e {
        lemma_line_end_at(s, i + 1, e);
    }
}

pub proof fn lemma_close_at_bounds(s: Seq<u8>, i: int)
    requires
        0 <= i <= s.len(),
    ensures
        i <= close_at(s, i) <= s.len(),
        close_at(s, i) < s.len() ==> close_at(s, i) + 1 < s.len()
            && s[close_at(s, i)] == 42 && s[close_at(s, i) + 1] == 47,
    decreases s.len() - i,
{
    if i + 1 < s.len() && !(s[i] == 42 && s[i + 1] == 47) {
        lemma_close_at_bounds(s, i + 1);
    }
}

proof fn lemma_close_at_found(s: Seq<u8>, i: int, k: int)
    requires
        0 <= i <= k,
        k + 1 < s.len(),
        s[k] == 42 && s[k + 1] == 47,
        forall|j: int| i <= j < k ==> !((#[trigger] s[j]) == 42 && s[j + 1] == 47),
    ensures
        close_at(s, i) == k,
    decreases k - i,
{
    if i < k {
        lemma_close_at_found(s, i + 1, k);
    }
}

proof fn lemma_close_at_none(s: Seq<u8>, i: int)
    requires
        0 <= i <= s.len(),
        forall|j: int| i <= j && j + 1 < s.len() ==> !((#[trigger] s[j]) == 42 && s[j + 1] == 47),
    ensures
        close_at(s, i) == s.len(),
    decreases s.len() - i,
{
    if i + 1 < s.len() {
        lemma_close_at_none(s, i + 1);
    }
}

pub proof fn lemma_nl_upto_mono(s: Seq<u8>, a: int, b: int)
    requires
        0 <= a <= b <= s.len(),
    ensures
        nl_upto(s, a) <= nl_upto(s, b) <= nl_upto(s, a) + (b - a),
    decreases b - a,
{
    if a < b {
        lemma_nl_upto_mono(s, a, b - 1);
    }
}

/// Blank lines: non-overlapping, shortest matches of "newline,
/// intra-line whitespace only, newline".  A match consumes its closing
/// newline, so the second of two adjacent blank lines is not matched.
pub open spec fn blank_from(s: Seq<u8>, i: int) -> nat
    decreases s.len() - i,
        when 0 <= i <= s.len()
        via blank_from_decreases
{
    if i >= s.len() {
        0
    } else if s[i] == 10 {
        let e = ws_end(s, i + 1);
        if e < s.len() && s[e] == 10 {
            1 + blank_from(s, e + 1)
        } else {
            blank_from(s, i + 1)
        }
    } else {
        blank_from(s, i + 1)
    }
}

#[via_fn]
proof fn blank_from_decreases(s: Seq<u8>, i: int) {
    if 0 <= i && i < s.len() {
        lemma_ws_end_bounds(s, i + 1);
    }
}

/// Hash comment lines: non-overlapping matches of "newline, optional
/// intra-line whitespace, `#`, rest of the line, newline".
pub open spec fn hash_from(s: Seq<u8>, i: int) -> nat
    decreases s.len() - i,
        when 0 <= i <= s.len()
        via hash_from_decreases
{
    if i >= s.len() {
        0
    } else if s[i] == 10 {
        let e = ws_end(s, i + 1);
        if e < s.len() && s[e] == 35 {
            let k = line_end(s, e + 1);
            if k < s.len() {
                1 + hash_from(s, k + 1)
            } else {
                hash_from(s, i + 1)
            }
        } else {
            hash_from(s, i + 1)
        }
    } else {
        hash_from(s, i + 1)
    }
}

#[via_fn]
proof fn hash_from_decreases(s: Seq<u8>, i: int) {
    if 0 <= i && i < s.len() {
        lemma_ws_end_bounds(s, i + 1);
        let e = ws_end(s, i + 1);
        if e < s.len() {
            lemma_line_end_bounds(s, e + 1);
        }
    }
}

/// Single-line slash comments: non-overlapping matches of "newline,
/// optional intra-line whitespace, `//`, rest of the line, newline".
pub open spec fn slash_from(s: Seq<u8>, i: int) -> nat
    decreases s.len() - i,
        when 0 <= i <= s.len()
        via slash_from_decreases
{
    if i >= s.len() {
        0
    } else if s[i] == 10 {
        let e = ws_end(s, i + 1);
        if e + 1 < s.len() && s[e] == 47 && s[e + 1] == 47 {
            let k = line_end(s, e + 2);
            if k < s.len() {
                1 + slash_from(s, k + 1)
            } else {
                slash_from(s, i + 1)
            }
        } else {
            slash_from(s, i + 1)
        }
    } else {
        slash_from(s, i + 1)
    }
}

#[via_fn]
proof fn slash_from_decreases(s: Seq<u8>, i: int) {
    if 0 <= i && i < s.len() {
        lemma_ws_end_bounds(s, i + 1);
        let e = ws_end(s, i + 1);
        if e + 1 < s.len() {
            lemma_line_end_bounds(s, e + 2);
        }
    }
}

/// Newlines inside `/*`..`*/` blocks, each block found shortest-first
/// and consumed whole before the scan continues.
pub open spec fn block_nl_from(s: Seq<u8>, i: int) -> nat
    decreases s.len() - i,
        when 0 <= i <= s.len()
        via block_nl_from_decreases
{
    if i + 1 >= s.len() {
        0
    } else if s[i] == 47 && s[i + 1] == 42 {
        let k = close_at(s, i + 2);
        if k < s.len() {
            (nl_upto(s, k) - nl_upto(s, i + 2)) as nat + block_nl_from(s, k + 2)
        } else {
            0
        }
    } else {
        block_nl_from(s, i + 1)
    }
}

#[via_fn]
proof fn block_nl_from_decreases(s: Seq<u8>, i: int) {
    if 0 <= i && i + 1 < s.len() {
        lemma_close_at_bounds(s, i + 2);
    }
}

/// Total lines of a file: its newline count (a final line without a
/// trailing newline is not counted).
pub open spec fn spec_total_lines(s: Seq<u8>) -> nat {
    nl_upto(s, s.len() as int)
}

/// Blank lines of a file.
pub open spec fn spec_blank_lines(s: Seq<u8>) -> nat {
    blank_from(s, 0)
}

/// Comment lines of a file under one comment convention.
pub open spec fn spec_comment_lines(s: Seq<u8>, style: CommentStyle) -> nat {
    match style {
        CommentStyle::BASH => hash_from(s, 0),
        CommentStyle::C => slash_from(s, 0) + block_nl_from(s, 0),
        CommentStyle::UNKNOWN => 0,
    }
}

/// Counts the newline bytes of `s`.
pub fn count_newlines(s: &[u8]) -> (n: usize)
    ensures
        n == spec_total_lines(s@),
{
    let len = s.len();
    let mut i: usize = 0;
    let mut n: usize = 0;
    while i < len
        invariant
            i <= len,
            len == s@.len(),
            n == nl_upto(s@, i as int),
            n <= i,
        decreases len - i,
    {
        if *slice_index_get(s, i) == 10 {
            n += 1;
        }
        i += 1;
    }
    n
}

/// First position at or after `from` that is not intra-line whitespace.
fn scan_ws(s: &[u8], from: usize) -> (e: usize)
    requires
        from <= s@.len(),
    ensures
        e == ws_end(s@, from as int),
        from <= e <= s@.len(),
{
    let len = s.len();
    let mut e = from;
    while e < len && is_ws_byte(*slice_index_get(s, e))
        invariant
            from <= e <= len,
            len == s@.len(),
            forall|j: int| from <= j < e ==> is_line_ws(s@[j]),
        decreases len - e,
    {
        e += 1;
    }
    proof {
        lemma_ws_end_at(s@, from as int, e as int);
    }
    e
}

/// First position at or after `from` holding a newline.
fn scan_line_end(s: &[u8], from: usize) -> (e: usize)
    requires
        from <= s@.len(),
    ensures
        e == line_end(s@, from as int),
        from <= e <= s@.len(),
        e < s@.len() ==> s@[e as int] == 10,
{
    let len = s.len();
    let mut e = from;
    while e < len && *slice_index_get(s, e) != 10
        invariant
            from <= e <= len,
            len == s@.len(),
            forall|j: int| from <= j < e ==> s@[j] != 10,
        decreases len - e,
    {
        e += 1;
    }
    proof {
        lemma_line_end_at(s@, from as int, e as int);
    }
    e
}

/// First position at or after `from` where a `*/` pair starts.
fn scan_close(s: &[u8], from: usize) -> (k: usize)
    requires
        from <= s@.len(),
    ensures
        k == close_at(s@, from as int),
        from <= k <= s@.len(),
{
    let len = s.len();
    let mut k = from;
    loop
        invariant
            from <= k <= len,
            len == s@.len(),
            forall|j: int| from <= j < k ==> !((#[trigger] s@[j]) == 42 && s@[j + 1] == 47),
        decreases len - k,
    {
        if k >= len || k == len - 1 {
            proof {
                lemma_close_at_none(s@, from as int);
            }
            return len;
        }
        if *slice_index_get(s, k) == 42 && *slice_index_get(s, k + 1) == 47 {
            proof {
                lemma_close_at_found(s@, from as int, k as int);
            }
            return k;
        }
        k += 1;
    }
}

/// Counts the blank lines of `s`.
pub fn count_blank_lines(s: &[u8]) -> (cnt: usize)
    ensures
        cnt == spec_blank_lines(s@),
        2 * cnt <= spec_total_lines(s@),
{
    let len = s.len();
    let mut i: usize = 0;
    let mut cnt: usize = 0;
    while i < len
        invariant
            i <= len,
            len == s@.len(),
            2 * cnt <= nl_upto(s@, i as int),
            nl_upto(s@, i as int) <= i,
            cnt + blank_from(s@, i as int) == blank_from(s@, 0),
        decreases len - i,
    {
        if *slice_index_get(s, i) == 10 {
            let e = scan_ws(s, i + 1);
            if e < len && *slice_index_get(s, e) == 10 {
                proof {
                    lemma_nl_upto_mono(s@, i as int + 1, e as int);
                }
                cnt += 1;
                i = e + 1;
            } else {
                i += 1;
            }
        } else {
            i += 1;
        }
    }
    proof {
        lemma_nl_upto_mono(s@, i as int, len as int);
    }
    cnt
}

/// Counts the `#` comment lines of `s`.
pub fn count_hash_comments(s: &[u8]) -> (cnt: usize)
    ensures
        cnt == hash_from(s@, 0),
        2 * cnt <= spec_total_lines(s@),
{
    let len = s.len();
    let mut i: usize = 0;
    let mut cnt: usize = 0;
    while i < len
        invariant
            i <= len,
            len == s@.len(),
            2 * cnt <= nl_upto(s@, i as int),
            nl_upto(s@, i as int) <= i,
            cnt + hash_from(s@, i as int) == hash_from(s@, 0),
        decreases len - i,
    {
        if *slice_index_get(s, i) == 10 {
            let e = scan_ws(s, i + 1);
            if e < len && *slice_index_get(s, e) == 35 {
                let k = scan_line_end(s, e + 1);
                if k < len {
                    proof {
                        lemma_nl_upto_mono(s@, i as int + 1, k as int);
                    }
                    cnt += 1;
                    i = k + 1;
                } else {
                    i += 1;
                }
            } else {
                i += 1;
            }
        } else {
            i += 1;
        }
    }
    proof {
        lemma_nl_upto_mono(s@, i as int, len as int);
    }
    cnt
}

/// Counts the `//` comment lines of `s`.  At most one match per two
/// newlines, so the count is at most half the newline count.
pub fn count_slash_comments(s: &[u8]) -> (cnt: usize)
    ensures
        cnt == slash_from(s@, 0),
        2 * cnt <= spec_total_lines(s@),
{
    let len = s.len();
    let mut i: usize = 0;
    let mut cnt: usize = 0;
    while i < len
        invariant
            i <= len,
            len == s@.len(),
            2 * cnt <= nl_upto(s@, i as int),
            nl_upto(s@, i as int) <= i,
            cnt + slash_from(s@, i as int) == slash_from(s@, 0),
        decreases len - i,
    {
        if *slice_index_get(s, i) == 10 {
            let e = scan_ws(s, i + 1);
            if e < len && *slice_index_get(s, e) == 47 && e + 1 < len
                && *slice_index_get(s, e + 1) == 47 {
                let k = scan_line_end(s, e + 2);
                if k < len {
                    proof {
                        lemma_nl_upto_mono(s@, i as int + 1, k as int);
                    }
                    cnt += 1;
                    i = k + 1;
                } else {
                    proof {
                        lemma_nl_upto_mono(s@, i as int, i as int + 1);
                    }
                    i += 1;
                }
            } else {
                proof {
                    lemma_nl_upto_mono(s@, i as int, i as int + 1);
                }
                i += 1;
            }
        } else {
            proof {
                lemma_nl_upto_mono(s@, i as int, i as int + 1);
            }
            i += 1;
        }
    }
    proof {
        lemma_nl_upto_mono(s@, i as int, len as int);
    }
    cnt
}

/// Counts the newlines inside `/*`..`*/` blocks of `s`.  Every counted
/// newline is a newline of `s`, so the count is at most the line total.
pub fn count_block_comment_newlines(s: &[u8]) -> (cnt: usize)
    ensures
        cnt == block_nl_from(s@, 0),
        cnt <= spec_total_lines(s@),
{
    let len = s.len();
    let mut i: usize = 0;
    let mut cnt: usize = 0;
    while i < len
        invariant
            i <= len,
            len == s@.len(),
            cnt <= nl_upto(s@, i as int),
            nl_upto(s@, i as int) <= i,
            cnt + block_nl_from(s@, i as int) == block_nl_from(s@, 0),
        decreases len - i,
    {
        if i + 1 < len && *slice_index_get(s, i) == 47 && *slice_index_get(s, i + 1) == 42 {
            let k = scan_close(s, i + 2);
            if k < len {
                proof {
                    lemma_close_at_bounds(s@, i as int + 2);
                }
                let mut j = i + 2;
                let mut inner: usize = 0;
                while j < k
                    invariant
                        i + 2 <= j <= k,
                        k <= len,
                        len == s@.len(),
                        inner + nl_upto(s@, i as int + 2) == nl_upto(s@, j as int),
                        inner <= j,
                    decreases k - j,
                {
                    if *slice_index_get(s, j) == 10 {
                        inner += 1;
                    }
                    j += 1;
                }
                proof {
                    lemma_nl_upto_mono(s@, i as int, i as int + 2);
                    lemma_nl_upto_mono(s@, i as int + 2, k as int);
                    lemma_nl_upto_mono(s@, k as int, k as int + 2);
                }
                cnt += inner;
                i = k + 2;
            } else {
                proof {
                    lemma_nl_upto_mono(s@, i as int, len as int);
                }
                i = len;
            }
        } else {
            proof {
                lemma_nl_upto_mono(s@, i as int, i as int + 1);
            }
            i += 1;
        }
    }
    proof {
        lemma_nl_upto_mono(s@, i as int, len as int);
    }
    cnt
}

/// Counts total lines, comment lines and blank lines of a file's
/// content, in that order.
pub fn count_differentiated_lines(content: &[u8], comments: CommentStyle) -> (r: (usize, usize, usize))
    requires
        content@.len() <= usize::MAX / 2,
    ensures
        r.0 == spec_total_lines(content@),
        r.1 == spec_comment_lines(content@, comments),
        r.2 == spec_blank_lines(content@),
        r.1 + r.2 <= 2 * content@.len(),
{
    proof {
        lemma_nl_upto_mono(content@, 0, content@.len() as int);
    }
    let total_lines = count_newlines(content);
    let empty_lines = count_blank_lines(content);
    let comment_lines: usize = match comments {
        CommentStyle::BASH => count_hash_comments(content),
        CommentStyle::C => {
            let singles = count_slash_comments(content);
            let blocks = count_block_comment_newlines(content);
            singles + blocks
        },
        CommentStyle::UNKNOWN => 0,
    };
    (total_lines, comment_lines, empty_lines)
}

/// Addition that is clamped into `u16`.
pub open spec fn sat_add_u16(a: int, b: int) -> u16 {
    if a + b > 65535 {
        65535u16
    } else {
        (a + b) as u16
    }
}

/// Subtraction that is clamped at zero.
pub open spec fn sat_sub(a: int, b: int) -> int {
    if a >= b {
        a - b
    } else {
        0
    }
}

/// One bucket's counts after adding a `(total, comment, blank)` triple:
/// the code count gets the remaining lines, clamped at zero.
pub open spec fn spec_add_lines(st: FileStats, t: int, c: int, b: int) -> FileStats {
    FileStats {
        code_lines: sat_add_u16(st.code_lines as int, sat_sub(t, c + b)),
        comment_lines: sat_add_u16(st.comment_lines as int, c),
        empty_lines: sat_add_u16(st.empty_lines as int, b),
    }
}

/// The comment convention each language is scanned with.
pub open spec fn spec_style_of(l: LangTag) -> CommentStyle {
    match l {
        LangTag::Java => CommentStyle::C,
        LangTag::Kotlin => CommentStyle::C,
        LangTag::C => CommentStyle::C,
        LangTag::Cpp => CommentStyle::C,
        LangTag::Rust => CommentStyle::C,
        LangTag::Gradle => CommentStyle::C,
        LangTag::Python => CommentStyle::BASH,
        LangTag::Cmake => CommentStyle::BASH,
        LangTag::Makefile => CommentStyle::BASH,
        LangTag::Assembly => CommentStyle::UNKNOWN,
        LangTag::Other(_) => CommentStyle::UNKNOWN,
    }
}

/// The counts a readable file contributes, given its content and style.
pub open spec fn stats_of(s: Seq<u8>, style: CommentStyle) -> FileStats {
    spec_add_lines(
        FileStats { code_lines: 0, empty_lines: 0, comment_lines: 0 },
        spec_total_lines(s) as int,
        spec_comment_lines(s, style) as int,
        spec_blank_lines(s) as int,
    )
}

impl FileStats {
    /// Counts the line statistics of a readable file's content under the
    /// comment convention of `lang`.
    pub fn new(content: &[u8], lang: &Language) -> (r: Self)
        requires
            content@.len() <= usize::MAX / 2,
        ensures
            r == stats_of(content@, spec_style_of(lang.deep_view())),
    {
        let mut inst = FileStats { code_lines: 0, empty_lines: 0, comment_lines: 0 };
        match lang {
            Language::JAVA => inst.analyze_java(content),
            Language::KOTLIN => inst.analyze_java(content),
            Language::C => inst.analyze_java(content),
            Language::CPP => inst.analyze_java(content),
            Language::RUST => inst.analyze_java(content),
            Language::PYTHON => inst.analyze_bash(content),
            Language::GRADLE => inst.analyze_java(content),
            Language::CMAKE => inst.analyze_bash(content),
            Language::MAKEFILE => inst.analyze_bash(content),
            Language::ASSEMBLY => inst.analyze_general(content, CommentStyle::UNKNOWN),
            Language::OTHER(_) => inst.analyze_general(content, CommentStyle::UNKNOWN),
        }
        inst
    }

    /// Scans `content` under the given convention and adds the counts.
    pub fn analyze_general(&mut self, content: &[u8], comments: CommentStyle)
        requires
            content@.len() <= usize::MAX / 2,
        ensures
            *final(self) == spec_add_lines(
                *old(self),
                spec_total_lines(content@) as int,
                spec_comment_lines(content@, comments) as int,
                spec_blank_lines(content@) as int,
            ),
    {
        let lines = count_differentiated_lines(content, comments);
        self.util_add_lines(Some(lines));
    }

    /// Scans `content` with the slash conventions.
    pub fn analyze_java(&mut self, content: &[u8])
        requires
            content@.len() <= usize::MAX / 2,
        ensures
            *final(self) == spec_add_lines(
                *old(self),
                spec_total_lines(content@) as int,
                spec_comment_lines(content@, CommentStyle::C) as int,
                spec_blank_lines(content@) as int,
            ),
    {
        self.analyze_general(content, CommentStyle::C)
    }

    /// Scans `content` with the hash convention.
    pub fn analyze_bash(&mut self, content: &[u8])
        requires
            content@.len() <= usize::MAX / 2,
        ensures
            *final(self) == spec_add_lines(
                *old(self),
                spec_total_lines(content@) as int,
                spec_comment_lines(content@, CommentStyle::BASH) as int,
                spec_blank_lines(content@) as int,
            ),
    {
        let lines = count_differentiated_lines(content, CommentStyle::BASH);
        self.util_add_lines(Some(lines));
    }

    /// Adds a `(total, comment, blank)` triple into the counts; absent
    /// counts (an unreadable file) add nothing.
    pub fn util_add_lines(&mut self, lines: Option<(usize, usize, usize)>)
        requires
            match lines {
                Some(l) => l.1 + l.2 <= usize::MAX,
                None => true,
            },
        ensures
            *final(self) == match lines {
                Some(l) => spec_add_lines(*old(self), l.0 as int, l.1 as int, l.2 as int),
                None => *old(self),
            },
    {
        if let Some(l) = lines {
            let (t, c, b) = l;
            let cb = c + b;
            let diff = if t >= cb {
                t - cb
            } else {
                0
            };
            let d16: u16 = if diff > 65535 {
                65535
            } else {
                diff as u16
            };
            let c16: u16 = if c > 65535 {
                65535
            } else {
                c as u16
            };
            let b16: u16 = if b > 65535 {
                65535
            } else {
                b as u16
            };
            self.code_lines = self.code_lines.saturating_add(d16);
            self.comment_lines = self.comment_lines.saturating_add(c16);
            self.empty_lines = self.empty_lines.saturating_add(b16);
        }
    }
}

/// Line count conservation: wherever the comment and blank heuristics
/// together match no more lines than the file holds, and the file is
/// small enough for the counts not to clamp, the three counts add up to
/// the line total exactly.
pub proof fn lemma_line_count_conservation(s: Seq<u8>, style: CommentStyle)
    requires
        spec_comment_lines(s, style) + spec_blank_lines(s) <= spec_total_lines(s),
        spec_total_lines(s) <= 65535,
    ensures
        stats_of(s, style).code_lines + stats_of(s, style).comment_lines
            + stats_of(s, style).empty_lines == spec_total_lines(s),
{
}

} // verus!
