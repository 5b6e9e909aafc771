//! The Directory Aggregate and its merge operation.
//!
//! A scan produces, for every entry of a directory, either a finished
//! sub-aggregate or a single file record.  These partial results are
//! combined pairwise, in any order and grouping, into one aggregate
//! bearing the directory's name; `lemma_combine_content` shows that the
//! flattened content does not depend on the order or grouping.

use vstd::prelude::*;
use vstd::multiset::Multiset;
use vstd::string::StrSliceExecFns;
use vstd::string::StringExecFns;
use crate::file_stats::FileStats;
use crate::file_stats::stats_of;
use crate::file_stats::spec_style_of;
use crate::language::Language;
use crate::language::LangTag;
use crate::language::spec_classify;
use crate::strutil::concat3;
use crate::strutil::contains_seq;
use crate::strutil::str_contains;
use crate::strutil::str_eq;

verus! {

/// One scanned file: its (possibly rewritten) name, its language, and
/// its line counts, held in exactly one of the two buckets while the
/// file was readable, in neither while it was not.
pub struct SourceFile {
    pub file_name: String,
    pub lang: Language,
    pub code_stats: Option<FileStats>,
    pub test_stats: Option<FileStats>,
}

/// Mathematical image of a `SourceFile`.
pub ghost struct FileView {
    pub name: Seq<char>,
    pub lang: LangTag,
    pub code_stats: Option<FileStats>,
    pub test_stats: Option<FileStats>,
}

impl View for SourceFile {
    type V = FileView;

    open spec fn view(&self) -> FileView {
        FileView {
            name: self.file_name@,
            lang: self.lang.deep_view(),
            code_stats: self.code_stats,
            test_stats: self.test_stats,
        }
    }
}

impl DeepView for SourceFile {
    type V = FileView;

    open spec fn deep_view(&self) -> FileView {
        self.view()
    }
}

/// The record `SourceFile::new` builds: the file's language from its
/// name, and its line counts, routed into the test bucket exactly when
/// the full path contains `"test"`; an unreadable file keeps both
/// buckets empty; an excluded file yields no record at all.
pub open spec fn spec_source_file(
    name: Seq<char>,
    path: Seq<char>,
    content: Option<Seq<u8>>,
) -> Option<FileView> {
    match spec_classify(name) {
        None => None,
        Some(lang) => {
            let is_test = contains_seq(path, "test"@);
            let stats = match content {
                Some(c) => Some(stats_of(c, spec_style_of(lang))),
                None => None,
            };
            Some(
                FileView {
                    name: name,
                    lang: lang,
                    code_stats: if is_test {
                        None
                    } else {
                        stats
                    },
                    test_stats: if is_test {
                        stats
                    } else {
                        None
                    },
                },
            )
        },
    }
}

impl SourceFile {
    /// Builds the record of one file from its name, its full path and
    /// its content (`None` when the file could not be read as text).
    pub fn new(file_name: &str, path: &str, content: Option<&[u8]>) -> (r: Option<Self>)
        requires
            match content {
                Some(c) => c@.len() <= usize::MAX / 2,
                None => true,
            },
        ensures
            r.deep_view() == spec_source_file(
                file_name@,
                path@,
                match content {
                    Some(c) => Some(c@),
                    None => None,
                },
            ),
    {
        let lang = match Language::new(file_name) {
            Some(l) => l,
            None => {
                return None;
            },
        };
        let is_test = str_contains(path, "test");
        let stats = match content {
            Some(c) => Some(FileStats::new(c, &lang)),
            None => None,
        };
        Some(
            SourceFile {
                file_name: String::from_str(file_name),
                lang,
                code_stats: if is_test {
                    None
                } else {
                    stats
                },
                test_stats: if is_test {
                    stats
                } else {
                    None
                },
            },
        )
    }
}

/// Code statistics of one directory: its files and its sub-directories.
pub struct CountContext {
    pub dir_name: String,
    pub files: Vec<SourceFile>,
    pub dirs: Vec<CountContext>,
}

/// Mathematical image of a `CountContext`.
pub ghost struct CtxView {
    pub name: Seq<char>,
    pub files: Seq<FileView>,
    pub dirs: Seq<CtxView>,
}

/// View of a file list.
pub open spec fn files_view(s: Seq<SourceFile>) -> Seq<FileView> {
    s.map_values(|f: SourceFile| f@)
}

/// View of a directory aggregate, mirrored recursively.
pub open spec fn ctx_view(c: CountContext) -> CtxView
    decreases c,
{
    CtxView { name: c.dir_name@, files: files_view(c.files@), dirs: dirs_view(c.dirs@) }
}

/// View of a list of directory aggregates.
pub open spec fn dirs_view(s: Seq<CountContext>) -> Seq<CtxView>
    decreases s,
{
    if s.len() == 0 {
        Seq::empty()
    } else {
        dirs_view(s.drop_last()).push(ctx_view(s.last()))
    }
}

impl View for CountContext {
    type V = CtxView;

    open spec fn view(&self) -> CtxView {
        ctx_view(*self)
    }
}

/// `dirs_view` maps the list element-wise.
pub proof fn lemma_dirs_view_index(s: Seq<CountContext>)
    ensures
        dirs_view(s).len() == s.len(),
        forall|i: int| 0 <= i < s.len() ==> dirs_view(s)[i] == ctx_view(s[i]),
    decreases s.len(),
{
    if s.len() > 0 {
        lemma_dirs_view_index(s.drop_last());
    }
}

/// One partial result of scanning a directory entry: a finished
/// sub-aggregate, or a single file record.
pub enum ScanResult {
    Dir(CountContext),
    File(SourceFile),
}

/// Mathematical image of a `ScanResult`.
pub ghost enum ResView {
    Dir(CtxView),
    File(FileView),
}

impl View for ScanResult {
    type V = ResView;

    open spec fn view(&self) -> ResView {
        match self {
            ScanResult::Dir(c) => ResView::Dir(ctx_view(*c)),
            ScanResult::File(f) => ResView::File(f@),
        }
    }
}

/// An aggregate with no files and no sub-directories; it is absorbed by
/// every merge and never attached to a parent.
pub open spec fn ctx_is_empty(c: CtxView) -> bool {
    c.files.len() == 0 && c.dirs.len() == 0
}

/// A leaf aggregate holding exactly one file and nothing else: attaching
/// it to a parent lifts the file instead (path compression).
pub open spec fn compressible(c: CtxView) -> bool {
    c.files.len() == 1 && c.dirs.len() == 0
}

/// The lifted file's name: `"<dir>/<file>"`, or just the file's name
/// when the two are already identical.
pub open spec fn compressed_name(dir: Seq<char>, file: Seq<char>) -> Seq<char> {
    if dir == file {
        file
    } else {
        dir + "/"@ + file
    }
}

/// Path compression of a sub-aggregate that is about to be attached:
/// a compressible aggregate becomes its single file, lifted and renamed;
/// anything else stays as it is.
pub open spec fn spec_compress(r: ResView) -> ResView {
    match r {
        ResView::Dir(c) => {
            if compressible(c) {
                ResView::File(
                    FileView {
                        name: compressed_name(c.name, c.files[0].name),
                        lang: c.files[0].lang,
                        code_stats: c.files[0].code_stats,
                        test_stats: c.files[0].test_stats,
                    },
                )
            } else {
                r
            }
        },
        ResView::File(_) => r,
    }
}

/// Attaching a finished sub-aggregate to its parent: an empty child is
/// dropped, a compressible child is lifted into the parent's file list,
/// any other child becomes a sub-directory.
pub open spec fn spec_attach(parent: CtxView, child: CtxView) -> CtxView {
    if ctx_is_empty(child) {
        parent
    } else {
        match spec_compress(ResView::Dir(child)) {
            ResView::File(f) => CtxView { files: parent.files.push(f), ..parent },
            ResView::Dir(d) => CtxView { dirs: parent.dirs.push(d), ..parent },
        }
    }
}

/// A fresh, empty aggregate for the directory named `n`.
pub open spec fn new_ctx(n: Seq<char>) -> CtxView {
    CtxView { name: n, files: Seq::empty(), dirs: Seq::empty() }
}

/// The merge of two partial results of scanning the directory named `n`.
///
/// At most one side carries the target name `n` (the running
/// accumulator); empty aggregates are absorbed; everything else is
/// attached to the accumulator, or to a fresh aggregate named `n`.
pub open spec fn spec_combine(n: Seq<char>, a: ResView, b: ResView) -> ResView {
    match (a, b) {
        (ResView::Dir(ca), ResView::Dir(cb)) => {
            if ctx_is_empty(ca) {
                b
            } else if ctx_is_empty(cb) {
                a
            } else if ca.name == n && cb.name == n {
                ResView::Dir(
                    CtxView { name: ca.name, files: ca.files + cb.files, dirs: ca.dirs + cb.dirs },
                )
            } else if ca.name == n {
                ResView::Dir(spec_attach(ca, cb))
            } else if cb.name == n {
                ResView::Dir(spec_attach(cb, ca))
            } else {
                ResView::Dir(spec_attach(spec_attach(new_ctx(n), ca), cb))
            }
        },
        (ResView::Dir(ca), ResView::File(f)) => {
            if ctx_is_empty(ca) {
                b
            } else if ca.name == n {
                ResView::Dir(CtxView { files: ca.files.push(f), ..ca })
            } else {
                ResView::Dir(
                    CtxView { files: spec_attach(new_ctx(n), ca).files.push(f), ..spec_attach(new_ctx(n), ca) },
                )
            }
        },
        (ResView::File(f), ResView::Dir(cb)) => {
            if ctx_is_empty(cb) {
                a
            } else if cb.name == n {
                ResView::Dir(CtxView { files: cb.files.push(f), ..cb })
            } else {
                ResView::Dir(
                    CtxView { files: spec_attach(new_ctx(n), cb).files.push(f), ..spec_attach(new_ctx(n), cb) },
                )
            }
        },
        (ResView::File(f1), ResView::File(f2)) => {
            ResView::Dir(CtxView { name: n, files: Seq::empty().push(f1).push(f2), dirs: Seq::empty() })
        },
    }
}

proof fn lemma_dirs_view_push(s: Seq<CountContext>, c: CountContext)
    ensures
        dirs_view(s.push(c)) == dirs_view(s).push(ctx_view(c)),
{
    assert(s.push(c).drop_last() =~= s);
    assert(s.push(c).last() == c);
}

proof fn lemma_files_view_push(s: Seq<SourceFile>, f: SourceFile)
    ensures
        files_view(s.push(f)) == files_view(s).push(f@),
{
    assert(files_view(s.push(f)) =~= files_view(s).push(f@));
}

impl CountContext {
    /// A fresh, empty aggregate for the directory named `dir_name`.
    pub fn new(dir_name: String) -> (r: Self)
        ensures
            r@ == new_ctx(dir_name@),
    {
        let r = CountContext { dir_name, files: Vec::new(), dirs: Vec::new() };
        proof {
            assert(files_view(r.files@) =~= Seq::<FileView>::empty());
        }
        r
    }

    /// Attaches a finished sub-aggregate, applying path compression: a
    /// child holding exactly one file and nothing else is lifted into
    /// the file list under the name `"<child-name>/<file-name>"`; an
    /// empty child is dropped.
    pub fn insert_context(&mut self, dir: Self)
        ensures
            final(self)@ == spec_attach(old(self)@, dir@),
    {
        let ghost child = ctx_view(dir);
        if dir.files.len() == 0 && dir.dirs.len() == 0 {
            return ;
        }
        if dir.files.len() == 1 && dir.dirs.len() == 0 {
            let mut dir = dir;
            let f = dir.files.remove(0);
            let ghost f0 = f@;
            proof {
                assert(compressible(child));
                assert(child.files[0] == f0);
            }
            let mut f = f;
            if !str_eq(dir.dir_name.as_str(), f.file_name.as_str()) {
                f.file_name = concat3(dir.dir_name.as_str(), "/", f.file_name.as_str());
            }
            proof {
                assert(f@.name == compressed_name(child.name, f0.name));
            }
            let ghost before = self.files@;
            self.files.push(f);
            proof {
                lemma_files_view_push(before, f);
            }
        } else {
            let ghost before = self.dirs@;
            self.dirs.push(dir);
            proof {
                lemma_dirs_view_push(before, dir);
            }
        }
    }
}

/// Whether an aggregate holds neither files nor sub-directories.
fn is_empty_ctx(c: &CountContext) -> (r: bool)
    ensures
        r == ctx_is_empty(c@),
{
    c.files.len() == 0 && c.dirs.len() == 0
}

/// Merges two partial results of scanning the directory named
/// `dir_name`, in the shape `spec_combine` gives.
pub fn combine(dir_name: &str, a: ScanResult, b: ScanResult) -> (r: ScanResult)
    ensures
        r@ == spec_combine(dir_name@, a@, b@),
{
    match (a, b) {
        (ScanResult::Dir(ca), ScanResult::Dir(cb)) => {
            if is_empty_ctx(&ca) {
                ScanResult::Dir(cb)
            } else if is_empty_ctx(&cb) {
                ScanResult::Dir(ca)
            } else {
                let a_named = str_eq(ca.dir_name.as_str(), dir_name);
                let b_named = str_eq(cb.dir_name.as_str(), dir_name);
                if a_named && b_named {
                    let ghost fa = ca.files@;
                    let ghost da = ca.dirs@;
                    let mut ca = ca;
                    let mut cb = cb;
                    let ghost fb = cb.files@;
                    let ghost db = cb.dirs@;
                    ca.files.append(&mut cb.files);
                    ca.dirs.append(&mut cb.dirs);
                    proof {
                        lemma_files_view_concat(fa, fb);
                        lemma_dirs_view_concat(da, db);
                    }
                    ScanResult::Dir(ca)
                } else if a_named {
                    let mut ca = ca;
                    ca.insert_context(cb);
                    ScanResult::Dir(ca)
                } else if b_named {
                    let mut cb = cb;
                    cb.insert_context(ca);
                    ScanResult::Dir(cb)
                } else {
                    let mut ctx = CountContext::new(String::from_str(dir_name));
                    ctx.insert_context(ca);
                    ctx.insert_context(cb);
                    ScanResult::Dir(ctx)
                }
            }
        },
        (ScanResult::Dir(ca), ScanResult::File(f)) => {
            if is_empty_ctx(&ca) {
                ScanResult::File(f)
            } else if str_eq(ca.dir_name.as_str(), dir_name) {
                let mut ca = ca;
                let ghost before = ca.files@;
                ca.files.push(f);
                proof {
                    lemma_files_view_push(before, f);
                }
                ScanResult::Dir(ca)
            } else {
                let mut ctx = CountContext::new(String::from_str(dir_name));
                ctx.insert_context(ca);
                let ghost before = ctx.files@;
                ctx.files.push(f);
                proof {
                    lemma_files_view_push(before, f);
                }
                ScanResult::Dir(ctx)
            }
        },
        (ScanResult::File(f), ScanResult::Dir(cb)) => {
            if is_empty_ctx(&cb) {
                ScanResult::File(f)
            } else if str_eq(cb.dir_name.as_str(), dir_name) {
                let mut cb = cb;
                let ghost before = cb.files@;
                cb.files.push(f);
                proof {
                    lemma_files_view_push(before, f);
                }
                ScanResult::Dir(cb)
            } else {
                let mut ctx = CountContext::new(String::from_str(dir_name));
                ctx.insert_context(cb);
                let ghost before = ctx.files@;
                ctx.files.push(f);
                proof {
                    lemma_files_view_push(before, f);
                }
                ScanResult::Dir(ctx)
            }
        },
        (ScanResult::File(f1), ScanResult::File(f2)) => {
            let mut ctx = CountContext::new(String::from_str(dir_name));
            let ghost before0 = ctx.files@;
            ctx.files.push(f1);
            proof {
                lemma_files_view_push(before0, f1);
            }
            let ghost before1 = ctx.files@;
            ctx.files.push(f2);
            proof {
                lemma_files_view_push(before1, f2);
            }
            ScanResult::Dir(ctx)
        },
    }
}

/// One file's identity in the flattened tree: its path relative to the
/// scanned directory, its language, and both stat buckets.
pub ghost struct Entry {
    pub path: Seq<char>,
    pub lang: LangTag,
    pub code_stats: Option<FileStats>,
    pub test_stats: Option<FileStats>,
}

/// The entry a file contributes under the path prefix `p`.
pub open spec fn entry_of(p: Seq<char>, f: FileView) -> Entry {
    Entry { path: p + f.name, lang: f.lang, code_stats: f.code_stats, test_stats: f.test_stats }
}

/// Entries of a file list under the path prefix `p`.
pub open spec fn files_content(p: Seq<char>, fs: Seq<FileView>) -> Multiset<Entry>
    decreases fs.len(),
{
    if fs.len() == 0 {
        Multiset::empty()
    } else {
        files_content(p, fs.drop_last()).insert(entry_of(p, fs.last()))
    }
}

/// Entries of a whole aggregate, its own name not included in `p`.
pub open spec fn ctx_content(p: Seq<char>, c: CtxView) -> Multiset<Entry>
    decreases c, 0int,
{
    files_content(p, c.files).add(dirs_content(p, c.dirs))
}

/// Entries of a list of sub-aggregates under the path prefix `p`.
pub open spec fn dirs_content(p: Seq<char>, ds: Seq<CtxView>) -> Multiset<Entry>
    decreases ds, 1int,
{
    if ds.len() == 0 {
        Multiset::empty()
    } else {
        dirs_content(p, ds.drop_last()).add(child_content(p, ds.last()))
    }
}

/// Entries a sub-aggregate contributes to its parent: what attaching it
/// produces, so a compressible child counts as its single lifted file.
pub open spec fn child_content(p: Seq<char>, c: CtxView) -> Multiset<Entry>
    decreases c, 2int,
{
    if compressible(c) {
        Multiset::empty().insert(
            Entry {
                path: p + compressed_name(c.name, c.files[0].name),
                lang: c.files[0].lang,
                code_stats: c.files[0].code_stats,
                test_stats: c.files[0].test_stats,
            },
        )
    } else {
        ctx_content(p + c.name + "/"@, c)
    }
}

/// What one partial result contributes to the directory named `n`: an
/// aggregate already named `n` is the accumulator, anything else is a
/// file or a sub-aggregate to be attached.
pub open spec fn rel(n: Seq<char>, r: ResView) -> Multiset<Entry> {
    match r {
        ResView::File(f) => Multiset::empty().insert(entry_of(Seq::empty(), f)),
        ResView::Dir(c) => {
            if c.name == n {
                ctx_content(Seq::empty(), c)
            } else {
                child_content(Seq::empty(), c)
            }
        },
    }
}

proof fn lemma_files_content_push(p: Seq<char>, fs: Seq<FileView>, f: FileView)
    ensures
        files_content(p, fs.push(f)) == files_content(p, fs).insert(entry_of(p, f)),
{
    assert(fs.push(f).drop_last() =~= fs);
    assert(fs.push(f).last() == f);
}

proof fn lemma_dirs_content_push(p: Seq<char>, ds: Seq<CtxView>, d: CtxView)
    ensures
        dirs_content(p, ds.push(d)) == dirs_content(p, ds).add(child_content(p, d)),
{
    assert(ds.push(d).drop_last() =~= ds);
    assert(ds.push(d).last() == d);
}

proof fn lemma_files_content_concat(p: Seq<char>, a: Seq<FileView>, b: Seq<FileView>)
    ensures
        files_content(p, a + b) == files_content(p, a).add(files_content(p, b)),
    decreases b.len(),
{
    if b.len() == 0 {
        assert(a + b =~= a);
        assert(files_content(p, a).add(files_content(p, b)) =~= files_content(p, a));
    } else {
        lemma_files_content_concat(p, a, b.drop_last());
        assert((a + b).drop_last() =~= a + b.drop_last());
        assert((a + b).last() == b.last());
        assert(files_content(p, a).add(files_content(p, b.drop_last())).insert(
            entry_of(p, b.last()),
        ) =~= files_content(p, a).add(files_content(p, b)));
    }
}

proof fn lemma_dirs_content_concat(p: Seq<char>, a: Seq<CtxView>, b: Seq<CtxView>)
    ensures
        dirs_content(p, a + b) == dirs_content(p, a).add(dirs_content(p, b)),
    decreases b.len(),
{
    if b.len() == 0 {
        assert(a + b =~= a);
        assert(dirs_content(p, a).add(dirs_content(p, b)) =~= dirs_content(p, a));
    } else {
        lemma_dirs_content_concat(p, a, b.drop_last());
        assert((a + b).drop_last() =~= a + b.drop_last());
        assert((a + b).last() == b.last());
        assert(dirs_content(p, a).add(dirs_content(p, b.drop_last())).add(
            child_content(p, b.last()),
        ) =~= dirs_content(p, a).add(dirs_content(p, b)));
    }
}

/// Attaching a child adds exactly the child's contribution to the
/// parent's content.
proof fn lemma_attach_content(p: Seq<char>, parent: CtxView, child: CtxView)
    ensures
        ctx_content(p, spec_attach(parent, child))
            == ctx_content(p, parent).add(child_content(p, child)),
{
    if ctx_is_empty(child) {
        assert(!compressible(child));
        assert(files_content(p + child.name + "/"@, child.files) =~= Multiset::<Entry>::empty());
        assert(ctx_content(p, parent).add(child_content(p, child)) =~= ctx_content(p, parent));
    } else if compressible(child) {
        lemma_files_content_push(
            p,
            parent.files,
            FileView {
                name: compressed_name(child.name, child.files[0].name),
                lang: child.files[0].lang,
                code_stats: child.files[0].code_stats,
                test_stats: child.files[0].test_stats,
            },
        );
        assert(ctx_content(p, spec_attach(parent, child))
            =~= ctx_content(p, parent).add(child_content(p, child)));
    } else {
        lemma_dirs_content_push(p, parent.dirs, child);
        assert(ctx_content(p, spec_attach(parent, child))
            =~= ctx_content(p, parent).add(child_content(p, child)));
    }
}

/// The content of an empty aggregate is empty whatever its name.
proof fn lemma_empty_rel(n: Seq<char>, c: CtxView)
    requires
        ctx_is_empty(c),
    ensures
        rel(n, ResView::Dir(c)) == Multiset::<Entry>::empty(),
{
    assert(files_content(Seq::empty(), c.files) =~= Multiset::<Entry>::empty());
    assert(!compressible(c));
    assert(files_content(Seq::empty() + c.name + "/"@, c.files) =~= Multiset::<Entry>::empty());
    assert(ctx_content(Seq::empty(), c) =~= Multiset::<Entry>::empty());
    assert(ctx_content(Seq::empty() + c.name + "/"@, c) =~= Multiset::<Entry>::empty());
}

/// Merging is a homomorphism onto flattened content: the merge of two
/// partial results contributes exactly what the two contribute alone.
pub proof fn lemma_combine_content(n: Seq<char>, a: ResView, b: ResView)
    ensures
        rel(n, spec_combine(n, a, b)) == rel(n, a).add(rel(n, b)),
{
    match (a, b) {
        (ResView::Dir(ca), ResView::Dir(cb)) => {
            if ctx_is_empty(ca) {
                lemma_empty_rel(n, ca);
                assert(rel(n, a).add(rel(n, b)) =~= rel(n, b));
            } else if ctx_is_empty(cb) {
                lemma_empty_rel(n, cb);
                assert(rel(n, a).add(rel(n, b)) =~= rel(n, a));
            } else if ca.name == n && cb.name == n {
                lemma_files_content_concat(Seq::empty(), ca.files, cb.files);
                lemma_dirs_content_concat(Seq::empty(), ca.dirs, cb.dirs);
                assert(rel(n, spec_combine(n, a, b)) =~= rel(n, a).add(rel(n, b)));
            } else if ca.name == n {
                lemma_attach_content(Seq::empty(), ca, cb);
            } else if cb.name == n {
                lemma_attach_content(Seq::empty(), cb, ca);
                assert(rel(n, spec_combine(n, a, b)) =~= rel(n, a).add(rel(n, b)));
            } else {
                lemma_attach_content(Seq::empty(), new_ctx(n), ca);
                lemma_attach_content(Seq::empty(), spec_attach(new_ctx(n), ca), cb);
                assert(ctx_content(Seq::empty(), new_ctx(n)) =~= Multiset::<Entry>::empty());
                assert(rel(n, spec_combine(n, a, b)) =~= rel(n, a).add(rel(n, b)));
            }
        },
        (ResView::Dir(ca), ResView::File(f)) => {
            if ctx_is_empty(ca) {
                lemma_empty_rel(n, ca);
                assert(rel(n, a).add(rel(n, b)) =~= rel(n, b));
            } else if ca.name == n {
                lemma_files_content_push(Seq::empty(), ca.files, f);
                assert(rel(n, spec_combine(n, a, b)) =~= rel(n, a).add(rel(n, b)));
            } else {
                let att = spec_attach(new_ctx(n), ca);
                let resc = CtxView { files: att.files.push(f), ..att };
                lemma_attach_content(Seq::empty(), new_ctx(n), ca);
                lemma_files_content_push(Seq::empty(), att.files, f);
                assert(ctx_content(Seq::empty(), new_ctx(n)) =~= Multiset::<Entry>::empty());
                assert(resc.name == n);
                assert(rel(n, spec_combine(n, a, b)) == files_content(
                    Seq::empty(),
                    att.files.push(f),
                ).add(dirs_content(Seq::empty(), resc.dirs)));
                assert(files_content(Seq::empty(), att.files).add(
                    dirs_content(Seq::empty(), att.dirs),
                ) =~= child_content(Seq::empty(), ca));
                assert(rel(n, spec_combine(n, a, b)) =~= rel(n, a).add(rel(n, b)));
            }
        },
        (ResView::File(f), ResView::Dir(cb)) => {
            if ctx_is_empty(cb) {
                lemma_empty_rel(n, cb);
                assert(rel(n, a).add(rel(n, b)) =~= rel(n, a));
            } else if cb.name == n {
                lemma_files_content_push(Seq::empty(), cb.files, f);
                assert(rel(n, spec_combine(n, a, b)) =~= rel(n, a).add(rel(n, b)));
            } else {
                let att = spec_attach(new_ctx(n), cb);
                let resc = CtxView { files: att.files.push(f), ..att };
                lemma_attach_content(Seq::empty(), new_ctx(n), cb);
                lemma_files_content_push(Seq::empty(), att.files, f);
                assert(ctx_content(Seq::empty(), new_ctx(n)) =~= Multiset::<Entry>::empty());
                assert(resc.name == n);
                assert(rel(n, spec_combine(n, a, b)) == files_content(
                    Seq::empty(),
                    att.files.push(f),
                ).add(dirs_content(Seq::empty(), resc.dirs)));
                assert(files_content(Seq::empty(), att.files).add(
                    dirs_content(Seq::empty(), att.dirs),
                ) =~= child_content(Seq::empty(), cb));
                assert(rel(n, spec_combine(n, a, b)) =~= rel(n, a).add(rel(n, b)));
            }
        },
        (ResView::File(f1), ResView::File(f2)) => {
            lemma_files_content_push(Seq::empty(), Seq::empty(), f1);
            lemma_files_content_push(Seq::empty(), Seq::empty().push(f1), f2);
            assert(rel(n, spec_combine(n, a, b)) =~= rel(n, a).add(rel(n, b)));
        },
    }
}

/// Merge associativity: both groupings of three partial results leave
/// the flattened content the same.
pub proof fn lemma_combine_associative(n: Seq<char>, a: ResView, b: ResView, c: ResView)
    ensures
        rel(n, spec_combine(n, spec_combine(n, a, b), c))
            == rel(n, spec_combine(n, a, spec_combine(n, b, c))),
{
    lemma_combine_content(n, a, b);
    lemma_combine_content(n, spec_combine(n, a, b), c);
    lemma_combine_content(n, b, c);
    lemma_combine_content(n, a, spec_combine(n, b, c));
    assert(rel(n, spec_combine(n, spec_combine(n, a, b), c))
        =~= rel(n, spec_combine(n, a, spec_combine(n, b, c))));
}

/// Merge commutativity: the order of the two sides does not change the
/// flattened content.
pub proof fn lemma_combine_commutative(n: Seq<char>, a: ResView, b: ResView)
    ensures
        rel(n, spec_combine(n, a, b)) == rel(n, spec_combine(n, b, a)),
{
    lemma_combine_content(n, a, b);
    lemma_combine_content(n, b, a);
    assert(rel(n, spec_combine(n, a, b)) =~= rel(n, spec_combine(n, b, a)));
}

/// Path compression is idempotent: compressing what compression
/// produced changes nothing.
pub proof fn lemma_compress_idempotent(r: ResView)
    ensures
        spec_compress(spec_compress(r)) == spec_compress(r),
{
}

/// A chain of singleton directories collapses one level per insertion:
/// attaching the inner aggregate to a fresh outer one lifts its file as
/// `"inner/file"`, and attaching that outer aggregate to any parent
/// lifts the file again as `"outer/inner/file"`.
pub proof fn lemma_path_compression(outer: Seq<char>, inner: CtxView, parent: CtxView)
    requires
        compressible(inner),
    ensures
        spec_attach(parent, spec_attach(new_ctx(outer), inner)) == (CtxView {
            files: parent.files.push(
                FileView {
                    name: compressed_name(
                        outer,
                        compressed_name(inner.name, inner.files[0].name),
                    ),
                    lang: inner.files[0].lang,
                    code_stats: inner.files[0].code_stats,
                    test_stats: inner.files[0].test_stats,
                },
            ),
            ..parent
        }),
{
    let mid = spec_attach(new_ctx(outer), inner);
    assert(mid.files =~= Seq::empty().push(
        FileView {
            name: compressed_name(inner.name, inner.files[0].name),
            lang: inner.files[0].lang,
            code_stats: inner.files[0].code_stats,
            test_stats: inner.files[0].test_stats,
        },
    ));
    assert(compressible(mid));
}

/// Views of a list of partial results.
pub open spec fn results_view(s: Seq<ScanResult>) -> Seq<ResView> {
    s.map_values(|r: ScanResult| r@)
}

/// The joint contribution of a list of partial results to the directory
/// named `n`.
pub open spec fn rel_sum(n: Seq<char>, rs: Seq<ResView>) -> Multiset<Entry>
    decreases rs.len(),
{
    if rs.len() == 0 {
        Multiset::empty()
    } else {
        rel_sum(n, rs.drop_last()).add(rel(n, rs.last()))
    }
}

/// The sequential reduction of a result list, last to first, seeded
/// with a fresh aggregate for `n`.
pub open spec fn spec_reduce(n: Seq<char>, rs: Seq<ResView>) -> ResView
    decreases rs.len(),
{
    if rs.len() == 0 {
        ResView::Dir(new_ctx(n))
    } else {
        spec_combine(n, spec_reduce(n, rs.drop_first()), rs.first())
    }
}

/// The finished aggregate for `n` made from one reduced result: a lone
/// file or a lone differently-named sub-aggregate is wrapped into a
/// fresh aggregate named `n`.
pub open spec fn spec_finalize(n: Seq<char>, r: ResView) -> CtxView {
    match r {
        ResView::Dir(c) => {
            if c.name == n {
                c
            } else {
                spec_attach(new_ctx(n), c)
            }
        },
        ResView::File(f) => CtxView { name: n, files: Seq::empty().push(f), dirs: Seq::empty() },
    }
}

/// Reduces the partial results of one directory's entries into that
/// directory's aggregate.  The aggregate bears the directory's name and
/// holds exactly the entries the results contribute, whatever order the
/// reduction processed them in.
pub fn merge_results(dir_name: &str, results: Vec<ScanResult>) -> (r: CountContext)
    ensures
        r@.name == dir_name@,
        r@ == spec_finalize(dir_name@, spec_reduce(dir_name@, results_view(results@))),
        ctx_content(Seq::empty(), r@) == rel_sum(dir_name@, results_view(results@)),
{
    let ghost all = results_view(results@);
    let mut results = results;
    let mut acc = ScanResult::Dir(CountContext::new(String::from_str(dir_name)));
    proof {
        assert(files_content(Seq::empty(), new_ctx(dir_name@).files)
            =~= Multiset::<Entry>::empty());
        assert(rel(dir_name@, acc@) =~= Multiset::<Entry>::empty());
    }
    while results.len() > 0
        invariant
            results_view(results@) =~= all.subrange(0, results@.len() as int),
            results@.len() <= all.len(),
            acc@ == spec_reduce(
                dir_name@,
                all.subrange(results@.len() as int, all.len() as int),
            ),
            rel(dir_name@, acc@).add(rel_sum(dir_name@, results_view(results@)))
                == rel_sum(dir_name@, all),
        decreases results@.len(),
    {
        let next = results.pop().unwrap();
        proof {
            let m = results@.len() as int;
            let before = all.subrange(0, m + 1);
            assert(results_view(results@) =~= before.drop_last());
            assert(next@ == before.last());
            lemma_combine_content(dir_name@, acc@, next@);
            assert(rel(dir_name@, acc@).add(rel(dir_name@, next@)).add(
                rel_sum(dir_name@, results_view(results@)),
            ) =~= rel_sum(dir_name@, all));
            assert(all.subrange(m, all.len() as int).drop_first()
                =~= all.subrange(m + 1, all.len() as int));
            assert(all.subrange(m, all.len() as int).first() == all[m]);
            assert(next@ == all[m]);
        }
        acc = combine(dir_name, acc, next);
    }
    proof {
        assert(results_view(results@) =~= Seq::<ResView>::empty());
        assert(rel(dir_name@, acc@).add(Multiset::<Entry>::empty()) =~= rel(dir_name@, acc@));
        assert(all.subrange(0, all.len() as int) =~= all);
        assert(acc@ == spec_reduce(dir_name@, all));
    }
    match acc {
        ScanResult::Dir(c) => {
            if str_eq(c.dir_name.as_str(), dir_name) {
                c
            } else {
                let mut ctx = CountContext::new(String::from_str(dir_name));
                ctx.insert_context(c);
                proof {
                    lemma_attach_content(Seq::empty(), new_ctx(dir_name@), ctx_view(c));
                    assert(ctx_content(Seq::empty(), new_ctx(dir_name@))
                        =~= Multiset::<Entry>::empty());
                    assert(ctx_content(Seq::empty(), ctx@)
                        =~= rel_sum(dir_name@, all));
                }
                ctx
            }
        },
        ScanResult::File(f) => {
            let mut ctx = CountContext::new(String::from_str(dir_name));
            let ghost before = ctx.files@;
            ctx.files.push(f);
            proof {
                lemma_files_view_push(before, f);
                lemma_files_content_push(Seq::empty(), Seq::empty(), f@);
                assert(ctx_content(Seq::empty(), ctx@) =~= rel_sum(dir_name@, all));
            }
            ctx
        },
    }
}

proof fn lemma_files_view_concat(a: Seq<SourceFile>, b: Seq<SourceFile>)
    ensures
        files_view(a + b) == files_view(a) + files_view(b),
{
    assert(files_view(a + b) =~= files_view(a) + files_view(b));
}

proof fn lemma_dirs_view_concat(a: Seq<CountContext>, b: Seq<CountContext>)
    ensures
        dirs_view(a + b) == dirs_view(a) + dirs_view(b),
    decreases b.len(),
{
    if b.len() == 0 {
        assert(a + b =~= a);
        assert(dirs_view(a) + dirs_view(b) =~= dirs_view(a));
    } else {
        lemma_dirs_view_concat(a, b.drop_last());
        assert((a + b).drop_last() =~= a + b.drop_last());
        assert((a + b).last() == b.last());
        assert(dirs_view(a + b.drop_last()).push(ctx_view(b.last()))
            =~= dirs_view(a) + dirs_view(b));
    }
}

} // verus!
