//! The Language Classifier: a pure, total function from a file name to a
//! language tag, or to "excluded" (`None`) for names without an extension
//! and for opaque binary formats.

use vstd::prelude::*;
use vstd::string::StrSliceExecFns;
use vstd::string::StringExecFns;
use crate::strutil::str_eq;

verus! {

/// Common supported programming languages indicated by file extensions.
#[derive(Debug)]
pub enum Language {
    JAVA,
    KOTLIN,
    C,
    CPP,
    RUST,
    PYTHON,
    GRADLE,
    CMAKE,
    MAKEFILE,
    ASSEMBLY,
    OTHER(String),
}

/// Mathematical image of a `Language`: `OTHER` is abstracted to the
/// character sequence of the extension it carries.
pub ghost enum LangTag {
    Java,
    Kotlin,
    C,
    Cpp,
    Rust,
    Python,
    Gradle,
    Cmake,
    Makefile,
    Assembly,
    Other(Seq<char>),
}

impl DeepView for Language {
    type V = LangTag;

    open spec fn deep_view(&self) -> LangTag {
        match self {
            Language::JAVA => LangTag::Java,
            Language::KOTLIN => LangTag::Kotlin,
            Language::C => LangTag::C,
            Language::CPP => LangTag::Cpp,
            Language::RUST => LangTag::Rust,
            Language::PYTHON => LangTag::Python,
            Language::GRADLE => LangTag::Gradle,
            Language::CMAKE => LangTag::Cmake,
            Language::MAKEFILE => LangTag::Makefile,
            Language::ASSEMBLY => LangTag::Assembly,
            Language::OTHER(s) => LangTag::Other(s@),
        }
    }
}

impl View for Language {
    type V = LangTag;

    open spec fn view(&self) -> LangTag {
        self.deep_view()
    }
}

impl Clone for Language {
    fn clone(&self) -> (r: Self)
        ensures
            r.deep_view() == self.deep_view(),
    {
        match self {
            Language::JAVA => Language::JAVA,
            Language::KOTLIN => Language::KOTLIN,
            Language::C => Language::C,
            Language::CPP => Language::CPP,
            Language::RUST => Language::RUST,
            Language::PYTHON => Language::PYTHON,
            Language::GRADLE => Language::GRADLE,
            Language::CMAKE => Language::CMAKE,
            Language::MAKEFILE => Language::MAKEFILE,
            Language::ASSEMBLY => Language::ASSEMBLY,
            Language::OTHER(s) => Language::OTHER(s.clone()),
        }
    }
}

impl PartialEq for Language {
    fn eq(&self, other: &Self) -> (r: bool) {
        match (self, other) {
            (Language::JAVA, Language::JAVA) => true,
            (Language::KOTLIN, Language::KOTLIN) => true,
            (Language::C, Language::C) => true,
            (Language::CPP, Language::CPP) => true,
            (Language::RUST, Language::RUST) => true,
            (Language::PYTHON, Language::PYTHON) => true,
            (Language::GRADLE, Language::GRADLE) => true,
            (Language::CMAKE, Language::CMAKE) => true,
            (Language::MAKEFILE, Language::MAKEFILE) => true,
            (Language::ASSEMBLY, Language::ASSEMBLY) => true,
            (Language::OTHER(a), Language::OTHER(b)) => str_eq(a.as_str(), b.as_str()),
            _ => false,
        }
    }
}

impl vstd::std_specs::cmp::PartialEqSpecImpl for Language {
    open spec fn obeys_eq_spec() -> bool {
        true
    }

    open spec fn eq_spec(&self, other: &Self) -> bool {
        self.deep_view() == other.deep_view()
    }
}

/// Index of the last `.` in `name`, or `-1` when none occurs.
pub open spec fn last_dot(name: Seq<char>) -> int
    decreases name.len(),
{
    if name.len() == 0 {
        -1
    } else if name[name.len() - 1] == '.' {
        name.len() - 1
    } else {
        last_dot(name.drop_last())
    }
}

proof fn lemma_last_dot_at(name: Seq<char>, k: int)
    requires
        0 <= k < name.len(),
        name[k] == '.',
        forall|j: int| k < j < name.len() ==> name[j] != '.',
    ensures
        last_dot(name) == k,
    decreases name.len(),
{
    if k == name.len() - 1 {
    } else {
        assert(name.drop_last()[k] == '.');
        lemma_last_dot_at(name.drop_last(), k);
    }
}

proof fn lemma_last_dot_none(name: Seq<char>)
    requires
        forall|j: int| 0 <= j < name.len() ==> name[j] != '.',
    ensures
        last_dot(name) == -1,
    decreases name.len(),
{
    if name.len() > 0 {
        lemma_last_dot_none(name.drop_last());
    }
}

/// The language for an already extracted extension, or `None` for the
/// deny-listed opaque binary formats and for over-long extensions.
pub open spec fn lang_of_ext(ext: Seq<char>) -> Option<LangTag> {
    if ext.len() > 15 {
        None
    } else if ext == "java"@ {
        Some(LangTag::Java)
    } else if ext == "kt"@ {
        Some(LangTag::Kotlin)
    } else if ext == "c"@ || ext == "h"@ {
        Some(LangTag::C)
    } else if ext == "cpp"@ || ext == "CPP"@ || ext == "cc"@ || ext == "c++"@ || ext == "cxx"@
        || ext == "CXX"@ || ext == "hpp"@ || ext == "hxx"@ || ext == "Hxx"@ || ext == "HXX"@
        || ext == "C"@ || ext == "H"@ {
        Some(LangTag::Cpp)
    } else if ext == "rs"@ {
        Some(LangTag::Rust)
    } else if ext == "py"@ || ext == "py3"@ || ext == "pxd"@ || ext == "pyi"@ || ext == "pyz"@
        || ext == "pywz"@ || ext == "ipynb"@ {
        Some(LangTag::Python)
    } else if ext == "gradle"@ {
        Some(LangTag::Gradle)
    } else if ext == "cmake"@ {
        Some(LangTag::Cmake)
    } else if ext == "mk"@ || ext == "MK"@ || ext == "makefile"@ || ext == "MAKEFILE"@ {
        Some(LangTag::Makefile)
    } else if ext == "s"@ || ext == "S"@ || ext == "asm"@ {
        Some(LangTag::Assembly)
    } else if denied_extension(ext) {
        None
    } else {
        Some(LangTag::Other(ext))
    }
}

/// The deny-list of opaque binary and packaged formats: archives,
/// compiled objects, images, executables, debug symbols, databases.
pub open spec fn denied_extension(ext: Seq<char>) -> bool {
    ||| ext == "jar"@
    ||| ext == "so"@
    ||| ext == "obj"@
    ||| ext == "webp"@
    ||| ext == "class"@
    ||| ext == "jpeg"@
    ||| ext == "jpg"@
    ||| ext == "exe"@
    ||| ext == "webm"@
    ||| ext == "db"@
    ||| ext == "original"@
    ||| ext == "iml"@
    ||| ext == "dex"@
    ||| ext == "sha1"@
    ||| ext == "ttf"@
    ||| ext == "aab"@
    ||| ext == "mp4"@
    ||| ext == "apk"@
    ||| ext == "apex"@
    ||| ext == "ko"@
    ||| ext == "lz4"@
    ||| ext == "gz"@
    ||| ext == "debug"@
    ||| ext == "cr2"@
}

/// Whether an extension is on the opaque-binary deny-list.
pub fn is_denied_extension(ext: &str) -> (r: bool)
    ensures
        r == denied_extension(ext@),
{
    str_eq(ext, "jar") || str_eq(ext, "so") || str_eq(ext, "obj") || str_eq(ext, "webp")
        || str_eq(ext, "class") || str_eq(ext, "jpeg") || str_eq(ext, "jpg")
        || str_eq(ext, "exe")
        || str_eq(ext, "webm") || str_eq(ext, "db") || str_eq(ext, "original")
        || str_eq(ext, "iml") || str_eq(ext, "dex") || str_eq(ext, "sha1") || str_eq(ext, "ttf")
        || str_eq(ext, "aab") || str_eq(ext, "mp4") || str_eq(ext, "apk") || str_eq(ext, "apex")
        || str_eq(ext, "ko") || str_eq(ext, "lz4") || str_eq(ext, "gz") || str_eq(ext, "debug")
        || str_eq(ext, "cr2")
}

/// The substring after the last `.` of `file_name`, or `None` when the
/// name holds no `.` at all.
pub fn extension_of(file_name: &str) -> (r: Option<&str>)
    ensures
        match r {
            Some(e) => last_dot(file_name@) >= 0 && e@ == file_name@.subrange(
                last_dot(file_name@) + 1,
                file_name@.len() as int,
            ),
            None => last_dot(file_name@) < 0,
        },
{
    let n = file_name.unicode_len();
    let mut i: usize = 0;
    // position of the last '.' seen so far; n is the "none" sentinel
    let mut dot_pos: usize = n;
    while i < n
        invariant
            i <= n,
            dot_pos <= n,
            n == file_name@.len(),
            dot_pos == n ==> forall|j: int| 0 <= j < i ==> file_name@[j] != '.',
            dot_pos < n ==> dot_pos < i && file_name@[dot_pos as int] == '.'
                && forall|j: int| dot_pos < j < i ==> file_name@[j] != '.',
        decreases n - i,
    {
        if file_name.get_char(i) == '.' {
            dot_pos = i;
        }
        i += 1;
    }
    if dot_pos == n {
        proof {
            lemma_last_dot_none(file_name@);
        }
        return None;
    }
    proof {
        lemma_last_dot_at(file_name@, dot_pos as int);
    }
    Some(file_name.substring_char(dot_pos + 1, n))
}

/// What the classifier returns for a whole file name: the language of the
/// substring after the last `.`, or `None` when no `.` occurs.
pub open spec fn spec_classify(name: Seq<char>) -> Option<LangTag> {
    if last_dot(name) < 0 {
        None
    } else {
        lang_of_ext(name.subrange(last_dot(name) + 1, name.len() as int))
    }
}

impl Language {
    /// Finds the language matching the extension in `file_name`.
    ///
    /// Total over all names: every name yields either exactly one language
    /// or `None` (the name is excluded), and the call never panics.
    pub fn new(file_name: &str) -> (r: Option<Language>)
        ensures
            r.deep_view() == spec_classify(file_name@),
    {
        match extension_of(file_name) {
            Some(ext) => Self::of_extension(ext),
            None => None,
        }
    }

    /// The language for an extension already cut out of a file name.
    pub fn of_extension(ext: &str) -> (r: Option<Language>)
        ensures
            r.deep_view() == lang_of_ext(ext@),
    {
        if ext.unicode_len() > 15 {
            None
        } else if str_eq(ext, "java") {
            Some(Language::JAVA)
        } else if str_eq(ext, "kt") {
            Some(Language::KOTLIN)
        } else if str_eq(ext, "c") || str_eq(ext, "h") {
            Some(Language::C)
        } else if str_eq(ext, "cpp") || str_eq(ext, "CPP") || str_eq(ext, "cc")
            || str_eq(ext, "c++") || str_eq(ext, "cxx") || str_eq(ext, "CXX")
            || str_eq(ext, "hpp") || str_eq(ext, "hxx") || str_eq(ext, "Hxx")
            || str_eq(ext, "HXX") || str_eq(ext, "C") || str_eq(ext, "H") {
            Some(Language::CPP)
        } else if str_eq(ext, "rs") {
            Some(Language::RUST)
        } else if str_eq(ext, "py") || str_eq(ext, "py3") || str_eq(ext, "pxd")
            || str_eq(ext, "pyi") || str_eq(ext, "pyz") || str_eq(ext, "pywz")
            || str_eq(ext, "ipynb") {
            Some(Language::PYTHON)
        } else if str_eq(ext, "gradle") {
            Some(Language::GRADLE)
        } else if str_eq(ext, "cmake") {
            Some(Language::CMAKE)
        } else if str_eq(ext, "mk") || str_eq(ext, "MK") || str_eq(ext, "makefile")
            || str_eq(ext, "MAKEFILE") {
            Some(Language::MAKEFILE)
        } else if str_eq(ext, "s") || str_eq(ext, "S") || str_eq(ext, "asm") {
            Some(Language::ASSEMBLY)
        } else if is_denied_extension(ext) {
            None
        } else {
            Some(Language::OTHER(String::from_str(ext)))
        }
    }
}

} // verus!
