use code_stats::language::Language;
use code_stats::scanner::skip_entry;

#[test]
fn classifier_known_languages() {
    assert_eq!(Language::new("Foo.java"), Some(Language::JAVA));
    assert_eq!(Language::new("a.kt"), Some(Language::KOTLIN));
    assert_eq!(Language::new("a.c"), Some(Language::C));
    assert_eq!(Language::new("a.h"), Some(Language::C));
    assert_eq!(Language::new("a.cpp"), Some(Language::CPP));
    assert_eq!(Language::new("a.CPP"), Some(Language::CPP));
    assert_eq!(Language::new("a.cc"), Some(Language::CPP));
    assert_eq!(Language::new("a.c++"), Some(Language::CPP));
    assert_eq!(Language::new("a.cxx"), Some(Language::CPP));
    assert_eq!(Language::new("a.CXX"), Some(Language::CPP));
    assert_eq!(Language::new("a.hpp"), Some(Language::CPP));
    assert_eq!(Language::new("a.hxx"), Some(Language::CPP));
    assert_eq!(Language::new("a.Hxx"), Some(Language::CPP));
    assert_eq!(Language::new("a.HXX"), Some(Language::CPP));
    assert_eq!(Language::new("a.C"), Some(Language::CPP));
    assert_eq!(Language::new("a.H"), Some(Language::CPP));
    assert_eq!(Language::new("main.rs"), Some(Language::RUST));
    assert_eq!(Language::new("a.py"), Some(Language::PYTHON));
    assert_eq!(Language::new("a.py3"), Some(Language::PYTHON));
    assert_eq!(Language::new("a.pxd"), Some(Language::PYTHON));
    assert_eq!(Language::new("a.pyi"), Some(Language::PYTHON));
    assert_eq!(Language::new("a.pyz"), Some(Language::PYTHON));
    assert_eq!(Language::new("a.pywz"), Some(Language::PYTHON));
    assert_eq!(Language::new("a.ipynb"), Some(Language::PYTHON));
    assert_eq!(Language::new("build.gradle"), Some(Language::GRADLE));
    assert_eq!(Language::new("x.cmake"), Some(Language::CMAKE));
    assert_eq!(Language::new("a.mk"), Some(Language::MAKEFILE));
    assert_eq!(Language::new("a.MK"), Some(Language::MAKEFILE));
    assert_eq!(Language::new("x.makefile"), Some(Language::MAKEFILE));
    assert_eq!(Language::new("x.MAKEFILE"), Some(Language::MAKEFILE));
    assert_eq!(Language::new("a.s"), Some(Language::ASSEMBLY));
    assert_eq!(Language::new("a.S"), Some(Language::ASSEMBLY));
    assert_eq!(Language::new("a.asm"), Some(Language::ASSEMBLY));
}

#[test]
fn classifier_excluded_binary_formats() {
    for name in [
        "a.jar", "a.so", "a.obj", "a.webp", "a.class", "a.jpeg", "a.jpg", "a.exe", "a.webm",
        "a.db", "a.original", "a.iml", "a.dex", "a.sha1", "a.ttf", "a.aab", "a.mp4", "a.apk",
        "a.apex", "a.ko", "a.lz4", "a.gz", "a.debug", "a.cr2",
    ] {
        assert_eq!(Language::new(name), None, "{name} should be excluded");
    }
}

#[test]
fn classifier_no_extension_is_excluded() {
    assert_eq!(Language::new("Makefile"), None);
    assert_eq!(Language::new(""), None);
    assert_eq!(Language::new("noext"), None);
}

#[test]
fn classifier_overlong_extension_is_excluded() {
    // 16 characters after the dot
    assert_eq!(Language::new("a.abcdefghijklmnop"), None);
}

#[test]
fn classifier_other_extension_is_counted() {
    assert_eq!(
        Language::new("data.xyz"),
        Some(Language::OTHER(String::from("xyz")))
    );
    // a trailing dot leaves an empty extension, which is still "other"
    assert_eq!(
        Language::new("trailing."),
        Some(Language::OTHER(String::from("")))
    );
    // only the last extension counts
    assert_eq!(Language::new("archive.tar.xyz"), Some(Language::OTHER(String::from("xyz"))));
    assert_eq!(Language::new("mod.tar.rs"), Some(Language::RUST));
}

#[test]
fn classifier_is_total_on_odd_names() {
    // arbitrary strings neither panic nor produce more than one answer
    for name in ["", ".", "..", "...", "a b c.d e", "日本語.テスト", "\u{0}.x", "a.\u{1F600}"] {
        let _ = Language::new(name);
    }
}

#[test]
fn scanner_skips_marker_segments() {
    assert!(skip_entry(".repo", false, false));
    assert!(skip_entry(".git", false, false));
    assert!(skip_entry("prebuilt", false, false));
    assert!(skip_entry("prebuilts", false, false));
    assert!(skip_entry("out", false, false));
    assert!(!skip_entry("src", false, false));
}

#[test]
fn scanner_skips_symlinks_and_binaries() {
    assert!(skip_entry("anything", false, true));
    assert!(skip_entry("lib.so", true, false));
    assert!(skip_entry("img.jpg", true, false));
    assert!(!skip_entry("lib.rs", true, false));
    // the binary fast path applies to files only
    assert!(!skip_entry("lib.so", false, false));
    // a file without an extension is not skipped here; the classifier decides
    assert!(!skip_entry("README", true, false));
}
