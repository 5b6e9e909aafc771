//! Entry filtering for the directory walk: which entries of a directory
//! are scanned at all.  The walk itself lists directories and reads
//! files; its results are reduced with `counter::merge_results`.

use vstd::prelude::*;
use crate::language::denied_extension;
use crate::language::extension_of;
use crate::language::is_denied_extension;
use crate::language::last_dot;
use crate::strutil::str_eq;

verus! {

/// Final path segments that mark version-control or build-artifact
/// directories; whole subtrees under them are skipped.
pub open spec fn spec_excluded_segment(name: Seq<char>) -> bool {
    ||| name == ".repo"@
    ||| name == ".git"@
    ||| name == "prebuilt"@
    ||| name == "prebuilts"@
    ||| name == "out"@
}

/// Whether a path's final segment marks a skipped subtree.
pub fn excluded_segment(name: &str) -> (r: bool)
    ensures
        r == spec_excluded_segment(name@),
{
    str_eq(name, ".repo") || str_eq(name, ".git") || str_eq(name, "prebuilt")
        || str_eq(name, "prebuilts") || str_eq(name, "out")
}

/// Which entries the scan leaves out: marker segments, symbolic links,
/// and (as a fast path, before the file is ever opened) files whose
/// extension is on the opaque-binary deny-list.
pub open spec fn spec_skip_entry(segment: Seq<char>, is_file: bool, is_symlink: bool) -> bool {
    ||| spec_excluded_segment(segment)
    ||| is_symlink
    ||| (is_file && last_dot(segment) >= 0 && denied_extension(
        segment.subrange(last_dot(segment) + 1, segment.len() as int),
    ))
}

/// Decides whether one directory entry is excluded from the scan, from
/// its final path segment and its kind.
pub fn skip_entry(segment: &str, is_file: bool, is_symlink: bool) -> (r: bool)
    ensures
        r == spec_skip_entry(segment@, is_file, is_symlink),
{
    if excluded_segment(segment) {
        return true;
    }
    if is_symlink {
        return true;
    }
    if is_file {
        match extension_of(segment) {
            Some(ext) => is_denied_extension(ext),
            None => false,
        }
    } else {
        false
    }
}

} // verus!
