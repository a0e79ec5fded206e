//! The rules by which a workspace is copied and its sources are chosen for obfuscation.

use vstd::prelude::*;
use vstd::string::StringExecFns;

verus! {

/// The directory under the temporary directory into which a workspace is copied, unless
/// another name is given.
pub const DEFAULT_BUILD_DIR: &'static str = ".r2d2_build_dir";

/// The ending of the names of source files.
pub const SOURCE_SUFFIX: &'static str = ".rs";

/// How the names of hidden files begin.
pub const HIDDEN_PREFIX: &'static str = ".";

/// How the paths of build outputs begin, within a workspace.
pub const OUTPUT_PREFIX: &'static str = "target";

/// True where `text` begins with `prefix`.
pub open spec fn starts_with(text: Seq<char>, prefix: Seq<char>) -> bool {
    prefix.len() <= text.len() && text.subrange(0, prefix.len() as int) == prefix
}

/// True where `text` ends with `suffix`.
pub open spec fn ends_with(text: Seq<char>, suffix: Seq<char>) -> bool {
    suffix.len() <= text.len() && text.subrange(text.len() - suffix.len(), text.len() as int)
        == suffix
}

/// Tells whether the characters of `part` stand in `text` from place `at` on.
fn matches_at(text: &str, part: &str, at: usize) -> (same: bool)
    requires
        at + part@.len() <= text@.len(),
        text@.len() <= usize::MAX,
    ensures
        same == (text@.subrange(at as int, at + part@.len()) == part@),
{
    let len = part.unicode_len();
    let mut i: usize = 0;
    while i < len
        invariant
            i <= len,
            len == part@.len(),
            at + len <= text@.len(),
            text@.len() <= usize::MAX,
            forall|j: int| 0 <= j < i ==> text@[at + j] == part@[j],
        decreases len - i,
    {
        if text.get_char(at + i) != part.get_char(i) {
            assert(text@.subrange(at as int, at + part@.len())[i as int] != part@[i as int]);
            return false;
        }
        i = i + 1;
    }
    assert(text@.subrange(at as int, at + part@.len()) =~= part@);
    true
}

/// Tells whether `text` begins with `prefix`.
pub fn has_prefix(text: &str, prefix: &str) -> (yes: bool)
    ensures
        yes == starts_with(text@, prefix@),
{
    let len = text.unicode_len();
    let part = prefix.unicode_len();
    if part > len {
        return false;
    }
    matches_at(text, prefix, 0)
}

/// Tells whether `text` ends with `suffix`.
pub fn has_suffix(text: &str, suffix: &str) -> (yes: bool)
    ensures
        yes == ends_with(text@, suffix@),
{
    let len = text.unicode_len();
    let part = suffix.unicode_len();
    if part > len {
        return false;
    }
    matches_at(text, suffix, len - part)
}

/// Tells whether a file is obfuscated: its path ends like that of a source file.
pub fn is_source_file(path: &str) -> (yes: bool)
    ensures
        yes == ends_with(path@, SOURCE_SUFFIX@),
{
    has_suffix(path, SOURCE_SUFFIX)
}

/// Tells whether a file or directory is hidden, and so not copied with what is below it.
pub fn is_hidden(file_name: &str) -> (yes: bool)
    ensures
        yes == starts_with(file_name@, HIDDEN_PREFIX@),
{
    has_prefix(file_name, HIDDEN_PREFIX)
}

/// Tells whether what lies at a path within the workspace is copied: everything but the
/// root itself and the build outputs.
pub fn is_copied(relative_path: &str) -> (yes: bool)
    ensures
        yes == (relative_path@.len() > 0 && !starts_with(relative_path@, OUTPUT_PREFIX@)),
{
    !relative_path.is_empty() && !has_prefix(relative_path, OUTPUT_PREFIX)
}

/// The name of the directory into which the workspace is copied.
pub fn build_dir_name(name: Option<&str>) -> (dir: String)
    ensures
        dir@ == match name {
            Some(given) => given@,
            None => DEFAULT_BUILD_DIR@,
        },
{
    match name {
        Some(given) => String::from_str(given),
        None => String::from_str(DEFAULT_BUILD_DIR),
    }
}

/// The directory whose sources are obfuscated: the copy of the workspace, or the part of it
/// that is named.
pub fn obfuscated_root(copy: &str, part: Option<&str>) -> (root: String)
    ensures
        root@ == match part {
            Some(partial) => copy@ + "/"@ + partial@,
            None => copy@,
        },
{
    let mut root = String::from_str(copy);
    match part {
        Some(partial) => {
            root.append("/");
            root.append(partial);
        },
        None => {},
    }
    root
}

} // verus!
