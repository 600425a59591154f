//! Which folders are walked and which files are indexed.
use vstd::prelude::*;

use crate::text::{
    ascii_lower, chars_eq_ignore_ascii_case, chars_of, eq_ignore_ascii_case, same_chars,
    string_from, to_ascii_lower,
};

verus! {

/// A supported file found under an indexed folder.
pub struct DiscoveredFile {
    /// The canonical path, as text.
    pub path: String,
    /// The last component of the path, as text.
    pub file_name: String,
}

/// An entry that could not be read while walking a folder.
pub struct DiscoveryFailure {
    /// The path of the entry, where it is known.
    pub path: Option<String>,
    /// What went wrong, for the `failures` table.
    pub category: String,
}

/// The result of walking a folder.
pub struct Discovery {
    /// The canonical path of the folder, as text.
    pub root: String,
    /// The supported files, in path order.
    pub files: Vec<DiscoveredFile>,
    /// The entries that could not be read.
    pub failures: Vec<DiscoveryFailure>,
}

/// The failure recorded for an entry that a walk could not read.
pub fn discovery_failure(path: Option<String>) -> (r: DiscoveryFailure)
    ensures
        r.path == path,
        r.category@ == "discovery"@,
{
    DiscoveryFailure { path, category: "discovery".to_owned() }
}

/// Dependency, build, version-control and system folders that are never walked:
/// their name equals one of these, ignoring ASCII case.
pub open spec fn is_excluded_directory_name(name: Seq<char>) -> bool {
    ||| eq_ignore_ascii_case(name, ".git"@)
    ||| eq_ignore_ascii_case(name, ".hg"@)
    ||| eq_ignore_ascii_case(name, ".svn"@)
    ||| eq_ignore_ascii_case(name, "node_modules"@)
    ||| eq_ignore_ascii_case(name, "target"@)
    ||| eq_ignore_ascii_case(name, "dist"@)
    ||| eq_ignore_ascii_case(name, "build"@)
    ||| eq_ignore_ascii_case(name, ".idea"@)
    ||| eq_ignore_ascii_case(name, ".vscode"@)
    ||| eq_ignore_ascii_case(name, "$RECYCLE.BIN"@)
    ||| eq_ignore_ascii_case(name, "System Volume Information"@)
}

/// A walk enters an entry unless it is an excluded folder below the root.
pub open spec fn visits(is_dir: bool, depth: usize, name: Seq<char>) -> bool {
    !is_dir || depth == 0 || !is_excluded_directory_name(name)
}

/// The position of the last `.` in `s`.
pub open spec fn last_dot(s: Seq<char>) -> Option<int>
    decreases s.len(),
{
    if s.len() == 0 {
        None
    } else if s.last() == '.' {
        Some(s.len() - 1)
    } else {
        last_dot(s.drop_last())
    }
}

/// The extension of a file name, as `Path::extension` finds it: the text after the
/// last `.`, unless the name is `..`, has no `.`, or has its only leading `.` first.
pub open spec fn extension_of(file_name: Seq<char>) -> Option<Seq<char>> {
    if file_name == seq!['.', '.'] {
        None
    } else {
        match last_dot(file_name) {
            None => None,
            Some(i) => if i == 0 {
                None
            } else {
                Some(file_name.subrange(i + 1, file_name.len() as int))
            },
        }
    }
}

/// The extensions that are indexed, in lower case.
pub open spec fn is_supported_extension(lowered: Seq<char>) -> bool {
    lowered == "txt"@ || lowered == "md"@ || lowered == "markdown"@
}

/// A file is indexed when its extension is `txt`, `md` or `markdown`, in any ASCII case.
pub open spec fn is_supported_name(file_name: Seq<char>) -> bool {
    match extension_of(file_name) {
        Some(e) => is_supported_extension(ascii_lower(e)),
        None => false,
    }
}

/// The extension recorded for an indexed file: its extension in ASCII lower case, or
/// empty when it has none.
pub open spec fn recorded_extension(file_name: Seq<char>) -> Seq<char> {
    match extension_of(file_name) {
        Some(e) => ascii_lower(e),
        None => seq![],
    }
}

fn name_is(name: &Vec<char>, candidate: &str) -> (r: bool)
    ensures
        r == eq_ignore_ascii_case(name@, candidate@),
{
    let c = chars_of(candidate);
    chars_eq_ignore_ascii_case(name, &c)
}

/// Whether `name` is one of the folder names that are never walked.
pub fn is_excluded_directory(name: &str) -> (r: bool)
    ensures
        r == is_excluded_directory_name(name@),
{
    let v = chars_of(name);
    name_is(&v, ".git") || name_is(&v, ".hg") || name_is(&v, ".svn") || name_is(&v, "node_modules")
        || name_is(&v, "target") || name_is(&v, "dist") || name_is(&v, "build") || name_is(
        &v,
        ".idea",
    ) || name_is(&v, ".vscode") || name_is(&v, "$RECYCLE.BIN") || name_is(
        &v,
        "System Volume Information",
    )
}

/// Whether a folder walk enters an entry: every file, the root itself, and every
/// folder whose name is not excluded.
pub fn should_visit(is_dir: bool, depth: usize, name: &str) -> (r: bool)
    ensures
        r == visits(is_dir, depth, name@),
{
    if !is_dir || depth == 0 {
        return true;
    }
    !is_excluded_directory(name)
}

/// The extension of a file name (see `extension_of`).
pub fn file_extension(file_name: &str) -> (r: Option<String>)
    ensures
        match r {
            Some(e) => extension_of(file_name@) == Some(e@),
            None => extension_of(file_name@) is None,
        },
{
    let v = chars_of(file_name);
    if v.len() == 2 && v[0] == '.' && v[1] == '.' {
        assert(v@ =~= seq!['.', '.']);
        return None;
    }
    assert(v@ != seq!['.', '.']);
    let mut i: usize = v.len();
    assert(v@.take(v@.len() as int) =~= v@);
    while i > 0 && v[i - 1] != '.'
        invariant
            i <= v.len(),
            last_dot(v@) == last_dot(v@.take(i as int)),
        decreases i,
    {
        assert(v@.take(i as int).drop_last() =~= v@.take(i - 1));
        i -= 1;
    }
    if i == 0 {
        assert(v@.take(0).len() == 0);
        return None;
    }
    assert(last_dot(v@.take(i as int)) == Some(i - 1));
    if i == 1 {
        return None;
    }
    Some(string_from(&v, i, v.len()))
}

/// Whether a file is indexed: its extension is `txt`, `md` or `markdown`, in any
/// ASCII case.
pub fn is_supported(file_name: &str) -> (r: bool)
    ensures
        r == is_supported_name(file_name@),
{
    match file_extension(file_name) {
        None => false,
        Some(extension) => {
            let lowered = to_ascii_lower(&chars_of(extension.as_str()));
            let txt = chars_of("txt");
            let md = chars_of("md");
            let markdown = chars_of("markdown");
            same_chars(&lowered, &txt) || same_chars(&lowered, &md) || same_chars(
                &lowered,
                &markdown,
            )
        },
    }
}

/// The extension recorded for an indexed file (see `recorded_extension`).
pub fn extension_for_record(file_name: &str) -> (r: String)
    ensures
        r@ == recorded_extension(file_name@),
{
    match file_extension(file_name) {
        None => String::new(),
        Some(extension) => {
            let lowered = to_ascii_lower(&chars_of(extension.as_str()));
            assert(lowered@.subrange(0, lowered@.len() as int) =~= lowered@);
            string_from(&lowered, 0, lowered.len())
        },
    }
}

} // verus!
