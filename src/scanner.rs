//! Fixed parts of project discovery under the home directory.

use vstd::prelude::*;
use crate::skills::{join_path, join_path_exec};

verus! {

/// How deep discovery descends below the directory it starts from.
pub const DEFAULT_DISCOVERY_DEPTH: usize = 12;

/// The directories under `home` that never hold code projects, relative to
/// it.
pub open spec fn skipped_subdirs() -> Seq<Seq<char>> {
    seq![
        "Applications"@, "Movies"@, "Music"@, "Pictures"@, "Public"@, "Library"@,
        "Library/Mobile Documents"@, "Library/CloudStorage"@, "Library/Containers"@,
    ]
}

/// The directories under `home` that need Full Disk Access to be read,
/// relative to it.
pub open spec fn protected_subdirs() -> Seq<Seq<char>> {
    seq!["Desktop"@, "Documents"@, "Downloads"@]
}

/// The list of `names`, each joined to `home`.
pub open spec fn joined_all(home: Seq<char>, names: Seq<Seq<char>>) -> Seq<Seq<char>> {
    names.map_values(|n: Seq<char>| join_path(home, n))
}

/// The paths of a list of strings.
pub open spec fn paths_view(v: Seq<String>) -> Seq<Seq<char>> {
    v.map_values(|s: String| s@)
}

/// The directories that discovery always skips: on macOS (the host tells)
/// the fixed list under the home directory, elsewhere none.
pub fn always_skip_dirs(home_dir: &str, macos: bool) -> (r: Vec<String>)
    ensures
        macos ==> paths_view(r@) == joined_all(home_dir@, skipped_subdirs()),
        !macos ==> r@.len() == 0,
{
    let mut r: Vec<String> = Vec::new();
    if !macos {
        return r;
    }
    r.push(join_path_exec(home_dir, "Applications"));
    r.push(join_path_exec(home_dir, "Movies"));
    r.push(join_path_exec(home_dir, "Music"));
    r.push(join_path_exec(home_dir, "Pictures"));
    r.push(join_path_exec(home_dir, "Public"));
    r.push(join_path_exec(home_dir, "Library"));
    r.push(join_path_exec(home_dir, "Library/Mobile Documents"));
    r.push(join_path_exec(home_dir, "Library/CloudStorage"));
    r.push(join_path_exec(home_dir, "Library/Containers"));
    assert(paths_view(r@) =~= joined_all(home_dir@, skipped_subdirs()));
    r
}

/// The directories that discovery skips unless Full Disk Access is granted:
/// on macOS (the host tells) the fixed list under the home directory,
/// elsewhere none.
pub fn protected_docs_dirs(home_dir: &str, macos: bool) -> (r: Vec<String>)
    ensures
        macos ==> paths_view(r@) == joined_all(home_dir@, protected_subdirs()),
        !macos ==> r@.len() == 0,
{
    let mut r: Vec<String> = Vec::new();
    if !macos {
        return r;
    }
    r.push(join_path_exec(home_dir, "Desktop"));
    r.push(join_path_exec(home_dir, "Documents"));
    r.push(join_path_exec(home_dir, "Downloads"));
    assert(paths_view(r@) =~= joined_all(home_dir@, protected_subdirs()));
    r
}

} // verus!
