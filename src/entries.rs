//! Rules on the names and paths of configuration entries: agent, skill and
//! command files must sit under the matching subdirectory of the assistant's
//! configuration directory (a dot-directory whose name the host passes), entry
//! names must be plain file names, and exports must not land in a system
//! directory. Paths arrive here as text: the host resolves them first.

use vstd::prelude::*;
use crate::text::{
    chars_of, contains_exec, contains_text, find_text, first_occurrence, has_char, occurs_at,
    occurs_at_exec, replace_char, replace_char_exec, starts_with_text,
};

verus! {

/// A character of Unicode's `White_Space` property, which is what
/// `char::is_whitespace` and `str::trim` go by.
pub open spec fn is_space(c: char) -> bool {
    ('\u{9}' <= c && c <= '\u{d}') || c == ' ' || c == '\u{85}' || c == '\u{a0}' || c == '\u{1680}'
        || ('\u{2000}' <= c && c <= '\u{200a}') || c == '\u{2028}' || c == '\u{2029}' || c
        == '\u{202f}' || c == '\u{205f}' || c == '\u{3000}'
}

/// Whether `c` is white space.
pub fn is_space_exec(c: char) -> (r: bool)
    ensures
        r == is_space(c),
{
    ('\u{9}' <= c && c <= '\u{d}') || c == ' ' || c == '\u{85}' || c == '\u{a0}' || c == '\u{1680}'
        || ('\u{2000}' <= c && c <= '\u{200a}') || c == '\u{2028}' || c == '\u{2029}' || c
        == '\u{202f}' || c == '\u{205f}' || c == '\u{3000}'
}

/// The text is empty or white space only.
pub open spec fn is_blank(s: Seq<char>) -> bool {
    forall|i: int| 0 <= i < s.len() ==> is_space(#[trigger] s[i])
}

/// Why an entry name is refused, if it is.
pub open spec fn entry_name_error(name: Seq<char>) -> Option<Seq<char>> {
    if is_blank(name) {
        Some("Agent name cannot be empty"@)
    } else if name.contains('/') || name.contains('\\') {
        Some("Agent name cannot contain path separators"@)
    } else if contains_text(name, ".."@) {
        Some("Agent name cannot contain '..'"@)
    } else if name.contains('\0') {
        Some("Agent name contains invalid characters"@)
    } else {
        None
    }
}

fn blank_exec(s: &Vec<char>) -> (r: bool)
    ensures
        r == is_blank(s@),
{
    let mut i: usize = 0;
    while i < s.len()
        invariant
            i <= s@.len(),
            forall|j: int| 0 <= j < i ==> is_space(#[trigger] s@[j]),
        decreases s@.len() - i,
    {
        if !is_space_exec(s[i]) {
            return false;
        }
        i = i + 1;
    }
    true
}

/// Checks that an entry name can serve as a file name: not blank, no path
/// separator, no `..`, no NUL character.
pub fn validate_entry_name(name: &str) -> (r: Result<(), String>)
    ensures
        match r {
            Ok(_) => entry_name_error(name@) is None,
            Err(m) => entry_name_error(name@) == Some(m@),
        },
{
    let cs = chars_of(name);
    if blank_exec(&cs) {
        return Err(String::from_str("Agent name cannot be empty"));
    }
    if has_char(&cs, '/') || has_char(&cs, '\\') {
        return Err(String::from_str("Agent name cannot contain path separators"));
    }
    let dots = chars_of("..");
    if contains_exec(&cs, &dots) {
        return Err(String::from_str("Agent name cannot contain '..'"));
    }
    if has_char(&cs, '\0') {
        return Err(String::from_str("Agent name contains invalid characters"));
    }
    Ok(())
}

/// The text `<config_dir>/<subdir>`.
pub open spec fn subdir_pattern(config_dir: Seq<char>, subdir: Seq<char>) -> Seq<char> {
    config_dir + "/"@ + subdir
}

/// Whether a resolved path lies under `<config_dir>/<subdir>`: with `\`
/// read as `/`, the first occurrence of `<config_dir>/<subdir>` is a whole
/// run of path components, and no `..` follows it.
pub open spec fn in_config_subdir(path: Seq<char>, config_dir: Seq<char>, subdir: Seq<char>) -> bool {
    let n = replace_char(path, '\\', '/');
    let p = subdir_pattern(config_dir, subdir);
    exists|i: int|
        #![trigger first_occurrence(n, p, i)]
        first_occurrence(n, p, i) && (i == 0 || n[i - 1] == '/') && (i + p.len() >= n.len() || n[i
            + p.len()] == '/') && !contains_text(n.subrange(i + p.len(), n.len() as int), ".."@)
}

/// The refusal for a path outside `<config_dir>/<subdir>`.
pub open spec fn outside_subdir_message(config_dir: Seq<char>, subdir: Seq<char>) -> Seq<char> {
    "Refusing to modify files outside "@ + subdir_pattern(config_dir, subdir)
}

fn ensure_path_in_config_subdir(canonical: &str, config_dir: &str, subdir: &str) -> (r: Result<(), String>)
    ensures
        r is Ok <==> in_config_subdir(canonical@, config_dir@, subdir@),
        r matches Err(m) ==> m@ == outside_subdir_message(config_dir@, subdir@),
{
    let raw = chars_of(canonical);
    let n = replace_char_exec(&raw, '\\', '/');
    let pattern_text = String::from_str(config_dir).concat("/").concat(subdir);
    let p = chars_of(pattern_text.as_str());
    let ghost ns = n@;
    let ghost ps = p@;
    assert(ps == subdir_pattern(config_dir@, subdir@));
    let refusal = String::from_str("Refusing to modify files outside ").concat(pattern_text.as_str());
    match find_text(&n, &p) {
        None => {
            proof {
                assert forall|i: int| !first_occurrence(ns, ps, i) by {}
            }
            Err(refusal)
        },
        Some(idx) => {
            let nlen = n.len();
            assert(idx + ps.len() <= nlen);
            let before_ok = idx == 0 || n[idx - 1] == '/';
            let after_idx = idx + p.len();
            let after_ok = after_idx >= n.len() || n[after_idx] == '/';
            let ghost rest = ns.subrange(after_idx as int, ns.len() as int);
            proof {
                assert forall|i: int| first_occurrence(ns, ps, i) implies i == idx by {
                    if i < idx {
                        assert(!occurs_at(ns, ps, i));
                    }
                    if i > idx {
                        assert(!occurs_at(ns, ps, idx as int));
                    }
                }
            }
            if before_ok && after_ok {
                let mut remaining: Vec<char> = Vec::new();
                let mut k: usize = after_idx;
                while k < n.len()
                    invariant
                        after_idx <= k <= n@.len(),
                        remaining@ == n@.subrange(after_idx as int, k as int),
                    decreases n@.len() - k,
                {
                    remaining.push(n[k]);
                    k = k + 1;
                    assert(remaining@ =~= n@.subrange(after_idx as int, k as int));
                }
                let dots = chars_of("..");
                if !contains_exec(&remaining, &dots) {
                    assert(first_occurrence(ns, ps, idx as int));
                    return Ok(());
                }
            }
            Err(refusal)
        },
    }
}

/// Checks that a resolved path lies in the `agents` subdirectory of the
/// configuration directory named `config_dir`.
pub fn ensure_path_in_agents_dir(canonical: &str, config_dir: &str) -> (r: Result<(), String>)
    ensures
        r is Ok <==> in_config_subdir(canonical@, config_dir@, "agents"@),
        r matches Err(m) ==> m@ == outside_subdir_message(config_dir@, "agents"@),
{
    ensure_path_in_config_subdir(canonical, config_dir, "agents")
}

/// Checks that a resolved path lies in the `skills` subdirectory of the
/// configuration directory named `config_dir`.
pub fn ensure_path_in_skills_dir(canonical: &str, config_dir: &str) -> (r: Result<(), String>)
    ensures
        r is Ok <==> in_config_subdir(canonical@, config_dir@, "skills"@),
        r matches Err(m) ==> m@ == outside_subdir_message(config_dir@, "skills"@),
{
    ensure_path_in_config_subdir(canonical, config_dir, "skills")
}

/// Checks that a resolved path lies in the `commands` subdirectory of the
/// configuration directory named `config_dir`.
pub fn ensure_path_in_commands_dir(canonical: &str, config_dir: &str) -> (r: Result<(), String>)
    ensures
        r is Ok <==> in_config_subdir(canonical@, config_dir@, "commands"@),
        r matches Err(m) ==> m@ == outside_subdir_message(config_dir@, "commands"@),
{
    ensure_path_in_config_subdir(canonical, config_dir, "commands")
}

/// Whether `std::path::Path` takes the text for an absolute path on this
/// platform.
pub uninterp spec fn path_is_absolute(path: Seq<char>) -> bool;

/// The lower-case form that `str::to_lowercase` gives.
pub uninterp spec fn lower_of(s: Seq<char>) -> Seq<char>;

/// Relies on `std::path::Path::is_absolute`, which depends on the text alone.
#[verifier::external_body]
fn is_absolute_path(path: &str) -> (r: bool)
    ensures
        r == path_is_absolute(path@),
{
    std::path::Path::new(path).is_absolute()
}

/// Relies on `str::to_lowercase`, which depends on the characters alone.
#[verifier::external_body]
fn lowercase(s: &str) -> (r: String)
    ensures
        r@ == lower_of(s@),
{
    s.to_lowercase()
}

/// System directories of Unix-like systems, matched case-sensitively.
pub open spec fn unix_system_prefixes() -> Seq<Seq<char>> {
    seq![
        "/etc"@, "/usr"@, "/bin"@, "/sbin"@, "/var"@, "/lib"@, "/System"@, "/Library"@,
        "/Applications"@, "/private/etc"@, "/private/var"@,
    ]
}

/// System directories of Windows, in lower case.
pub open spec fn windows_system_prefixes() -> Seq<Seq<char>> {
    seq![
        "c:\\windows\\"@, "c:\\program files\\"@, "c:\\program files (x86)\\"@,
        "c:\\programdata\\"@, "c:\\$recycle.bin\\"@, "c:\\system volume information\\"@,
    ]
}

fn unix_system_prefix(i: usize) -> (r: &'static str)
    requires
        i < 11,
    ensures
        r@ == unix_system_prefixes()[i as int],
{
    match i {
        0 => "/etc",
        1 => "/usr",
        2 => "/bin",
        3 => "/sbin",
        4 => "/var",
        5 => "/lib",
        6 => "/System",
        7 => "/Library",
        8 => "/Applications",
        9 => "/private/etc",
        _ => "/private/var",
    }
}

fn windows_system_prefix(i: usize) -> (r: &'static str)
    requires
        i < 6,
    ensures
        r@ == windows_system_prefixes()[i as int],
{
    match i {
        0 => "c:\\windows\\",
        1 => "c:\\program files\\",
        2 => "c:\\program files (x86)\\",
        3 => "c:\\programdata\\",
        4 => "c:\\$recycle.bin\\",
        _ => "c:\\system volume information\\",
    }
}

/// The first of `list[from..]` that `s` starts with.
pub open spec fn first_unix_match(s: Seq<char>, list: Seq<Seq<char>>, from: int) -> Option<Seq<char>>
    decreases list.len() - from,
{
    if from < 0 || from >= list.len() {
        None
    } else if starts_with_text(s, list[from]) {
        Some(list[from])
    } else {
        first_unix_match(s, list, from + 1)
    }
}

/// The first of `list[from..]` that the lower-cased text starts with, as it
/// is or with `/` read as `\`.
pub open spec fn first_windows_match(lowered: Seq<char>, list: Seq<Seq<char>>, from: int) -> Option<Seq<char>>
    decreases list.len() - from,
{
    if from < 0 || from >= list.len() {
        None
    } else if starts_with_text(lowered, list[from]) || starts_with_text(
        replace_char(lowered, '/', '\\'),
        list[from],
    ) {
        Some(list[from])
    } else {
        first_windows_match(lowered, list, from + 1)
    }
}

/// The refusal for a destination in a system directory.
pub open spec fn system_dir_message(prefix: Seq<char>) -> Seq<char> {
    "Cannot export to system directory: "@ + prefix
}

/// Why an export destination is refused, if it is, given whether the path
/// is absolute and its lower-case form.
pub open spec fn export_error(dest: Seq<char>, absolute: bool, lowered: Seq<char>) -> Option<Seq<char>> {
    if !absolute {
        Some("Destination must be absolute path"@)
    } else {
        match first_unix_match(dest, unix_system_prefixes(), 0) {
            Some(p) => Some(system_dir_message(p)),
            None => match first_windows_match(lowered, windows_system_prefixes(), 0) {
                Some(p) => Some(system_dir_message(p)),
                None => None,
            },
        }
    }
}

/// Decides on an export destination, given whether the path is absolute and
/// its lower-case form: relative paths and paths in a system directory of
/// Unix-like systems or of Windows are refused.
pub fn check_export_destination(dest: &str, absolute: bool, lowered: &str) -> (r: Result<(), String>)
    ensures
        match r {
            Ok(_) => export_error(dest@, absolute, lowered@) is None,
            Err(m) => export_error(dest@, absolute, lowered@) == Some(m@),
        },
{
    if !absolute {
        return Err(String::from_str("Destination must be absolute path"));
    }
    let d = chars_of(dest);
    let mut i: usize = 0;
    while i < 11
        invariant
            absolute,
            d@ == dest@,
            i <= 11,
            first_unix_match(dest@, unix_system_prefixes(), 0) == first_unix_match(
                dest@,
                unix_system_prefixes(),
                i as int,
            ),
        decreases 11 - i,
    {
        let prefix = unix_system_prefix(i);
        let pc = chars_of(prefix);
        if occurs_at_exec(&d, &pc, 0) {
            assert(first_unix_match(dest@, unix_system_prefixes(), i as int) == Some(
                unix_system_prefixes()[i as int],
            ));
            let msg = String::from_str("Cannot export to system directory: ").concat(prefix);
            return Err(msg);
        }
        i = i + 1;
    }
    let low = chars_of(lowered);
    let low_slashes = replace_char_exec(&low, '/', '\\');
    let mut j: usize = 0;
    while j < 6
        invariant
            absolute,
            low@ == lowered@,
            low_slashes@ == replace_char(lowered@, '/', '\\'),
            j <= 6,
            first_unix_match(dest@, unix_system_prefixes(), 0) is None,
            first_windows_match(lowered@, windows_system_prefixes(), 0) == first_windows_match(
                lowered@,
                windows_system_prefixes(),
                j as int,
            ),
        decreases 6 - j,
    {
        let pattern = windows_system_prefix(j);
        let pc = chars_of(pattern);
        if occurs_at_exec(&low, &pc, 0) || occurs_at_exec(&low_slashes, &pc, 0) {
            assert(first_windows_match(lowered@, windows_system_prefixes(), j as int) == Some(
                windows_system_prefixes()[j as int],
            ));
            return Err(String::from_str("Cannot export to system directory: ").concat(pattern));
        }
        j = j + 1;
    }
    Ok(())
}

/// Checks that an export destination is an absolute path outside the system
/// directories of Unix-like systems and of Windows.
pub fn validate_export_destination(dest: &str) -> (r: Result<(), String>)
    ensures
        match r {
            Ok(_) => export_error(dest@, path_is_absolute(dest@), lower_of(dest@)) is None,
            Err(m) => export_error(dest@, path_is_absolute(dest@), lower_of(dest@)) == Some(m@),
        },
{
    let absolute = is_absolute_path(dest);
    let lowered = lowercase(dest);
    check_export_destination(dest, absolute, lowered.as_str())
}

} // verus!
