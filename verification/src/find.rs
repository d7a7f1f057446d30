//! The `find` built-in: which entries match and how they are shown.
use vstd::prelude::*;
use vstd::string::StringExecFns;
use crate::icons::{IconMode, icon_ok, get_icon};
use crate::text::{contains_seq, contains_str, decimal, lowercase, push_decimal, to_lowercase};

verus! {

/// The line announcing a search.
pub open spec fn banner_text(pattern: Seq<char>) -> Seq<char> {
    "\x1b[90mSearching recursively for '"@ + pattern + "'...\x1b[0m"@
}

/// The line announcing a search for `pattern`.
pub fn search_banner(pattern: &str) -> (r: String)
    ensures
        r@ == banner_text(pattern@),
{
    let mut r = String::from_str("\x1b[90mSearching recursively for '");
    r.append(pattern);
    r.append("'...\x1b[0m");
    r
}

/// Whether an entry named `name` matches: its lower-cased name contains the
/// lower-cased pattern.
pub open spec fn name_matches(name: Seq<char>, pattern: Seq<char>) -> bool {
    contains_seq(lowercase(name), lowercase(pattern))
}

/// The name coloured by kind: bold blue for a directory, bold cyan for a link.
pub open spec fn find_colored_name(name: Seq<char>, is_dir: bool, is_symlink: bool) -> Seq<char> {
    if is_dir {
        "\x1b[1;34m"@ + name + "\x1b[0m"@
    } else if is_symlink {
        "\x1b[1;36m"@ + name + "\x1b[0m"@
    } else {
        name
    }
}

/// The line for a match: icon, coloured name and the dim relative path.
pub open spec fn entry_text(icon: Seq<char>, name: Seq<char>, path: Seq<char>, is_dir: bool, is_symlink: bool) -> Seq<char> {
    "  "@ + icon + find_colored_name(name, is_dir, is_symlink) + "  \x1b[90m("@ + path + ")\x1b[0m"@
}

/// What `find` prints for one entry, given whether its name matched: nothing when it
/// did not or the relative path is empty (the starting directory itself), else its
/// line.
pub open spec fn is_entry_output(
    r: Option<Seq<char>>,
    matched: bool,
    name: Seq<char>,
    path: Seq<char>,
    is_dir: bool,
    is_symlink: bool,
    mode: IconMode,
) -> bool {
    if !matched || path.len() == 0 {
        r is None
    } else {
        exists|icon: Seq<char>|
            #[trigger] icon_ok(name, is_dir, mode, icon) && r == Some(
                entry_text(icon, name, path, is_dir, is_symlink),
            )
    }
}

/// What `find` prints for one entry when searching for `pattern`.
pub open spec fn is_find_output(
    r: Option<Seq<char>>,
    pattern: Seq<char>,
    name: Seq<char>,
    path: Seq<char>,
    is_dir: bool,
    is_symlink: bool,
    mode: IconMode,
) -> bool {
    is_entry_output(r, name_matches(name, pattern), name, path, is_dir, is_symlink, mode)
}

/// The model of an optional string.
pub open spec fn opt_string_view(r: Option<String>) -> Option<Seq<char>> {
    match r {
        Some(s) => Some(s@),
        None => None,
    }
}

/// The line for an entry named `name` at relative path `path`, given the lower-cased
/// pattern and name: it matches when the lower-cased name contains the lower-cased
/// pattern.
pub fn entry_for_lowered(
    lower_pattern: &str,
    lower_name: &str,
    name: &str,
    path: &str,
    is_dir: bool,
    is_symlink: bool,
    mode: IconMode,
) -> (r: Option<String>)
    ensures
        is_entry_output(
            opt_string_view(r),
            contains_seq(lower_name@, lower_pattern@),
            name@,
            path@,
            is_dir,
            is_symlink,
            mode,
        ),
{
    if !contains_str(lower_name, lower_pattern) {
        return None;
    }
    if path.unicode_len() == 0 {
        return None;
    }
    let icon = get_icon(name, is_dir, mode);
    let mut r = String::from_str("  ");
    r.append(icon.as_str());
    if is_dir {
        r.append("\x1b[1;34m");
        r.append(name);
        r.append("\x1b[0m");
    } else if is_symlink {
        r.append("\x1b[1;36m");
        r.append(name);
        r.append("\x1b[0m");
    } else {
        r.append(name);
    }
    r.append("  \x1b[90m(");
    r.append(path);
    r.append(")\x1b[0m");
    assert(r@ =~= entry_text(icon@, name@, path@, is_dir, is_symlink));
    Some(r)
}

/// The line `find` prints for an entry named `name` at relative path `path`, if any.
pub fn find_entry(
    pattern: &str,
    name: &str,
    path: &str,
    is_dir: bool,
    is_symlink: bool,
    mode: IconMode,
) -> (r: Option<String>)
    ensures
        is_find_output(opt_string_view(r), pattern@, name@, path@, is_dir, is_symlink, mode),
{
    let lower_pattern = to_lowercase(pattern);
    let lower_name = to_lowercase(name);
    entry_for_lowered(lower_pattern.as_str(), lower_name.as_str(), name, path, is_dir, is_symlink, mode)
}

/// The closing line: how many entries matched, `match` or `matches`.
pub open spec fn summary_text(count: nat) -> Seq<char> {
    "\nFound \x1b[1;36m"@ + decimal(count) + "\x1b[0m match"@ + (if count == 1 {
        ""@
    } else {
        "es"@
    })
}

/// The closing line of a search that found `count` entries.
pub fn find_summary(count: u64) -> (r: String)
    ensures
        r@ == summary_text(count as nat),
{
    let mut r = String::from_str("\nFound \x1b[1;36m");
    push_decimal(&mut r, count);
    r.append("\x1b[0m match");
    if count == 1 {
        r.append("");
    } else {
        r.append("es");
    }
    r
}

} // verus!

verus! {

/// An entry is found when the lower-cased pattern occurs anywhere in its lower-cased
/// name (here at position `i`) and it is not the starting directory itself: `find`
/// then prints a line for it.
pub proof fn lemma_found_anywhere(
    r: Option<Seq<char>>,
    pattern: Seq<char>,
    name: Seq<char>,
    path: Seq<char>,
    is_dir: bool,
    is_symlink: bool,
    mode: IconMode,
    i: int,
)
    requires
        is_find_output(r, pattern, name, path, is_dir, is_symlink, mode),
        path.len() > 0,
        0 <= i,
        i + lowercase(pattern).len() <= lowercase(name).len(),
        lowercase(name).subrange(i, i + lowercase(pattern).len()) == lowercase(pattern),
    ensures
        r is Some,
{
    assert(contains_seq(lowercase(name), lowercase(pattern)));
}

/// An entry is printed only when the lower-cased pattern occurs somewhere in its
/// lower-cased name and its path is not empty.
pub proof fn lemma_found_only_on_match(
    r: Option<Seq<char>>,
    pattern: Seq<char>,
    name: Seq<char>,
    path: Seq<char>,
    is_dir: bool,
    is_symlink: bool,
    mode: IconMode,
)
    requires
        is_find_output(r, pattern, name, path, is_dir, is_symlink, mode),
        r is Some,
    ensures
        path.len() > 0,
        exists|i: int|
            0 <= i && i + lowercase(pattern).len() <= lowercase(name).len() && #[trigger] lowercase(
                name,
            ).subrange(i, i + lowercase(pattern).len()) == lowercase(pattern),
{
}

} // verus!
