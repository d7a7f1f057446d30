//! The two-line prompt: identity, shortened path, git branch and last exit status.
use vstd::prelude::*;
use vstd::string::StringExecFns;
use crate::icons::IconMode;
use crate::text::{contains_seq, decimal, join_with, join_strings, lemma_contains_middle, push_char, push_decimal, str_eq, to_chars, trim, trim_str};

verus! {

/// The value of the first setting that is present, else `default`.
pub open spec fn first_present(a: Option<Seq<char>>, b: Option<Seq<char>>, default: Seq<char>) -> Seq<char> {
    match a {
        Some(x) => x,
        None => match b {
            Some(y) => y,
            None => default,
        },
    }
}

/// The model of an optional string slice.
pub open spec fn opt_view(o: Option<&str>) -> Option<Seq<char>> {
    match o {
        Some(s) => Some(s@),
        None => None,
    }
}

fn first_present_of(a: Option<&str>, b: Option<&str>, default: &str) -> (r: String)
    ensures
        r@ == first_present(opt_view(a), opt_view(b), default@),
{
    match a {
        Some(x) => String::from_str(x),
        None => match b {
            Some(y) => String::from_str(y),
            None => String::from_str(default),
        },
    }
}

/// The user name: `USER`, else `USERNAME`, else `user`.
pub fn choose_username(user: Option<&str>, username: Option<&str>) -> (r: String)
    ensures
        r@ == first_present(opt_view(user), opt_view(username), "user"@),
{
    first_present_of(user, username, "user")
}

/// The host name: the kernel's host name file trimmed, when that is not empty; else
/// `HOSTNAME`, else `HOST`, else `host`.
pub fn choose_hostname(file: Option<&str>, hostname: Option<&str>, host: Option<&str>) -> (r: String)
    ensures
        r@ == (if file matches Some(f) && trim(f@).len() > 0 {
            trim(file.unwrap()@)
        } else {
            first_present(opt_view(hostname), opt_view(host), "host"@)
        }),
{
    if let Some(f) = file {
        let t = trim_str(f);
        if t.as_str().unicode_len() > 0 {
            return t;
        }
    }
    first_present_of(hostname, host, "host")
}

/// The pieces of `s` between occurrences of `sep` (`str::split`).
pub open spec fn split_on(s: Seq<char>, sep: char) -> Seq<Seq<char>>
    decreases s.len(),
{
    if s.len() == 0 {
        seq![seq![]]
    } else {
        let p = split_on(s.drop_last(), sep);
        if s.last() == sep {
            p.push(seq![])
        } else {
            p.update(p.len() - 1, p.last().push(s.last()))
        }
    }
}

proof fn lemma_split_on_nonempty(s: Seq<char>, sep: char)
    ensures
        split_on(s, sep).len() >= 1,
    decreases s.len(),
{
    if s.len() > 0 {
        lemma_split_on_nonempty(s.drop_last(), sep);
    }
}

/// The pieces of `s` between occurrences of `sep`.
pub fn split_string(s: &str, sep: char) -> (r: Vec<String>)
    ensures
        r@.map_values(|x: String| x@) == split_on(s@, sep),
{
    let v = to_chars(s);
    let mut parts: Vec<String> = Vec::new();
    let mut cur = String::new();
    let mut i: usize = 0;
    assert(v@.subrange(0, 0) =~= Seq::<char>::empty());
    while i < v.len()
        invariant
            v@ == s@,
            i <= v@.len(),
            parts@.map_values(|x: String| x@).push(cur@) == split_on(v@.subrange(0, i as int), sep),
        decreases v@.len() - i,
    {
        let c = v[i];
        let ghost pre = v@.subrange(0, i + 1);
        assert(pre.drop_last() =~= v@.subrange(0, i as int));
        proof {
            lemma_split_on_nonempty(v@.subrange(0, i as int), sep);
        }
        if c == sep {
            let ghost prev = parts@.map_values(|x: String| x@).push(cur@);
            let done = cur;
            parts.push(done);
            cur = String::new();
            assert(parts@.map_values(|x: String| x@).push(cur@) =~= prev.push(seq![]));
        } else {
            let ghost prev = parts@.map_values(|x: String| x@).push(cur@);
            push_char(&mut cur, c);
            assert(parts@.map_values(|x: String| x@).push(cur@) =~= prev.update(
                prev.len() - 1,
                prev.last().push(c),
            ));
        }
        i = i + 1;
    }
    assert(v@.subrange(0, v@.len() as int) =~= v@);
    let ghost prev = parts@.map_values(|x: String| x@);
    parts.push(cur);
    assert(parts@.map_values(|x: String| x@) =~= prev.push(cur@));
    parts
}

/// The working directory as shown: `~` for the home directory itself, `~/rest` inside
/// it (`rel` is the part after the home directory, when it is inside), else the full
/// path.
pub open spec fn display_path(full: Seq<char>, rel: Option<Seq<char>>) -> Seq<char> {
    match rel {
        Some(r) => if r.len() == 0 {
            "~"@
        } else {
            "~/"@ + r
        },
        None => full,
    }
}

/// The shortened working directory: when the shown path has more than four pieces
/// between `/`, the first piece, `/.../` and the last three pieces.
pub open spec fn shortened_path(full: Seq<char>, rel: Option<Seq<char>>) -> Seq<char> {
    let p = display_path(full, rel);
    let parts = split_on(p, '/');
    if parts.len() > 4 {
        let last_three = parts.subrange(parts.len() - 3, parts.len() as int);
        if parts[0] == "~"@ {
            "~/.../"@ + join_with(last_three, "/"@)
        } else {
            parts[0] + "/.../"@ + join_with(last_three, "/"@)
        }
    } else {
        p
    }
}

/// The working directory for the prompt. `full` is the whole path; `rel` the part
/// after the home directory when the path lies inside it.
pub fn get_shortened_path(full: &str, rel: Option<&str>) -> (r: String)
    ensures
        r@ == shortened_path(full@, opt_view(rel)),
{
    let path = match rel {
        Some(r) => if r.unicode_len() == 0 {
            String::from_str("~")
        } else {
            let mut p = String::from_str("~/");
            p.append(r);
            p
        },
        None => String::from_str(full),
    };
    let mut parts = split_string(path.as_str(), '/');
    let n = parts.len();
    if n > 4 {
        let ghost pv = parts@.map_values(|x: String| x@);
        let last_three = parts.split_off(n - 3);
        assert(last_three@.map_values(|x: String| x@) =~= pv.subrange(n - 3, n as int));
        let joined = join_strings(&last_three, "/");
        assert(parts@[0]@ == pv[0]);
        if str_eq(parts[0].as_str(), "~") {
            let mut r = String::from_str("~/.../");
            r.append(joined.as_str());
            r
        } else {
            let mut r = parts[0].clone();
            r.append("/.../");
            r.append(joined.as_str());
            r
        }
    } else {
        path
    }
}

/// The current branch from the output of `git branch --show-current`: the output
/// trimmed, `None` when that is empty (a detached head).
pub fn git_branch(branch_output: &str) -> (r: Option<String>)
    ensures
        trim(branch_output@).len() == 0 ==> r is None,
        trim(branch_output@).len() > 0 ==> (r matches Some(b) && b@ == trim(branch_output@)),
{
    let b = trim_str(branch_output);
    if b.as_str().unicode_len() == 0 {
        None
    } else {
        Some(b)
    }
}

/// The decimal form of a signed number.
pub open spec fn signed_decimal(n: int) -> Seq<char> {
    if n < 0 {
        "-"@ + decimal((-n) as nat)
    } else {
        decimal(n as nat)
    }
}

fn push_signed(s: &mut String, n: i32)
    ensures
        final(s)@ == old(s)@ + signed_decimal(n as int),
{
    if n < 0 {
        s.append("-");
        let m: i64 = -(n as i64);
        push_decimal(s, m as u64);
    } else {
        push_decimal(s, n as u64);
    }
}

/// The escape that colours the prompt's brackets.
pub open spec fn bracket() -> Seq<char> {
    "\x1b[38;2;0;136;204m"@
}

/// `(user@host)`'s inside: user and host in teal around a grey `@`.
pub open spec fn identity_text(user: Seq<char>, host: Seq<char>) -> Seq<char> {
    "\x1b[38;2;26;188;156m"@ + user + "\x1b[0m"@ + "\x1b[38;2;120;120;120m"@ + "@"@ + "\x1b[0m"@
        + "\x1b[38;2;26;188;156m"@ + host + "\x1b[0m"@
}

/// The folder icon of the mode and the path, in bright white.
pub open spec fn path_text(path: Seq<char>, mode: IconMode) -> Seq<char> {
    "\x1b[1;37m"@ + (match mode {
        IconMode::Nerd => "\u{f07b} "@,
        IconMode::Emoji => "📁 "@,
    }) + path + "\x1b[0m"@
}

/// The bracketed git segment: branch icon, branch and `*` when dirty, in orange; empty
/// outside a repository.
pub open spec fn git_text(mode: IconMode, git: Option<(Seq<char>, bool)>) -> Seq<char> {
    match git {
        Some((branch, dirty)) => "─"@ + bracket() + "["@ + "\x1b[0m"@ + "\x1b[38;2;230;126;34m"@ + (
        match mode {
            IconMode::Nerd => "\u{e725} "@,
            IconMode::Emoji => "🌿 "@,
        }) + branch + (if dirty {
            "*"@
        } else {
            ""@
        }) + "\x1b[0m"@ + bracket() + "]"@ + "\x1b[0m"@,
        None => ""@,
    }
}

/// The bracketed status segment after a failure (`✘ 1` in red); empty after success.
pub open spec fn status_text(status: i32) -> Seq<char> {
    if status != 0 {
        "─"@ + bracket() + "["@ + "\x1b[0m"@ + "\x1b[38;2;231;76;60m✘ "@ + signed_decimal(status as int)
            + "\x1b[0m"@ + bracket() + "]"@ + "\x1b[0m"@
    } else {
        ""@
    }
}

/// The colour of the arrow: green after success, red after failure.
pub open spec fn arrow_color(status: i32) -> Seq<char> {
    if status == 0 {
        "\x1b[1;32m"@
    } else {
        "\x1b[1;31m"@
    }
}

/// The prompt for the given identity, shortened path, git state and last status: a
/// blank line; the first line with the bracketed identity, path, git branch and, after
/// a failure, the status; the second line with the arrow.
pub open spec fn prompt_text(
    status: i32,
    user: Seq<char>,
    host: Seq<char>,
    path: Seq<char>,
    mode: IconMode,
    git: Option<(Seq<char>, bool)>,
) -> Seq<char> {
    "\n"@ + bracket() + "┌──"@ + "\x1b[0m"@ + "("@ + identity_text(user, host) + ")─"@ + bracket() + "["@
        + "\x1b[0m"@ + path_text(path, mode) + bracket() + "]"@ + "\x1b[0m"@ + git_text(mode, git)
        + status_text(status) + "\n"@ + bracket() + "└─"@ + "\x1b[0m"@ + arrow_color(status) + "❯"@
        + "\x1b[0m"@ + " "@
}

fn identity_string(user: &str, host: &str) -> (r: String)
    ensures
        r@ == identity_text(user@, host@),
{
    let mut r = String::from_str("\x1b[38;2;26;188;156m");
    r.append(user);
    r.append("\x1b[0m");
    r.append("\x1b[38;2;120;120;120m");
    r.append("@");
    r.append("\x1b[0m");
    r.append("\x1b[38;2;26;188;156m");
    r.append(host);
    r.append("\x1b[0m");
    r
}

fn path_string(path: &str, mode: IconMode) -> (r: String)
    ensures
        r@ == path_text(path@, mode),
{
    let mut r = String::from_str("\x1b[1;37m");
    match mode {
        IconMode::Nerd => r.append("\u{f07b} "),
        IconMode::Emoji => r.append("📁 "),
    }
    r.append(path);
    r.append("\x1b[0m");
    r
}

fn git_string(mode: IconMode, git: &Option<(String, bool)>) -> (r: String)
    ensures
        r@ == git_text(
            mode,
            match git {
                Some((b, d)) => Some((b@, *d)),
                None => None,
            },
        ),
{
    match git {
        Some((branch, dirty)) => {
            let mut r = String::from_str("─");
            r.append("\x1b[38;2;0;136;204m");
            r.append("[");
            r.append("\x1b[0m");
            r.append("\x1b[38;2;230;126;34m");
            match mode {
                IconMode::Nerd => r.append("\u{e725} "),
                IconMode::Emoji => r.append("🌿 "),
            }
            r.append(branch.as_str());
            if *dirty {
                r.append("*");
            } else {
                r.append("");
            }
            r.append("\x1b[0m");
            r.append("\x1b[38;2;0;136;204m");
            r.append("]");
            r.append("\x1b[0m");
            r
        },
        None => String::from_str(""),
    }
}

fn status_string(status: i32) -> (r: String)
    ensures
        r@ == status_text(status),
{
    if status != 0 {
        let mut r = String::from_str("─");
        r.append("\x1b[38;2;0;136;204m");
        r.append("[");
        r.append("\x1b[0m");
        r.append("\x1b[38;2;231;76;60m✘ ");
        push_signed(&mut r, status);
        r.append("\x1b[0m");
        r.append("\x1b[38;2;0;136;204m");
        r.append("]");
        r.append("\x1b[0m");
        r
    } else {
        String::from_str("")
    }
}

/// Builds the prompt.
pub fn build_prompt(
    last_exit_status: i32,
    username: &str,
    hostname: &str,
    path: &str,
    mode: IconMode,
    git: &Option<(String, bool)>,
) -> (r: String)
    ensures
        r@ == prompt_text(
            last_exit_status,
            username@,
            hostname@,
            path@,
            mode,
            match git {
                Some((b, d)) => Some((b@, *d)),
                None => None,
            },
        ),
{
    let identity = identity_string(username, hostname);
    let path_part = path_string(path, mode);
    let git_part = git_string(mode, git);
    let status_part = status_string(last_exit_status);
    let arrow = if last_exit_status == 0 {
        "\x1b[1;32m"
    } else {
        "\x1b[1;31m"
    };
    let mut r = String::from_str("\n");
    r.append("\x1b[38;2;0;136;204m");
    r.append("┌──");
    r.append("\x1b[0m");
    r.append("(");
    r.append(identity.as_str());
    r.append(")─");
    r.append("\x1b[38;2;0;136;204m");
    r.append("[");
    r.append("\x1b[0m");
    r.append(path_part.as_str());
    r.append("\x1b[38;2;0;136;204m");
    r.append("]");
    r.append("\x1b[0m");
    r.append(git_part.as_str());
    r.append(status_part.as_str());
    r.append("\n");
    r.append("\x1b[38;2;0;136;204m");
    r.append("└─");
    r.append("\x1b[0m");
    r.append(arrow);
    r.append("❯");
    r.append("\x1b[0m");
    r.append(" ");
    r
}

} // verus!

verus! {

/// After a failed command (any status other than 0) the prompt reports it: it holds
/// `✘ ` followed by the status in decimal (with a `-` when negative), and its arrow
/// is red; after success the arrow is green.
pub proof fn lemma_failed_status_shown(
    status: i32,
    user: Seq<char>,
    host: Seq<char>,
    path: Seq<char>,
    mode: IconMode,
    git: Option<(Seq<char>, bool)>,
)
    ensures
        status > 0 ==> contains_seq(
            prompt_text(status, user, host, path, mode, git),
            "✘ "@ + decimal(status as nat),
        ),
        status < 0 ==> contains_seq(
            prompt_text(status, user, host, path, mode, git),
            "✘ -"@ + decimal((-status) as nat),
        ),
        ({
            let t = prompt_text(status, user, host, path, mode, git);
            let tail = if status == 0 {
                "\x1b[1;32m❯\x1b[0m "@
            } else {
                "\x1b[1;31m❯\x1b[0m "@
            };
            t.len() >= tail.len() && t.subrange(t.len() - tail.len(), t.len() as int) == tail
        }),
{
    reveal_strlit("\x1b[38;2;231;76;60m✘ ");
    reveal_strlit("\x1b[38;2;231;76;60m");
    reveal_strlit("✘ ");
    reveal_strlit("✘ -");
    reveal_strlit("-");
    reveal_strlit("\x1b[1;32m❯\x1b[0m ");
    reveal_strlit("\x1b[1;31m❯\x1b[0m ");
    reveal_strlit("\x1b[1;32m");
    reveal_strlit("\x1b[1;31m");
    reveal_strlit("❯");
    reveal_strlit("\x1b[0m");
    reveal_strlit(" ");
    let t = prompt_text(status, user, host, path, mode, git);
    let a = "\n"@ + bracket() + "┌──"@ + "\x1b[0m"@ + "("@ + identity_text(user, host) + ")─"@ + bracket() + "["@
        + "\x1b[0m"@ + path_text(path, mode) + bracket() + "]"@ + "\x1b[0m"@ + git_text(mode, git);
    let b = "\n"@ + bracket() + "└─"@ + "\x1b[0m"@ + arrow_color(status) + "❯"@ + "\x1b[0m"@ + " "@;
    assert(t =~= a + status_text(status) + b);
    if status != 0 {
        let pre = "─"@ + bracket() + "["@ + "\x1b[0m"@ + "\x1b[38;2;231;76;60m"@;
        let post = "\x1b[0m"@ + bracket() + "]"@ + "\x1b[0m"@;
        let shown = "✘ "@ + signed_decimal(status as int);
        assert(status_text(status) =~= pre + shown + post);
        assert(t =~= (a + pre) + shown + (post + b));
        lemma_contains_middle(a + pre, shown, post + b);
        if status > 0 {
            assert(shown == "✘ "@ + decimal(status as nat));
        } else {
            assert(shown =~= "✘ -"@ + decimal((-status) as nat));
        }
    }
    let tail = if status == 0 {
        "\x1b[1;32m❯\x1b[0m "@
    } else {
        "\x1b[1;31m❯\x1b[0m "@
    };
    let rest = a + status_text(status) + "\n"@ + bracket() + "└─"@ + "\x1b[0m"@;
    assert(arrow_color(status) + "❯"@ + "\x1b[0m"@ + " "@ =~= tail);
    assert(t =~= rest + tail);
    assert(t.subrange(t.len() - tail.len(), t.len() as int) =~= tail);
}

} // verus!
