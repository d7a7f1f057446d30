use neoterminal::completer::{complete_command, render_highlight, split_highlight, strip_quotes_of, PathFacts, Piece};
use neoterminal::find::{entry_for_lowered, find_entry, find_summary, search_banner};
use neoterminal::icons::{emoji_icon_for, get_icon, IconMode};
use neoterminal::prompt::{build_prompt, choose_hostname, choose_username, get_shortened_path, git_branch};
use neoterminal::shell::{exit_code, ProcessOutcome};
use neoterminal::sys::{format_uptime, progress_bar};
use neoterminal::text::trim_str;

#[test]
fn uptime_texts() {
    assert_eq!(format_uptime(0), "0 minutes");
    assert_eq!(format_uptime(59), "0 minutes");
    assert_eq!(format_uptime(60), "1 minute");
    assert_eq!(format_uptime(3600), "1 hour");
    assert_eq!(format_uptime(3660), "1 hour, 1 minute");
    assert_eq!(format_uptime(86400), "1 day");
    assert_eq!(format_uptime(2 * 86400 + 3 * 3600 + 5 * 60 + 7), "2 days, 3 hours, 5 minutes");
    assert_eq!(format_uptime(86400 + 120), "1 day, 2 minutes");
}

#[test]
fn uptime_ignores_seconds() {
    for s in [0u64, 61, 3599, 90061, 1234567] {
        assert_eq!(format_uptime(s), format_uptime(s - s % 60));
    }
}

#[test]
fn progress_bars() {
    assert_eq!(progress_bar(0, 4), "░░░░");
    assert_eq!(progress_bar(3, 4), "███░");
    assert_eq!(progress_bar(4, 4), "████");
    assert_eq!(progress_bar(6, 4), "██████");
    assert_eq!(progress_bar(10, 20).chars().count(), 20);
}

#[test]
fn emoji_icons() {
    assert_eq!(get_icon("src", true, IconMode::Emoji), "📁 ");
    assert_eq!(get_icon("src", true, IconMode::Nerd), "\u{f07b} ");
    assert_eq!(get_icon("Cargo.toml", false, IconMode::Emoji), "🦀 ");
    assert_eq!(get_icon("main.RS", false, IconMode::Emoji), "🦀 ");
    assert_eq!(get_icon("Makefile", false, IconMode::Emoji), "🛠️ ");
    assert_eq!(get_icon("photo.JPEG", false, IconMode::Emoji), "🖼️ ");
    assert_eq!(get_icon("archive.tar.gz", false, IconMode::Emoji), "📦 ");
    assert_eq!(get_icon("README", false, IconMode::Emoji), "📄 ");
    assert_eq!(get_icon(".gitignore", false, IconMode::Emoji), "🌿 ");
    assert_eq!(get_icon("a.tsx", false, IconMode::Emoji), "⚛️ ");
}

#[test]
fn nerd_icons_come_from_devicons() {
    let icon = get_icon("Cargo.toml", false, IconMode::Nerd);
    let expected = format!("{} ", devicons::FileIcon::from("Cargo.toml").icon);
    assert_eq!(icon, expected);
    assert_ne!(icon, "Cargo.toml");
    assert_eq!(icon.chars().count(), 2);
}

#[test]
fn icon_mode_setting() {
    assert_eq!(IconMode::current(Some("emoji")), IconMode::Emoji);
    assert_eq!(IconMode::current(Some("nerd")), IconMode::Nerd);
    assert_eq!(IconMode::current(Some("EMOJI")), IconMode::Nerd);
    assert_eq!(IconMode::current(None), IconMode::Nerd);
}

#[test]
fn lowercase_goes_through_std() {
    // `Ä` lowers to `ä`, so the emoji for `.ÄÖ` is the default; the match is by
    // lower-cased name.
    assert_eq!(get_icon("LICENSE.MD", false, IconMode::Emoji), "⚖️ ");
}

#[test]
fn completion_of_commands() {
    let system = vec!["lsblk".to_string(), "less".to_string(), "ls".to_string(), "cargo".to_string()];
    let r = complete_command("l", &system).unwrap();
    let names: Vec<String> = r.iter().map(|c| c.display.clone()).collect();
    assert_eq!(names, vec!["ls", "less", "lsblk"]);
    assert_eq!(r[0].replacement, "ls ");
    assert!(complete_command("ls ", &system).is_none());
    assert!(complete_command("zzz", &system).is_none());
    let r = complete_command("", &system).unwrap();
    assert_eq!(r.len(), 10 + 3);
    assert_eq!(r[10].display, "cargo");
}

fn facts_for(pieces: &[Piece], existing: &[&str]) -> Vec<PathFacts> {
    pieces
        .iter()
        .map(|p| match p {
            Piece::Gap(_) => PathFacts { clean_exists: false, raw_exists: false },
            Piece::Word { text, .. } => PathFacts {
                clean_exists: existing.contains(&strip_quotes_of(text).as_str()),
                raw_exists: existing.contains(&text.as_str()),
            },
        })
        .collect()
}

#[test]
fn highlighting() {
    let line = "ls -a \"my dir\" src x";
    let pieces = split_highlight(line);
    let facts = facts_for(&pieces, &["my dir", "src"]);
    let out = render_highlight(&pieces, &vec![], &facts);
    let expected = format!(
        "{} {} {} {} {}",
        "\x1b[1;38;2;41;128;185mls\x1b[0m",
        "\x1b[38;2;26;188;156m-a\x1b[0m",
        "\x1b[1;37m\"my dir\"\x1b[0m",
        "\x1b[1;37msrc\x1b[0m",
        "\x1b[38;2;200;200;200mx\x1b[0m"
    );
    assert_eq!(out, expected);
    let pieces = split_highlight("foo 'unclosed");
    let facts = facts_for(&pieces, &[]);
    let out = render_highlight(&pieces, &vec![], &facts);
    assert_eq!(out, "\x1b[1;31mfoo\x1b[0m \x1b[38;2;230;126;34m'unclosed\x1b[0m");
    let pieces = split_highlight("./run.sh\tgo");
    let facts = facts_for(&pieces, &["./run.sh"]);
    let out = render_highlight(&pieces, &vec!["go".to_string()], &facts);
    assert_eq!(out, "\x1b[1;38;2;41;128;185m./run.sh\x1b[0m\t\x1b[38;2;200;200;200mgo\x1b[0m");
}

#[test]
fn highlight_keeps_text() {
    let line = "a  \"b c\" 'd'e\tf";
    let pieces = split_highlight(line);
    let mut text = String::new();
    for p in &pieces {
        match p {
            Piece::Gap(c) => text.push(*c),
            Piece::Word { text: t, .. } => text.push_str(t),
        }
    }
    assert_eq!(text, line);
}

#[test]
fn quote_stripping() {
    assert_eq!(strip_quotes_of("\"a b\""), "a b");
    assert_eq!(strip_quotes_of("'x'"), "x");
    assert_eq!(strip_quotes_of("\""), "\"");
    assert_eq!(strip_quotes_of("\"a'"), "\"a'");
}

#[test]
fn prompt_pieces() {
    assert_eq!(choose_username(Some("ann"), Some("bob")), "ann");
    assert_eq!(choose_username(None, Some("bob")), "bob");
    assert_eq!(choose_username(None, None), "user");
    assert_eq!(choose_hostname(Some("  box\n"), Some("h"), None), "box");
    assert_eq!(choose_hostname(Some(" \n"), None, Some("h2")), "h2");
    assert_eq!(choose_hostname(None, None, None), "host");
    assert_eq!(get_shortened_path("/home/u", Some("")), "~");
    assert_eq!(get_shortened_path("/home/u/a/b", Some("a/b")), "~/a/b");
    assert_eq!(get_shortened_path("/home/u/a/b/c/d", Some("a/b/c/d")), "~/.../b/c/d");
    assert_eq!(get_shortened_path("/usr/local/share/doc/x", None), "/.../share/doc/x");
    assert_eq!(get_shortened_path("/usr/local", None), "/usr/local");
    assert_eq!(git_branch("main\n"), Some("main".to_string()));
    assert_eq!(git_branch("  \n"), None);
}

#[test]
fn prompt_text() {
    let p = build_prompt(0, "ann", "box", "~/src", IconMode::Emoji, &None);
    let bracket = "\x1b[38;2;0;136;204m";
    let reset = "\x1b[0m";
    let identity = format!("\x1b[38;2;26;188;156mann{reset}\x1b[38;2;120;120;120m@{reset}\x1b[38;2;26;188;156mbox{reset}");
    let line1 = format!("{bracket}┌──{reset}({identity})─{bracket}[{reset}\x1b[1;37m📁 ~/src\x1b[0m{bracket}]{reset}");
    assert_eq!(p, format!("\n{}\n{bracket}└─{reset}\x1b[1;32m❯{reset} ", line1));
    let p = build_prompt(-2, "a", "b", "/", IconMode::Nerd, &Some(("dev".to_string(), true)));
    assert!(p.contains("\u{e725} dev*"));
    assert!(p.contains("✘ -2"));
    assert!(p.contains("\x1b[1;31m❯"));
}

#[test]
fn find_lines() {
    assert_eq!(search_banner("rs"), "\x1b[90mSearching recursively for 'rs'...\x1b[0m");
    assert_eq!(find_entry("RS", "main.rs", "src/main.rs", false, false, IconMode::Emoji),
        Some("  🦀 main.rs  \x1b[90m(src/main.rs)\x1b[0m".to_string()));
    assert_eq!(find_entry("src", "src", "src", true, false, IconMode::Emoji),
        Some("  📁 \x1b[1;34msrc\x1b[0m  \x1b[90m(src)\x1b[0m".to_string()));
    assert_eq!(find_entry("zz", "main.rs", "src/main.rs", false, false, IconMode::Emoji), None);
    assert_eq!(find_entry("", ".", "", true, false, IconMode::Emoji), None);
    assert_eq!(find_summary(1), "\nFound \x1b[1;36m1\x1b[0m match");
    assert_eq!(find_summary(3), "\nFound \x1b[1;36m3\x1b[0m matches");
}

#[test]
fn shell_statuses() {
    assert_eq!(exit_code(&ProcessOutcome::SpawnFailed), 127);
    assert_eq!(exit_code(&ProcessOutcome::WaitFailed), 1);
    assert_eq!(exit_code(&ProcessOutcome::Exited(Some(3))), 3);
    assert_eq!(exit_code(&ProcessOutcome::Exited(None)), 0);
}

#[test]
fn trimming_matches_std() {
    for s in ["  a b  ", "\u{3000}x\u{a0}", "\t\n", "", "x", " \u{85}y\u{2029} "] {
        assert_eq!(trim_str(s), s.trim());
    }
}

#[test]
fn emoji_for_lowered_names() {
    assert_eq!(emoji_icon_for("cargo.lock"), "🔒 ");
    assert_eq!(emoji_icon_for("docker-compose.yaml"), "🐳 ");
    assert_eq!(emoji_icon_for("notes.md"), "📘 ");
    assert_eq!(emoji_icon_for("data.csv"), "📊 ");
    assert_eq!(emoji_icon_for("noext"), "📄 ");
    assert_eq!(emoji_icon_for("trailing."), "📄 ");
    // Upper-case names are not lowered here.
    assert_eq!(emoji_icon_for("main.RS"), "📄 ");
}

#[test]
fn entries_for_lowered_names() {
    assert_eq!(
        entry_for_lowered("rs", "main.rs", "Main.RS", "src/Main.RS", false, false, IconMode::Emoji),
        Some("  🦀 Main.RS  \x1b[90m(src/Main.RS)\x1b[0m".to_string())
    );
    assert_eq!(
        entry_for_lowered("link", "my_link", "my_link", "my_link", false, true, IconMode::Emoji),
        Some("  📄 \x1b[1;36mmy_link\x1b[0m  \x1b[90m(my_link)\x1b[0m".to_string())
    );
    // The match is on the lowered forms as given.
    assert_eq!(entry_for_lowered("RS", "main.rs", "main.rs", "main.rs", false, false, IconMode::Emoji), None);
    assert_eq!(entry_for_lowered("", "x", "x", "", false, false, IconMode::Emoji), None);
}

/// The text with every `ESC ... m` sequence removed.
fn strip_escapes(s: &str) -> String {
    let mut out = String::new();
    let mut chars = s.chars();
    while let Some(c) = chars.next() {
        if c == '\x1b' {
            for d in chars.by_ref() {
                if d == 'm' {
                    break;
                }
            }
        } else {
            out.push(c);
        }
    }
    out
}

#[test]
fn colouring_strips_back_to_the_line() {
    for line in ["ls -a \"my dir\" src x", "foo 'unclosed", "  cd\t-  ", "echo \"a'b\" -x 'q\"'", "m mm -m"] {
        let pieces = split_highlight(line);
        let facts = facts_for(&pieces, &["src"]);
        let out = render_highlight(&pieces, &vec!["echo".to_string()], &facts);
        assert_eq!(strip_escapes(&out), line);
    }
}
