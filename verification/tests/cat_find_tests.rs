use neoterminal::cat::{cat_output, cat_path_error, lines_with_endings, render_cat};
use neoterminal::find::{find_summary, search_banner};
use neoterminal::ls::{get_modified_time_string, FileInfo};
use syntect::easy::HighlightLines;
use syntect::highlighting::{Style, ThemeSet};
use syntect::parsing::SyntaxSet;
use syntect::util::{as_24_bit_terminal_escaped, LinesWithEndings};

fn strings(v: &[&str]) -> Vec<String> {
    v.iter().map(|s| s.to_string()).collect()
}

#[test]
fn line_splitting() {
    assert_eq!(lines_with_endings(""), Vec::<String>::new());
    assert_eq!(lines_with_endings("a"), strings(&["a"]));
    assert_eq!(lines_with_endings("a\n"), strings(&["a\n"]));
    assert_eq!(lines_with_endings("a\nb"), strings(&["a\n", "b"]));
    assert_eq!(lines_with_endings("\n\nx\n"), strings(&["\n", "\n", "x\n"]));
    assert_eq!(lines_with_endings("é\nü"), strings(&["é\n", "ü"]));
}

#[test]
fn line_splitting_matches_syntect() {
    for text in ["", "one", "one\ntwo\n", "\r\nx", "a\n\n\nb", "ünï\ncödé"] {
        let expected: Vec<String> = LinesWithEndings::from(text).map(|l| l.to_string()).collect();
        assert_eq!(lines_with_endings(text), expected);
    }
}

#[test]
fn numbered_rendering() {
    let lines = strings(&["a\n", "b"]);
    let shown = vec![Some("X\n".to_string()), None];
    assert_eq!(
        render_cat("a\nb", &lines, &shown),
        "\x1b[90m   1 |\x1b[0m X\n\x1b[90m   2 |\x1b[0m b\x1b[0m\n"
    );
    let lines = strings(&["a\n"]);
    let shown = vec![None];
    assert_eq!(render_cat("a\n", &lines, &shown), "\x1b[90m   1 |\x1b[0m a\n\x1b[0m");
    assert_eq!(render_cat("", &Vec::new(), &Vec::new()), "\x1b[0m\n");
}

#[test]
fn wide_line_numbers() {
    let content = "x\n".repeat(10000);
    let lines = lines_with_endings(&content);
    let shown: Vec<Option<String>> = lines.iter().map(|_| None).collect();
    let out = render_cat(&content, &lines, &shown);
    assert!(out.contains("\x1b[90m   9 |\x1b[0m x\n"));
    assert!(out.contains("\x1b[90m9999 |\x1b[0m x\n"));
    assert!(out.contains("\x1b[90m10000 |\x1b[0m x\n"));
}

/// What the highlighting loop writes when done directly with syntect.
fn highlighted_directly(content: &str, ext: &str) -> String {
    let ps = SyntaxSet::load_defaults_newlines();
    let ts = ThemeSet::load_defaults();
    let syntax = ps.find_syntax_by_extension(ext).unwrap_or_else(|| ps.find_syntax_plain_text());
    let mut h = HighlightLines::new(syntax, &ts.themes["base16-ocean.dark"]);
    let mut out = String::new();
    for (i, line) in LinesWithEndings::from(content).enumerate() {
        let shown = match h.highlight_line(line, &ps) {
            Ok(ranges) => {
                let ranges: Vec<(Style, &str)> = ranges;
                as_24_bit_terminal_escaped(&ranges[..], false)
            }
            Err(_) => line.to_string(),
        };
        out.push_str(&format!("\x1b[90m{:4} |\x1b[0m {}", i + 1, shown));
    }
    out.push_str("\x1b[0m");
    if !content.ends_with('\n') {
        out.push('\n');
    }
    out
}

/// The text with every `ESC [ ... m` sequence removed.
fn strip_escapes(s: &str) -> String {
    let mut out = String::new();
    let mut chars = s.chars();
    while let Some(c) = chars.next() {
        if c == '\x1b' {
            for d in chars.by_ref() {
                if d == 'm' {
                    break;
                }
            }
        } else {
            out.push(c);
        }
    }
    out
}

#[test]
fn highlighted_output() {
    let rust = "fn main() {\n    println!(\"hi\");\n}\n";
    let out = cat_output(rust, "rs");
    assert_eq!(out, highlighted_directly(rust, "rs"));
    // Colour escapes were added, so the text is not shown as is.
    assert!(out.contains("\x1b[38;2;"));
    assert!(out.starts_with("\x1b[90m   1 |\x1b[0m "));
    assert!(out.ends_with("\x1b[0m"));

    // Without the colour escapes, what remains is the numbered text of the file.
    assert_eq!(strip_escapes(&out), "   1 | fn main() {\n   2 |     println!(\"hi\");\n   3 | }\n");

    let plain = "just words";
    assert_eq!(cat_output(plain, "unknown-ext"), highlighted_directly(plain, "unknown-ext"));
    assert!(cat_output(plain, "").ends_with("\x1b[0m\n"));
}

#[test]
fn path_errors() {
    assert_eq!(
        cat_path_error("nope.txt", false, false),
        Some("cat: nope.txt: No such file or directory".to_string())
    );
    assert_eq!(cat_path_error("src", true, true), Some("cat: src: Is a directory".to_string()));
    assert_eq!(cat_path_error("main.rs", true, false), None);
}

#[test]
fn find_banner_and_summary() {
    assert_eq!(search_banner("rs"), "\x1b[90mSearching recursively for 'rs'...\x1b[0m");
    assert_eq!(find_summary(0), "\nFound \x1b[1;36m0\x1b[0m matches");
    assert_eq!(find_summary(1), "\nFound \x1b[1;36m1\x1b[0m match");
    assert_eq!(find_summary(42), "\nFound \x1b[1;36m42\x1b[0m matches");
}

fn file_at(secs: i64, nanos: u32) -> FileInfo {
    FileInfo {
        name: "f".to_string(),
        is_dir: false,
        is_symlink: false,
        is_exec: false,
        size: 0,
        modified_secs: secs,
        modified_nanos: nanos,
        permissions: "-rw-r--r--".to_string(),
    }
}

#[test]
fn modified_times() {
    for (secs, nanos) in [(0i64, 0u32), (1_700_000_000, 5), (-86_401, 999_999_999), (8_000_000_000_000, 0)] {
        let expected = chrono::DateTime::from_timestamp(secs, nanos)
            .unwrap()
            .with_timezone(&chrono::Local)
            .format("%b %d %H:%M")
            .to_string();
        let got = get_modified_time_string(&file_at(secs, nanos)).unwrap();
        assert_eq!(got, expected);
        assert_eq!(got.chars().count(), 12);
        // The text is the UTC clock moved by the local offset, which is under a day.
        let utc = chrono::DateTime::from_timestamp(secs, nanos).unwrap();
        let off = utc.with_timezone(&chrono::Local).offset().local_minus_utc() as i64;
        assert!(-86400 < off && off < 86400);
        let shifted = chrono::DateTime::from_timestamp(secs + off, 0).unwrap();
        assert_eq!(got, shifted.format("%b %d %H:%M").to_string());
    }
    assert_eq!(get_modified_time_string(&file_at(i64::MAX, 0)), None);
    assert_eq!(get_modified_time_string(&file_at(i64::MIN, 0)), None);
}
