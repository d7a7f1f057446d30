use neoterminal::args::parse_args;
use neoterminal::commands::{classify_builtin, history_line, BuiltinAction, CdTarget, CommandResult};

fn strs(v: &[&str]) -> Vec<String> {
    v.iter().map(|s| s.to_string()).collect()
}

#[test]
fn splits_on_spaces() {
    assert_eq!(parse_args("ls -a  src"), Some(strs(&["ls", "-a", "src"])));
    assert_eq!(parse_args("   "), Some(vec![]));
    assert_eq!(parse_args(""), Some(vec![]));
}

#[test]
fn honours_quotes() {
    assert_eq!(parse_args("cat \"my file.txt\""), Some(strs(&["cat", "my file.txt"])));
    assert_eq!(parse_args("echo 'a \"b\" c'"), Some(strs(&["echo", "a \"b\" c"])));
    assert_eq!(parse_args("echo \"it's\""), Some(strs(&["echo", "it's"])));
    assert_eq!(parse_args("a\"b c\"d"), Some(strs(&["ab cd"])));
    assert_eq!(parse_args("x \"\" y"), Some(strs(&["x", "y"])));
}

#[test]
fn mismatched_quotes() {
    assert_eq!(parse_args("echo \"abc"), None);
    assert_eq!(parse_args("echo 'abc"), None);
    assert_eq!(parse_args("'"), None);
}

#[test]
fn join_then_split_round_trip() {
    let words = strs(&["git", "commit", "-m", "msg"]);
    assert_eq!(parse_args(&words.join(" ")), Some(words));
}

#[test]
fn leading_and_trailing_spaces_are_ignored() {
    assert_eq!(parse_args(" a b "), parse_args("a b"));
}

fn kind(a: &BuiltinAction) -> String {
    match a {
        BuiltinAction::Status(s) => format!("status {}", s),
        BuiltinAction::Error(m) => format!("error {}", m),
        BuiltinAction::Exit => "exit".to_string(),
        BuiltinAction::Clear => "clear".to_string(),
        BuiltinAction::ChangeDir(CdTarget::Home) => "cd home".to_string(),
        BuiltinAction::ChangeDir(CdTarget::Previous) => "cd prev".to_string(),
        BuiltinAction::ChangeDir(CdTarget::Dir(d)) => format!("cd {}", d),
        BuiltinAction::List(a) => format!("ls {:?}", a),
        BuiltinAction::Show(f) => format!("show {}", f),
        BuiltinAction::System => "sys".to_string(),
        BuiltinAction::Find(p) => format!("find {}", p),
        BuiltinAction::History => "history".to_string(),
        BuiltinAction::Help => "help".to_string(),
        BuiltinAction::External => "external".to_string(),
    }
}

#[test]
fn classifies_builtins() {
    assert_eq!(kind(&classify_builtin("   ")), "status 0");
    assert_eq!(kind(&classify_builtin("\"\"")), "status 0");
    assert_eq!(kind(&classify_builtin("echo \"x")), "error neoterminal: mismatched quotes");
    assert_eq!(kind(&classify_builtin("  exit ")), "exit");
    assert_eq!(kind(&classify_builtin("clear")), "clear");
    assert_eq!(kind(&classify_builtin("cd")), "cd home");
    assert_eq!(kind(&classify_builtin("cd ~")), "cd home");
    assert_eq!(kind(&classify_builtin("cd -")), "cd prev");
    assert_eq!(kind(&classify_builtin("cd \"My Docs\"")), "cd My Docs");
    assert_eq!(kind(&classify_builtin("ls -a src")), "ls [\"-a\", \"src\"]");
    assert_eq!(kind(&classify_builtin("cat")), "error usage: cat <file>");
    assert_eq!(kind(&classify_builtin("view")), "error usage: view <file>");
    assert_eq!(kind(&classify_builtin("view notes.md")), "show notes.md");
    assert_eq!(kind(&classify_builtin("sys")), "sys");
    assert_eq!(kind(&classify_builtin("find")), "error usage: find <pattern>");
    assert_eq!(kind(&classify_builtin("find rs")), "find rs");
    assert_eq!(kind(&classify_builtin("history")), "history");
    assert_eq!(kind(&classify_builtin("help")), "help");
    assert_eq!(kind(&classify_builtin("git status")), "external");
    assert_eq!(kind(&classify_builtin("\tls\n")), "ls []");
}

#[test]
fn immediate_results() {
    assert!(matches!(classify_builtin("").immediate_result(), Some(CommandResult::Handled(0))));
    assert!(matches!(classify_builtin("cat").immediate_result(), Some(CommandResult::Handled(1))));
    assert!(matches!(classify_builtin("exit").immediate_result(), Some(CommandResult::Exit)));
    assert!(matches!(classify_builtin("make").immediate_result(), Some(CommandResult::NotHandled)));
    assert!(classify_builtin("ls").immediate_result().is_none());
}

#[test]
fn history_lines() {
    assert_eq!(history_line(0, "ls -a"), format!("{:5}  {}", 1, "ls -a"));
    assert_eq!(history_line(123455, "x"), format!("{:5}  {}", 123456, "x"));
}

#[test]
fn outer_whitespace_does_not_change_the_action() {
    for line in ["ls -a src", "cd -", "cat", "echo \"x", "git status", ""] {
        let padded = format!(" \t{}\u{3000}\n", line);
        assert_eq!(kind(&classify_builtin(&padded)), kind(&classify_builtin(line)));
        assert_eq!(kind(&classify_builtin(padded.trim())), kind(&classify_builtin(&padded)));
    }
}

#[test]
fn quote_free_lines_split_on_single_spaces() {
    for line in ["a b", "  a   b  ", "a\tb c", "", "   ", "x"] {
        let expected: Vec<String> = line.split(' ').filter(|w| !w.is_empty()).map(String::from).collect();
        assert_eq!(parse_args(line), Some(expected));
    }
}
