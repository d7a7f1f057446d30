//! Deciding what a line typed at the prompt asks for.
use vstd::prelude::*;
use vstd::string::StringExecFns;
use crate::args::{parse_args, scan_from, scan_start, split_args, string_views};
use crate::text::{lemma_trim_idempotent, trim, trim_str, str_eq, decimal, pad_left, push_decimal, push_pad_left};

verus! {

/// What the shell does after a line: it handled the line with an exit status,
/// the line is not a built-in and goes to the system shell, or the shell exits.
pub enum CommandResult {
    Handled(i32),
    NotHandled,
    Exit,
}

/// Where `cd` goes.
pub enum CdTarget {
    /// The home directory (no argument, or `~`).
    Home,
    /// The previous directory (`-`).
    Previous,
    /// The directory named by the argument.
    Dir(String),
}

/// What a line asks the shell to do.
pub enum BuiltinAction {
    /// Nothing to run; the line is handled with this status.
    Status(i32),
    /// Print this message to standard error; the line is handled with status 1.
    Error(String),
    Exit,
    Clear,
    ChangeDir(CdTarget),
    /// `ls` with its arguments.
    List(Vec<String>),
    /// `cat`/`view` of a file.
    Show(String),
    System,
    /// `find` with a pattern.
    Find(String),
    History,
    Help,
    /// Not a built-in: forward the line to the system shell.
    External,
}

/// Model of `CdTarget`.
pub enum CdTargetView {
    Home,
    Previous,
    Dir(Seq<char>),
}

/// Model of `BuiltinAction`.
pub enum ActionView {
    Status(i32),
    Error(Seq<char>),
    Exit,
    Clear,
    ChangeDir(CdTargetView),
    List(Seq<Seq<char>>),
    Show(Seq<char>),
    System,
    Find(Seq<char>),
    History,
    Help,
    External,
}

impl View for CdTarget {
    type V = CdTargetView;

    open spec fn view(&self) -> CdTargetView {
        match self {
            CdTarget::Home => CdTargetView::Home,
            CdTarget::Previous => CdTargetView::Previous,
            CdTarget::Dir(d) => CdTargetView::Dir(d@),
        }
    }
}

impl View for BuiltinAction {
    type V = ActionView;

    open spec fn view(&self) -> ActionView {
        match self {
            BuiltinAction::Status(s) => ActionView::Status(*s),
            BuiltinAction::Error(m) => ActionView::Error(m@),
            BuiltinAction::Exit => ActionView::Exit,
            BuiltinAction::Clear => ActionView::Clear,
            BuiltinAction::ChangeDir(t) => ActionView::ChangeDir(t@),
            BuiltinAction::List(a) => ActionView::List(string_views(a@)),
            BuiltinAction::Show(f) => ActionView::Show(f@),
            BuiltinAction::System => ActionView::System,
            BuiltinAction::Find(p) => ActionView::Find(p@),
            BuiltinAction::History => ActionView::History,
            BuiltinAction::Help => ActionView::Help,
            BuiltinAction::External => ActionView::External,
        }
    }
}

/// Where `cd` goes given its arguments.
pub open spec fn cd_target(rest: Seq<Seq<char>>) -> CdTargetView {
    if rest.len() == 0 || rest[0] == "~"@ {
        CdTargetView::Home
    } else if rest[0] == "-"@ {
        CdTargetView::Previous
    } else {
        CdTargetView::Dir(rest[0])
    }
}

/// What the command `cmd` with arguments `rest` asks for.
pub open spec fn command_action(cmd: Seq<char>, rest: Seq<Seq<char>>) -> ActionView {
    if cmd == "exit"@ {
        ActionView::Exit
    } else if cmd == "clear"@ {
        ActionView::Clear
    } else if cmd == "cd"@ {
        ActionView::ChangeDir(cd_target(rest))
    } else if cmd == "ls"@ {
        ActionView::List(rest)
    } else if cmd == "cat"@ || cmd == "view"@ {
        if rest.len() == 0 {
            ActionView::Error("usage: "@ + cmd + " <file>"@)
        } else {
            ActionView::Show(rest[0])
        }
    } else if cmd == "sys"@ {
        ActionView::System
    } else if cmd == "find"@ {
        if rest.len() == 0 {
            ActionView::Error("usage: find <pattern>"@)
        } else {
            ActionView::Find(rest[0])
        }
    } else if cmd == "history"@ {
        ActionView::History
    } else if cmd == "help"@ {
        ActionView::Help
    } else {
        ActionView::External
    }
}

/// What a line asks for: a blank line, or one whose arguments are empty, is handled
/// with status 0; mismatched quotes are an error; otherwise the first argument names
/// the command.
pub open spec fn builtin_action(line: Seq<char>) -> ActionView {
    let t = trim(line);
    if t.len() == 0 {
        ActionView::Status(0)
    } else {
        match split_args(t) {
            None => ActionView::Error("neoterminal: mismatched quotes"@),
            Some(a) => if a.len() == 0 {
                ActionView::Status(0)
            } else {
                command_action(a[0], a.drop_first())
            },
        }
    }
}

/// Whitespace around a line does not change what it asks for.
pub proof fn lemma_outer_whitespace_ignored(line: Seq<char>)
    ensures
        builtin_action(trim(line)) == builtin_action(line),
{
    lemma_trim_idempotent(line);
}

fn cd_target_of(rest: &Vec<String>) -> (r: CdTarget)
    ensures
        r@ == cd_target(string_views(rest@)),
{
    if rest.len() == 0 {
        return CdTarget::Home;
    }
    let first = rest[0].as_str();
    if str_eq(first, "~") {
        CdTarget::Home
    } else if str_eq(first, "-") {
        CdTarget::Previous
    } else {
        CdTarget::Dir(rest[0].clone())
    }
}

/// Decides what `line` asks the shell to do.
pub fn classify_builtin(line: &str) -> (r: BuiltinAction)
    ensures
        r@ == builtin_action(line@),
{
    let trimmed = trim_str(line);
    if trimmed.as_str().unicode_len() == 0 {
        return BuiltinAction::Status(0);
    }
    let parsed = parse_args(trimmed.as_str());
    let mut args = match parsed {
        None => return BuiltinAction::Error(String::from_str("neoterminal: mismatched quotes")),
        Some(a) => a,
    };
    if args.len() == 0 {
        return BuiltinAction::Status(0);
    }
    let ghost all = string_views(args@);
    let rest = args.split_off(1);
    let cmd = args.pop().unwrap();
    assert(string_views(rest@) =~= all.drop_first());
    assert(cmd@ == all[0]);
    let c = cmd.as_str();
    if str_eq(c, "exit") {
        BuiltinAction::Exit
    } else if str_eq(c, "clear") {
        BuiltinAction::Clear
    } else if str_eq(c, "cd") {
        BuiltinAction::ChangeDir(cd_target_of(&rest))
    } else if str_eq(c, "ls") {
        BuiltinAction::List(rest)
    } else if str_eq(c, "cat") || str_eq(c, "view") {
        if rest.len() == 0 {
            let mut m = String::from_str("usage: ");
            m.append(c);
            m.append(" <file>");
            BuiltinAction::Error(m)
        } else {
            BuiltinAction::Show(rest[0].clone())
        }
    } else if str_eq(c, "sys") {
        BuiltinAction::System
    } else if str_eq(c, "find") {
        if rest.len() == 0 {
            BuiltinAction::Error(String::from_str("usage: find <pattern>"))
        } else {
            BuiltinAction::Find(rest[0].clone())
        }
    } else if str_eq(c, "history") {
        BuiltinAction::History
    } else if str_eq(c, "help") {
        BuiltinAction::Help
    } else {
        BuiltinAction::External
    }
}

impl BuiltinAction {
    /// The result of an action that needs nothing from the outside world:
    /// a status, an error (status 1), exit, and the external forward. `None`
    /// for the actions that must be performed first.
    pub fn immediate_result(&self) -> (r: Option<CommandResult>)
        ensures
            match self@ {
                ActionView::Status(s) => r == Some(CommandResult::Handled(s)),
                ActionView::Error(_) => r == Some(CommandResult::Handled(1)),
                ActionView::Exit => r == Some(CommandResult::Exit),
                ActionView::External => r == Some(CommandResult::NotHandled),
                _ => r is None,
            },
    {
        match self {
            BuiltinAction::Status(s) => Some(CommandResult::Handled(*s)),
            BuiltinAction::Error(_) => Some(CommandResult::Handled(1)),
            BuiltinAction::Exit => Some(CommandResult::Exit),
            BuiltinAction::External => Some(CommandResult::NotHandled),
            _ => None,
        }
    }
}

/// One line of the `history` listing: the 1-based number right-aligned in five
/// columns, two spaces, and the entry.
pub open spec fn history_line_text(index: nat, entry: Seq<char>) -> Seq<char> {
    pad_left(decimal(index + 1), 5) + "  "@ + entry
}

/// Formats entry number `index` (counted from 0) of the history.
pub fn history_line(index: usize, entry: &str) -> (r: String)
    requires
        index < usize::MAX,
    ensures
        r@ == history_line_text(index as nat, entry@),
{
    let mut num = String::new();
    push_decimal(&mut num, (index + 1) as u64);
    let mut r = String::new();
    push_pad_left(&mut r, num.as_str(), 5);
    r.append("  ");
    r.append(entry);
    r
}

} // verus!

verus! {

/// `cat` and `view` are the same built-in: with a file argument both show the first
/// argument in the viewer, and without one both report their usage.
pub proof fn lemma_cat_and_view_show(rest: Seq<Seq<char>>)
    ensures
        rest.len() > 0 ==> command_action("cat"@, rest) == ActionView::Show(rest[0]),
        rest.len() > 0 ==> command_action("view"@, rest) == ActionView::Show(rest[0]),
        rest.len() == 0 ==> command_action("cat"@, rest) == ActionView::Error("usage: cat <file>"@),
        rest.len() == 0 ==> command_action("view"@, rest) == ActionView::Error("usage: view <file>"@),
{
    reveal_strlit("exit");
    reveal_strlit("clear");
    reveal_strlit("cd");
    reveal_strlit("ls");
    reveal_strlit("cat");
    reveal_strlit("view");
    reveal_strlit("usage: ");
    reveal_strlit(" <file>");
    reveal_strlit("usage: cat <file>");
    reveal_strlit("usage: view <file>");
    assert("view"@[0] != "exit"@[0]);
    assert("view"@.len() != "clear"@.len() && "view"@.len() != "cd"@.len());
    assert("view"@.len() != "ls"@.len() && "view"@.len() != "cat"@.len());
    assert("cat"@.len() != "exit"@.len() && "cat"@.len() != "clear"@.len());
    assert("cat"@.len() != "cd"@.len() && "cat"@.len() != "ls"@.len());
    assert("usage: "@ + "cat"@ + " <file>"@ =~= "usage: cat <file>"@);
    assert("usage: "@ + "view"@ + " <file>"@ =~= "usage: view <file>"@);
}

/// A typed line whose first word is `cat` or `view` and that has a second word asks
/// the shell to show the file named by that second word.
pub proof fn lemma_line_cat_shows(line: Seq<char>, words: Seq<Seq<char>>)
    requires
        split_args(trim(line)) == Some(words),
        words.len() >= 2,
        words[0] == "cat"@ || words[0] == "view"@,
    ensures
        builtin_action(line) == ActionView::Show(words[1]),
{
    lemma_cat_and_view_show(words.drop_first());
    assert(words.drop_first()[0] == words[1]);
    if trim(line).len() == 0 {
        assert(trim(line) =~= Seq::<char>::empty());
        assert(scan_from(scan_start(), trim(line)) == scan_start());
    }
}

} // verus!
