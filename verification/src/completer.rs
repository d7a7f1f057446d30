//! Command completion and syntax colouring of the line being typed.
use vstd::prelude::*;
use vstd::string::StringExecFns;
use crate::args::string_views;
use crate::order::{is_text_order, text_order};
use crate::text::{contains_char, is_prefix, push_char, starts_with, starts_with_char, str_eq, to_chars};

verus! {

// ---------------------------------------------------------------------------
// Built-in command names
// ---------------------------------------------------------------------------

/// The built-in commands, in the order completion offers them.
pub open spec fn builtins() -> Seq<Seq<char>> {
    seq![
        "ls"@,
        "cd"@,
        "cat"@,
        "view"@,
        "sys"@,
        "find"@,
        "history"@,
        "help"@,
        "exit"@,
        "clear"@,
    ]
}

/// The built-in command names.
pub fn builtin_names() -> (v: Vec<&'static str>)
    ensures
        v@.map_values(|s: &str| s@) == builtins(),
{
    let v = vec!["ls", "cd", "cat", "view", "sys", "find", "history", "help", "exit", "clear"];
    assert(v@.map_values(|s: &str| s@) =~= builtins());
    v
}

/// Whether `name` is a built-in command.
pub fn is_builtin(name: &str) -> (r: bool)
    ensures
        r == builtins().contains(name@),
{
    let names = builtin_names();
    let mut i: usize = 0;
    while i < names.len()
        invariant
            names@.map_values(|s: &str| s@) == builtins(),
            i <= names@.len(),
            forall|k: int| 0 <= k < i ==> builtins()[k] != name@,
        decreases names@.len() - i,
    {
        if str_eq(names[i], name) {
            assert(builtins()[i as int] == name@);
            return true;
        }
        i = i + 1;
    }
    false
}

/// Whether `name` is one of `names`.
pub fn contains_name(names: &Vec<String>, name: &str) -> (r: bool)
    ensures
        r == string_views(names@).contains(name@),
{
    let mut i: usize = 0;
    while i < names.len()
        invariant
            i <= names@.len(),
            forall|k: int| 0 <= k < i ==> names@[k]@ != name@,
        decreases names@.len() - i,
    {
        if str_eq(names[i].as_str(), name) {
            assert(string_views(names@)[i as int] == name@);
            return true;
        }
        i = i + 1;
    }
    false
}

proof fn lemma_filter_push(s: Seq<Seq<char>>, pred: spec_fn(Seq<char>) -> bool, x: Seq<char>)
    ensures
        s.push(x).filter(pred) == (if pred(x) {
            s.filter(pred).push(x)
        } else {
            s.filter(pred)
        }),
{
    reveal(Seq::filter);
    assert(s.push(x).drop_last() =~= s);
}

proof fn lemma_filter_empty(pred: spec_fn(Seq<char>) -> bool)
    ensures
        Seq::<Seq<char>>::empty().filter(pred) == Seq::<Seq<char>>::empty(),
{
    reveal(Seq::filter);
}

// ---------------------------------------------------------------------------
// Completion
// ---------------------------------------------------------------------------

/// A completion offered to the line editor.
pub struct Candidate {
    /// What the menu shows: the command name.
    pub display: String,
    /// What replaces the typed text: the name and a space.
    pub replacement: String,
}

/// The names of `names` that start with `typed`, in order.
pub open spec fn matching(names: Seq<Seq<char>>, typed: Seq<char>) -> Seq<Seq<char>> {
    names.filter(|c: Seq<char>| is_prefix(typed, c))
}

/// The names completion offers for `typed` when the system commands matching it are
/// taken in the order `p`: the matching built-ins first, then the matching system
/// commands that are not built-ins.
pub open spec fn offered(typed: Seq<char>, system: Seq<Seq<char>>, p: Seq<usize>) -> Seq<Seq<char>> {
    matching(builtins(), typed) + p.map_values(|i: usize| matching(system, typed)[i as int]).filter(
        |c: Seq<char>| !builtins().contains(c),
    )
}

/// Whether `r` is what completion gives for `typed`: nothing when `typed` holds a
/// space or nothing matches (the line editor then completes file names); otherwise
/// the offered names, the system commands in ascending order, each replaced by itself
/// and a space.
pub open spec fn is_completion(r: Option<Seq<(Seq<char>, Seq<char>)>>, typed: Seq<char>, system: Seq<Seq<char>>) -> bool {
    if typed.contains(' ') {
        r is None
    } else {
        exists|p: Seq<usize>|
            #![trigger is_text_order(p, matching(system, typed))]
            is_text_order(p, matching(system, typed)) && {
                let names = offered(typed, system, p);
                if names.len() == 0 {
                    r is None
                } else {
                    r == Some(names.map_values(|c: Seq<char>| (c, c + " "@)))
                }
            }
    }
}

/// The model of a list of candidates.
pub open spec fn candidate_views(v: Seq<Candidate>) -> Seq<(Seq<char>, Seq<char>)> {
    v.map_values(|c: Candidate| (c.display@, c.replacement@))
}

fn candidate(name: &str) -> (c: Candidate)
    ensures
        c.display@ == name@,
        c.replacement@ == name@ + " "@,
{
    let mut replacement = String::from_str(name);
    replacement.append(" ");
    Candidate { display: String::from_str(name), replacement }
}

proof fn lemma_filter_no_dup(s: Seq<Seq<char>>, pred: spec_fn(Seq<char>) -> bool)
    requires
        s.no_duplicates(),
    ensures
        s.filter(pred).no_duplicates(),
    decreases s.len(),
{
    if s.len() == 0 {
        lemma_filter_empty(pred);
        assert(s =~= Seq::<Seq<char>>::empty());
    } else {
        let init = s.drop_last();
        let x = s.last();
        assert(init.no_duplicates());
        lemma_filter_no_dup(init, pred);
        assert(init.push(x) =~= s);
        lemma_filter_push(init, pred, x);
        if pred(x) {
            let f = init.filter(pred);
            assert forall|i: int| 0 <= i < f.len() implies f[i] != x by {
                assert(f.contains(f[i]));
                init.lemma_filter_contains_rev(pred, f[i]);
                let j = choose|j: int| 0 <= j < init.len() && init[j] == f[i];
                assert(s[j] == init[j]);
                assert(s[s.len() - 1] == x);
            }
            assert(f.push(x).no_duplicates()) by {
                assert forall|i: int, j: int| 0 <= i < f.push(x).len() && 0 <= j < f.push(x).len() && i
                    != j implies f.push(x)[i] != f.push(x)[j] by {
                    if i < f.len() && j < f.len() {
                    } else if i < f.len() {
                        assert(f.push(x)[j] == x);
                    } else {
                        assert(f.push(x)[i] == x);
                    }
                }
            }
        }
    }
}

proof fn lemma_builtins_distinct()
    ensures
        builtins().no_duplicates(),
{
    reveal_strlit("ls");
    reveal_strlit("cd");
    reveal_strlit("cat");
    reveal_strlit("view");
    reveal_strlit("sys");
    reveal_strlit("find");
    reveal_strlit("history");
    reveal_strlit("help");
    reveal_strlit("exit");
    reveal_strlit("clear");
    let b = builtins();
    assert forall|i: int, j: int| 0 <= i < b.len() && 0 <= j < b.len() && i != j implies b[i] != b[j] by {
        if b[i] == b[j] {
            assert(b[i].len() == b[j].len());
            assert(b[i][0] == b[j][0]);
            assert(b[i][1] == b[j][1]);
        }
    }
}

/// Completion offers each name once, when the system commands hold each name once.
proof fn lemma_offered_no_dup(typed: Seq<char>, system: Seq<Seq<char>>, p: Seq<usize>)
    requires
        system.no_duplicates(),
        is_text_order(p, matching(system, typed)),
    ensures
        offered(typed, system, p).no_duplicates(),
{
    let a = matching(builtins(), typed);
    let m = matching(system, typed);
    let b = p.map_values(|i: usize| m[i as int]);
    let notb = |c: Seq<char>| !builtins().contains(c);
    let c = b.filter(notb);
    lemma_builtins_distinct();
    lemma_filter_no_dup(builtins(), |x: Seq<char>| is_prefix(typed, x));
    lemma_filter_no_dup(system, |x: Seq<char>| is_prefix(typed, x));
    assert(b.no_duplicates()) by {
        assert forall|i: int, j: int| 0 <= i < b.len() && 0 <= j < b.len() && i != j implies b[i] != b[j] by {
            assert(p[i] < m.len() && p[j] < m.len());
            if i < j {
                assert(p[i] != p[j]);
            } else {
                assert(p[j] != p[i]);
            }
        }
    }
    lemma_filter_no_dup(b, notb);
    assert(offered(typed, system, p) == a + c);
    assert forall|i: int, j: int| 0 <= i < (a + c).len() && 0 <= j < (a + c).len() && i != j implies (a
        + c)[i] != (a + c)[j] by {
        if i < a.len() && j < a.len() {
        } else if i >= a.len() && j >= a.len() {
            assert((a + c)[i] == c[i - a.len()]);
            assert((a + c)[j] == c[j - a.len()]);
        } else if i < a.len() {
            assert(a.contains(a[i]));
            builtins().lemma_filter_contains_rev(|x: Seq<char>| is_prefix(typed, x), a[i]);
            assert(builtins().contains(a[i]));
            b.lemma_filter_pred(notb, j - a.len());
            assert(notb(c[j - a.len()]));
            assert((a + c)[j] == c[j - a.len()]);
        } else {
            assert(a.contains(a[j]));
            builtins().lemma_filter_contains_rev(|x: Seq<char>| is_prefix(typed, x), a[j]);
            assert(builtins().contains(a[j]));
            b.lemma_filter_pred(notb, i - a.len());
            assert(notb(c[i - a.len()]));
            assert((a + c)[i] == c[i - a.len()]);
        }
    }
}

/// Completes a command name: `typed` is the line up to the cursor; `system_commands`
/// are the executable names found on the search path, each once.
pub fn complete_command(typed: &str, system_commands: &Vec<String>) -> (r: Option<Vec<Candidate>>)
    requires
        string_views(system_commands@).no_duplicates(),
    ensures
        r matches Some(v) ==> candidate_views(v@).map_values(|c: (Seq<char>, Seq<char>)| c.0).no_duplicates(),
        is_completion(
            match r {
                Some(v) => Some(candidate_views(v@)),
                None => None,
            },
            typed@,
            string_views(system_commands@),
        ),
{
    if contains_char(typed, ' ') {
        return None;
    }
    let ghost sys = string_views(system_commands@);
    let mut out: Vec<Candidate> = Vec::new();
    let ghost mut names: Seq<Seq<char>> = seq![];
    let bnames = builtin_names();
    let mut i: usize = 0;
    proof {
        lemma_filter_empty(|c: Seq<char>| is_prefix(typed@, c));
        assert(builtins().subrange(0, 0) =~= Seq::<Seq<char>>::empty());
    }
    while i < bnames.len()
        invariant
            bnames@.map_values(|s: &str| s@) == builtins(),
            i <= bnames@.len(),
            names == matching(builtins().subrange(0, i as int), typed@),
            candidate_views(out@) == names.map_values(|c: Seq<char>| (c, c + " "@)),
        decreases bnames@.len() - i,
    {
        let b = bnames[i];
        assert(b@ == builtins()[i as int]);
        let ghost before = builtins().subrange(0, i as int);
        assert(builtins().subrange(0, i + 1) =~= before.push(b@));
        proof {
            lemma_filter_push(before, |c: Seq<char>| is_prefix(typed@, c), b@);
        }
        if starts_with(b, typed) {
            let ghost prev = out@;
            out.push(candidate(b));
            proof {
                names = names.push(b@);
                assert(candidate_views(out@) =~= candidate_views(prev).push((b@, b@ + " "@)));
                assert(names.map_values(|c: Seq<char>| (c, c + " "@)) =~= names.drop_last().map_values(
                    |c: Seq<char>| (c, c + " "@),
                ).push((b@, b@ + " "@)));
            }
        }
        i = i + 1;
    }
    assert(builtins().subrange(0, 10) =~= builtins());
    // System commands that match, then their ascending order.
    let mut matches: Vec<String> = Vec::new();
    let mut keys: Vec<Vec<char>> = Vec::new();
    let mut j: usize = 0;
    proof {
        lemma_filter_empty(|x: Seq<char>| is_prefix(typed@, x));
        assert(sys.subrange(0, 0) =~= Seq::<Seq<char>>::empty());
    }
    while j < system_commands.len()
        invariant
            sys == string_views(system_commands@),
            j <= system_commands@.len(),
            string_views(matches@) == matching(sys.subrange(0, j as int), typed@),
            keys@.len() == matches@.len(),
            forall|k: int| 0 <= k < keys@.len() ==> #[trigger] keys@[k]@ == matches@[k]@,
        decreases system_commands@.len() - j,
    {
        let c = system_commands[j].as_str();
        let ghost before = sys.subrange(0, j as int);
        assert(sys.subrange(0, j + 1) =~= before.push(c@));
        proof {
            lemma_filter_push(before, |x: Seq<char>| is_prefix(typed@, x), c@);
        }
        if starts_with(c, typed) {
            let ghost prev = string_views(matches@);
            matches.push(system_commands[j].clone());
            keys.push(to_chars(c));
            assert(string_views(matches@) =~= prev.push(c@));
        }
        j = j + 1;
    }
    assert(sys.subrange(0, system_commands@.len() as int) =~= sys);
    let ghost m = matching(sys, typed@);
    assert(keys@.map_values(|k: Vec<char>| k@) =~= m);
    let p = text_order(&keys);
    let ghost sorted = p@.map_values(|i: usize| m[i as int]);
    let ghost bnames_count = names.len();
    let mut k: usize = 0;
    proof {
        lemma_filter_empty(|x: Seq<char>| !builtins().contains(x));
        assert(sorted.subrange(0, 0) =~= Seq::<Seq<char>>::empty());
        assert(names + Seq::<Seq<char>>::empty() =~= names);
    }
    while k < p.len()
        invariant
            is_text_order(p@, m),
            string_views(matches@) == m,
            sorted == p@.map_values(|i: usize| m[i as int]),
            k <= p@.len(),
            candidate_views(out@) == (names + sorted.subrange(0, k as int).filter(
                |c: Seq<char>| !builtins().contains(c),
            )).map_values(|c: Seq<char>| (c, c + " "@)),
        decreases p@.len() - k,
    {
        let idx = p[k];
        assert(idx < m.len());
        let c = matches[idx].as_str();
        assert(c@ == sorted[k as int]);
        let ghost before = sorted.subrange(0, k as int);
        assert(sorted.subrange(0, k + 1) =~= before.push(c@));
        proof {
            lemma_filter_push(before, |x: Seq<char>| !builtins().contains(x), c@);
        }
        if !is_builtin(c) {
            let ghost prev = out@;
            out.push(candidate(c));
            let ghost f = before.filter(|x: Seq<char>| !builtins().contains(x));
            assert(candidate_views(out@) =~= candidate_views(prev).push((c@, c@ + " "@)));
            assert((names + f.push(c@)).map_values(|x: Seq<char>| (x, x + " "@)) =~= (names + f).map_values(
                |x: Seq<char>| (x, x + " "@),
            ).push((c@, c@ + " "@)));
            assert(names + f.push(c@) =~= (names + f).push(c@));
        }
        k = k + 1;
    }
    assert(sorted.subrange(0, p@.len() as int) =~= sorted);
    assert(names + sorted.filter(|c: Seq<char>| !builtins().contains(c)) == offered(typed@, sys, p@));
    if out.len() == 0 {
        assert(offered(typed@, sys, p@).len() == 0);
        return None;
    }
    assert(candidate_views(out@) == offered(typed@, sys, p@).map_values(|c: Seq<char>| (c, c + " "@)));
    proof {
        lemma_offered_no_dup(typed@, sys, p@);
        assert(candidate_views(out@).map_values(|c: (Seq<char>, Seq<char>)| c.0) =~= offered(typed@, sys, p@));
    }
    Some(out)
}

// ---------------------------------------------------------------------------
// Colouring the line being typed
// ---------------------------------------------------------------------------

/// A piece of the typed line: a separating space or tab, or a word (possibly quoted),
/// marked when it is the first word and when it was read inside quotes.
pub enum Piece {
    Gap(char),
    Word { text: String, first: bool, quoted: bool },
}

/// Model of `Piece`.
pub enum PieceView {
    Gap(char),
    Word(Seq<char>, bool, bool),
}

impl View for Piece {
    type V = PieceView;

    open spec fn view(&self) -> PieceView {
        match self {
            Piece::Gap(c) => PieceView::Gap(*c),
            Piece::Word { text, first, quoted } => PieceView::Word(text@, *first, *quoted),
        }
    }
}

/// The models of a list of pieces.
pub open spec fn piece_views(v: Seq<Piece>) -> Seq<PieceView> {
    v.map_values(|p: Piece| p@)
}

/// The state of the word splitter.
pub struct HlScan {
    pub pieces: Seq<PieceView>,
    /// The word being read (with its quote characters).
    pub token: Seq<char>,
    /// No word has been emitted yet.
    pub first: bool,
    /// The quote character of the open quoted section, if any.
    pub quote: Option<char>,
}

/// The splitter before any character.
pub open spec fn hl_start() -> HlScan {
    HlScan { pieces: seq![], token: seq![], first: true, quote: None }
}

/// Emits the pending word, if any.
pub open spec fn hl_flush(st: HlScan, quoted: bool) -> HlScan {
    if st.token.len() == 0 {
        st
    } else {
        HlScan {
            pieces: st.pieces.push(PieceView::Word(st.token, st.first, quoted)),
            token: seq![],
            first: false,
            quote: st.quote,
        }
    }
}

/// One character: inside quotes everything is part of the word and the closing quote
/// ends it; outside, a quote ends the pending word and opens a quoted one, a space or
/// tab ends the pending word and is kept as a gap, anything else extends the word.
pub open spec fn hl_step(st: HlScan, c: char) -> HlScan {
    match st.quote {
        Some(q) => {
            let t = HlScan { token: st.token.push(c), ..st };
            if c == q {
                HlScan { quote: None, ..hl_flush(t, true) }
            } else {
                t
            }
        },
        None => if c == '"' || c == '\'' {
            let f = hl_flush(st, false);
            HlScan { quote: Some(c), token: f.token.push(c), ..f }
        } else if c == ' ' || c == '\t' {
            let f = hl_flush(st, false);
            HlScan { pieces: f.pieces.push(PieceView::Gap(c)), ..f }
        } else {
            HlScan { token: st.token.push(c), ..st }
        },
    }
}

/// The splitter after `s` from state `st`.
pub open spec fn hl_from(st: HlScan, s: Seq<char>) -> HlScan
    decreases s.len(),
{
    if s.len() == 0 {
        st
    } else {
        hl_step(hl_from(st, s.drop_last()), s.last())
    }
}

/// The pieces of a typed line; a word left inside an unclosed quote counts as quoted.
pub open spec fn highlight_pieces(line: Seq<char>) -> Seq<PieceView> {
    let st = hl_from(hl_start(), line);
    hl_flush(st, st.quote is Some).pieces
}

/// Splits the typed line into words and gaps.
pub fn split_highlight(line: &str) -> (r: Vec<Piece>)
    ensures
        piece_views(r@) == highlight_pieces(line@),
{
    let n = line.unicode_len();
    let mut pieces: Vec<Piece> = Vec::new();
    let mut token = String::new();
    let mut first = true;
    let mut quote: Option<char> = None;
    let mut i: usize = 0;
    while i < n
        invariant
            n == line@.len(),
            i <= n,
            ({
                let st = hl_from(hl_start(), line@.subrange(0, i as int));
                &&& st.pieces == piece_views(pieces@)
                &&& st.token == token@
                &&& st.first == first
                &&& st.quote == quote
            }),
        decreases n - i,
    {
        let c = line.get_char(i);
        let ghost st = hl_from(hl_start(), line@.subrange(0, i as int));
        match quote {
            Some(q) => {
                push_char(&mut token, c);
                if c == q {
                    flush_word(&mut pieces, &mut token, &mut first, true);
                    quote = None;
                }
            },
            None => {
                if c == '"' || c == '\'' {
                    flush_word(&mut pieces, &mut token, &mut first, false);
                    quote = Some(c);
                    push_char(&mut token, c);
                } else if c == ' ' || c == '\t' {
                    flush_word(&mut pieces, &mut token, &mut first, false);
                    let ghost prev = pieces@;
                    pieces.push(Piece::Gap(c));
                    assert(piece_views(pieces@) =~= piece_views(prev).push(PieceView::Gap(c)));
                } else {
                    push_char(&mut token, c);
                }
            },
        }
        assert(line@.subrange(0, i + 1).drop_last() =~= line@.subrange(0, i as int));
        i = i + 1;
    }
    assert(line@.subrange(0, n as int) =~= line@);
    let quoted = quote.is_some();
    flush_word(&mut pieces, &mut token, &mut first, quoted);
    pieces
}

fn flush_word(pieces: &mut Vec<Piece>, token: &mut String, first: &mut bool, quoted: bool)
    ensures
        ({
            let st = HlScan { pieces: piece_views(old(pieces)@), token: old(token)@, first: *old(first), quote: None };
            let f = hl_flush(st, quoted);
            &&& piece_views(final(pieces)@) == f.pieces
            &&& final(token)@ == f.token
            &&& *final(first) == f.first
        }),
{
    if token.as_str().unicode_len() > 0 {
        let mut text = String::new();
        std::mem::swap(&mut text, token);
        let ghost prev = pieces@;
        pieces.push(Piece::Word { text, first: *first, quoted });
        assert(piece_views(pieces@) =~= piece_views(prev).push(PieceView::Word(text@, *old(first), quoted)));
        *first = false;
    }
}

/// The text of a piece.
pub open spec fn piece_text(p: PieceView) -> Seq<char> {
    match p {
        PieceView::Gap(c) => seq![c],
        PieceView::Word(t, _, _) => t,
    }
}

/// The texts of the pieces, one after another.
pub open spec fn flatten(ps: Seq<PieceView>) -> Seq<char>
    decreases ps.len(),
{
    if ps.len() == 0 {
        seq![]
    } else {
        flatten(ps.drop_last()) + piece_text(ps.last())
    }
}

proof fn lemma_hl_flush_flatten(st: HlScan, quoted: bool)
    ensures
        flatten(hl_flush(st, quoted).pieces) + hl_flush(st, quoted).token == flatten(st.pieces)
            + st.token,
{
    if st.token.len() > 0 {
        let f = hl_flush(st, quoted);
        assert(f.pieces.drop_last() =~= st.pieces);
        assert(flatten(f.pieces) + f.token =~= flatten(st.pieces) + st.token);
    }
}

proof fn lemma_hl_flatten(s: Seq<char>)
    ensures
        flatten(hl_from(hl_start(), s).pieces) + hl_from(hl_start(), s).token == s,
    decreases s.len(),
{
    if s.len() == 0 {
        assert(flatten(Seq::<PieceView>::empty()) + Seq::<char>::empty() =~= s);
    } else {
        lemma_hl_flatten(s.drop_last());
        let st = hl_from(hl_start(), s.drop_last());
        let c = s.last();
        assert(s =~= s.drop_last().push(c));
        match st.quote {
            Some(q) => {
                let t = HlScan { token: st.token.push(c), ..st };
                lemma_hl_flush_flatten(t, true);
                assert(flatten(t.pieces) + t.token =~= flatten(st.pieces) + st.token + seq![c]);
            },
            None => {
                if c == '"' || c == '\'' {
                    lemma_hl_flush_flatten(st, false);
                    let f = hl_flush(st, false);
                    assert(flatten(f.pieces) + f.token.push(c) =~= flatten(f.pieces) + f.token + seq![c]);
                } else if c == ' ' || c == '\t' {
                    lemma_hl_flush_flatten(st, false);
                    let f = hl_flush(st, false);
                    let g = f.pieces.push(PieceView::Gap(c));
                    assert(g.drop_last() =~= f.pieces);
                    assert(f.token.len() == 0);
                    assert(flatten(g) + f.token =~= flatten(f.pieces) + f.token + seq![c]);
                } else {
                    assert(flatten(st.pieces) + st.token.push(c) =~= flatten(st.pieces) + st.token + seq![c]);
                }
            },
        }
    }
}

/// Colouring never changes what was typed: the texts of the pieces, in order, are the line.
pub proof fn lemma_highlight_keeps_text(line: Seq<char>)
    ensures
        flatten(highlight_pieces(line)) == line,
{
    lemma_hl_flatten(line);
    let st = hl_from(hl_start(), line);
    lemma_hl_flush_flatten(st, st.quote is Some);
    let f = hl_flush(st, st.quote is Some);
    assert(f.token.len() == 0);
    assert(flatten(f.pieces) + f.token =~= flatten(f.pieces));
}

/// What the file system says about a word: whether the word without its surrounding
/// quotes names an existing path, and whether the word itself does.
pub struct PathFacts {
    pub clean_exists: bool,
    pub raw_exists: bool,
}

/// A word without the quotes around it, when it starts and ends with the same quote
/// character and is at least two characters long.
pub open spec fn strip_quotes(t: Seq<char>) -> Seq<char> {
    if t.len() >= 2 && ((t[0] == '"' && t.last() == '"') || (t[0] == '\'' && t.last() == '\'')) {
        t.subrange(1, t.len() - 1)
    } else {
        t
    }
}

/// A word without its surrounding quotes.
pub fn strip_quotes_of(token: &str) -> (r: String)
    ensures
        r@ == strip_quotes(token@),
{
    let v = to_chars(token);
    let n = v.len();
    if n >= 2 && ((v[0] == '"' && v[n - 1] == '"') || (v[0] == '\'' && v[n - 1] == '\'')) {
        crate::text::string_of(&v, 1, n - 1)
    } else {
        String::from_str(token)
    }
}

/// The colour of a word: the first word in blue when it is a built-in, a system
/// command or an existing path starting with `.` or `/`, in red otherwise; later
/// words in bright white when they name an existing path, orange when quoted, teal
/// when they start with `-`, grey otherwise.
pub open spec fn word_style(text: Seq<char>, first: bool, quoted: bool, system: Seq<Seq<char>>, facts: PathFacts) -> Seq<char> {
    let path_exists = strip_quotes(text).len() > 0 && facts.clean_exists;
    if first {
        if builtins().contains(text) || system.contains(text) || ((text.len() > 0 && (text[0] == '.'
            || text[0] == '/')) && facts.raw_exists) {
            "\x1b[1;38;2;41;128;185m"@ + text + "\x1b[0m"@
        } else {
            "\x1b[1;31m"@ + text + "\x1b[0m"@
        }
    } else if path_exists {
        "\x1b[1;37m"@ + text + "\x1b[0m"@
    } else if quoted {
        "\x1b[38;2;230;126;34m"@ + text + "\x1b[0m"@
    } else if text.len() > 0 && text[0] == '-' {
        "\x1b[38;2;26;188;156m"@ + text + "\x1b[0m"@
    } else {
        "\x1b[38;2;200;200;200m"@ + text + "\x1b[0m"@
    }
}

/// The coloured form of a piece.
pub open spec fn piece_style(p: PieceView, system: Seq<Seq<char>>, facts: PathFacts) -> Seq<char> {
    match p {
        PieceView::Gap(c) => seq![c],
        PieceView::Word(t, first, quoted) => word_style(t, first, quoted, system, facts),
    }
}

/// The coloured line: each piece coloured with its facts, in order.
pub open spec fn render_text(ps: Seq<PieceView>, system: Seq<Seq<char>>, facts: Seq<PathFacts>) -> Seq<char>
    decreases ps.len(),
{
    if ps.len() == 0 {
        seq![]
    } else {
        render_text(ps.drop_last(), system, facts) + piece_style(ps.last(), system, facts[ps.len() - 1])
    }
}

// ---------------------------------------------------------------------------
// Removing the colour codes again
// ---------------------------------------------------------------------------

/// One character of removing `ESC … m` sequences: the text kept so far and whether a
/// sequence is open.
pub open spec fn esc_step(st: (Seq<char>, bool), c: char) -> (Seq<char>, bool) {
    if st.1 {
        (st.0, c != 'm')
    } else if c == '\x1b' {
        (st.0, true)
    } else {
        (st.0.push(c), false)
    }
}

/// Removing sequences from `s`, starting in state `st`.
pub open spec fn esc_from(st: (Seq<char>, bool), s: Seq<char>) -> (Seq<char>, bool)
    decreases s.len(),
{
    if s.len() == 0 {
        st
    } else {
        esc_step(esc_from(st, s.drop_last()), s.last())
    }
}

/// `s` with every `ESC … m` sequence deleted.
pub open spec fn strip_escapes(s: Seq<char>) -> Seq<char> {
    esc_from((seq![], false), s).0
}

proof fn lemma_esc_concat(st: (Seq<char>, bool), a: Seq<char>, b: Seq<char>)
    ensures
        esc_from(st, a + b) == esc_from(esc_from(st, a), b),
    decreases b.len(),
{
    if b.len() == 0 {
        assert(a + b =~= a);
    } else {
        assert((a + b).drop_last() =~= a + b.drop_last());
        assert((a + b).last() == b.last());
        lemma_esc_concat(st, a, b.drop_last());
    }
}

proof fn lemma_esc_one(st: (Seq<char>, bool), c: char)
    ensures
        esc_from(st, seq![c]) == esc_step(st, c),
{
    assert(seq![c].drop_last() =~= Seq::<char>::empty());
    assert(esc_from(st, Seq::<char>::empty()) == st);
}

proof fn lemma_esc_plain(o: Seq<char>, t: Seq<char>)
    requires
        forall|i: int| 0 <= i < t.len() ==> t[i] != '\x1b',
    ensures
        esc_from((o, false), t) == (o + t, false),
    decreases t.len(),
{
    if t.len() == 0 {
        assert(o + t =~= o);
    } else {
        lemma_esc_plain(o, t.drop_last());
        assert((o + t.drop_last()).push(t.last()) =~= o + t);
    }
}

proof fn lemma_esc_open(o: Seq<char>, body: Seq<char>)
    requires
        forall|i: int| 0 <= i < body.len() ==> body[i] != 'm',
    ensures
        esc_from((o, true), body) == (o, true),
    decreases body.len(),
{
    if body.len() > 0 {
        lemma_esc_open(o, body.drop_last());
    }
}

/// A colour sequence leaves the kept text as it was.
proof fn lemma_esc_sequence(o: Seq<char>, e: Seq<char>)
    requires
        e.len() >= 2,
        e[0] == '\x1b',
        e.last() == 'm',
        forall|i: int| 1 <= i < e.len() - 1 ==> e[i] != 'm',
    ensures
        esc_from((o, false), e) == (o, false),
{
    let body = e.subrange(1, e.len() - 1);
    assert(e =~= seq!['\x1b'] + body + seq!['m']);
    lemma_esc_concat((o, false), seq!['\x1b'] + body, seq!['m']);
    lemma_esc_concat((o, false), seq!['\x1b'], body);
    lemma_esc_one((o, false), '\x1b');
    lemma_esc_open(o, body);
    lemma_esc_one((o, true), 'm');
}

/// Text between a colour sequence and the reset comes out as it is.
proof fn lemma_esc_wrapped(o: Seq<char>, e: Seq<char>, t: Seq<char>)
    requires
        e.len() >= 2,
        e[0] == '\x1b',
        e.last() == 'm',
        forall|i: int| 1 <= i < e.len() - 1 ==> e[i] != 'm',
        forall|i: int| 0 <= i < t.len() ==> t[i] != '\x1b',
    ensures
        esc_from((o, false), e + t + "\x1b[0m"@) == (o + t, false),
{
    reveal_strlit("\x1b[0m");
    lemma_esc_concat((o, false), e + t, "\x1b[0m"@);
    lemma_esc_concat((o, false), e, t);
    lemma_esc_sequence(o, e);
    lemma_esc_plain(o, t);
    lemma_esc_sequence(o + t, "\x1b[0m"@);
}

proof fn lemma_word_style_strips(
    o: Seq<char>,
    text: Seq<char>,
    first: bool,
    quoted: bool,
    system: Seq<Seq<char>>,
    facts: PathFacts,
)
    requires
        forall|i: int| 0 <= i < text.len() ==> text[i] != '\x1b',
    ensures
        esc_from((o, false), word_style(text, first, quoted, system, facts)) == (o + text, false),
{
    reveal_strlit("\x1b[1;38;2;41;128;185m");
    reveal_strlit("\x1b[1;31m");
    reveal_strlit("\x1b[1;37m");
    reveal_strlit("\x1b[38;2;230;126;34m");
    reveal_strlit("\x1b[38;2;26;188;156m");
    reveal_strlit("\x1b[38;2;200;200;200m");
    lemma_esc_wrapped(o, "\x1b[1;38;2;41;128;185m"@, text);
    lemma_esc_wrapped(o, "\x1b[1;31m"@, text);
    lemma_esc_wrapped(o, "\x1b[1;37m"@, text);
    lemma_esc_wrapped(o, "\x1b[38;2;230;126;34m"@, text);
    lemma_esc_wrapped(o, "\x1b[38;2;26;188;156m"@, text);
    lemma_esc_wrapped(o, "\x1b[38;2;200;200;200m"@, text);
}

proof fn lemma_flatten_no(ps: Seq<PieceView>, c: char)
    requires
        forall|i: int| 0 <= i < flatten(ps).len() ==> flatten(ps)[i] != c,
    ensures
        forall|k: int, i: int|
            0 <= k < ps.len() && 0 <= i < piece_text(ps[k]).len() ==> #[trigger] piece_text(ps[k])[i] != c,
    decreases ps.len(),
{
    if ps.len() > 0 {
        let a = flatten(ps.drop_last());
        let b = piece_text(ps.last());
        assert forall|i: int| 0 <= i < a.len() implies a[i] != c by {
            assert(flatten(ps)[i] == a[i]);
        }
        lemma_flatten_no(ps.drop_last(), c);
        assert forall|k: int, i: int|
            0 <= k < ps.len() && 0 <= i < piece_text(ps[k]).len() implies #[trigger] piece_text(ps[k])[i] != c by {
            if k < ps.len() - 1 {
                assert(ps[k] == ps.drop_last()[k]);
            } else {
                assert(flatten(ps)[a.len() + i] == b[i]);
            }
        }
    }
}

proof fn lemma_render_strips(ps: Seq<PieceView>, system: Seq<Seq<char>>, facts: Seq<PathFacts>)
    requires
        facts.len() == ps.len(),
        forall|k: int, i: int|
            0 <= k < ps.len() && 0 <= i < piece_text(ps[k]).len() ==> #[trigger] piece_text(ps[k])[i]
                != '\x1b',
    ensures
        esc_from((seq![], false), render_text(ps, system, facts)) == (flatten(ps), false),
    decreases ps.len(),
{
    if ps.len() == 0 {
        assert(render_text(ps, system, facts) =~= Seq::<char>::empty());
        assert(esc_from((seq![], false), Seq::<char>::empty()) == (Seq::<char>::empty(), false));
    } else {
        let k = ps.len() - 1;
        let init = ps.drop_last();
        let f0 = facts.subrange(0, k);
        assert forall|j: int, i: int|
            0 <= j < init.len() && 0 <= i < piece_text(init[j]).len() implies #[trigger] piece_text(
            init[j],
        )[i] != '\x1b' by {
            assert(init[j] == ps[j]);
            assert(piece_text(ps[j])[i] != '\x1b');
        }
        lemma_render_strips(init, system, f0);
        lemma_render_prefix(init, system, facts, f0);
        let before = flatten(init);
        let r1 = render_text(init, system, facts);
        let last = piece_style(ps.last(), system, facts[k]);
        assert(render_text(ps, system, facts) == r1 + last);
        lemma_esc_concat((seq![], false), r1, last);
        assert(flatten(ps) == before + piece_text(ps.last()));
        match ps.last() {
            PieceView::Gap(c) => {
                assert(piece_text(ps[k])[0] != '\x1b');
                assert(piece_text(ps[k])[0] == c);
                lemma_esc_one((before, false), c);
                assert(before.push(c) =~= before + seq![c]);
            },
            PieceView::Word(t, first, quoted) => {
                assert forall|i: int| 0 <= i < t.len() implies t[i] != '\x1b' by {
                    assert(piece_text(ps[k])[i] != '\x1b');
                }
                lemma_word_style_strips(before, t, first, quoted, system, facts[k]);
            },
        }
    }
}

proof fn lemma_render_prefix(ps: Seq<PieceView>, system: Seq<Seq<char>>, f1: Seq<PathFacts>, f2: Seq<PathFacts>)
    requires
        f1.len() >= ps.len(),
        f2.len() >= ps.len(),
        forall|k: int| 0 <= k < ps.len() ==> f1[k] == f2[k],
    ensures
        render_text(ps, system, f1) == render_text(ps, system, f2),
    decreases ps.len(),
{
    if ps.len() > 0 {
        lemma_render_prefix(ps.drop_last(), system, f1, f2);
    }
}

/// Deleting the colour codes from a coloured line gives the line back, when the line
/// holds no escape character of its own.
pub proof fn lemma_colouring_strips_to_line(line: Seq<char>, system: Seq<Seq<char>>, facts: Seq<PathFacts>)
    requires
        !line.contains('\x1b'),
        facts.len() == highlight_pieces(line).len(),
    ensures
        strip_escapes(render_text(highlight_pieces(line), system, facts)) == line,
{
    let ps = highlight_pieces(line);
    lemma_highlight_keeps_text(line);
    assert forall|i: int| 0 <= i < flatten(ps).len() implies flatten(ps)[i] != '\x1b' by {
        if flatten(ps)[i] == '\x1b' {
            assert(line[i] == '\x1b');
        }
    }
    lemma_flatten_no(ps, '\x1b');
    lemma_render_strips(ps, system, facts);
}

fn style_word(text: &str, first: bool, quoted: bool, system_commands: &Vec<String>, facts: &PathFacts) -> (r: String)
    ensures
        r@ == word_style(text@, first, quoted, string_views(system_commands@), *facts),
{
    let clean = strip_quotes_of(text);
    let path_exists = clean.as_str().unicode_len() > 0 && facts.clean_exists;
    let start = if first {
        if is_builtin(text) || contains_name(system_commands, text) || ((starts_with_char(text, '.')
            || starts_with_char(text, '/')) && facts.raw_exists) {
            "\x1b[1;38;2;41;128;185m"
        } else {
            "\x1b[1;31m"
        }
    } else if path_exists {
        "\x1b[1;37m"
    } else if quoted {
        "\x1b[38;2;230;126;34m"
    } else if starts_with_char(text, '-') {
        "\x1b[38;2;26;188;156m"
    } else {
        "\x1b[38;2;200;200;200m"
    };
    let mut r = String::from_str(start);
    r.append(text);
    r.append("\x1b[0m");
    r
}

/// The coloured form of the typed line, given its pieces and what the file system
/// says about each word (`facts` is aligned with `pieces`; gaps ignore theirs).
pub fn render_highlight(pieces: &Vec<Piece>, system_commands: &Vec<String>, facts: &Vec<PathFacts>) -> (r: String)
    requires
        facts@.len() == pieces@.len(),
    ensures
        r@ == render_text(piece_views(pieces@), string_views(system_commands@), facts@),
{
    let ghost pv = piece_views(pieces@);
    let ghost sys = string_views(system_commands@);
    let mut r = String::new();
    let mut i: usize = 0;
    while i < pieces.len()
        invariant
            pv == piece_views(pieces@),
            sys == string_views(system_commands@),
            facts@.len() == pieces@.len(),
            i <= pieces@.len(),
            r@ == render_text(pv.subrange(0, i as int), sys, facts@),
        decreases pieces@.len() - i,
    {
        let ghost before = pv.subrange(0, i as int);
        match &pieces[i] {
            Piece::Gap(c) => {
                push_char(&mut r, *c);
            },
            Piece::Word { text, first, quoted } => {
                let s = style_word(text.as_str(), *first, *quoted, system_commands, &facts[i]);
                r.append(s.as_str());
            },
        }
        proof {
            let next = pv.subrange(0, i + 1);
            assert(next.drop_last() =~= before);
            assert(next.last() == pv[i as int]);
        }
        i = i + 1;
    }
    assert(pv.subrange(0, pieces@.len() as int) =~= pv);
    r
}

} // verus!

verus! {

proof fn lemma_render_first(ps: Seq<PieceView>, system: Seq<Seq<char>>, facts: Seq<PathFacts>)
    requires
        ps.len() >= 1,
    ensures
        ({
            let r = render_text(ps, system, facts);
            let f = piece_style(ps[0], system, facts[0]);
            r.len() >= f.len() && r.subrange(0, f.len() as int) == f
        }),
    decreases ps.len(),
{
    let f = piece_style(ps[0], system, facts[0]);
    if ps.len() == 1 {
        assert(ps.drop_last() =~= Seq::<PieceView>::empty());
        assert(render_text(ps.drop_last(), system, facts) =~= Seq::<char>::empty());
        assert(render_text(ps, system, facts) =~= f);
        assert(render_text(ps, system, facts).subrange(0, f.len() as int) =~= f);
    } else {
        lemma_render_first(ps.drop_last(), system, facts);
        assert(ps.drop_last()[0] == ps[0]);
        let r0 = render_text(ps.drop_last(), system, facts);
        let r = render_text(ps, system, facts);
        assert(r == r0 + piece_style(ps.last(), system, facts[ps.len() - 1]));
        assert(r.subrange(0, f.len() as int) =~= r0.subrange(0, f.len() as int));
    }
}

/// The first word of a typed line is coloured as a valid command (bold blue) when it
/// is a built-in, one of the system commands, or an existing path starting with `.`
/// or `/`; otherwise it is bold red. The coloured line starts with that word so
/// coloured.
pub proof fn lemma_first_word_colour(
    ps: Seq<PieceView>,
    t: Seq<char>,
    quoted: bool,
    system: Seq<Seq<char>>,
    facts: Seq<PathFacts>,
)
    requires
        ps.len() >= 1,
        ps[0] == PieceView::Word(t, true, quoted),
    ensures
        ({
            let r = render_text(ps, system, facts);
            let valid = "\x1b[1;38;2;41;128;185m"@ + t + "\x1b[0m"@;
            let invalid = "\x1b[1;31m"@ + t + "\x1b[0m"@;
            &&& (builtins().contains(t) || system.contains(t) || (t.len() > 0 && (t[0] == '.'
                || t[0] == '/') && facts[0].raw_exists)) ==> r.len() >= valid.len() && r.subrange(
                0,
                valid.len() as int,
            ) == valid
            &&& !(builtins().contains(t) || system.contains(t) || (t.len() > 0 && (t[0] == '.'
                || t[0] == '/') && facts[0].raw_exists)) ==> r.len() >= invalid.len() && r.subrange(
                0,
                invalid.len() as int,
            ) == invalid
        }),
{
    lemma_render_first(ps, system, facts);
}

} // verus!
