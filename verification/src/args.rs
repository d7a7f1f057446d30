//! Splitting a command line into arguments, honouring single and double quotes.
use vstd::prelude::*;
use crate::text::push_char;
use crate::prompt::split_on;

verus! {

/// The state of the argument scanner after some prefix of a line.
pub struct ArgScan {
    /// Arguments completed so far.
    pub args: Seq<Seq<char>>,
    /// The argument being built.
    pub current: Seq<char>,
    /// Inside a double-quoted section.
    pub in_double: bool,
    /// Inside a single-quoted section.
    pub in_single: bool,
}

/// The scanner before any character.
pub open spec fn scan_start() -> ArgScan {
    ArgScan { args: seq![], current: seq![], in_double: false, in_single: false }
}

/// One character of the scanner: a double quote outside single quotes toggles
/// double quoting, a single quote outside double quotes toggles single quoting,
/// an unquoted space ends the current argument (if any), and every other
/// character is part of the current argument.
pub open spec fn scan_step(st: ArgScan, c: char) -> ArgScan {
    if c == '"' && !st.in_single {
        ArgScan { in_double: !st.in_double, ..st }
    } else if c == '\'' && !st.in_double {
        ArgScan { in_single: !st.in_single, ..st }
    } else if c == ' ' && !st.in_double && !st.in_single {
        if st.current.len() > 0 {
            ArgScan { args: st.args.push(st.current), current: seq![], ..st }
        } else {
            st
        }
    } else {
        ArgScan { current: st.current.push(c), ..st }
    }
}

/// The scanner state after reading `s` from state `st`.
pub open spec fn scan_from(st: ArgScan, s: Seq<char>) -> ArgScan
    decreases s.len(),
{
    if s.len() == 0 {
        st
    } else {
        scan_step(scan_from(st, s.drop_last()), s.last())
    }
}

/// The arguments of a line: `None` when a quoted section is left open, else the
/// completed arguments followed by the pending one when it is not empty.
pub open spec fn split_args(s: Seq<char>) -> Option<Seq<Seq<char>>> {
    let st = scan_from(scan_start(), s);
    if st.in_double || st.in_single {
        None
    } else if st.current.len() > 0 {
        Some(st.args.push(st.current))
    } else {
        Some(st.args)
    }
}

/// The character views of a sequence of strings.
pub open spec fn string_views(v: Seq<String>) -> Seq<Seq<char>> {
    v.map_values(|s: String| s@)
}

/// Splits `line` into arguments separated by unquoted spaces; quote characters
/// that open or close a quoted section are dropped. `None` when quotes are
/// mismatched.
pub fn parse_args(line: &str) -> (r: Option<Vec<String>>)
    ensures
        r is None <==> split_args(line@) is None,
        r matches Some(v) ==> split_args(line@) == Some(string_views(v@)),
{
    let n = line.unicode_len();
    let mut args: Vec<String> = Vec::new();
    let mut current = String::new();
    let mut in_double = false;
    let mut in_single = false;
    let mut i: usize = 0;
    while i < n
        invariant
            n == line@.len(),
            i <= n,
            ({
                let st = scan_from(scan_start(), line@.subrange(0, i as int));
                &&& st.args == string_views(args@)
                &&& st.current == current@
                &&& st.in_double == in_double
                &&& st.in_single == in_single
            }),
        decreases n - i,
    {
        let c = line.get_char(i);
        let ghost prev = args@;
        if c == '"' && !in_single {
            in_double = !in_double;
        } else if c == '\'' && !in_double {
            in_single = !in_single;
        } else if c == ' ' && !in_double && !in_single {
            if current.unicode_len() > 0 {
                let done = current;
                args.push(done);
                current = String::new();
                assert(string_views(args@) =~= string_views(prev).push(done@));
            }
        } else {
            push_char(&mut current, c);
        }
        assert(line@.subrange(0, i + 1).drop_last() =~= line@.subrange(0, i as int));
        i = i + 1;
    }
    assert(line@.subrange(0, n as int) =~= line@);
    if in_double || in_single {
        return None;
    }
    if current.unicode_len() > 0 {
        let ghost prev = args@;
        args.push(current);
        assert(string_views(args@) =~= string_views(prev).push(current@));
    }
    Some(args)
}

// ---------------------------------------------------------------------------
// Laws of the splitter
// ---------------------------------------------------------------------------

/// Scanning `a + b` is scanning `a` and then `b`.
pub proof fn lemma_scan_concat(st: ArgScan, a: Seq<char>, b: Seq<char>)
    ensures
        scan_from(st, a + b) == scan_from(scan_from(st, a), b),
    decreases b.len(),
{
    if b.len() == 0 {
        assert(a + b =~= a);
    } else {
        assert((a + b).drop_last() =~= a + b.drop_last());
        assert((a + b).last() == b.last());
        lemma_scan_concat(st, a, b.drop_last());
    }
}

/// Every argument the scanner has completed is non-empty.
proof fn lemma_scan_args_nonempty(s: Seq<char>)
    ensures
        forall|i: int|
            0 <= i < scan_from(scan_start(), s).args.len() ==> #[trigger] scan_from(
                scan_start(),
                s,
            ).args[i].len() > 0,
    decreases s.len(),
{
    if s.len() > 0 {
        lemma_scan_args_nonempty(s.drop_last());
        let prev = scan_from(scan_start(), s.drop_last());
        let cur = scan_from(scan_start(), s);
        assert(cur == scan_step(prev, s.last()));
        assert forall|i: int| 0 <= i < cur.args.len() implies #[trigger] cur.args[i].len() > 0 by {
            if i < prev.args.len() {
                assert(prev.args[i].len() > 0);
            }
        }
    }
}

/// No argument produced by `split_args` is empty.
pub proof fn lemma_split_args_nonempty(s: Seq<char>)
    ensures
        split_args(s) matches Some(a) ==> forall|i: int| 0 <= i < a.len() ==> #[trigger] a[i].len()
            > 0,
{
    lemma_scan_args_nonempty(s);
}

/// Spaces that stand outside any argument change nothing: a leading space is ignored.
pub proof fn lemma_split_args_leading_space(s: Seq<char>)
    ensures
        split_args(seq![' '] + s) == split_args(s),
{
    lemma_scan_concat(scan_start(), seq![' '], s);
    assert(seq![' '].drop_last() =~= Seq::<char>::empty());
    reveal_with_fuel(scan_from, 2);
    assert(scan_from(scan_start(), seq![' ']) == scan_start());
}

/// A trailing space changes nothing.
pub proof fn lemma_split_args_trailing_space(s: Seq<char>)
    ensures
        split_args(s + seq![' ']) == split_args(s),
{
    lemma_scan_concat(scan_start(), s, seq![' ']);
    assert(seq![' '].drop_last() =~= Seq::<char>::empty());
    let st = scan_from(scan_start(), s);
    reveal_with_fuel(scan_from, 2);
    assert(scan_from(st, seq![' ']) == scan_step(st, ' '));
}

/// A word with no space or quote character.
pub open spec fn is_plain_word(w: Seq<char>) -> bool {
    &&& w.len() > 0
    &&& forall|k: int| 0 <= k < w.len() ==> #[trigger] w[k] != ' ' && w[k] != '"' && w[k] != '\''
}

/// The words joined by single spaces.
pub open spec fn join_words(ws: Seq<Seq<char>>) -> Seq<char>
    decreases ws.len(),
{
    if ws.len() == 0 {
        seq![]
    } else if ws.len() == 1 {
        ws[0]
    } else {
        join_words(ws.drop_last()) + seq![' '] + ws.last()
    }
}

proof fn lemma_scan_plain_word(st: ArgScan, w: Seq<char>)
    requires
        !st.in_double,
        !st.in_single,
        forall|k: int| 0 <= k < w.len() ==> #[trigger] w[k] != ' ' && w[k] != '"' && w[k] != '\'',
    ensures
        scan_from(st, w).args == st.args,
        scan_from(st, w).current == st.current + w,
        !scan_from(st, w).in_double,
        !scan_from(st, w).in_single,
    decreases w.len(),
{
    if w.len() == 0 {
        assert(st.current + w =~= st.current);
    } else {
        let init = w.drop_last();
        assert forall|k: int| 0 <= k < init.len() implies #[trigger] init[k] != ' ' && init[k]
            != '"' && init[k] != '\'' by {
            assert(init[k] == w[k]);
        }
        lemma_scan_plain_word(st, init);
        let c = w.last();
        assert(c == w[w.len() - 1]);
        assert((st.current + init).push(c) =~= st.current + w);
    }
}

proof fn lemma_scan_join(ws: Seq<Seq<char>>)
    requires
        ws.len() > 0,
        forall|i: int| 0 <= i < ws.len() ==> is_plain_word(#[trigger] ws[i]),
    ensures
        scan_from(scan_start(), join_words(ws)).args == ws.drop_last(),
        scan_from(scan_start(), join_words(ws)).current == ws.last(),
        !scan_from(scan_start(), join_words(ws)).in_double,
        !scan_from(scan_start(), join_words(ws)).in_single,
    decreases ws.len(),
{
    if ws.len() == 1 {
        assert(is_plain_word(ws[0]));
        lemma_scan_plain_word(scan_start(), ws[0]);
        assert(Seq::<char>::empty() + ws[0] =~= ws[0]);
        assert(ws.drop_last() =~= Seq::<Seq<char>>::empty());
    } else {
        let init = ws.drop_last();
        assert forall|i: int| 0 <= i < init.len() implies is_plain_word(#[trigger] init[i]) by {
            assert(init[i] == ws[i]);
        }
        lemma_scan_join(init);
        let mid = scan_from(scan_start(), join_words(init));
        lemma_scan_concat(scan_start(), join_words(init) + seq![' '], ws.last());
        lemma_scan_concat(scan_start(), join_words(init), seq![' ']);
        assert(seq![' '].drop_last() =~= Seq::<char>::empty());
        assert(is_plain_word(init.last()));
        let after_space = scan_from(mid, seq![' ']);
        reveal_with_fuel(scan_from, 2);
        assert(after_space == scan_step(mid, ' '));
        assert(after_space.args == init.drop_last().push(init.last()));
        assert(after_space.current == Seq::<char>::empty());
        assert(init.drop_last().push(init.last()) =~= ws.drop_last());
        assert(is_plain_word(ws.last()));
        lemma_scan_plain_word(after_space, ws.last());
        assert(Seq::<char>::empty() + ws.last() =~= ws.last());
    }
}

/// Joining plain words with single spaces and splitting the result gives back the words.
pub proof fn lemma_split_join(ws: Seq<Seq<char>>)
    requires
        forall|i: int| 0 <= i < ws.len() ==> is_plain_word(#[trigger] ws[i]),
    ensures
        split_args(join_words(ws)) == Some(ws),
{
    if ws.len() == 0 {
        assert(split_args(Seq::<char>::empty()) == Some(Seq::<Seq<char>>::empty()));
    } else {
        lemma_scan_join(ws);
        assert(is_plain_word(ws.last()));
        assert(ws.drop_last().push(ws.last()) =~= ws);
    }
}

} // verus!

verus! {

/// The words of a line without quotes: its pieces between single spaces
/// (`str::split(' ')`), with the empty pieces dropped.
pub open spec fn space_words(s: Seq<char>) -> Seq<Seq<char>> {
    split_on(s, ' ').filter(|w: Seq<char>| w.len() > 0)
}

proof fn lemma_nonempty_filter_push(s: Seq<Seq<char>>, x: Seq<char>)
    ensures
        s.push(x).filter(|w: Seq<char>| w.len() > 0) == (if x.len() > 0 {
            s.filter(|w: Seq<char>| w.len() > 0).push(x)
        } else {
            s.filter(|w: Seq<char>| w.len() > 0)
        }),
{
    reveal(Seq::filter);
    assert(s.push(x).drop_last() =~= s);
}

proof fn lemma_scan_quote_free(s: Seq<char>)
    requires
        forall|i: int| 0 <= i < s.len() ==> s[i] != '"' && s[i] != '\'',
    ensures
        ({
            let st = scan_from(scan_start(), s);
            let p = split_on(s, ' ');
            &&& !st.in_double
            &&& !st.in_single
            &&& p.len() >= 1
            &&& st.current == p.last()
            &&& st.args == p.drop_last().filter(|w: Seq<char>| w.len() > 0)
        }),
    decreases s.len(),
{
    if s.len() == 0 {
        reveal(Seq::filter);
        assert(split_on(s, ' ') =~= seq![Seq::<char>::empty()]);
        assert(split_on(s, ' ').drop_last() =~= Seq::<Seq<char>>::empty());
    } else {
        let init = s.drop_last();
        assert forall|i: int| 0 <= i < init.len() implies init[i] != '"' && init[i] != '\'' by {
            assert(init[i] == s[i]);
        }
        lemma_scan_quote_free(init);
        let p = split_on(init, ' ');
        let c = s.last();
        assert(c == s[s.len() - 1]);
        if c == ' ' {
            let q = p.push(seq![]);
            assert(q.drop_last() =~= p);
            lemma_nonempty_filter_push(p.drop_last(), p.last());
            assert(p.drop_last().push(p.last()) =~= p);
        } else {
            let q = p.update(p.len() - 1, p.last().push(c));
            assert(q.drop_last() =~= p.drop_last());
        }
    }
}

/// A line without quote characters splits exactly on single spaces, with the empty
/// pieces (from runs of spaces and spaces at the ends) dropped; tabs do not separate.
pub proof fn lemma_quote_free_split(s: Seq<char>)
    requires
        !s.contains('"'),
        !s.contains('\''),
    ensures
        split_args(s) == Some(space_words(s)),
{
    assert forall|i: int| 0 <= i < s.len() implies s[i] != '"' && s[i] != '\'' by {
        if s[i] == '"' {
            assert(s.contains('"'));
        }
        if s[i] == '\'' {
            assert(s.contains('\''));
        }
    }
    lemma_scan_quote_free(s);
    let p = split_on(s, ' ');
    lemma_nonempty_filter_push(p.drop_last(), p.last());
    assert(p.drop_last().push(p.last()) =~= p);
}

} // verus!
