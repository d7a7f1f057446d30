//! The `cat`/`view` built-in: a file shown with line numbers and syntax colours.
use vstd::prelude::*;
use vstd::string::StringExecFns;
use syntect::easy::HighlightLines;
use syntect::highlighting::{Color, FontStyle, Style, Theme, ThemeSet};
use syntect::parsing::{SyntaxReference, SyntaxSet};
use crate::args::string_views;
use crate::text::{decimal, pad_left, push_char, push_decimal, push_pad_left};

verus! {

/// syntect's `SyntaxSet`, carried through unopened.
#[verifier::external_type_specification]
#[verifier::external_body]
pub struct ExSyntaxSet(SyntaxSet);

/// syntect's `SyntaxReference`, carried through unopened.
#[verifier::external_type_specification]
#[verifier::external_body]
pub struct ExSyntaxReference(SyntaxReference);

/// syntect's `ThemeSet`, carried through unopened.
#[verifier::external_type_specification]
#[verifier::external_body]
pub struct ExThemeSet(ThemeSet);

/// syntect's `Theme`, carried through unopened.
#[verifier::external_type_specification]
#[verifier::external_body]
pub struct ExTheme(Theme);

/// syntect's `HighlightLines`, carried through unopened.
#[verifier::external_type_specification]
#[verifier::external_body]
pub struct ExHighlightLines<'a>(HighlightLines<'a>);

/// The syntax definitions bundled with syntect (for lines that keep their `\n`). The
/// field is private and `bundled_syntaxes` is the only way to make one, so every
/// value of this type holds exactly the bundled set.
pub struct Syntaxes {
    set: SyntaxSet,
}

/// The colour themes bundled with syntect; made only by `bundled_themes`.
pub struct Themes {
    set: ThemeSet,
}

/// A syntax of the bundled set together with its name (made only by the lookups below,
/// which copy the name from the syntax).
pub struct SyntaxRef<'a> {
    syntax: &'a SyntaxReference,
    name: String,
}

impl<'a> View for SyntaxRef<'a> {
    type V = Seq<char>;

    closed spec fn view(&self) -> Seq<char> {
        self.name@
    }
}

/// A bundled theme together with its name (made only by `theme_named`).
pub struct ThemeRef<'a> {
    theme: &'a Theme,
    name: String,
}

impl<'a> View for ThemeRef<'a> {
    type V = Seq<char>;

    closed spec fn view(&self) -> Seq<char> {
        self.name@
    }
}

/// The model of a highlighter: the names of its syntax and theme and the lines it has
/// highlighted so far.
pub struct HighlighterView {
    pub syntax: Seq<char>,
    pub theme: Seq<char>,
    pub done: Seq<Seq<char>>,
}

/// syntect's line highlighter with what it has been given (made by `new_highlighter`
/// and advanced only by `highlight_line`, which keep the fields in step with it).
pub struct Highlighter<'a> {
    lines: HighlightLines<'a>,
    syntaxes: &'a Syntaxes,
    syntax: String,
    theme: String,
    done: Vec<String>,
}

impl<'a> View for Highlighter<'a> {
    type V = HighlighterView;

    closed spec fn view(&self) -> HighlighterView {
        HighlighterView { syntax: self.syntax@, theme: self.theme@, done: string_views(self.done@) }
    }
}

/// A piece of a highlighted line: its foreground and background colours (red, green,
/// blue, alpha) and its text.
pub struct Styled {
    pub fg: (u8, u8, u8, u8),
    pub bg: (u8, u8, u8, u8),
    pub text: String,
}

/// The model of a `Styled` piece.
pub struct StyledView {
    pub fg: (u8, u8, u8, u8),
    pub bg: (u8, u8, u8, u8),
    pub text: Seq<char>,
}

impl View for Styled {
    type V = StyledView;

    open spec fn view(&self) -> StyledView {
        StyledView { fg: self.fg, bg: self.bg, text: self.text@ }
    }
}

/// The models of pieces.
pub open spec fn styled_views(v: Seq<Styled>) -> Seq<StyledView> {
    v.map_values(|p: Styled| p@)
}

/// The texts of pieces.
pub open spec fn piece_texts(pieces: Seq<StyledView>) -> Seq<Seq<char>> {
    pieces.map_values(|p: StyledView| p.text)
}

/// syntect's `SyntaxSet::load_defaults_newlines`: the bundled syntax definitions.
#[verifier::external_body]
fn bundled_syntaxes() -> Syntaxes {
    Syntaxes { set: SyntaxSet::load_defaults_newlines() }
}

/// syntect's `ThemeSet::load_defaults`: the bundled colour themes.
#[verifier::external_body]
fn bundled_themes() -> Themes {
    Themes { set: ThemeSet::load_defaults() }
}

/// The name of the syntax that syntect's bundled set gives files with extension `ext`
/// (`SyntaxSet::find_syntax_by_extension`), if any.
pub uninterp spec fn bundled_syntax_for_ext(ext: Seq<char>) -> Option<Seq<char>>;

/// syntect's `SyntaxSet::find_syntax_by_extension` on the bundled set: the syntax for
/// a file extension, if the set has one, with its name.
#[verifier::external_body]
fn syntax_by_extension<'a>(ps: &'a Syntaxes, ext: &str) -> (r: Option<SyntaxRef<'a>>)
    ensures
        match r {
            Some(s) => bundled_syntax_for_ext(ext@) == Some(s@),
            None => bundled_syntax_for_ext(ext@) is None,
        },
{
    ps.set.find_syntax_by_extension(ext).map(|s| SyntaxRef { syntax: s, name: s.name.clone() })
}

/// syntect's `SyntaxSet::find_syntax_plain_text`: the syntax named `Plain Text`. syntect
/// panics on a set without one; the bundled set has it (syntect documents this lookup
/// as the fallback for `load_defaults_newlines`), and `Syntaxes` holds only that set.
#[verifier::external_body]
fn plain_text_syntax<'a>(ps: &'a Syntaxes) -> (r: SyntaxRef<'a>)
    ensures
        r@ == "Plain Text"@,
{
    let s = ps.set.find_syntax_plain_text();
    SyntaxRef { syntax: s, name: s.name.clone() }
}

/// The names of syntect's bundled themes, as its documentation of
/// `ThemeSet::load_defaults` lists them.
pub open spec fn is_bundled_theme(name: Seq<char>) -> bool {
    ||| name == "base16-ocean.dark"@
    ||| name == "base16-eighties.dark"@
    ||| name == "base16-mocha.dark"@
    ||| name == "base16-ocean.light"@
    ||| name == "InspiredGitHub"@
    ||| name == "Solarized (dark)"@
    ||| name == "Solarized (light)"@
}

/// The bundled theme of that name (a lookup in syntect's `ThemeSet::themes`): there is
/// one exactly when the name is one of the bundled themes.
#[verifier::external_body]
fn theme_named<'a>(ts: &'a Themes, name: &str) -> (r: Option<ThemeRef<'a>>)
    ensures
        r is Some <==> is_bundled_theme(name@),
        r matches Some(t) ==> t@ == name@,
{
    ts.set.themes.get(name).map(|t| ThemeRef { theme: t, name: name.to_string() })
}

/// syntect's `HighlightLines::new`: a highlighter for the syntax and theme that has
/// highlighted nothing yet.
#[verifier::external_body]
fn new_highlighter<'a>(ps: &'a Syntaxes, syntax: &SyntaxRef<'a>, theme: &ThemeRef<'a>) -> (r: Highlighter<'a>)
    ensures
        r@ == (HighlighterView { syntax: syntax@, theme: theme@, done: seq![] }),
{
    let lines = HighlightLines::new(syntax.syntax, theme.theme);
    Highlighter { lines, syntaxes: ps, syntax: syntax.name.clone(), theme: theme.name.clone(), done: Vec::new() }
}

/// What syntect's `HighlightLines::highlight_line` gives for `line` with the bundled
/// syntax named `syntax` and bundled theme named `theme`, after the lines `done`: the
/// styled pieces, or `None` when it reports an error.
pub uninterp spec fn highlighted(
    syntax: Seq<char>,
    theme: Seq<char>,
    done: Seq<Seq<char>>,
    line: Seq<char>,
) -> Option<Seq<StyledView>>;

/// The model of an optional list of pieces.
pub open spec fn opt_styled(r: Option<Vec<Styled>>) -> Option<Seq<StyledView>> {
    match r {
        Some(v) => Some(styled_views(v@)),
        None => None,
    }
}

/// syntect's `HighlightLines::highlight_line`: the styled pieces of the next line, each
/// style taken by its colours. The result is a function of the syntax, the theme and
/// the lines highlighted before (named `highlighted`); syntect documents that the
/// texts of the pieces make up the line.
#[verifier::external_body]
fn highlight_line(h: &mut Highlighter, line: &str) -> (r: Option<Vec<Styled>>)
    ensures
        final(h)@ == (HighlighterView { done: old(h)@.done.push(line@), ..old(h)@ }),
        opt_styled(r) == highlighted(old(h)@.syntax, old(h)@.theme, old(h)@.done, line@),
        r matches Some(v) ==> piece_texts(styled_views(v@)).flatten() == line@,
{
    let r = h.lines.highlight_line(line, &h.syntaxes.set).ok().map(|v| v.into_iter().map(|(s, t)| Styled {
        fg: (s.foreground.r, s.foreground.g, s.foreground.b, s.foreground.a),
        bg: (s.background.r, s.background.g, s.background.b, s.background.a),
        text: t.to_string(),
    }).collect());
    h.done.push(line.to_string());
    r
}

/// One colour channel of a foreground with alpha `a` laid over a background.
pub open spec fn blend_channel(f: u8, b: u8, a: u8) -> nat {
    ((f * a + b * (255 - a)) / 255) as nat
}

/// The colour a piece is written in: its foreground when opaque, else the foreground
/// blended over the background by its alpha.
pub open spec fn shown_colour(p: StyledView) -> (nat, nat, nat) {
    if p.fg.3 == 255 {
        (p.fg.0 as nat, p.fg.1 as nat, p.fg.2 as nat)
    } else {
        (
            blend_channel(p.fg.0, p.bg.0, p.fg.3),
            blend_channel(p.fg.1, p.bg.1, p.fg.3),
            blend_channel(p.fg.2, p.bg.2, p.fg.3),
        )
    }
}

/// The 24-bit foreground colour escape for the colour `c` (red, green, blue).
pub open spec fn colour_escape(c: (nat, nat, nat)) -> Seq<char> {
    "\x1b[38;2;"@ + decimal(c.0) + ";"@ + decimal(c.1) + ";"@ + decimal(c.2) + "m"@
}

/// Each piece's text after the escape of its colour.
pub open spec fn escaped_text(pieces: Seq<StyledView>) -> Seq<char>
    decreases pieces.len(),
{
    if pieces.len() == 0 {
        seq![]
    } else {
        colour_escape(shown_colour(pieces[0])) + pieces[0].text + escaped_text(pieces.drop_first())
    }
}

/// syntect's `as_24_bit_terminal_escaped` (without backgrounds): each piece's text after
/// a 24-bit foreground escape of its colour blended over its background.
#[verifier::external_body]
fn terminal_escaped(pieces: &Vec<Styled>) -> (r: String)
    ensures
        r@ == escaped_text(styled_views(pieces@)),
{
    let v: Vec<(Style, &str)> = pieces.iter().map(|p| (Style {
        foreground: Color { r: p.fg.0, g: p.fg.1, b: p.fg.2, a: p.fg.3 },
        background: Color { r: p.bg.0, g: p.bg.1, b: p.bg.2, a: p.bg.3 },
        font_style: FontStyle::empty(),
    }, p.text.as_str())).collect();
    syntect::util::as_24_bit_terminal_escaped(&v[..], false)
}

/// `shown` is `line` coloured: the line's text cut into pieces, each after a colour
/// escape.
pub open spec fn is_coloured_form(shown: Seq<char>, line: Seq<char>) -> bool {
    exists|pieces: Seq<StyledView>|
        piece_texts(pieces).flatten() == line && #[trigger] escaped_text(pieces) == shown
}

/// The state of the line splitter: completed lines and the pending one.
pub struct LineScan {
    pub lines: Seq<Seq<char>>,
    pub current: Seq<char>,
}

/// The line splitter after `s`: every `\n` ends a line and stays with it.
pub open spec fn line_scan(s: Seq<char>) -> LineScan
    decreases s.len(),
{
    if s.len() == 0 {
        LineScan { lines: seq![], current: seq![] }
    } else {
        let st = line_scan(s.drop_last());
        let cur = st.current.push(s.last());
        if s.last() == '\n' {
            LineScan { lines: st.lines.push(cur), current: seq![] }
        } else {
            LineScan { lines: st.lines, current: cur }
        }
    }
}

/// The lines of `s`, each with its `\n` (the last one without, when `s` does not end
/// with one) — what syntect's `LinesWithEndings` yields.
pub open spec fn lines_of(s: Seq<char>) -> Seq<Seq<char>> {
    let st = line_scan(s);
    if st.current.len() > 0 {
        st.lines.push(st.current)
    } else {
        st.lines
    }
}

/// The lines of `content` with their endings.
pub fn lines_with_endings(content: &str) -> (r: Vec<String>)
    ensures
        string_views(r@) == lines_of(content@),
{
    let n = content.unicode_len();
    let mut lines: Vec<String> = Vec::new();
    let mut cur = String::new();
    let mut i: usize = 0;
    while i < n
        invariant
            n == content@.len(),
            i <= n,
            line_scan(content@.subrange(0, i as int)).lines == string_views(lines@),
            line_scan(content@.subrange(0, i as int)).current == cur@,
        decreases n - i,
    {
        let c = content.get_char(i);
        push_char(&mut cur, c);
        if c == '\n' {
            let done = cur;
            let ghost prev = string_views(lines@);
            lines.push(done);
            assert(string_views(lines@) =~= prev.push(done@));
            cur = String::new();
        }
        assert(content@.subrange(0, i + 1).drop_last() =~= content@.subrange(0, i as int));
        i = i + 1;
    }
    assert(content@.subrange(0, n as int) =~= content@);
    if cur.as_str().unicode_len() > 0 {
        let ghost prev = string_views(lines@);
        lines.push(cur);
        assert(string_views(lines@) =~= prev.push(cur@));
    }
    lines
}

/// The dim, right-aligned line number and bar before line `n`.
pub open spec fn line_prefix(n: nat) -> Seq<char> {
    "\x1b[90m"@ + pad_left(decimal(n), 4) + " |\x1b[0m "@
}

/// Each line after its number: the coloured form when there is one, else the line itself.
pub open spec fn numbered(lines: Seq<Seq<char>>, shown: Seq<Option<Seq<char>>>) -> Seq<char>
    decreases lines.len(),
{
    if lines.len() == 0 {
        seq![]
    } else {
        let k = lines.len() - 1;
        numbered(lines.drop_last(), shown.subrange(0, k as int)) + line_prefix(lines.len()) + (
        match shown[k as int] {
            Some(e) => e,
            None => lines[k as int],
        })
    }
}

/// What `cat` writes for `content`: the numbered lines, a colour reset, and a newline
/// when the content does not end with one.
pub open spec fn cat_text(content: Seq<char>, lines: Seq<Seq<char>>, shown: Seq<Option<Seq<char>>>) -> Seq<char> {
    numbered(lines, shown) + "\x1b[0m"@ + (if content.len() > 0 && content.last() == '\n' {
        ""@
    } else {
        "\n"@
    })
}

/// The model of optional strings.
pub open spec fn opt_views(v: Seq<Option<String>>) -> Seq<Option<Seq<char>>> {
    v.map_values(|o: Option<String>| match o {
        Some(s) => Some(s@),
        None => None,
    })
}

/// Writes the numbered lines: `shown[i]` is line `i` coloured, or `None` to show it as is.
pub fn render_cat(content: &str, lines: &Vec<String>, shown: &Vec<Option<String>>) -> (r: String)
    requires
        shown@.len() == lines@.len(),
    ensures
        r@ == cat_text(content@, string_views(lines@), opt_views(shown@)),
{
    let ghost lv = string_views(lines@);
    let ghost sv = opt_views(shown@);
    let mut r = String::new();
    let mut i: usize = 0;
    while i < lines.len()
        invariant
            lv == string_views(lines@),
            sv == opt_views(shown@),
            shown@.len() == lines@.len(),
            i <= lines@.len(),
            r@ == numbered(lv.subrange(0, i as int), sv.subrange(0, i as int)),
        decreases lines@.len() - i,
    {
        r.append("\x1b[90m");
        let mut num = String::new();
        push_decimal(&mut num, (i + 1) as u64);
        push_pad_left(&mut r, num.as_str(), 4);
        r.append(" |\x1b[0m ");
        match &shown[i] {
            Some(e) => r.append(e.as_str()),
            None => r.append(lines[i].as_str()),
        }
        proof {
            let l2 = lv.subrange(0, i + 1);
            let s2 = sv.subrange(0, i + 1);
            assert(l2.drop_last() =~= lv.subrange(0, i as int));
            assert(s2.subrange(0, i as int) =~= sv.subrange(0, i as int));
            assert(sv[i as int] == match shown@[i as int] {
                Some(s) => Some(s@),
                None => None,
            });
        }
        i = i + 1;
    }
    assert(lv.subrange(0, lines@.len() as int) =~= lv);
    assert(sv.subrange(0, lines@.len() as int) =~= sv);
    r.append("\x1b[0m");
    let n = content.unicode_len();
    if n > 0 && content.get_char(n - 1) == '\n' {
        r.append("");
    } else {
        r.append("\n");
    }
    r
}

/// `shown` holds, for each line, its coloured form or nothing (the line is shown as is).
pub open spec fn colours_lines(shown: Seq<Option<Seq<char>>>, lines: Seq<Seq<char>>) -> bool {
    &&& shown.len() == lines.len()
    &&& forall|k: int|
        0 <= k < shown.len() ==> (#[trigger] shown[k] matches Some(e) ==> is_coloured_form(e, lines[k]))
}

/// A highlighted line written with colour escapes; `None` stays `None`.
pub open spec fn coloured(h: Option<Seq<StyledView>>) -> Option<Seq<char>> {
    match h {
        Some(p) => Some(escaped_text(p)),
        None => None,
    }
}

/// Each of `lines` highlighted in turn with the syntax and theme, after the lines
/// before it, and written with colour escapes.
pub open spec fn coloured_lines(syntax: Seq<char>, theme: Seq<char>, lines: Seq<Seq<char>>) -> Seq<Option<Seq<char>>>
    decreases lines.len(),
{
    if lines.len() == 0 {
        seq![]
    } else {
        coloured_lines(syntax, theme, lines.drop_last()).push(
            coloured(highlighted(syntax, theme, lines.drop_last(), lines.last())),
        )
    }
}

/// The syntax `cat` uses for an extension: the bundled one for it, else plain text.
pub open spec fn syntax_choice(ext: Seq<char>) -> Seq<char> {
    match bundled_syntax_for_ext(ext) {
        Some(n) => n,
        None => "Plain Text"@,
    }
}

/// What `cat` writes for `content`, highlighted with syntect's bundled syntax for the
/// extension `ext` (plain text when none) and its `base16-ocean.dark` theme: the
/// numbered lines, each coloured or, when syntect fails on it, as is. Each coloured
/// line is the line's own text cut into pieces behind colour escapes.
pub fn cat_output(content: &str, ext: &str) -> (out: String)
    ensures
        out@ == cat_text(
            content@,
            lines_of(content@),
            coloured_lines(syntax_choice(ext@), "base16-ocean.dark"@, lines_of(content@)),
        ),
        colours_lines(
            coloured_lines(syntax_choice(ext@), "base16-ocean.dark"@, lines_of(content@)),
            lines_of(content@),
        ),
{
    let ps = bundled_syntaxes();
    let ts = bundled_themes();
    let syntax = match syntax_by_extension(&ps, ext) {
        Some(s) => s,
        None => plain_text_syntax(&ps),
    };
    let theme = match theme_named(&ts, "base16-ocean.dark") {
        Some(t) => t,
        None => return vstd::pervasive::unreached(),
    };
    let ghost sname = syntax_choice(ext@);
    let ghost tname = "base16-ocean.dark"@;
    let mut h = new_highlighter(&ps, &syntax, &theme);
    let lines = lines_with_endings(content);
    let ghost lv = string_views(lines@);
    let mut shown: Vec<Option<String>> = Vec::new();
    let mut i: usize = 0;
    assert(lv.subrange(0, 0) =~= Seq::<Seq<char>>::empty());
    assert(opt_views(shown@) =~= Seq::<Option<Seq<char>>>::empty());
    while i < lines.len()
        invariant
            lv == string_views(lines@),
            lv == lines_of(content@),
            i <= lines@.len(),
            shown@.len() == i,
            h@ == (HighlighterView { syntax: sname, theme: tname, done: lv.subrange(0, i as int) }),
            opt_views(shown@) == coloured_lines(sname, tname, lv.subrange(0, i as int)),
            forall|k: int|
                0 <= k < i ==> (#[trigger] opt_views(shown@)[k] matches Some(e) ==> is_coloured_form(
                    e,
                    lv[k],
                )),
        decreases lines@.len() - i,
    {
        let ghost before = lv.subrange(0, i as int);
        let ghost prev = opt_views(shown@);
        let res = highlight_line(&mut h, lines[i].as_str());
        assert(lines[i as int]@ == lv[i as int]);
        match res {
            Some(pieces) => {
                let e = terminal_escaped(&pieces);
                proof {
                    let pv = styled_views(pieces@);
                    assert(piece_texts(pv).flatten() == lv[i as int] && escaped_text(pv) == e@);
                    assert(is_coloured_form(e@, lv[i as int]));
                }
                shown.push(Some(e));
            },
            None => shown.push(None),
        }
        proof {
            let next = lv.subrange(0, i + 1);
            assert(next.drop_last() =~= before);
            assert(next.last() == lv[i as int]);
            assert(before.push(lv[i as int]) =~= next);
            assert(opt_views(shown@) =~= prev.push(opt_views(shown@)[i as int]));
        }
        i = i + 1;
    }
    assert(lv.subrange(0, lines@.len() as int) =~= lv);
    let out = render_cat(content, &lines, &shown);
    proof {
        let sv = opt_views(shown@);
        assert(colours_lines(sv, lines_of(content@)));
    }
    out
}

/// The error `cat` reports before reading a path, if any: a missing path or a directory.
pub fn cat_path_error(path: &str, exists: bool, is_dir: bool) -> (r: Option<String>)
    ensures
        !exists ==> (r matches Some(m) && m@ == "cat: "@ + path@ + ": No such file or directory"@),
        exists && is_dir ==> (r matches Some(m) && m@ == "cat: "@ + path@ + ": Is a directory"@),
        exists && !is_dir ==> r is None,
{
    if !exists {
        let mut m = String::from_str("cat: ");
        m.append(path);
        m.append(": No such file or directory");
        Some(m)
    } else if is_dir {
        let mut m = String::from_str("cat: ");
        m.append(path);
        m.append(": Is a directory");
        Some(m)
    } else {
        None
    }
}

} // verus!
