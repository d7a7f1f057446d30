//! Icons shown before file names: Nerd Font glyphs or emoji.
use vstd::prelude::*;
use vstd::string::StringExecFns;
use crate::text::{lowercase, to_lowercase, to_chars, str_eq, push_char};

verus! {

/// Which icon set the terminal shows.
#[derive(Clone, Copy, Debug, PartialEq, Eq, Structural)]
pub enum IconMode {
    Emoji,
    Nerd,
}

impl IconMode {
    /// The icon set chosen by the value of the `NEOTERMINAL_ICONS` setting:
    /// emoji for exactly `emoji`, Nerd Font glyphs otherwise (also when unset).
    pub fn current(setting: Option<&str>) -> (m: IconMode)
        ensures
            m == (if setting matches Some(s) && s@ == "emoji"@ {
                IconMode::Emoji
            } else {
                IconMode::Nerd
            }),
    {
        match setting {
            Some(s) => if str_eq(s, "emoji") {
                IconMode::Emoji
            } else {
                IconMode::Nerd
            },
            None => IconMode::Nerd,
        }
    }
}

/// The glyph devicons gives a path named `name` that is not a directory.
pub uninterp spec fn devicon_by_name(name: Seq<char>) -> char;

/// devicons' `FileIcon::from(name).icon`. devicons looks the name up in its table, then
/// (when absent) checks whether a directory of that name exists relative to the
/// working directory, which gives its folder glyph U+F115, and otherwise looks up the
/// extension. The contract names the result for a non-directory and allows the folder
/// glyph; which of the two comes back depends on the disk and is not stated.
#[verifier::external_body]
fn devicon(name: &str) -> (c: char)
    ensures
        c == devicon_by_name(name@) || c == '\u{f115}',
{
    devicons::FileIcon::from(name).icon
}

/// The part of `s` after its last `.`, or all of `s` when it has none.
pub open spec fn last_segment(s: Seq<char>) -> Seq<char>
    decreases s.len(),
{
    if s.len() == 0 {
        s
    } else if s.last() == '.' {
        seq![]
    } else {
        last_segment(s.drop_last()).push(s.last())
    }
}

/// The emoji for a whole (lower-case) file name, when it has one of its own.
pub open spec fn emoji_for_name(n: Seq<char>) -> Option<Seq<char>> {
    if n == "cargo.toml"@ {
        Some("🦀 "@)
    } else if n == "cargo.lock"@ {
        Some("🔒 "@)
    } else if n == "makefile"@ {
        Some("🛠️ "@)
    } else if n == "dockerfile"@ || n == "docker-compose.yml"@ || n == "docker-compose.yaml"@ {
        Some("🐳 "@)
    } else if n == "gitignore"@ || n == ".gitignore"@ {
        Some("🌿 "@)
    } else if n == "license"@ || n == "license.txt"@ || n == "license.md"@ || n == "copying"@ {
        Some("⚖️ "@)
    } else {
        None
    }
}

/// The emoji for a (lower-case) extension.
pub open spec fn emoji_for_ext(e: Seq<char>) -> Seq<char> {
    if e == "rs"@ {
        "🦀 "@
    } else if e == "py"@ {
        "🐍 "@
    } else if e == "js"@ {
        "🟨 "@
    } else if e == "ts"@ {
        "🟦 "@
    } else if e == "jsx"@ || e == "tsx"@ {
        "⚛️ "@
    } else if e == "html"@ || e == "htm"@ {
        "🌐 "@
    } else if e == "css"@ || e == "scss"@ || e == "sass"@ || e == "less"@ {
        "🎨 "@
    } else if e == "json"@ || e == "toml"@ || e == "yaml"@ || e == "yml"@ {
        "⚙️ "@
    } else if e == "md"@ {
        "📘 "@
    } else if e == "sh"@ || e == "bash"@ || e == "zsh"@ || e == "fish"@ || e == "bat"@ || e
        == "cmd"@ || e == "ps1"@ {
        "⚡ "@
    } else if e == "go"@ {
        "🐹 "@
    } else if e == "cpp"@ || e == "cc"@ || e == "cxx"@ || e == "h"@ || e == "hpp"@ || e
        == "c"@ {
        "🔹 "@
    } else if e == "java"@ || e == "class"@ {
        "☕ "@
    } else if e == "php"@ {
        "🐘 "@
    } else if e == "rb"@ {
        "💎 "@
    } else if e == "sql"@ || e == "db"@ || e == "sqlite"@ || e == "sqlite3"@ {
        "🗄️ "@
    } else if e == "png"@ || e == "jpg"@ || e == "jpeg"@ || e == "gif"@ || e == "svg"@ || e
        == "webp"@ || e == "bmp"@ || e == "ico"@ {
        "🖼️ "@
    } else if e == "mp3"@ || e == "wav"@ || e == "flac"@ || e == "ogg"@ || e == "m4a"@ || e
        == "aac"@ {
        "🎵 "@
    } else if e == "mp4"@ || e == "mkv"@ || e == "avi"@ || e == "mov"@ || e == "webm"@ || e
        == "flv"@ {
        "🎥 "@
    } else if e == "zip"@ || e == "tar"@ || e == "gz"@ || e == "tgz"@ || e == "rar"@ || e
        == "7z"@ || e == "bz2"@ || e == "xz"@ {
        "📦 "@
    } else if e == "pdf"@ {
        "📕 "@
    } else if e == "txt"@ || e == "log"@ || e == "rtf"@ || e == "doc"@ || e == "docx"@ || e
        == "odt"@ {
        "📄 "@
    } else if e == "xls"@ || e == "xlsx"@ || e == "ods"@ || e == "csv"@ {
        "📊 "@
    } else if e == "ppt"@ || e == "pptx"@ || e == "odp"@ {
        "📈 "@
    } else {
        "📄 "@
    }
}

/// The emoji icon of a file with the given lower-case name.
pub open spec fn emoji_icon(lower: Seq<char>) -> Seq<char> {
    match emoji_for_name(lower) {
        Some(e) => e,
        None => emoji_for_ext(last_segment(lower)),
    }
}

/// What `get_icon` may return: the folder icon of the mode for a directory; for a
/// file, in emoji mode the emoji of its lower-cased name, in Nerd mode the devicons
/// glyph of the name (or devicons' folder glyph) followed by a space.
pub open spec fn icon_ok(name: Seq<char>, is_dir: bool, mode: IconMode, icon: Seq<char>) -> bool {
    if is_dir {
        icon == (match mode {
            IconMode::Nerd => "\u{f07b} "@,
            IconMode::Emoji => "📁 "@,
        })
    } else {
        match mode {
            IconMode::Nerd => icon == seq![devicon_by_name(name), ' '] || icon == seq![
                '\u{f115}',
                ' ',
            ],
            IconMode::Emoji => icon == emoji_icon(lowercase(name)),
        }
    }
}

fn last_segment_of(s: &str) -> (r: String)
    ensures
        r@ == last_segment(s@),
{
    let v = to_chars(s);
    let n = v.len();
    let mut start: usize = n;
    assert(v@.subrange(0, n as int) =~= v@);
    assert(v@.subrange(n as int, n as int) =~= Seq::<char>::empty());
    assert(last_segment(v@) + v@.subrange(n as int, n as int) =~= last_segment(v@));
    while start > 0 && v[start - 1] != '.'
        invariant
            start <= n == v@.len(),
            last_segment(v@) == last_segment(v@.subrange(0, start as int)) + v@.subrange(
                start as int,
                n as int,
            ),
        decreases start,
    {
        let ghost pre = v@.subrange(0, start as int);
        assert(pre.drop_last() =~= v@.subrange(0, start - 1));
        assert(pre.last() == v@[start - 1]);
        assert(seq![v@[start - 1]] + v@.subrange(start as int, n as int) =~= v@.subrange(
            start - 1,
            n as int,
        ));
        assert(last_segment(pre) == last_segment(pre.drop_last()).push(pre.last()));
        assert(last_segment(pre.drop_last()).push(pre.last()) + v@.subrange(start as int, n as int)
            =~= last_segment(pre.drop_last()) + v@.subrange(start - 1, n as int));
        start = start - 1;
    }
    proof {
        assert(v@.subrange(0, n as int) =~= v@);
        let pre = v@.subrange(0, start as int);
        if start > 0 {
            assert(pre.last() == '.');
            assert(last_segment(pre) =~= Seq::<char>::empty());
        } else {
            assert(pre =~= Seq::<char>::empty());
        }
        assert(last_segment(pre) + v@.subrange(start as int, n as int) =~= v@.subrange(
            start as int,
            n as int,
        ));
    }
    crate::text::string_of(&v, start, n)
}

fn name_emoji(n: &str) -> (r: Option<&'static str>)
    ensures
        r matches Some(e) ==> emoji_for_name(n@) == Some(e@),
        r is None ==> emoji_for_name(n@) is None,
{
    if str_eq(n, "cargo.toml") {
        Some("🦀 ")
    } else if str_eq(n, "cargo.lock") {
        Some("🔒 ")
    } else if str_eq(n, "makefile") {
        Some("🛠️ ")
    } else if str_eq(n, "dockerfile") || str_eq(n, "docker-compose.yml") || str_eq(
        n,
        "docker-compose.yaml",
    ) {
        Some("🐳 ")
    } else if str_eq(n, "gitignore") || str_eq(n, ".gitignore") {
        Some("🌿 ")
    } else if str_eq(n, "license") || str_eq(n, "license.txt") || str_eq(n, "license.md")
        || str_eq(n, "copying") {
        Some("⚖️ ")
    } else {
        None
    }
}

#[verifier::rlimit(40)]
fn ext_emoji(e: &str) -> (r: &'static str)
    ensures
        r@ == emoji_for_ext(e@),
{
    if str_eq(e, "rs") {
        "🦀 "
    } else if str_eq(e, "py") {
        "🐍 "
    } else if str_eq(e, "js") {
        "🟨 "
    } else if str_eq(e, "ts") {
        "🟦 "
    } else if str_eq(e, "jsx") || str_eq(e, "tsx") {
        "⚛️ "
    } else if str_eq(e, "html") || str_eq(e, "htm") {
        "🌐 "
    } else if str_eq(e, "css") || str_eq(e, "scss") || str_eq(e, "sass") || str_eq(e, "less") {
        "🎨 "
    } else if str_eq(e, "json") || str_eq(e, "toml") || str_eq(e, "yaml") || str_eq(e, "yml") {
        "⚙️ "
    } else if str_eq(e, "md") {
        "📘 "
    } else if str_eq(e, "sh") || str_eq(e, "bash") || str_eq(e, "zsh") || str_eq(e, "fish")
        || str_eq(e, "bat") || str_eq(e, "cmd") || str_eq(e, "ps1") {
        "⚡ "
    } else if str_eq(e, "go") {
        "🐹 "
    } else if str_eq(e, "cpp") || str_eq(e, "cc") || str_eq(e, "cxx") || str_eq(e, "h")
        || str_eq(e, "hpp") || str_eq(e, "c") {
        "🔹 "
    } else if str_eq(e, "java") || str_eq(e, "class") {
        "☕ "
    } else if str_eq(e, "php") {
        "🐘 "
    } else if str_eq(e, "rb") {
        "💎 "
    } else if str_eq(e, "sql") || str_eq(e, "db") || str_eq(e, "sqlite") || str_eq(e, "sqlite3") {
        "🗄️ "
    } else if str_eq(e, "png") || str_eq(e, "jpg") || str_eq(e, "jpeg") || str_eq(e, "gif")
        || str_eq(e, "svg") || str_eq(e, "webp") || str_eq(e, "bmp") || str_eq(e, "ico") {
        "🖼️ "
    } else if str_eq(e, "mp3") || str_eq(e, "wav") || str_eq(e, "flac") || str_eq(e, "ogg")
        || str_eq(e, "m4a") || str_eq(e, "aac") {
        "🎵 "
    } else if str_eq(e, "mp4") || str_eq(e, "mkv") || str_eq(e, "avi") || str_eq(e, "mov")
        || str_eq(e, "webm") || str_eq(e, "flv") {
        "🎥 "
    } else if str_eq(e, "zip") || str_eq(e, "tar") || str_eq(e, "gz") || str_eq(e, "tgz")
        || str_eq(e, "rar") || str_eq(e, "7z") || str_eq(e, "bz2") || str_eq(e, "xz") {
        "📦 "
    } else if str_eq(e, "pdf") {
        "📕 "
    } else if str_eq(e, "txt") || str_eq(e, "log") || str_eq(e, "rtf") || str_eq(e, "doc")
        || str_eq(e, "docx") || str_eq(e, "odt") {
        "📄 "
    } else if str_eq(e, "xls") || str_eq(e, "xlsx") || str_eq(e, "ods") || str_eq(e, "csv") {
        "📊 "
    } else if str_eq(e, "ppt") || str_eq(e, "pptx") || str_eq(e, "odp") {
        "📈 "
    } else {
        "📄 "
    }
}

/// The emoji icon (with a trailing space) of a file whose lower-cased name is `lower`:
/// the emoji of the whole name when it has one, else that of the part after the last
/// `.`.
pub fn emoji_icon_for(lower: &str) -> (r: String)
    ensures
        r@ == emoji_icon(lower@),
{
    let e = match name_emoji(lower) {
        Some(e) => e,
        None => {
            let ext = last_segment_of(lower);
            ext_emoji(ext.as_str())
        },
    };
    String::from_str(e)
}

/// The icon (with a trailing space) shown before the file `name`.
pub fn get_icon(name: &str, is_dir: bool, mode: IconMode) -> (r: String)
    ensures
        icon_ok(name@, is_dir, mode, r@),
{
    if is_dir {
        return match mode {
            IconMode::Nerd => String::from_str("\u{f07b} "),
            IconMode::Emoji => String::from_str("📁 "),
        };
    }
    match mode {
        IconMode::Nerd => {
            let c = devicon(name);
            let mut r = String::new();
            push_char(&mut r, c);
            push_char(&mut r, ' ');
            assert(r@ =~= seq![c, ' ']);
            r
        },
        IconMode::Emoji => {
            let lower = to_lowercase(name);
            emoji_icon_for(lower.as_str())
        },
    }
}

} // verus!
