//! The `ls` built-in: options, per-file columns, ordering and the listing table.
use vstd::prelude::*;
use vstd::string::StringExecFns;
use crate::args::string_views;
use crate::text::{decimal, digit_char, push_char, push_decimal, to_chars, lowercase, to_lowercase, repeat, pad_left, pad_right, push_repeat, push_pad_left, push_pad_right};
use crate::order::{is_int_desc_order, is_text_order, int_desc_order, text_order};
use crate::icons::{IconMode, icon_ok, get_icon};
use vstd::utf8::encode_utf8;

verus! {

// ---------------------------------------------------------------------------
// Options
// ---------------------------------------------------------------------------

/// The options of an `ls` command line.
pub struct LsOptions {
    /// `-a`: show names that start with `.`.
    pub show_all: bool,
    /// `-l`: accepted; the listing is always in long form.
    pub long_format: bool,
    /// `-t`: newest first.
    pub sort_by_time: bool,
    /// `-s` / `-S`: largest first.
    pub sort_by_size: bool,
    /// The arguments that are not options.
    pub targets: Vec<String>,
}

/// The state of option parsing after some arguments.
pub struct LsScan {
    pub show_all: bool,
    pub long_format: bool,
    pub sort_by_time: bool,
    pub sort_by_size: bool,
    pub targets: Seq<Seq<char>>,
    /// The first option character that is not recognised, if any.
    pub bad: Option<char>,
}

/// Option parsing before any argument.
pub open spec fn ls_scan_start() -> LsScan {
    LsScan {
        show_all: false,
        long_format: false,
        sort_by_time: false,
        sort_by_size: false,
        targets: seq![],
        bad: None,
    }
}

/// One option character; after an unknown one nothing changes any more.
pub open spec fn ls_flag(st: LsScan, c: char) -> LsScan {
    if st.bad is Some {
        st
    } else if c == 'a' {
        LsScan { show_all: true, ..st }
    } else if c == 'l' {
        LsScan { long_format: true, ..st }
    } else if c == 't' {
        LsScan { sort_by_time: true, ..st }
    } else if c == 's' || c == 'S' {
        LsScan { sort_by_size: true, ..st }
    } else {
        LsScan { bad: Some(c), ..st }
    }
}

/// The option characters `cs`, in order.
pub open spec fn ls_flags(st: LsScan, cs: Seq<char>) -> LsScan
    decreases cs.len(),
{
    if cs.len() == 0 {
        st
    } else {
        ls_flag(ls_flags(st, cs.drop_last()), cs.last())
    }
}

/// One argument: `-` followed by at least one character is a group of options,
/// anything else is a target.
pub open spec fn ls_arg(st: LsScan, a: Seq<char>) -> LsScan {
    if st.bad is Some {
        st
    } else if a.len() > 1 && a[0] == '-' {
        ls_flags(st, a.drop_first())
    } else {
        LsScan { targets: st.targets.push(a), ..st }
    }
}

/// The arguments `args`, in order.
pub open spec fn ls_scan(args: Seq<Seq<char>>) -> LsScan
    decreases args.len(),
{
    if args.len() == 0 {
        ls_scan_start()
    } else {
        ls_arg(ls_scan(args.drop_last()), args.last())
    }
}

/// The message for an unknown option character.
pub open spec fn invalid_option_message(c: char) -> Seq<char> {
    "ls: invalid option -- '"@ + seq![c] + "'"@
}

/// Parses the arguments of `ls`: the first unknown option character is an error with
/// its message; otherwise the flags and the targets.
pub fn parse_ls_args(args: &Vec<String>) -> (r: Result<LsOptions, String>)
    ensures
        ({
            let st = ls_scan(string_views(args@));
            &&& st.bad matches Some(c) ==> (r matches Err(m) && m@ == invalid_option_message(c))
            &&& st.bad is None ==> (r matches Ok(o) && o.show_all == st.show_all && o.long_format
                == st.long_format && o.sort_by_time == st.sort_by_time && o.sort_by_size
                == st.sort_by_size && string_views(o.targets@) == st.targets)
        }),
{
    let ghost views = string_views(args@);
    let mut show_all = false;
    let mut long_format = false;
    let mut sort_by_time = false;
    let mut sort_by_size = false;
    let mut targets: Vec<String> = Vec::new();
    let mut bad: Option<char> = None;
    let mut i: usize = 0;
    while i < args.len()
        invariant
            views == string_views(args@),
            i <= args@.len(),
            ({
                let st = ls_scan(views.subrange(0, i as int));
                &&& st.show_all == show_all
                &&& st.long_format == long_format
                &&& st.sort_by_time == sort_by_time
                &&& st.sort_by_size == sort_by_size
                &&& st.targets == string_views(targets@)
                &&& st.bad == bad
            }),
        decreases args@.len() - i,
    {
        let ghost before = ls_scan(views.subrange(0, i as int));
        let a = to_chars(args[i].as_str());
        assert(a@ == views[i as int]);
        if bad.is_none() {
            if a.len() > 1 && a[0] == '-' {
                let mut j: usize = 1;
                while j < a.len()
                    invariant
                        1 <= j <= a@.len(),
                        ({
                            let st = ls_flags(before, a@.drop_first().subrange(0, j - 1));
                            &&& st.show_all == show_all
                            &&& st.long_format == long_format
                            &&& st.sort_by_time == sort_by_time
                            &&& st.sort_by_size == sort_by_size
                            &&& st.targets == string_views(targets@)
                            &&& st.bad == bad
                        }),
                    decreases a@.len() - j,
                {
                    let c = a[j];
                    if bad.is_none() {
                        if c == 'a' {
                            show_all = true;
                        } else if c == 'l' {
                            long_format = true;
                        } else if c == 't' {
                            sort_by_time = true;
                        } else if c == 's' || c == 'S' {
                            sort_by_size = true;
                        } else {
                            bad = Some(c);
                        }
                    }
                    assert(a@.drop_first().subrange(0, j as int).drop_last() =~= a@.drop_first().subrange(0, j - 1));
                    j = j + 1;
                }
                assert(a@.drop_first().subrange(0, a@.len() - 1) =~= a@.drop_first());
            } else {
                let ghost prev = targets@;
                targets.push(args[i].clone());
                assert(string_views(targets@) =~= string_views(prev).push(views[i as int]));
            }
        }
        assert(views.subrange(0, i + 1).drop_last() =~= views.subrange(0, i as int));
        i = i + 1;
    }
    assert(views.subrange(0, args@.len() as int) =~= views);
    match bad {
        Some(c) => {
            let mut m = String::from_str("ls: invalid option -- '");
            push_char(&mut m, c);
            m.append("'");
            Err(m)
        },
        None => Ok(LsOptions { show_all, long_format, sort_by_time, sort_by_size, targets }),
    }
}

/// The directory `ls` lists: the first target, or `.` without one.
pub fn target_dir(opts: &LsOptions) -> (r: String)
    ensures
        r@ == (if opts.targets@.len() == 0 {
            "."@
        } else {
            opts.targets@[0]@
        }),
{
    if opts.targets.len() == 0 {
        String::from_str(".")
    } else {
        opts.targets[0].clone()
    }
}

/// Whether an entry named `name` is listed: hidden names (starting with `.`) only
/// with `-a`.
pub fn keep_entry(name: &str, show_all: bool) -> (r: bool)
    ensures
        r == (show_all || !(name@.len() > 0 && name@[0] == '.')),
{
    show_all || !crate::text::starts_with_char(name, '.')
}

// ---------------------------------------------------------------------------
// Per-file columns
// ---------------------------------------------------------------------------

/// What `ls` knows about one directory entry.
pub struct FileInfo {
    pub name: String,
    pub is_dir: bool,
    pub is_symlink: bool,
    pub is_exec: bool,
    pub size: u64,
    /// Modification time: whole seconds since the Unix epoch (negative before it)…
    pub modified_secs: i64,
    /// …and the nanoseconds within that second.
    pub modified_nanos: u32,
    pub permissions: String,
}

/// A copy of a `FileInfo`.
pub fn clone_file(f: &FileInfo) -> (r: FileInfo)
    ensures
        r == *f,
{
    FileInfo {
        name: f.name.clone(),
        is_dir: f.is_dir,
        is_symlink: f.is_symlink,
        is_exec: f.is_exec,
        size: f.size,
        modified_secs: f.modified_secs,
        modified_nanos: f.modified_nanos,
        permissions: f.permissions.clone(),
    }
}

/// A regular file with any execute bit (`0o111`) set in its mode is executable.
pub fn is_executable(is_file: bool, mode: u32) -> (r: bool)
    ensures
        r == (is_file && mode & 0o111u32 != 0),
{
    is_file && mode & 0o111u32 != 0
}

/// `c` when the mode has `bit`, `-` otherwise.
pub open spec fn mode_char(mode: u32, bit: u32, c: char) -> char {
    if mode & bit != 0 {
        c
    } else {
        '-'
    }
}

/// The ten-character `drwxrwxrwx` form of a file's kind and mode.
pub open spec fn permissions_text(mode: u32, is_dir: bool, is_symlink: bool) -> Seq<char> {
    seq![
        if is_dir {
            'd'
        } else if is_symlink {
            'l'
        } else {
            '-'
        },
        mode_char(mode, 0o400, 'r'),
        mode_char(mode, 0o200, 'w'),
        mode_char(mode, 0o100, 'x'),
        mode_char(mode, 0o040, 'r'),
        mode_char(mode, 0o020, 'w'),
        mode_char(mode, 0o010, 'x'),
        mode_char(mode, 0o004, 'r'),
        mode_char(mode, 0o002, 'w'),
        mode_char(mode, 0o001, 'x'),
    ]
}

fn push_mode_char(s: &mut String, mode: u32, bit: u32, c: char)
    ensures
        final(s)@ == old(s)@.push(mode_char(mode, bit, c)),
{
    if mode & bit != 0 {
        push_char(s, c);
    } else {
        push_char(s, '-');
    }
}

/// The permission string of a file with this kind and mode.
pub fn get_permissions_string(mode: u32, is_dir: bool, is_symlink: bool) -> (r: String)
    ensures
        r@ == permissions_text(mode, is_dir, is_symlink),
{
    let mut s = String::new();
    if is_dir {
        push_char(&mut s, 'd');
    } else if is_symlink {
        push_char(&mut s, 'l');
    } else {
        push_char(&mut s, '-');
    }
    push_mode_char(&mut s, mode, 0o400, 'r');
    push_mode_char(&mut s, mode, 0o200, 'w');
    push_mode_char(&mut s, mode, 0o100, 'x');
    push_mode_char(&mut s, mode, 0o040, 'r');
    push_mode_char(&mut s, mode, 0o020, 'w');
    push_mode_char(&mut s, mode, 0o010, 'x');
    push_mode_char(&mut s, mode, 0o004, 'r');
    push_mode_char(&mut s, mode, 0o002, 'w');
    push_mode_char(&mut s, mode, 0o001, 'x');
    assert(s@ =~= permissions_text(mode, is_dir, is_symlink));
    s
}

/// The name, in bold blue for a directory, bold cyan for a symbolic link, bold green
/// for an executable, plain otherwise.
pub open spec fn colored_name_text(f: FileInfo) -> Seq<char> {
    if f.is_dir {
        "\x1b[1;34m"@ + f.name@ + "\x1b[0m"@
    } else if f.is_symlink {
        "\x1b[1;36m"@ + f.name@ + "\x1b[0m"@
    } else if f.is_exec {
        "\x1b[1;32m"@ + f.name@ + "\x1b[0m"@
    } else {
        f.name@
    }
}

fn wrap(start: &str, body: &str) -> (r: String)
    ensures
        r@ == start@ + body@ + "\x1b[0m"@,
{
    let mut r = String::from_str(start);
    r.append(body);
    r.append("\x1b[0m");
    r
}

/// The file name with the colour of its kind.
pub fn get_colored_name(file: &FileInfo) -> (r: String)
    ensures
        r@ == colored_name_text(*file),
{
    if file.is_dir {
        wrap("\x1b[1;34m", file.name.as_str())
    } else if file.is_symlink {
        wrap("\x1b[1;36m", file.name.as_str())
    } else if file.is_exec {
        wrap("\x1b[1;32m", file.name.as_str())
    } else {
        file.name.clone()
    }
}

// ---------------------------------------------------------------------------
// Human-readable sizes
// ---------------------------------------------------------------------------

/// `2^e`.
pub open spec fn two_pow(e: nat) -> nat
    decreases e,
{
    if e == 0 {
        1
    } else {
        2 * two_pow((e - 1) as nat)
    }
}

/// How many low bits of `n` fall outside a 53-bit significand.
pub open spec fn f64_shift(n: nat) -> nat
    decreases n,
{
    if n < 0x20_0000_0000_0000 {
        0
    } else {
        1 + f64_shift(n / 2)
    }
}

/// `num / den` rounded to the nearest integer, ties to the even one.
pub open spec fn round_half_even(num: nat, den: nat) -> nat {
    let q = num / den;
    let r = num % den;
    if 2 * r > den || (2 * r == den && q % 2 == 1) {
        q + 1
    } else {
        q
    }
}

/// The value of `n as f64`: `n` rounded to 53 significant bits, ties to even.
pub open spec fn as_f64(n: nat) -> nat {
    let p = two_pow(f64_shift(n));
    round_half_even(n, p) * p
}

/// A number of tenths written with one decimal (`{:.1}` of `t / 10`).
pub open spec fn one_decimal_text(t: nat) -> Seq<char> {
    decimal(t / 10) + "."@ + seq![digit_char(t % 10)]
}

/// The value `v / unit`, as `{:.1}` prints the `f64` quotient: the quotient of two
/// such values is exact when `unit` is a power of two, and printing rounds to the
/// nearest tenth with ties to even.
pub open spec fn scaled_text(v: nat, unit: nat) -> Seq<char> {
    one_decimal_text(round_half_even(10 * v, unit))
}

/// The size column: `-` for a directory; otherwise bytes below 1 KiB, else KiB, MiB or
/// GiB with one decimal of `size as f64 / unit`.
pub open spec fn size_text(size: nat, is_dir: bool) -> Seq<char> {
    if is_dir {
        "-"@
    } else if size >= 0x4000_0000 {
        scaled_text(as_f64(size), 0x4000_0000) + " GB"@
    } else if size >= 0x10_0000 {
        scaled_text(as_f64(size), 0x10_0000) + " MB"@
    } else if size >= 0x400 {
        scaled_text(as_f64(size), 0x400) + " KB"@
    } else {
        decimal(size) + " B"@
    }
}

proof fn lemma_small_as_f64(n: nat)
    requires
        n < 0x20_0000_0000_0000,
    ensures
        as_f64(n) == n,
{
    assert(f64_shift(n) == 0);
    assert(two_pow(0) == 1);
    assert(n / 1 == n && n % 1 == 0);
    assert(round_half_even(n, 1) == n);
    assert(round_half_even(n, 1) * 1 == n);
}

/// `size as f64`, as an integer.
fn f64_value(size: u64) -> (r: u128)
    ensures
        r == as_f64(size as nat),
        r <= 0x1_0000_0000_0000_1000u128,
{
    let mut m: u64 = size;
    let mut pw: u128 = 1;
    let ghost mut e: nat = 0;
    while m >= 0x20_0000_0000_0000u64
        invariant
            f64_shift(size as nat) == e + f64_shift(m as nat),
            pw == two_pow(e),
            pw * m <= size,
            pw < 4096,
            m == (size as int) / (pw as int),
            pw >= 1,
        decreases m,
    {
        assert((2 * pw) * (m / 2) <= pw * m) by (nonlinear_arith)
            requires
                pw >= 1,
        ;
        assert(m / 2 == (size as int) / (2 * pw as int)) by {
            vstd::arithmetic::div_mod::lemma_div_denominator(size as int, pw as int, 2);
        }
        m = m / 2;
        pw = pw * 2;
        proof {
            e = e + 1;
        }
        assert(pw < 4096) by (nonlinear_arith)
            requires
                pw * m <= size,
                m >= 0x10_0000_0000_0000u64,
                size <= 0xffff_ffff_ffff_ffffu64,
        ;
    }
    let q: u128 = (size as u128) / pw;
    let rem: u128 = (size as u128) % pw;
    if m == size {
        proof {
            lemma_small_as_f64(size as nat);
        }
        return size as u128;
    }
    assert(q <= 0xffff_ffff_ffff_ffffu128);
    let rounded: u128 = if 2 * rem > pw || (2 * rem == pw && q % 2 == 1) {
        q + 1
    } else {
        q
    };
    assert(rounded * pw <= 0x1_0000_0000_0000_1000u128) by (nonlinear_arith)
        requires
            rounded <= q + 1,
            q == (size as int) / (pw as int),
            rem == (size as int) % (pw as int),
            pw >= 1,
            pw < 4096,
            size <= 0xffff_ffff_ffff_ffffu64,
    {
        assert(q * pw + rem == size) by {
            vstd::arithmetic::div_mod::lemma_fundamental_div_mod(size as int, pw as int);
        }
    }
    rounded * pw
}

/// `round_half_even(num, den)` in machine arithmetic.
fn round_half_even_exec(num: u128, den: u128) -> (r: u128)
    requires
        den > 0,
        den <= 0x1_0000_0000_0000_0000u128,
        num <= 0x10_0000_0000_0000_0000u128,
    ensures
        r == round_half_even(num as nat, den as nat),
        r <= num / den + 1,
{
    let q = num / den;
    let rem = num % den;
    if 2 * rem > den || (2 * rem == den && q % 2 == 1) {
        q + 1
    } else {
        q
    }
}

/// Appends `t / 10` with one decimal.
fn push_one_decimal(s: &mut String, t: u64)
    ensures
        final(s)@ == old(s)@ + one_decimal_text(t as nat),
{
    push_decimal(s, t / 10);
    push_char(s, '.');
    let d: u64 = t % 10;
    let b: u8 = 48u8 + (d as u8);
    push_char(s, b as char);
    proof {
        reveal_strlit(".");
    }
    assert(s@ =~= old(s)@ + one_decimal_text(t as nat));
}

/// The size column for a file of `size` bytes (or `-` for a directory).
pub fn get_human_readable_size(size: u64, is_dir: bool) -> (r: String)
    ensures
        r@ == size_text(size as nat, is_dir),
{
    if is_dir {
        return String::from_str("-");
    }
    let mut r = String::new();
    if size >= 0x4000_0000 {
        let v = f64_value(size);
        let t = round_half_even_exec(10 * v, 0x4000_0000);
        push_one_decimal(&mut r, t as u64);
        r.append(" GB");
    } else if size >= 0x10_0000 {
        let v = f64_value(size);
        let t = round_half_even_exec(10 * v, 0x10_0000);
        push_one_decimal(&mut r, t as u64);
        r.append(" MB");
    } else if size >= 0x400 {
        let v = f64_value(size);
        let t = round_half_even_exec(10 * v, 0x400);
        push_one_decimal(&mut r, t as u64);
        r.append(" KB");
    } else {
        push_decimal(&mut r, size);
        r.append(" B");
    }
    r
}

// ---------------------------------------------------------------------------
// Modification times
// ---------------------------------------------------------------------------

/// Whether `d` is a decimal digit.
pub open spec fn is_digit(d: char) -> bool {
    '0' <= d && d <= '9'
}

/// Whether `m` is an English three-letter month abbreviation.
pub open spec fn is_month_abbrev(m: Seq<char>) -> bool {
    ||| m == "Jan"@
    ||| m == "Feb"@
    ||| m == "Mar"@
    ||| m == "Apr"@
    ||| m == "May"@
    ||| m == "Jun"@
    ||| m == "Jul"@
    ||| m == "Aug"@
    ||| m == "Sep"@
    ||| m == "Oct"@
    ||| m == "Nov"@
    ||| m == "Dec"@
}

/// Whether `s` reads like `Jan 02 15:04`: month, day, hour and minute.
pub open spec fn is_month_day_time(s: Seq<char>) -> bool {
    &&& s.len() == 12
    &&& is_month_abbrev(s.subrange(0, 3))
    &&& s[3] == ' '
    &&& is_digit(s[4])
    &&& is_digit(s[5])
    &&& s[6] == ' '
    &&& is_digit(s[7])
    &&& is_digit(s[8])
    &&& s[9] == ':'
    &&& is_digit(s[10])
    &&& is_digit(s[11])
}

/// A modification time that chrono can always represent: within about 250,000 years
/// of the epoch (chrono's dates reach year 262,142 either way) and with the
/// nanoseconds below one second.
pub open spec fn time_in_range(secs: int, nanos: int) -> bool {
    &&& -8_000_000_000_000 <= secs <= 8_000_000_000_000
    &&& nanos < 1_000_000_000
}

/// The English three-letter abbreviation of month `m` (1 to 12).
pub open spec fn month_abbrev(m: int) -> Seq<char> {
    if m == 1 {
        "Jan"@
    } else if m == 2 {
        "Feb"@
    } else if m == 3 {
        "Mar"@
    } else if m == 4 {
        "Apr"@
    } else if m == 5 {
        "May"@
    } else if m == 6 {
        "Jun"@
    } else if m == 7 {
        "Jul"@
    } else if m == 8 {
        "Aug"@
    } else if m == 9 {
        "Sep"@
    } else if m == 10 {
        "Oct"@
    } else if m == 11 {
        "Nov"@
    } else {
        "Dec"@
    }
}

/// The month (1 to 12) and day of the month of the day `days` after 1970-01-01 in the
/// proleptic Gregorian calendar (counting in 400-year eras that start on March 1st).
pub open spec fn civil_month_day(days: int) -> (int, int) {
    let z = days + 719468;
    let era = z / 146097;
    let doe = z - era * 146097;
    let yoe = (doe - doe / 1460 + doe / 36524 - doe / 146096) / 365;
    let doy = doe - (365 * yoe + yoe / 4 - yoe / 100);
    let mp = (5 * doy + 2) / 153;
    let d = doy - (153 * mp + 2) / 5 + 1;
    let m = if mp < 10 {
        mp + 3
    } else {
        mp - 9
    };
    (m, d)
}

/// A number below 100 in two digits.
pub open spec fn two_digits(n: int) -> Seq<char> {
    seq![digit_char((n / 10) as nat), digit_char((n % 10) as nat)]
}

/// `%b %d %H:%M` of the instant `secs` seconds after 1970-01-01 00:00 on a clock that
/// counts from that moment (a time zone's clock, once its offset is added).
pub open spec fn month_day_time_text(secs: int) -> Seq<char> {
    let days = secs / 86400;
    let sod = secs % 86400;
    let md = civil_month_day(days);
    month_abbrev(md.0) + " "@ + two_digits(md.1) + " "@ + two_digits(sod / 3600) + ":"@ + two_digits(
        (sod % 3600) / 60,
    )
}

/// `t` is the time `secs` (seconds after the epoch, UTC) on the clock of some time
/// zone: one whose offset from UTC is less than a day either way.
pub open spec fn is_local_time_text(t: Seq<char>, secs: int) -> bool {
    exists|local: int| secs - 86400 < local < secs + 86400 && #[trigger] month_day_time_text(local) == t
}

/// What the time column may read for a time of `secs` seconds and `nanos`
/// nanoseconds: the `Jan 02 15:04` form and, for a time in range, that time in some
/// time zone.
pub open spec fn time_text_ok(t: Seq<char>, secs: int, nanos: int) -> bool {
    &&& is_month_day_time(t)
    &&& time_in_range(secs, nanos) ==> is_local_time_text(t, secs)
}

/// chrono: the time `secs` seconds and `nanos` nanoseconds after the Unix epoch in the
/// local time zone, formatted with `%b %d %H:%M`. `None` when chrono cannot represent
/// the instant (`DateTime::from_timestamp` fails, which its source shows cannot happen
/// within `time_in_range`). chrono writes the English month abbreviation and
/// zero-padded two-digit day, hour and minute of the UTC time plus the local offset,
/// which chrono's `FixedOffset` keeps below a day either way; the offset itself
/// depends on the machine's time zone and is not stated (chrono panics when the zone
/// data it reads cannot give an offset).
#[verifier::external_body]
fn local_time_text(secs: i64, nanos: u32) -> (r: Option<String>)
    ensures
        r matches Some(t) ==> time_text_ok(t@, secs as int, nanos as int),
        time_in_range(secs as int, nanos as int) ==> r is Some,
{
    chrono::DateTime::from_timestamp(secs, nanos).map(
        |t| t.with_timezone(&chrono::Local).format("%b %d %H:%M").to_string(),
    )
}

/// The modification-time column of a file, in local time: the file's time on the
/// clock of the machine's time zone. `None` when the time is outside what chrono can
/// represent.
pub fn get_modified_time_string(file: &FileInfo) -> (r: Option<String>)
    ensures
        r matches Some(t) ==> time_text_ok(t@, file.modified_secs as int, file.modified_nanos as int),
        time_in_range(file.modified_secs as int, file.modified_nanos as int) ==> r is Some,
{
    local_time_text(file.modified_secs, file.modified_nanos)
}

// ---------------------------------------------------------------------------
// Ordering
// ---------------------------------------------------------------------------

/// The key by which `-t` orders files (newest first): the modification time as one
/// number, seconds then nanoseconds.
pub open spec fn time_key(f: FileInfo) -> i128 {
    (f.modified_secs * 0x1_0000_0000 + f.modified_nanos) as i128
}

/// The key by which `-s` orders files (largest first).
pub open spec fn size_key(f: FileInfo) -> i128 {
    f.size as i128
}

/// The key by which files are ordered by default: the lower-cased name.
pub open spec fn name_key(f: FileInfo) -> Seq<char> {
    lowercase(f.name@)
}

/// `p` is the order in which `ls` lists `files`: newest first with `-t`, else largest
/// first with `-s`, else by lower-cased name; files with equal keys keep the order in
/// which the directory listed them.
pub open spec fn is_listing_order(p: Seq<usize>, files: Seq<FileInfo>, by_time: bool, by_size: bool) -> bool {
    if by_time {
        is_int_desc_order(p, files.map_values(|f: FileInfo| time_key(f)))
    } else if by_size {
        is_int_desc_order(p, files.map_values(|f: FileInfo| size_key(f)))
    } else {
        is_text_order(p, files.map_values(|f: FileInfo| name_key(f)))
    }
}

/// The order in which `ls` lists `files`.
pub fn listing_order(files: &Vec<FileInfo>, by_time: bool, by_size: bool) -> (p: Vec<usize>)
    ensures
        is_listing_order(p@, files@, by_time, by_size),
{
    if by_time || by_size {
        let mut keys: Vec<i128> = Vec::new();
        let mut i: usize = 0;
        while i < files.len()
            invariant
                i <= files@.len(),
                keys@.len() == i,
                forall|k: int| 0 <= k < i ==> #[trigger] keys@[k] == (if by_time {
                    time_key(files@[k])
                } else {
                    size_key(files@[k])
                }),
            decreases files@.len() - i,
        {
            let f = &files[i];
            if by_time {
                keys.push((f.modified_secs as i128) * 0x1_0000_0000i128 + (f.modified_nanos as i128));
            } else {
                keys.push(f.size as i128);
            }
            i = i + 1;
        }
        let p = int_desc_order(&keys);
        if by_time {
            assert(keys@ =~= files@.map_values(|f: FileInfo| time_key(f)));
        } else {
            assert(keys@ =~= files@.map_values(|f: FileInfo| size_key(f)));
        }
        p
    } else {
        let mut keys: Vec<Vec<char>> = Vec::new();
        let mut i: usize = 0;
        while i < files.len()
            invariant
                i <= files@.len(),
                keys@.len() == i,
                forall|k: int| 0 <= k < i ==> #[trigger] keys@[k]@ == name_key(files@[k]),
            decreases files@.len() - i,
        {
            let lower = to_lowercase(files[i].name.as_str());
            keys.push(to_chars(lower.as_str()));
            i = i + 1;
        }
        let p = text_order(&keys);
        assert(keys@.map_values(|k: Vec<char>| k@) =~= files@.map_values(|f: FileInfo| name_key(f)));
        p
    }
}

/// The files in the order `p`.
pub open spec fn permute(files: Seq<FileInfo>, p: Seq<usize>) -> Seq<FileInfo> {
    p.map_values(|i: usize| files[i as int])
}

/// `files` rearranged in the order `p`.
pub fn apply_order(files: &Vec<FileInfo>, p: &Vec<usize>) -> (r: Vec<FileInfo>)
    requires
        forall|k: int| 0 <= k < p@.len() ==> #[trigger] p@[k] < files@.len(),
    ensures
        r@ == permute(files@, p@),
{
    let mut r: Vec<FileInfo> = Vec::new();
    let mut i: usize = 0;
    while i < p.len()
        invariant
            forall|k: int| 0 <= k < p@.len() ==> #[trigger] p@[k] < files@.len(),
            i <= p@.len(),
            r@ == permute(files@, p@.subrange(0, i as int)),
        decreases p@.len() - i,
    {
        r.push(clone_file(&files[p[i]]));
        assert(permute(files@, p@.subrange(0, i + 1)) =~= permute(files@, p@.subrange(0, i as int)).push(files@[p@[i as int] as int]));
        i = i + 1;
    }
    assert(p@.subrange(0, p@.len() as int) =~= p@);
    r
}

proof fn lemma_order_in_range(p: Seq<usize>, files: Seq<FileInfo>, by_time: bool, by_size: bool)
    requires
        is_listing_order(p, files, by_time, by_size),
    ensures
        p.len() == files.len(),
        forall|k: int| 0 <= k < p.len() ==> #[trigger] p[k] < files.len(),
{
}

/// The files in the order in which `ls` lists them.
pub fn sort_files(files: &Vec<FileInfo>, by_time: bool, by_size: bool) -> (r: Vec<FileInfo>)
    ensures
        exists|p: Seq<usize>| is_listing_order(p, files@, by_time, by_size) && r@ == permute(files@, p),
{
    let p = listing_order(files, by_time, by_size);
    proof {
        lemma_order_in_range(p@, files@, by_time, by_size);
    }
    apply_order(files, &p)
}

// ---------------------------------------------------------------------------
// The table
// ---------------------------------------------------------------------------

/// The number of bytes of the UTF-8 encoding of `s`, as `str::len` reports it.
pub open spec fn byte_len(s: Seq<char>) -> nat {
    (encode_utf8(s).len() as usize) as nat
}

/// The larger of `a` and `b`.
pub open spec fn max_nat(a: nat, b: nat) -> nat {
    if a >= b {
        a
    } else {
        b
    }
}

/// The largest of `min` and the lengths `lens`.
pub open spec fn column_width(min: nat, lens: Seq<nat>) -> nat
    decreases lens.len(),
{
    if lens.len() == 0 {
        min
    } else {
        max_nat(column_width(min, lens.drop_last()), lens.last())
    }
}

/// The widths of the name, size, modified and permissions columns.
pub struct Widths {
    pub name: nat,
    pub size: nat,
    pub modified: nat,
    pub perms: nat,
}

/// Each column is as wide as its heading and its widest cell; names count characters,
/// the other columns count bytes.
pub open spec fn table_widths(files: Seq<FileInfo>, dates: Seq<Seq<char>>) -> Widths {
    Widths {
        name: column_width(4, files.map_values(|f: FileInfo| f.name@.len())),
        size: column_width(4, files.map_values(|f: FileInfo| byte_len(size_text(f.size as nat, f.is_dir)))),
        modified: column_width(8, dates.map_values(|d: Seq<char>| byte_len(d))),
        perms: column_width(11, files.map_values(|f: FileInfo| byte_len(f.permissions@))),
    }
}

/// The dim heading line.
pub open spec fn header_text(w: Widths) -> Seq<char> {
    "  \x1b[90m"@ + "  "@ + "  "@ + pad_right("Name"@, w.name) + "  "@ + pad_left("Size"@, w.size) + "  "@
        + pad_right("Modified"@, w.modified) + "  "@ + pad_right("Permissions"@, w.perms) + "\x1b[0m"@
}

/// The dim rule under the heading, one `─` per column character.
pub open spec fn divider_text(w: Widths) -> Seq<char> {
    "  \x1b[90m"@ + "  "@ + "  "@ + repeat('─', w.name) + "  "@ + repeat('─', w.size) + "  "@ + repeat(
        '─',
        w.modified,
    ) + "  "@ + repeat('─', w.perms) + "\x1b[0m"@
}

/// One file's line: icon, coloured name padded by its character count, size
/// (right-aligned, dim), time (cyan), permissions (green) and a mark for links.
pub open spec fn row_text(f: FileInfo, icon: Seq<char>, date: Seq<char>, w: Widths) -> Seq<char> {
    "  "@ + icon + "  "@ + colored_name_text(f) + repeat(' ', (w.name - f.name@.len()) as nat)
        + "  \x1b[90m"@ + pad_left(size_text(f.size as nat, f.is_dir), w.size) + "\x1b[0m  \x1b[36m"@
        + pad_right(date, w.modified) + "\x1b[0m  \x1b[32m"@ + pad_right(f.permissions@, w.perms)
        + "\x1b[0m"@ + (if f.is_symlink {
        " \x1b[36m-> (symlink)\x1b[0m"@
    } else {
        seq![]
    })
}

/// The lines of a listing of `files` (already in listing order) with their icons and
/// times: heading, rule, then one line per file.
pub open spec fn listing_text(files: Seq<FileInfo>, icons: Seq<Seq<char>>, dates: Seq<Seq<char>>) -> Seq<Seq<char>> {
    let w = table_widths(files, dates);
    seq![header_text(w), divider_text(w)] + Seq::new(
        files.len(),
        |i: int| row_text(files[i], icons[i], dates[i], w),
    )
}

proof fn lemma_column_width_ge(min: nat, lens: Seq<nat>, k: int)
    requires
        0 <= k < lens.len(),
    ensures
        column_width(min, lens) >= lens[k],
    decreases lens.len(),
{
    if k < lens.len() - 1 {
        lemma_column_width_ge(min, lens.drop_last(), k);
    }
}

/// The table lines up: every file's name, size, time and permissions fit their column,
/// so padding a cell to its column width never cuts it, and every name cell (name plus
/// padding) is exactly as wide as the column.
pub proof fn lemma_columns_fit(files: Seq<FileInfo>, dates: Seq<Seq<char>>, k: int)
    requires
        0 <= k < files.len(),
        dates.len() == files.len(),
    ensures
        ({
            let w = table_widths(files, dates);
            &&& files[k].name@.len() <= w.name
            &&& files[k].name@.len() + (w.name - files[k].name@.len()) as nat == w.name
            &&& byte_len(size_text(files[k].size as nat, files[k].is_dir)) <= w.size
            &&& byte_len(dates[k]) <= w.modified
            &&& byte_len(files[k].permissions@) <= w.perms
        }),
{
    let names = files.map_values(|f: FileInfo| f.name@.len());
    let sizes = files.map_values(|f: FileInfo| byte_len(size_text(f.size as nat, f.is_dir)));
    let times = dates.map_values(|d: Seq<char>| byte_len(d));
    let perms = files.map_values(|f: FileInfo| byte_len(f.permissions@));
    lemma_column_width_ge(4, names, k);
    lemma_column_width_ge(4, sizes, k);
    lemma_column_width_ge(8, times, k);
    lemma_column_width_ge(11, perms, k);
}

/// Renders the listing of `files` (in the order given) with their icons and times.
pub fn render_listing(files: &Vec<FileInfo>, icons: &Vec<String>, dates: &Vec<String>) -> (r: Vec<String>)
    requires
        icons@.len() == files@.len(),
        dates@.len() == files@.len(),
    ensures
        string_views(r@) == listing_text(files@, string_views(icons@), string_views(dates@)),
{
    let ghost dv = string_views(dates@);
    let n = files.len();
    let mut wn: usize = 4;
    let mut ws: usize = 4;
    let mut wm: usize = 8;
    let mut wp: usize = 11;
    let mut sizes: Vec<String> = Vec::new();
    let mut i: usize = 0;
    while i < n
        invariant
            n == files@.len(),
            dates@.len() == n,
            dv == string_views(dates@),
            i <= n,
            sizes@.len() == i,
            forall|k: int| 0 <= k < i ==> #[trigger] sizes@[k]@ == size_text(files@[k].size as nat, files@[k].is_dir),
            wn == column_width(4, files@.subrange(0, i as int).map_values(|f: FileInfo| f.name@.len())),
            ws == column_width(4, files@.subrange(0, i as int).map_values(|f: FileInfo| byte_len(size_text(f.size as nat, f.is_dir)))),
            wm == column_width(8, dv.subrange(0, i as int).map_values(|d: Seq<char>| byte_len(d))),
            wp == column_width(11, files@.subrange(0, i as int).map_values(|f: FileInfo| byte_len(f.permissions@))),
        decreases n - i,
    {
        let f = &files[i];
        let s = get_human_readable_size(f.size, f.is_dir);
        let nl = f.name.as_str().unicode_len();
        let sl = s.as_str().len();
        let dl = dates[i].as_str().len();
        let pl = f.permissions.as_str().len();
        if nl > wn {
            wn = nl;
        }
        if sl > ws {
            ws = sl;
        }
        if dl > wm {
            wm = dl;
        }
        if pl > wp {
            wp = pl;
        }
        proof {
            let fs = files@.subrange(0, i + 1);
            assert(fs.drop_last() =~= files@.subrange(0, i as int));
            assert(fs.map_values(|f: FileInfo| f.name@.len()).drop_last() =~= files@.subrange(0, i as int).map_values(|f: FileInfo| f.name@.len()));
            assert(fs.map_values(|f: FileInfo| byte_len(size_text(f.size as nat, f.is_dir))).drop_last() =~= files@.subrange(0, i as int).map_values(|f: FileInfo| byte_len(size_text(f.size as nat, f.is_dir))));
            assert(fs.map_values(|f: FileInfo| byte_len(f.permissions@)).drop_last() =~= files@.subrange(0, i as int).map_values(|f: FileInfo| byte_len(f.permissions@)));
            let ds = dv.subrange(0, i + 1);
            assert(ds.map_values(|d: Seq<char>| byte_len(d)).drop_last() =~= dv.subrange(0, i as int).map_values(|d: Seq<char>| byte_len(d)));
            assert(dv[i as int] == dates@[i as int]@);
        }
        sizes.push(s);
        i = i + 1;
    }
    proof {
        assert(files@.subrange(0, n as int) =~= files@);
        assert(dv.subrange(0, n as int) =~= dv);
    }
    let ghost w = table_widths(files@, dv);
    assert(w.name == wn && w.size == ws && w.modified == wm && w.perms == wp);
    let mut lines: Vec<String> = Vec::new();
    let mut h = String::from_str("  \x1b[90m");
    h.append("  ");
    h.append("  ");
    push_pad_right(&mut h, "Name", wn);
    h.append("  ");
    push_pad_left(&mut h, "Size", ws);
    h.append("  ");
    push_pad_right(&mut h, "Modified", wm);
    h.append("  ");
    push_pad_right(&mut h, "Permissions", wp);
    h.append("\x1b[0m");
    lines.push(h);
    let mut d = String::from_str("  \x1b[90m");
    d.append("  ");
    d.append("  ");
    push_repeat(&mut d, '─', wn);
    d.append("  ");
    push_repeat(&mut d, '─', ws);
    d.append("  ");
    push_repeat(&mut d, '─', wm);
    d.append("  ");
    push_repeat(&mut d, '─', wp);
    d.append("\x1b[0m");
    lines.push(d);
    let mut j: usize = 0;
    while j < n
        invariant
            n == files@.len(),
            icons@.len() == n,
            dates@.len() == n,
            dv == string_views(dates@),
            w == table_widths(files@, dv),
            w.name == wn && w.size == ws && w.modified == wm && w.perms == wp,
            sizes@.len() == n,
            forall|k: int| 0 <= k < n ==> #[trigger] sizes@[k]@ == size_text(files@[k].size as nat, files@[k].is_dir),
            j <= n,
            lines@.len() == j + 2,
            string_views(lines@) == seq![header_text(w), divider_text(w)] + Seq::new(
                j as nat,
                |k: int| row_text(files@[k], icons@[k]@, dv[k], w),
            ),
        decreases n - j,
    {
        let f = &files[j];
        proof {
            let names = files@.map_values(|f: FileInfo| f.name@.len());
            assert(names[j as int] == files@[j as int].name@.len());
            lemma_column_width_ge(4, names, j as int);
        }
        let mut row = String::from_str("  ");
        row.append(icons[j].as_str());
        row.append("  ");
        let colored = get_colored_name(f);
        row.append(colored.as_str());
        let nl = f.name.as_str().unicode_len();
        push_repeat(&mut row, ' ', wn - nl);
        row.append("  \x1b[90m");
        push_pad_left(&mut row, sizes[j].as_str(), ws);
        row.append("\x1b[0m  \x1b[36m");
        push_pad_right(&mut row, dates[j].as_str(), wm);
        row.append("\x1b[0m  \x1b[32m");
        push_pad_right(&mut row, f.permissions.as_str(), wp);
        row.append("\x1b[0m");
        if f.is_symlink {
            row.append(" \x1b[36m-> (symlink)\x1b[0m");
        }
        assert(row@ =~= row_text(files@[j as int], icons@[j as int]@, dv[j as int], w));
        let ghost before = string_views(lines@);
        lines.push(row);
        assert(string_views(lines@) =~= before.push(row_text(files@[j as int], icons@[j as int]@, dv[j as int], w)));
        assert(seq![header_text(w), divider_text(w)] + Seq::new(
                (j + 1) as nat,
                |k: int| row_text(files@[k], icons@[k]@, dv[k], w),
            ) =~= (seq![header_text(w), divider_text(w)] + Seq::new(
                j as nat,
                |k: int| row_text(files@[k], icons@[k]@, dv[k], w),
            )).push(row_text(files@[j as int], icons@[j as int]@, dv[j as int], w)));
        j = j + 1;
    }
    proof {
        assert(header_text(w) == string_views(lines@)[0]);
        assert(string_views(icons@) =~= Seq::new(n as nat, |k: int| icons@[k]@));
        assert(Seq::new(n as nat, |k: int| row_text(files@[k], icons@[k]@, dv[k], w)) =~= Seq::new(
            files@.len(),
            |i: int| row_text(files@[i], string_views(icons@)[i], dv[i], w),
        ));
    }
    lines
}

// ---------------------------------------------------------------------------
// The whole listing
// ---------------------------------------------------------------------------

/// What a listing of `files` is: the files in listing order `p`, each with an icon
/// that `get_icon` may give it and its own modification time as the time column may
/// read it, laid out by `listing_text`.
pub open spec fn is_listing_of(
    lines: Seq<Seq<char>>,
    files: Seq<FileInfo>,
    opts: LsOptions,
    mode: IconMode,
    p: Seq<usize>,
    icons: Seq<Seq<char>>,
    dates: Seq<Seq<char>>,
) -> bool {
    &&& is_listing_order(p, files, opts.sort_by_time, opts.sort_by_size)
    &&& icons.len() == p.len()
    &&& dates.len() == p.len()
    &&& forall|i: int|
        0 <= i < p.len() ==> icon_ok(
            files[p[i] as int].name@,
            files[p[i] as int].is_dir,
            mode,
            #[trigger] icons[i],
        )
    &&& forall|i: int|
        0 <= i < p.len() ==> time_text_ok(
            #[trigger] dates[i],
            files[p[i] as int].modified_secs as int,
            files[p[i] as int].modified_nanos as int,
        )
    &&& lines == listing_text(permute(files, p), icons, dates)
}

/// Whether `lines` is a listing of `files` for some listing order, icons and times.
pub open spec fn is_some_listing_of(lines: Seq<Seq<char>>, files: Seq<FileInfo>, opts: LsOptions, mode: IconMode) -> bool {
    exists|p: Seq<usize>, icons: Seq<Seq<char>>, dates: Seq<Seq<char>>|
        #[trigger] is_listing_of(lines, files, opts, mode, p, icons, dates)
}

/// The lines `ls` prints for `files` with options `opts`. `None` when a modification
/// time cannot be represented in local time, which cannot happen when every time is in
/// range.
pub fn listing_lines(files: &Vec<FileInfo>, opts: &LsOptions, mode: IconMode) -> (r: Option<Vec<String>>)
    ensures
        r matches Some(lines) ==> is_some_listing_of(string_views(lines@), files@, *opts, mode),
        (forall|k: int|
            0 <= k < files@.len() ==> time_in_range(
                #[trigger] files@[k].modified_secs as int,
                files@[k].modified_nanos as int,
            )) ==> r is Some,
{
    let p = listing_order(files, opts.sort_by_time, opts.sort_by_size);
    proof {
        lemma_order_in_range(p@, files@, opts.sort_by_time, opts.sort_by_size);
    }
    let sorted = apply_order(files, &p);
    let mut icons: Vec<String> = Vec::new();
    let mut dates: Vec<String> = Vec::new();
    let mut i: usize = 0;
    while i < sorted.len()
        invariant
            sorted@ == permute(files@, p@),
            p@.len() == files@.len(),
            forall|k: int| 0 <= k < p@.len() ==> #[trigger] p@[k] < files@.len(),
            i <= sorted@.len(),
            icons@.len() == i,
            dates@.len() == i,
            forall|k: int|
                0 <= k < i ==> icon_ok(
                    files@[p@[k] as int].name@,
                    files@[p@[k] as int].is_dir,
                    mode,
                    #[trigger] icons@[k]@,
                ),
            forall|k: int|
                0 <= k < i ==> time_text_ok(
                    #[trigger] dates@[k]@,
                    files@[p@[k] as int].modified_secs as int,
                    files@[p@[k] as int].modified_nanos as int,
                ),
            (forall|k: int|
                0 <= k < files@.len() ==> time_in_range(
                    #[trigger] files@[k].modified_secs as int,
                    files@[k].modified_nanos as int,
                )) ==> (forall|k: int|
                0 <= k < sorted@.len() ==> time_in_range(
                    #[trigger] sorted@[k].modified_secs as int,
                    sorted@[k].modified_nanos as int,
                )),
        decreases sorted@.len() - i,
    {
        let f = &sorted[i];
        assert(*f == files@[p@[i as int] as int]);
        icons.push(get_icon(f.name.as_str(), f.is_dir, mode));
        match get_modified_time_string(f) {
            Some(t) => dates.push(t),
            None => return None,
        }
        i = i + 1;
    }
    let lines = render_listing(&sorted, &icons, &dates);
    proof {
        let iv = string_views(icons@);
        let dv = string_views(dates@);
        assert forall|k: int| 0 <= k < p@.len() implies icon_ok(
            files@[p@[k] as int].name@,
            files@[p@[k] as int].is_dir,
            mode,
            #[trigger] iv[k],
        ) by {
            assert(iv[k] == icons@[k]@);
        }
        assert forall|k: int| 0 <= k < p@.len() implies time_text_ok(
            #[trigger] dv[k],
            files@[p@[k] as int].modified_secs as int,
            files@[p@[k] as int].modified_nanos as int,
        ) by {
            assert(dv[k] == dates@[k]@);
        }
        assert(is_listing_of(string_views(lines@), files@, *opts, mode, p@, iv, dv));
        assert(is_some_listing_of(string_views(lines@), files@, *opts, mode));
    }
    Some(lines)
}

} // verus!

verus! {

/// The option letters `ls` documents: `-a`, `-l`, `-t`, `-s` and `-S`.
pub open spec fn is_documented_option(c: char) -> bool {
    c == 'a' || c == 'l' || c == 't' || c == 's' || c == 'S'
}

proof fn lemma_documented_flags(st: LsScan, cs: Seq<char>)
    requires
        st.bad is None,
        forall|i: int| 0 <= i < cs.len() ==> is_documented_option(#[trigger] cs[i]),
    ensures
        ls_flags(st, cs).bad is None,
        ls_flags(st, cs).targets == st.targets,
        ls_flags(st, cs).show_all == (st.show_all || cs.contains('a')),
        ls_flags(st, cs).long_format == (st.long_format || cs.contains('l')),
        ls_flags(st, cs).sort_by_time == (st.sort_by_time || cs.contains('t')),
        ls_flags(st, cs).sort_by_size == (st.sort_by_size || cs.contains('s') || cs.contains('S')),
    decreases cs.len(),
{
    if cs.len() > 0 {
        let init = cs.drop_last();
        assert forall|i: int| 0 <= i < init.len() implies is_documented_option(#[trigger] init[i]) by {
            assert(init[i] == cs[i]);
        }
        lemma_documented_flags(st, init);
        let x = cs.last();
        assert(is_documented_option(cs[cs.len() - 1]));
        assert forall|c: char| #[trigger] cs.contains(c) == (init.contains(c) || x == c) by {
            if cs.contains(c) {
                let i = choose|i: int| 0 <= i < cs.len() && cs[i] == c;
                if i < cs.len() - 1 {
                    assert(init[i] == c);
                }
            }
            if init.contains(c) {
                let i = choose|i: int| 0 <= i < init.len() && init[i] == c;
                assert(cs[i] == c);
            }
            if x == c {
                assert(cs[cs.len() - 1] == c);
            }
        }
    }
}

/// Every option letter `ls` documents is accepted, alone or grouped, after any earlier
/// arguments: a group `-` + `cs` of them raises no error (an earlier error stays the
/// error), keeps the targets, and turns on hidden files for `a`, the long form for `l`,
/// newest first for `t` and largest first for `s` or `S`, keeping what was on before.
pub proof fn lemma_documented_options_accepted(args: Seq<Seq<char>>, cs: Seq<char>)
    requires
        cs.len() >= 1,
        forall|i: int|
            0 <= i < cs.len() ==> #[trigger] cs[i] == 'a' || cs[i] == 'l' || cs[i] == 't' || cs[i] == 's'
                || cs[i] == 'S',
    ensures
        ({
            let before = ls_scan(args);
            let after = ls_scan(args.push(seq!['-'] + cs));
            &&& after.bad == before.bad
            &&& before.bad is None ==> {
                &&& after.targets == before.targets
                &&& after.show_all == (before.show_all || cs.contains('a'))
                &&& after.long_format == (before.long_format || cs.contains('l'))
                &&& after.sort_by_time == (before.sort_by_time || cs.contains('t'))
                &&& after.sort_by_size == (before.sort_by_size || cs.contains('s') || cs.contains('S'))
            }
        }),
{
    let a = seq!['-'] + cs;
    assert(args.push(a).drop_last() =~= args);
    assert(a.drop_first() =~= cs);
    assert(a[0] == '-');
    assert forall|i: int| 0 <= i < cs.len() implies is_documented_option(#[trigger] cs[i]) by {}
    if ls_scan(args).bad is None {
        lemma_documented_flags(ls_scan(args), cs);
    }
}

/// An option letter that `ls` does not document is refused with that letter, unless an
/// earlier argument was refused already.
pub proof fn lemma_unknown_option_refused(args: Seq<Seq<char>>, c: char)
    requires
        c != 'a' && c != 'l' && c != 't' && c != 's' && c != 'S',
        ls_scan(args).bad is None,
    ensures
        ls_scan(args.push(seq!['-', c])).bad == Some(c),
{
    let a = seq!['-', c];
    assert(args.push(a).drop_last() =~= args);
    assert(a.drop_first() =~= seq![c]);
    assert(seq![c].drop_last() =~= Seq::<char>::empty());
    assert(a.len() > 1 && a[0] == '-');
    let st = ls_scan(args);
    assert(ls_flags(st, Seq::<char>::empty()) == st);
    assert(ls_flags(st, seq![c]) == ls_flag(st, c));
}

} // verus!
