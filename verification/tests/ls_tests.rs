use neoterminal::icons::IconMode;
use neoterminal::ls::{
    get_colored_name, get_human_readable_size, get_permissions_string, is_executable, keep_entry,
    listing_lines, parse_ls_args, render_listing, sort_files, target_dir, FileInfo,
};

fn float_size(size: u64, is_dir: bool) -> String {
    if is_dir {
        return "-".to_string();
    }
    const KB: u64 = 1024;
    const MB: u64 = KB * 1024;
    const GB: u64 = MB * 1024;
    if size >= GB {
        format!("{:.1} GB", size as f64 / GB as f64)
    } else if size >= MB {
        format!("{:.1} MB", size as f64 / MB as f64)
    } else if size >= KB {
        format!("{:.1} KB", size as f64 / KB as f64)
    } else {
        format!("{} B", size)
    }
}

#[test]
fn human_size_examples() {
    assert_eq!(get_human_readable_size(0, false), "0 B");
    assert_eq!(get_human_readable_size(1023, false), "1023 B");
    assert_eq!(get_human_readable_size(1024, false), "1.0 KB");
    assert_eq!(get_human_readable_size(1536, false), "1.5 KB");
    assert_eq!(get_human_readable_size(1048576, false), "1.0 MB");
    assert_eq!(get_human_readable_size(1073741824, false), "1.0 GB");
    assert_eq!(get_human_readable_size(5000, true), "-");
}

#[test]
fn human_size_matches_float_formatting() {
    let mut values: Vec<u64> = vec![
        1280, 1331, 1126, 2560, 3328, 1048575, 1047552, 1048064, 1073741823,
        (1u64 << 53) - 1, 1u64 << 53, (1u64 << 53) + 1, (1u64 << 53) + 3, u64::MAX, u64::MAX - 1,
        (1u64 << 60) + 12345, 1099511627776, 1610612736, 1181116006,
    ];
    let mut x: u64 = 0x9e37_79b9_7f4a_7c15;
    for _ in 0..20000 {
        x ^= x << 13;
        x ^= x >> 7;
        x ^= x << 17;
        let shift = (x % 64) as u32;
        values.push(x >> shift);
    }
    for k in 0..4000u64 {
        values.push(1024 + k * 51);
        values.push(1024 * 1024 + k * 52429);
    }
    for v in values {
        assert_eq!(get_human_readable_size(v, false), float_size(v, false), "size {}", v);
    }
}

#[test]
fn permissions_strings() {
    assert_eq!(get_permissions_string(0o755, true, false), "drwxr-xr-x");
    assert_eq!(get_permissions_string(0o644, false, false), "-rw-r--r--");
    assert_eq!(get_permissions_string(0o777, false, true), "lrwxrwxrwx");
    assert_eq!(get_permissions_string(0, false, false), "----------");
    assert_eq!(get_permissions_string(0o4751, false, false), "-rwxr-x--x");
}

#[test]
fn executable_bits() {
    assert!(is_executable(true, 0o100));
    assert!(is_executable(true, 0o001));
    assert!(!is_executable(true, 0o644));
    assert!(!is_executable(false, 0o755));
}

fn file(name: &str, is_dir: bool, size: u64, secs: i64) -> FileInfo {
    FileInfo {
        name: name.to_string(),
        is_dir,
        is_symlink: false,
        is_exec: false,
        size,
        modified_secs: secs,
        modified_nanos: 0,
        permissions: get_permissions_string(0o644, is_dir, false),
    }
}

#[test]
fn colored_names() {
    let mut f = file("src", true, 0, 0);
    assert_eq!(get_colored_name(&f), "\x1b[1;34msrc\x1b[0m");
    f.is_dir = false;
    f.is_symlink = true;
    assert_eq!(get_colored_name(&f), "\x1b[1;36msrc\x1b[0m");
    f.is_symlink = false;
    f.is_exec = true;
    assert_eq!(get_colored_name(&f), "\x1b[1;32msrc\x1b[0m");
    f.is_exec = false;
    assert_eq!(get_colored_name(&f), "src");
}

#[test]
fn ls_option_parsing() {
    let args: Vec<String> = vec!["-at".to_string(), "dir".to_string(), "-".to_string()];
    let o = parse_ls_args(&args).ok().unwrap();
    assert!(o.show_all && o.sort_by_time && !o.sort_by_size && !o.long_format);
    assert_eq!(o.targets, vec!["dir".to_string(), "-".to_string()]);
    assert_eq!(target_dir(&o), "dir");
    let args: Vec<String> = vec!["-lS".to_string()];
    let o = parse_ls_args(&args).ok().unwrap();
    assert!(o.long_format && o.sort_by_size);
    assert_eq!(target_dir(&o), ".");
    let args: Vec<String> = vec!["-a".to_string(), "-xz".to_string(), "-q".to_string()];
    match parse_ls_args(&args) {
        Err(m) => assert_eq!(m, "ls: invalid option -- 'x'"),
        Ok(_) => panic!("expected an error"),
    }
}

#[test]
fn hidden_entries() {
    assert!(!keep_entry(".git", false));
    assert!(keep_entry(".git", true));
    assert!(keep_entry("src", false));
}

#[test]
fn sorting_orders() {
    let files = vec![
        file("beta", false, 10, 5),
        file("Alpha", false, 30, 1),
        file("gamma", false, 20, 9),
        file("alpha", false, 20, 9),
    ];
    let by_name: Vec<String> = sort_files(&files, false, false).into_iter().map(|f| f.name).collect();
    assert_eq!(by_name, vec!["Alpha", "alpha", "beta", "gamma"]);
    let by_size: Vec<String> = sort_files(&files, false, true).into_iter().map(|f| f.name).collect();
    assert_eq!(by_size, vec!["Alpha", "gamma", "alpha", "beta"]);
    let by_time: Vec<String> = sort_files(&files, true, false).into_iter().map(|f| f.name).collect();
    assert_eq!(by_time, vec!["gamma", "alpha", "beta", "Alpha"]);
    // Time sorting takes priority over size sorting.
    let both: Vec<String> = sort_files(&files, true, true).into_iter().map(|f| f.name).collect();
    assert_eq!(both, by_time);
}

#[test]
fn render_table_layout() {
    let files = vec![file("a.txt", false, 2048, 0), file("docs", true, 0, 0)];
    let icons = vec!["X ".to_string(), "D ".to_string()];
    let dates = vec!["Jan 02 15:04".to_string(), "Feb 10 09:30".to_string()];
    let lines = render_listing(&files, &icons, &dates);
    assert_eq!(lines.len(), 4);
    let header = format!(
        "  \x1b[90m{:2}  {:<name_w$}  {:>size_w$}  {:<mod_w$}  {:<perm_w$}\x1b[0m",
        "", "Name", "Size", "Modified", "Permissions",
        name_w = 5, size_w = 6, mod_w = 12, perm_w = 11
    );
    assert_eq!(lines[0], header);
    let divider = format!(
        "  \x1b[90m{:2}  {:─<name_w$}  {:─>size_w$}  {:─<mod_w$}  {:─<perm_w$}\x1b[0m",
        "", "", "", "", "",
        name_w = 5, size_w = 6, mod_w = 12, perm_w = 11
    );
    assert_eq!(lines[1], divider);
    let row = format!(
        "  {}  {}  \x1b[90m{:>size_w$}\x1b[0m  \x1b[36m{:<mod_w$}\x1b[0m  \x1b[32m{:<perm_w$}\x1b[0m{}",
        "X ", "a.txt", "2.0 KB", "Jan 02 15:04", "-rw-r--r--", "",
        size_w = 6, mod_w = 12, perm_w = 11
    );
    assert_eq!(lines[2], row);
    let row2 = format!(
        "  {}  {}  \x1b[90m{:>size_w$}\x1b[0m  \x1b[36m{:<mod_w$}\x1b[0m  \x1b[32m{:<perm_w$}\x1b[0m{}",
        "D ", "\x1b[1;34mdocs\x1b[0m ", "-", "Feb 10 09:30", "drw-r--r--", "",
        size_w = 6, mod_w = 12, perm_w = 11
    );
    assert_eq!(lines[3], row2);
}

#[test]
fn symlink_row_mark() {
    let mut f = file("ln", false, 1, 0);
    f.is_symlink = true;
    let lines = render_listing(&vec![f], &vec!["L ".to_string()], &vec!["Mar 03 03:03".to_string()]);
    assert!(lines[2].ends_with(" \x1b[36m-> (symlink)\x1b[0m"));
}

#[test]
fn listing_has_dates_of_fixed_shape() {
    let files = vec![file("b", false, 1, 1_700_000_000), file("a", false, 1, 0)];
    let opts = parse_ls_args(&vec![]).ok().unwrap();
    let lines = listing_lines(&files, &opts, IconMode::Emoji).unwrap();
    assert_eq!(lines.len(), 4);
    // Rows follow name order; the emoji icon of a plain file comes first.
    assert!(lines[2].starts_with("  📄   a  "));
    assert!(lines[3].starts_with("  📄   b  "));
    // The modified column holds a 12-character local time, never the raw seconds.
    assert!(!lines[3].contains("1700000000"));
    let cell = lines[3].split("\x1b[36m").nth(1).unwrap();
    let date = &cell[..12];
    assert_eq!(&date[3..4], " ");
    assert_eq!(&date[9..10], ":");
}
