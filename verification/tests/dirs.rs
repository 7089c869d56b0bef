use ktop::dirs::{du_size, is_whitespace, rank_dirs, scan_targets};

#[test]
fn scan_targets_are_the_top_level_dirs() {
    assert_eq!(scan_targets(), vec!["/home", "/usr", "/var", "/opt", "/tmp", "/boot", "/srv", "/root", "/snap"]);
}

#[test]
fn du_size_reads_first_field() {
    assert_eq!(du_size("123\t/home\n"), Some(123));
    assert_eq!(du_size("7\t/tmp"), Some(7));
    assert_eq!(du_size("5\t/a\n6\t/b\n"), Some(5));
}

#[test]
fn du_size_trims_white_space() {
    assert_eq!(du_size("  42 \t/x\n"), Some(42));
    assert_eq!(du_size("\u{a0}9\u{3000}\t/x"), Some(9));
}

#[test]
fn du_size_accepts_plus_sign() {
    assert_eq!(du_size("+7\t/x"), Some(7));
    assert_eq!(du_size("+\t/x"), None);
}

#[test]
fn du_size_rejects_zero_and_garbage() {
    assert_eq!(du_size("0\t/x"), None);
    assert_eq!(du_size("abc\t/x"), None);
    assert_eq!(du_size("12a\t/x"), None);
    assert_eq!(du_size("-3\t/x"), None);
    assert_eq!(du_size("\t/x"), None);
    assert_eq!(du_size("1 2\t/x"), None);
}

#[test]
fn du_size_needs_a_tab_on_the_first_line() {
    assert_eq!(du_size(""), None);
    assert_eq!(du_size("123 /home"), None);
    assert_eq!(du_size("123\n\t/home"), None);
    assert_eq!(du_size("\n5\t/x"), None);
}

#[test]
fn du_size_line_endings() {
    assert_eq!(du_size("8\t/x\r\n"), Some(8));
    assert_eq!(du_size("8\r\n\t/x"), None);
    // without a final newline a carriage return stays in the line, after the tab
    assert_eq!(du_size("8\t/x\r"), Some(8));
    assert_eq!(du_size("8\r\t/x"), Some(8));
}

#[test]
fn du_size_overflow() {
    assert_eq!(du_size("18446744073709551615\t/"), Some(u64::MAX));
    assert_eq!(du_size("18446744073709551616\t/"), None);
    assert_eq!(du_size("99999999999999999999999\t/"), None);
}

#[test]
fn whitespace_matches_std() {
    for c in ['\t', '\n', '\u{b}', '\u{c}', '\r', ' ', '\u{85}', '\u{a0}', '\u{1680}', '\u{2000}', '\u{200a}', '\u{2028}', '\u{2029}', '\u{202f}', '\u{205f}', '\u{3000}', 'a', '0', '\u{200b}', '\u{feff}', '\u{1f}'] {
        assert_eq!(is_whitespace(c), c.is_whitespace(), "{:?}", c);
    }
}

#[test]
fn rank_dirs_sorts_largest_first_and_keeps_eight() {
    let measured: Vec<(u64, String)> = vec![
        (10, "/home".to_string()),
        (300, "/usr".to_string()),
        (10, "/var".to_string()),
        (5, "/opt".to_string()),
        (7, "/tmp".to_string()),
        (300, "/boot".to_string()),
        (1, "/srv".to_string()),
        (2, "/root".to_string()),
        (3, "/snap".to_string()),
    ];
    let top = rank_dirs(measured);
    let paths: Vec<&str> = top.iter().map(|d| d.path.as_str()).collect();
    assert_eq!(paths, vec!["/usr", "/boot", "/home", "/var", "/tmp", "/opt", "/snap", "/root"]);
    assert_eq!(top[0].size_mb, 300);
    assert!(top.iter().all(|d| d.percent == 0));
}

#[test]
fn rank_dirs_of_nothing_is_empty() {
    assert!(rank_dirs(vec![]).is_empty());
}
