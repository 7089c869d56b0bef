use ktop::procs::SortBy;
use ktop::text::{clip, clip_path, clock, clock_since_epoch, sort_col_label, sort_label, wall_time};
use std::time::{Duration, SystemTime, UNIX_EPOCH};

#[test]
fn clip_keeps_short_text() {
    assert_eq!(clip("hello", 10), "hello");
    assert_eq!(clip("hello", 5), "hello");
    assert_eq!(clip("", 0), "");
}

#[test]
fn clip_cuts_long_text() {
    assert_eq!(clip("abcdefghij", 5), "abcd…");
    assert_eq!(clip("abcdef", 1), "…");
    assert_eq!(clip("abcdef", 0), "…");
}

#[test]
fn clip_counts_bytes() {
    // "é" is two bytes: "aé" is three bytes long
    assert_eq!(clip("aé", 3), "aé");
    assert_eq!(clip("aébc", 4), "aé…");
}

#[test]
fn clip_path_shows_last_component() {
    assert_eq!(clip_path("/home", 6), "/home");
    assert_eq!(clip_path("/home/user/", 6), "/user");
    assert_eq!(clip_path("/var/lib/longdirectory", 6), "/longd…");
    assert_eq!(clip_path("plain", 10), "/plain");
    assert_eq!(clip_path("///", 6), "/");
    assert_eq!(clip_path("", 6), "/");
    assert_eq!(clip_path("/snap", 4), "/snap");
    assert_eq!(clip_path("/snap", 3), "/sn…");
}

#[test]
fn sort_labels() {
    assert_eq!(sort_label(SortBy::CpuDesc), "cpu ▼");
    assert_eq!(sort_label(SortBy::CpuAsc), "cpu ▲");
    assert_eq!(sort_label(SortBy::MemDesc), "mem ▼");
    assert_eq!(sort_label(SortBy::MemAsc), "mem ▲");
    assert_eq!(sort_label(SortBy::Pid), "pid");
    assert_eq!(sort_label(SortBy::Name), "name");
}

#[test]
fn sort_col_labels() {
    assert_eq!(sort_col_label("CPU%", SortBy::CpuDesc, SortBy::CpuDesc, SortBy::CpuAsc), "CPU% ▼");
    assert_eq!(sort_col_label("CPU%", SortBy::CpuAsc, SortBy::CpuDesc, SortBy::CpuAsc), "CPU% ▲");
    assert_eq!(sort_col_label("MEM", SortBy::Pid, SortBy::MemDesc, SortBy::MemAsc), "MEM");
}

#[test]
fn clock_formats_time_of_day() {
    assert_eq!(clock(0), "00:00:00");
    assert_eq!(clock(3661), "01:01:01");
    assert_eq!(clock(86399), "23:59:59");
    assert_eq!(clock(86400 + 3661), "01:01:01");
    assert_eq!(clock(1_700_000_000), "22:13:20");
}

#[test]
fn wall_time_is_a_clock_reading() {
    let t = wall_time();
    let b = t.as_bytes();
    assert_eq!(b.len(), 8);
    assert_eq!(b[2], b':');
    assert_eq!(b[5], b':');
    assert!(t[0..2].parse::<u32>().unwrap() < 24);
    assert!(t[3..5].parse::<u32>().unwrap() < 60);
}

#[test]
fn clock_since_epoch_reads_whole_seconds() {
    assert_eq!(clock_since_epoch(Ok(Duration::from_secs(3661))), "01:01:01");
    assert_eq!(clock_since_epoch(Ok(Duration::from_secs(86399))), "23:59:59");
    assert_eq!(clock_since_epoch(Ok(Duration::from_secs(90061))), "01:01:01");
    assert_eq!(clock_since_epoch(Ok(Duration::from_millis(3_661_999))), "01:01:01");
}

#[test]
fn clock_before_epoch_shows_midnight() {
    let before = UNIX_EPOCH.duration_since(SystemTime::now());
    assert!(before.is_err());
    assert_eq!(clock_since_epoch(before), "00:00:00");
}

#[test]
fn clipping_twice_is_clipping_once() {
    for (s, max) in [("hello", 10), ("abcdefghij", 5), ("abcdef", 0), ("abcdef", 1), ("aébc", 4), ("", 0), ("…xyz", 4)] {
        let once = clip(s, max);
        assert_eq!(clip(&once, max), once);
    }
}
