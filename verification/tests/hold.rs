use hold_guard::evict::reclaimed_total;
use hold_guard::ledger::{ledger_line, tail};
use hold_guard::measure::{evictable_subdirs, size_and_mtime, sort_oldest_first};
use hold_guard::report::{check_report, enforce_report, status_report, ReportError};
use hold_guard::unit::Unit;

const MB: u64 = 1024 * 1024;

fn unit(path: &str, bytes: u64, t: i128, locked: bool) -> Unit {
    Unit { path: path.to_string(), bytes, last_used: t, is_locked: locked }
}

fn warn_floor(cap: u64) -> u64 {
    (cap as f64 * 0.9) as u64
}

#[test]
fn sorts_units_oldest_first_stably() {
    let units = vec![unit("c", 1, 30, false), unit("a", 1, -5, false), unit("b", 1, 30, true)];
    let sorted = sort_oldest_first(&units);
    let order: Vec<&str> = sorted.iter().map(|u| u.path.as_str()).collect();
    assert_eq!(order, vec!["a", "c", "b"]);
}

#[test]
fn sums_sizes_and_takes_newest_mtime() {
    assert_eq!(size_and_mtime(&[]), Some((0, 0)));
    assert_eq!(size_and_mtime(&[(10, 5), (20, 50), (30, 7)]), Some((60, 50)));
    // times before the epoch never beat the epoch start value
    assert_eq!(size_and_mtime(&[(1, -100)]), Some((1, 0)));
    assert_eq!(size_and_mtime(&[(u64::MAX, 1), (1, 2)]), None);
}

#[test]
fn lists_the_evictable_subdirectories() {
    let dirs = evictable_subdirs();
    let pairs: Vec<(&str, &str)> = dirs.iter().map(|(p, s)| (p.as_str(), s.as_str())).collect();
    assert_eq!(
        pairs,
        vec![
            ("debug", "deps"),
            ("debug", ".fingerprint"),
            ("debug", "incremental"),
            ("release", "deps"),
            ("release", ".fingerprint"),
            ("release", "incremental"),
        ]
    );
}

#[test]
fn reclaims_only_units_still_present() {
    let units = vec![unit("a", 100, 1, false), unit("b", 20, 2, false), unit("c", 3, 3, false)];
    assert_eq!(reclaimed_total(&units, &[true, false, true]), Some(103));
    assert_eq!(reclaimed_total(&units, &[false, false, false]), Some(0));
    let big = vec![unit("a", u64::MAX, 1, false), unit("b", 1, 2, false)];
    assert_eq!(reclaimed_total(&big, &[true, true]), None);
    assert_eq!(reclaimed_total(&big, &[true, false]), Some(u64::MAX));
}

#[test]
fn ledger_line_ends_the_record() {
    assert_eq!(ledger_line("{\"ts\":\"x\"}").unwrap(), "{\"ts\":\"x\"}\n");
    assert_eq!(ledger_line("").unwrap(), "\n");
    assert_eq!(ledger_line("two\nlines"), None);
    assert_eq!(ledger_line("\n"), None);
}

#[test]
fn ledger_appends_grow_the_line_count() {
    let mut content = String::new();
    for i in 0..3 {
        let before = content.lines().count();
        content.push_str(&ledger_line(&format!("{{\"run\":{i}}}")).unwrap());
        assert_eq!(content.lines().count(), before + 1);
    }
}

#[test]
fn tail_keeps_the_last_lines() {
    let lines: Vec<String> = (1..=7).map(|i| format!("l{i}")).collect();
    assert_eq!(tail(&lines, 5), vec!["l3", "l4", "l5", "l6", "l7"]);
    assert_eq!(tail(&lines, 0), Vec::<String>::new());
    assert_eq!(tail(&lines[..2], 5), vec!["l1", "l2"]);
}

#[test]
fn check_under_cap_reports_false_and_selects_nothing() {
    let units = vec![unit("unit_a", 512 * 1024, 1, false), unit("unit_b", 512 * 1024, 2, false)];
    let cap = 100 * MB;
    let rep = check_report(&units, cap, cap / 4 * 3, "2026-01-01T00:00:00Z", warn_floor(cap)).unwrap();
    assert!(!rep.over_cap);
    assert!(rep.selected.is_empty());
    assert_eq!(rep.event.reclaimed_bytes, 0);
    assert!(!rep.event.applied);
    assert_eq!(rep.event.hold_bytes, MB);
    assert_eq!(rep.projected_bytes, MB);
    assert_eq!(rep.event.severity.label(), "ok");
    assert_eq!(rep.event.ts, "2026-01-01T00:00:00Z");
}

#[test]
fn check_over_cap_lists_lru_units() {
    let units = vec![
        unit("unit_old", 2 * MB, 100, false),
        unit("unit_newer", 2 * MB, 3540, false),
        unit("unit_newest", 2 * MB, 3590, false),
    ];
    let rep = check_report(&units, 4 * MB, 3 * MB, "", warn_floor(4 * MB)).unwrap();
    assert!(rep.over_cap);
    assert_eq!(rep.selected[0].path, "unit_old");
    assert_eq!(rep.selected.len(), 2);
    assert_eq!(rep.projected_bytes, 2 * MB);
    assert!(rep.projected_bytes <= 3 * MB);
    assert_eq!(rep.low_water_bytes, 3 * MB);
    assert_eq!(rep.event.severity.label(), "critical");
    assert_eq!(rep.event.reclaimed_bytes, 0);
}

#[test]
fn check_skips_locked_units() {
    let units = vec![
        unit("crate_locked-aaa", 1000, 1, true),
        unit("crate_free1-bbb", 1000, 2, false),
        unit("crate_free2-ccc", 1000, 3, false),
    ];
    let rep = check_report(&units, 1000, 500, "t", warn_floor(1000)).unwrap();
    assert!(rep.over_cap);
    assert!(rep.selected.iter().all(|u| !u.path.contains("crate_locked")));
    assert_eq!(rep.selected.len(), 2);
    assert_eq!(rep.projected_bytes, 1000);
}

#[test]
fn enforce_apply_reclaims_selected_bytes() {
    let units = vec![unit("unit_old", 2 * MB, 10, false), unit("unit_new", 2 * MB, 3590, false)];
    let rep = enforce_report(&units, 3 * MB, 2 * MB, true, "2026-01-01T00:00:00Z", warn_floor(3 * MB)).unwrap();
    assert_eq!(rep.event.reclaimed_bytes, 2 * MB);
    assert!(rep.event.applied);
    assert_eq!(rep.selected.len(), 1);
    assert_eq!(rep.selected[0].path, "unit_old");
    assert_eq!(rep.event.kind, "hold_guard.enforcement");
    assert_eq!(rep.event.ts, "2026-01-01T00:00:00Z");
}

#[test]
fn enforce_without_apply_is_a_dry_run() {
    let units = vec![unit("crate_a-aaa", 2000, 1, false), unit("crate_b-bbb", 2000, 2, false)];
    let rep = enforce_report(&units, 1000, 500, false, "2026-01-01T00:00:00Z", warn_floor(1000)).unwrap();
    assert_eq!(rep.event.reclaimed_bytes, 0);
    assert!(!rep.event.applied);
    assert_eq!(rep.selected.len(), 2);
}

#[test]
fn enforce_under_cap_evicts_nothing() {
    let units = vec![unit("a", 900, 1, false), unit("b", 50, 2, false)];
    let rep = enforce_report(&units, 1000, 500, true, "t", warn_floor(1000)).unwrap();
    assert!(rep.selected.is_empty());
    assert_eq!(rep.event.reclaimed_bytes, 0);
    assert_eq!(rep.event.severity.label(), "warn");
    let single = vec![unit("only", 900, 1, false)];
    let rep = enforce_report(&single, 1000, 500, true, "t", warn_floor(1000)).unwrap();
    assert!(rep.selected.is_empty());
}

#[test]
fn reports_take_the_clock_without_ts() {
    let units = vec![unit("a", 10, 1, false)];
    let rep = enforce_report(&units, 100, 50, false, "", warn_floor(100)).unwrap();
    assert!(!rep.event.ts.is_empty());
    let rep = check_report(&units, 100, 50, "", warn_floor(100)).unwrap();
    assert!(!rep.event.ts.is_empty());
}

#[test]
fn reports_refuse_an_overflowing_hold() {
    let units = vec![unit("a", u64::MAX, 1, false), unit("b", 1, 2, false)];
    assert_eq!(check_report(&units, 1, 1, "t", 0).unwrap_err(), ReportError::SizeOverflow);
    assert_eq!(enforce_report(&units, 1, 1, true, "t", 0).unwrap_err(), ReportError::SizeOverflow);
    assert_eq!(status_report(&units, None, &[]).unwrap_err(), ReportError::SizeOverflow);
}

#[test]
fn status_reports_size_units_and_ledger_tail() {
    let units = vec![unit("a", 1000, 1, false), unit("b", 24, 2, true)];
    let lines: Vec<String> = (1..=6).map(|i| format!("line{i}")).collect();
    let rep = status_report(&units, Some(60), &lines).unwrap();
    assert_eq!(rep.hold_bytes, 1024);
    assert_eq!(rep.hold_human, "1 KiB");
    assert_eq!(rep.cap_bytes, Some(60));
    assert_eq!(rep.unit_count, 2);
    assert_eq!(rep.ledger_tail, vec!["line2", "line3", "line4", "line5", "line6"]);
    let empty = status_report(&[], None, &[]).unwrap();
    assert_eq!(empty.hold_human, "0 B");
    assert!(empty.ledger_tail.is_empty());
}
