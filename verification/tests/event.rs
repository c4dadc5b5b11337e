use hold_guard::event::{build_event, Severity};

/// Nine tenths of the cap, as the command line computes it.
fn warn_floor(cap: u64) -> u64 {
    (cap as f64 * 0.9) as u64
}

#[test]
fn event_fields_present() {
    let ev = build_event(100, 200, 50, true, "2026-01-01T00:00:00Z", warn_floor(200));
    assert_eq!(ev.kind, "hold_guard.enforcement");
    assert_eq!(ev.hold_bytes, 100);
    assert_eq!(ev.cap_bytes, 200);
    assert_eq!(ev.reclaimed_bytes, 50);
    assert_eq!(ev.ts, "2026-01-01T00:00:00Z");
    assert!(ev.applied);
}

#[test]
fn event_severity_critical_when_over_cap() {
    let ev = build_event(300, 200, 0, false, "2026-01-01T00:00:00Z", warn_floor(200));
    assert_eq!(ev.severity.label(), "critical");
}

#[test]
fn event_severity_ok_when_under_cap() {
    let ev = build_event(100, 200, 0, false, "2026-01-01T00:00:00Z", warn_floor(200));
    assert_eq!(ev.severity.label(), "ok");
}

#[test]
fn event_severity_warn_between_ninety_percent_and_cap() {
    let ev = build_event(190, 200, 0, false, "2026-01-01T00:00:00Z", warn_floor(200));
    assert_eq!(ev.severity, Severity::Warn);
    assert_eq!(ev.severity.label(), "warn");
    // exactly at the warning mark is still ok, exactly at the cap is a warning
    let at_mark = build_event(180, 200, 0, false, "x", warn_floor(200));
    assert_eq!(at_mark.severity, Severity::Normal);
    let at_cap = build_event(200, 200, 0, false, "x", warn_floor(200));
    assert_eq!(at_cap.severity, Severity::Warn);
}

#[test]
fn event_without_ts_takes_the_clock() {
    let ev = build_event(1, 2, 0, false, "", warn_floor(2));
    assert!(!ev.ts.is_empty());
    assert!(ev.ts.starts_with("20"));
    assert!(ev.ts.chars().count() >= 25);
    assert!(ev.ts.contains('T'));
    assert!(ev.ts.ends_with("+00:00"));
}

#[test]
fn event_dry_run_reports_nothing_reclaimed() {
    let ev = build_event(100, 200, 50, false, "2026-01-01T00:00:00Z", warn_floor(200));
    assert!(!ev.applied);
    assert_eq!(ev.reclaimed_bytes, 0);
}
