use hold_guard::policy::select_evict_units;
use hold_guard::unit::{sum_bytes, Unit};

const MB: u64 = 1024 * 1024;
const NS: i128 = 1_000_000_000;

fn unit(path: &str, bytes: u64, secs: i128, locked: bool) -> Unit {
    Unit { path: path.to_string(), bytes, last_used: secs * NS, is_locked: locked }
}

fn paths(units: &[Unit]) -> Vec<&str> {
    units.iter().map(|u| u.path.as_str()).collect()
}

#[test]
fn selects_oldest_first_until_low_water() {
    // 3 units of 2M, cap 4M, low water 3M: the two oldest go
    let units = vec![
        unit("unit_newest", 2 * MB, 990, false),
        unit("unit_old", 2 * MB, 100, false),
        unit("unit_newer", 2 * MB, 940, false),
    ];
    let total = sum_bytes(&units).unwrap();
    let sel = select_evict_units(&units, total, 4 * MB, 3 * MB);
    assert_eq!(paths(&sel), vec!["unit_old", "unit_newer"]);
    let freed: u64 = sel.iter().map(|u| u.bytes).sum();
    assert!(total - freed <= 3 * MB);
}

#[test]
fn one_unit_suffices() {
    // 4M hold, low water 2M: evicting the older 2M unit is enough
    let units = vec![unit("unit_new", 2 * MB, 990, false), unit("unit_old", 2 * MB, 10, false)];
    let sel = select_evict_units(&units, 4 * MB, 3 * MB, 2 * MB);
    assert_eq!(paths(&sel), vec!["unit_old"]);
}

#[test]
fn locked_unit_is_never_selected() {
    let units = vec![
        unit("unit_locked", 3 * MB, 1, true),
        unit("unit_newer", 3 * MB, 500, false),
    ];
    let sel = select_evict_units(&units, 6 * MB, 4 * MB, 3 * MB);
    assert_eq!(paths(&sel), vec!["unit_newer"]);
}

#[test]
fn only_locked_units_leave_nothing_to_select() {
    let units = vec![unit("a", 1000, 1, true), unit("b", 1000, 2, true)];
    let sel = select_evict_units(&units, 2000, 1000, 500);
    assert!(sel.is_empty());
}

#[test]
fn at_or_below_low_water_selects_nothing() {
    let units = vec![unit("a", 500, 1, false), unit("b", 500, 2, false)];
    assert!(select_evict_units(&units, 1000, 800, 1000).is_empty());
    assert!(select_evict_units(&units, 999, 800, 1000).is_empty());
}

#[test]
fn equal_ages_keep_hold_order() {
    let units = vec![
        unit("first", 10, 5, false),
        unit("second", 10, 5, false),
        unit("older", 10, 1, false),
    ];
    let sel = select_evict_units(&units, 30, 0, 0);
    assert_eq!(paths(&sel), vec!["older", "first", "second"]);
}

#[test]
fn saturates_when_total_is_understated() {
    // a total smaller than the units' sizes never underflows
    let units = vec![unit("a", 100, 1, false), unit("b", 100, 2, false)];
    let sel = select_evict_units(&units, 50, 10, 10);
    assert_eq!(paths(&sel), vec!["a"]);
}

#[test]
fn sum_bytes_detects_overflow() {
    let units = vec![unit("a", u64::MAX, 1, false), unit("b", 1, 2, false)];
    assert_eq!(sum_bytes(&units), None);
    let units = vec![unit("a", 7, 1, false), unit("b", 5, 2, false)];
    assert_eq!(sum_bytes(&units), Some(12));
}

#[test]
fn within_cap_selects_nothing() {
    let units = vec![unit("only", 900, 1, false)];
    assert!(select_evict_units(&units, 900, 1000, 500).is_empty());
    assert!(select_evict_units(&units, 1000, 1000, 500).is_empty());
    assert_eq!(select_evict_units(&units, 1001, 1000, 500).len(), 1);
}
