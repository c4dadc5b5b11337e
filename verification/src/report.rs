//! What each subcommand reports: `check` (a dry-run plan), `enforce` (the
//! eviction and its event) and `status` (size against cap, ledger tail).

use vstd::prelude::*;
use crate::unit::{Unit, total_bytes, sum_bytes};
use crate::policy::{
    select_evict_units,
    eviction,
    lru_candidates,
    lemma_eviction_takes_only_what_is_needed,
};
use crate::event::{SloEvent, Severity, build_event, event_kind, severity_of, utc_rfc3339_outline};
use crate::ledger::tail;

verus! {

/// Why a report could not be made.
#[derive(Debug, PartialEq, Eq)]
pub enum ReportError {
    /// The sizes of the hold's units add up to more than 64 bits can hold.
    SizeOverflow,
}

/// How many ledger lines `status` shows.
pub const LEDGER_TAIL_LINES: usize = 5;

/// The result of `check`: over or under the cap, and what would be evicted.
#[derive(Debug)]
pub struct CheckReport {
    /// The event in the shared schema (a dry run: nothing reclaimed).
    pub event: SloEvent,
    /// Whether the hold is over its cap.
    pub over_cap: bool,
    /// The low-water mark eviction would aim for.
    pub low_water_bytes: u64,
    /// The hold size once the selected units were gone.
    pub projected_bytes: u64,
    /// The units that would be evicted, oldest first.
    pub selected: Vec<Unit>,
}

/// The result of `enforce`.
#[derive(Debug)]
pub struct EnforceReport {
    /// The event in the shared schema.
    pub event: SloEvent,
    /// The units selected for eviction, oldest first.
    pub selected: Vec<Unit>,
}

/// The result of `status`.
#[derive(Debug)]
pub struct StatusReport {
    /// Hold size in bytes.
    pub hold_bytes: u64,
    /// Hold size for people, in binary units.
    pub hold_human: String,
    /// The cap compared against, if one was given.
    pub cap_bytes: Option<u64>,
    /// How many evictable units the hold has.
    pub unit_count: usize,
    /// The last ledger lines, oldest first.
    pub ledger_tail: Vec<String>,
}

/// The units `check` lists: the LRU selection when the hold is over its cap,
/// none otherwise.
pub open spec fn check_selection(units: Seq<Unit>, cap: int, low: int) -> Seq<Unit> {
    if total_bytes(units) > cap {
        eviction(units, total_bytes(units), cap, low)
    } else {
        Seq::empty()
    }
}

/// The units `enforce` selects, applied or not.
pub open spec fn enforce_selection(units: Seq<Unit>, cap: int, low: int) -> Seq<Unit> {
    eviction(units, total_bytes(units), cap, low)
}

/// `check` lists exactly the units that `enforce` evicts, and neither touches
/// a hold within its cap.
pub proof fn lemma_check_previews_enforce(units: Seq<Unit>, cap: int, low: int)
    ensures
        check_selection(units, cap, low) == enforce_selection(units, cap, low),
        total_bytes(units) <= cap ==> enforce_selection(units, cap, low).len() == 0,
{
}

/// `check` evicts only what is needed: nothing from a hold within its cap,
/// and before each listed unit the hold minus the units listed before it is
/// still above the low-water mark; no listed unit holds a lock.
pub proof fn lemma_check_lists_only_what_is_needed(units: Seq<Unit>, cap: int, low: int)
    requires
        low >= 0,
    ensures
        check_selection(units, cap, low).len() > 0 ==> total_bytes(units) > cap,
        forall|k: int|
            0 <= k < check_selection(units, cap, low).len() ==> total_bytes(units) - total_bytes(
                #[trigger] check_selection(units, cap, low).take(k),
            ) > low,
        forall|i: int|
            0 <= i < check_selection(units, cap, low).len() ==> !(#[trigger] check_selection(
                units,
                cap,
                low,
            )[i]).is_locked,
{
    lemma_eviction_takes_only_what_is_needed(units, total_bytes(units), cap, low);
}

/// What `humansize::format_size` with the `BINARY` options renders for a
/// byte count.
pub uninterp spec fn binary_size_text(bytes: u64) -> Seq<char>;

/// `humansize::format_size(bytes, humansize::BINARY)`: the byte count in
/// binary units (such as `1 KiB`). The rendering (float scaling and
/// formatting) is not restated; the result is named `binary_size_text`.
#[verifier::external_body]
fn format_binary_size(bytes: u64) -> (r: String)
    ensures
        r@ == binary_size_text(bytes),
{
    humansize::format_size(bytes, humansize::BINARY)
}

/// Plans `check`: measures the hold against `cap` and, when it is over,
/// lists the LRU units whose eviction brings it to `low_water`. Read-only:
/// the event reports a dry run that reclaimed nothing.
pub fn check_report(units: &[Unit], cap: u64, low_water: u64, ts: &str, warn_floor: u64) -> (r:
    Result<CheckReport, ReportError>)
    ensures
        r is Err <==> total_bytes(units@) > u64::MAX,
        r matches Ok(rep) ==> {
            let total = total_bytes(units@);
            &&& rep.event.kind@ == event_kind()
            &&& rep.event.severity == severity_of(total, cap as int, warn_floor as int)
            &&& rep.event.hold_bytes == total
            &&& rep.event.cap_bytes == cap
            &&& rep.event.reclaimed_bytes == 0
            &&& !rep.event.applied
            &&& ts@.len() > 0 ==> rep.event.ts@ == ts@
            &&& ts@.len() == 0 ==> utc_rfc3339_outline(rep.event.ts@)
            &&& rep.event.ts@.len() > 0
            &&& rep.over_cap == (total > cap)
            &&& rep.low_water_bytes == low_water
            &&& rep.selected@ == check_selection(units@, cap as int, low_water as int)
            &&& 0 <= total_bytes(rep.selected@) <= total
            &&& rep.projected_bytes == total - total_bytes(rep.selected@)
            &&& (rep.event.severity == Severity::Critical) == (total > cap)
            &&& total <= cap ==> rep.selected@.len() == 0
            &&& forall|k: int|
                0 <= k < rep.selected@.len() ==> total - total_bytes(
                    #[trigger] rep.selected@.take(k),
                ) > low_water
            &&& forall|i: int| 0 <= i < rep.selected@.len() ==> !(#[trigger] rep.selected@[i]).is_locked
            &&& forall|i: int| 0 <= i < rep.selected@.len() ==> units@.contains(#[trigger] rep.selected@[i])
            &&& rep.over_cap ==> (rep.projected_bytes <= low_water || rep.selected@.len()
                == lru_candidates(units@).len())
        },
{
    let total = match sum_bytes(units) {
        Some(t) => t,
        None => {
            return Err(ReportError::SizeOverflow);
        },
    };
    let over_cap = total > cap;
    let selected = select_evict_units(units, total, cap, low_water);
    let freed = match sum_bytes(&selected) {
        Some(f) => f,
        None => {
            return Err(ReportError::SizeOverflow);
        },
    };
    assert(freed <= total);
    let projected = total - freed;
    let event = build_event(total, cap, 0, false, ts, warn_floor);
    Ok(CheckReport { event, over_cap, low_water_bytes: low_water, projected_bytes: projected, selected })
}

/// Plans `enforce`: when the hold is over its cap, selects the LRU units
/// whose eviction brings it to `low_water` (nothing otherwise). With `apply` the event reports their bytes as reclaimed;
/// without it (a dry run) nothing is reclaimed.
pub fn enforce_report(
    units: &[Unit],
    cap: u64,
    low_water: u64,
    apply: bool,
    ts: &str,
    warn_floor: u64,
) -> (r: Result<EnforceReport, ReportError>)
    ensures
        r is Err <==> total_bytes(units@) > u64::MAX,
        r matches Ok(rep) ==> {
            let total = total_bytes(units@);
            &&& rep.event.kind@ == event_kind()
            &&& rep.event.severity == severity_of(total, cap as int, warn_floor as int)
            &&& rep.event.hold_bytes == total
            &&& rep.event.cap_bytes == cap
            &&& rep.event.applied == apply
            &&& rep.event.reclaimed_bytes == if apply {
                total_bytes(rep.selected@)
            } else {
                0
            }
            &&& ts@.len() > 0 ==> rep.event.ts@ == ts@
            &&& ts@.len() == 0 ==> utc_rfc3339_outline(rep.event.ts@)
            &&& rep.event.ts@.len() > 0
            &&& rep.selected@ == enforce_selection(units@, cap as int, low_water as int)
            &&& (rep.event.severity == Severity::Critical) == (total > cap)
            &&& total <= cap ==> rep.selected@.len() == 0
            &&& forall|k: int|
                0 <= k < rep.selected@.len() ==> total - total_bytes(
                    #[trigger] rep.selected@.take(k),
                ) > low_water
            &&& forall|i: int| 0 <= i < rep.selected@.len() ==> !(#[trigger] rep.selected@[i]).is_locked
            &&& forall|i: int| 0 <= i < rep.selected@.len() ==> units@.contains(#[trigger] rep.selected@[i])
            &&& 0 <= total_bytes(rep.selected@) <= total
            &&& total <= cap ==> rep.selected@.len() == 0
            &&& total > cap ==> (total - total_bytes(rep.selected@) <= low_water
                || rep.selected@.len() == lru_candidates(units@).len())
        },
{
    let total = match sum_bytes(units) {
        Some(t) => t,
        None => {
            return Err(ReportError::SizeOverflow);
        },
    };
    let selected = select_evict_units(units, total, cap, low_water);
    let freed = match sum_bytes(&selected) {
        Some(f) => f,
        None => {
            return Err(ReportError::SizeOverflow);
        },
    };
    let reclaimed = if apply {
        freed
    } else {
        0
    };
    let event = build_event(total, cap, reclaimed, apply, ts, warn_floor);
    Ok(EnforceReport { event, selected })
}

/// Plans `status`: the hold size (exact and for people), the cap it is
/// compared against, the number of units and the last ledger lines.
pub fn status_report(units: &[Unit], cap_bytes: Option<u64>, ledger_lines: &[String]) -> (r:
    Result<StatusReport, ReportError>)
    ensures
        r is Err <==> total_bytes(units@) > u64::MAX,
        r matches Ok(rep) ==> {
            &&& rep.hold_bytes == total_bytes(units@)
            &&& rep.hold_human@ == binary_size_text(rep.hold_bytes)
            &&& rep.cap_bytes == cap_bytes
            &&& rep.unit_count == units@.len()
            &&& rep.ledger_tail@ == ledger_lines@.skip(
                ledger_lines@.len() - if LEDGER_TAIL_LINES < ledger_lines@.len() {
                    LEDGER_TAIL_LINES as int
                } else {
                    ledger_lines@.len() as int
                },
            )
        },
{
    let total = match sum_bytes(units) {
        Some(t) => t,
        None => {
            return Err(ReportError::SizeOverflow);
        },
    };
    Ok(StatusReport {
        hold_bytes: total,
        hold_human: format_binary_size(total),
        cap_bytes,
        unit_count: units.len(),
        ledger_tail: tail(ledger_lines, LEDGER_TAIL_LINES),
    })
}

} // verus!
