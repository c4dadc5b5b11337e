//! Structured SLO events in the shared event schema: `kind`, `severity`,
//! `hold_bytes`, `cap_bytes`, `reclaimed_bytes`, `ts`.

use vstd::prelude::*;
use vstd::string::StringExecFns;

verus! {

/// How close the hold is to its cap.
#[derive(Debug, Clone, Copy, PartialEq, Eq, Structural)]
pub enum Severity {
    /// At or below the warning mark (labelled `ok`).
    Normal,
    /// Above the warning mark, at or below the cap.
    Warn,
    /// Above the cap.
    Critical,
}

/// The severity of a hold of `hold` bytes against `cap`, warning above
/// `warn_floor` (nine tenths of the cap).
pub open spec fn severity_of(hold: int, cap: int, warn_floor: int) -> Severity {
    if hold > cap {
        Severity::Critical
    } else if hold > warn_floor {
        Severity::Warn
    } else {
        Severity::Normal
    }
}

/// The schema label of a severity.
pub open spec fn severity_label(s: Severity) -> Seq<char> {
    match s {
        Severity::Normal => "ok"@,
        Severity::Warn => "warn"@,
        Severity::Critical => "critical"@,
    }
}

/// The kind of every event this tool emits.
pub open spec fn event_kind() -> Seq<char> {
    "hold_guard.enforcement"@
}

impl Severity {
    /// The schema label: `ok`, `warn` or `critical`.
    pub fn label(&self) -> (r: String)
        ensures
            r@ == severity_label(*self),
            *self == Severity::Normal ==> r@ == "ok"@,
            *self == Severity::Warn ==> r@ == "warn"@,
            *self == Severity::Critical ==> r@ == "critical"@,
    {
        match self {
            Severity::Normal => String::from_str("ok"),
            Severity::Warn => String::from_str("warn"),
            Severity::Critical => String::from_str("critical"),
        }
    }
}

/// Structured SLO event.
#[derive(Debug)]
pub struct SloEvent {
    /// Event kind identifier.
    pub kind: String,
    /// Severity of the hold size against the cap.
    pub severity: Severity,
    /// Hold size in bytes at event time.
    pub hold_bytes: u64,
    /// Configured cap in bytes.
    pub cap_bytes: u64,
    /// Bytes reclaimed by this enforcement (0 in dry-run).
    pub reclaimed_bytes: u64,
    /// RFC 3339 timestamp.
    pub ts: String,
    /// Whether removal was applied (true) or this was a dry-run (false).
    pub applied: bool,
}

/// The outline every RFC 3339 text of a UTC time from `to_rfc3339` has: the
/// date (a year of at least four characters, `-MM-DD`), a `T`, the time
/// (`hh:mm:ss`, with an optional fraction) and the offset `+00:00`, so at
/// least 25 characters.
pub open spec fn utc_rfc3339_outline(s: Seq<char>) -> bool {
    &&& s.len() >= 25
    &&& s.contains('T')
    &&& s.subrange(s.len() - 6, s.len() as int) == "+00:00"@
}

/// The system clock (`std::time::SystemTime::now`) converted by
/// `chrono::DateTime::<Utc>::from` and rendered by `DateTime::to_rfc3339`: the
/// current UTC time as an RFC 3339 string such as `2026-01-01T00:00:00+00:00`.
/// The conversion handles readings before the Unix epoch; it unwraps only for
/// readings beyond chrono's range of about 262,000 years from year 0, which no
/// system clock gives. Which time it is depends on the clock, so the contract
/// states only the outline every rendering has (`write_rfc3339` writes the
/// year, `-MM-DDThh:mm:ss`, an optional fraction, and for UTC the offset
/// `+00:00`).
#[verifier::external_body]
fn current_timestamp() -> (r: String)
    ensures
        utc_rfc3339_outline(r@),
{
    chrono::DateTime::<chrono::Utc>::from(std::time::SystemTime::now()).to_rfc3339()
}

/// Builds a structured SLO event. `ts` is used verbatim if non-empty;
/// otherwise the current UTC time is used (an RFC 3339 text in UTC). A dry run (`applied == false`)
/// reclaims nothing, so its event reports 0 reclaimed bytes. The severity is `critical` above
/// the cap, `warn` above `warn_floor` (nine tenths of the cap), `ok` otherwise.
pub fn build_event(
    hold_bytes: u64,
    cap_bytes: u64,
    reclaimed_bytes: u64,
    applied: bool,
    ts: &str,
    warn_floor: u64,
) -> (ev: SloEvent)
    ensures
        ev.kind@ == event_kind(),
        ev.kind@ == "hold_guard.enforcement"@,
        ev.severity == severity_of(hold_bytes as int, cap_bytes as int, warn_floor as int),
        // critical exactly when the hold is over its cap
        (ev.severity == Severity::Critical) == (hold_bytes > cap_bytes),
        // within the cap: a warning exactly above the warning mark
        hold_bytes <= cap_bytes ==> ((ev.severity == Severity::Warn) == (hold_bytes > warn_floor)),
        hold_bytes <= cap_bytes && hold_bytes <= warn_floor ==> ev.severity == Severity::Normal,
        ev.hold_bytes == hold_bytes,
        ev.cap_bytes == cap_bytes,
        ev.reclaimed_bytes == if applied {
            reclaimed_bytes
        } else {
            0
        },
        ev.applied == applied,
        ts@.len() > 0 ==> ev.ts@ == ts@,
        ts@.len() == 0 ==> utc_rfc3339_outline(ev.ts@),
        ev.ts@.len() > 0,
{
    let ts = if ts.is_empty() {
        current_timestamp()
    } else {
        ts.to_owned()
    };
    let severity = if hold_bytes > cap_bytes {
        Severity::Critical
    } else if hold_bytes > warn_floor {
        Severity::Warn
    } else {
        Severity::Normal
    };
    SloEvent {
        kind: String::from_str("hold_guard.enforcement"),
        severity,
        hold_bytes,
        cap_bytes,
        reclaimed_bytes: if applied {
            reclaimed_bytes
        } else {
            0
        },
        ts,
        applied,
    }
}

/// Severity grades the hold against its cap: critical exactly when the hold
/// is over the cap; otherwise a warning exactly when it is above the warning
/// mark, and ok at or below it.
pub proof fn lemma_severity_grades_hold(hold: int, cap: int, warn_floor: int)
    ensures
        (severity_of(hold, cap, warn_floor) == Severity::Critical) <==> hold > cap,
        hold <= cap ==> ((severity_of(hold, cap, warn_floor) == Severity::Warn) <==> hold
            > warn_floor),
        (severity_of(hold, cap, warn_floor) == Severity::Normal) <==> (hold <= cap && hold
            <= warn_floor),
{
}

} // verus!
