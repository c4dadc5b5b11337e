//! Capping a shared Cargo build hold: the verified policy behind `hold-guard`.
//!
//! The hold is measured as a list of evictable [`unit::Unit`]s; the policy
//! picks the least recently used unlocked units until the projected size drops
//! to a low-water mark, and the reports describe what a run saw and did.

pub mod unit;
pub mod measure;
pub mod policy;
pub mod size;
pub mod event;
pub mod ledger;
pub mod evict;
pub mod report;
pub mod paths;
