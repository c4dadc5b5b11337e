//! The default locations: the hold under the home directory, and the ledger
//! beside the hold.

use vstd::prelude::*;

verus! {

/// What `std::path::Path::parent` gives for a path: the path without its
/// final component, or nothing for a root or an empty path.
pub uninterp spec fn path_parent(p: Seq<char>) -> Option<Seq<char>>;

/// What `std::path::Path::join` gives: `name` appended to `base` as a further
/// component.
pub uninterp spec fn path_join(base: Seq<char>, name: Seq<char>) -> Seq<char>;

/// `Path::parent` on `p`. A parent of a path given as text is a prefix of
/// that text, so the conversion back to a `String` is exact. The result is
/// named `path_parent`; the component rules are not restated.
#[verifier::external_body]
fn parent_text(p: &str) -> (r: Option<String>)
    ensures
        match r {
            Some(q) => path_parent(p@) == Some(q@),
            None => path_parent(p@) is None,
        },
{
    match std::path::Path::new(p).parent() {
        Some(q) => Some(q.to_string_lossy().into_owned()),
        None => None,
    }
}

/// `Path::join` of two paths given as text; the joined path is text again, so
/// the conversion back to a `String` is exact. The result is named
/// `path_join`; the separator rules are not restated.
#[verifier::external_body]
fn join_text(base: &str, name: &str) -> (r: String)
    ensures
        r@ == path_join(base@, name@),
{
    std::path::Path::new(base).join(name).to_string_lossy().into_owned()
}

/// Why no hold could be located.
#[derive(Debug, PartialEq, Eq)]
pub enum PathError {
    /// No hold was given and the home directory is unknown.
    HomeNotSet,
}

/// The default hold under a home directory: `<home>/wintermute/.hold/target`.
pub open spec fn default_hold_path(home: Seq<char>) -> Seq<char> {
    path_join(path_join(path_join(home, "wintermute"@), ".hold"@), "target"@)
}

/// The default ledger: `guard-ledger.jsonl` in the directory that holds the
/// hold (in the hold itself when it has no parent).
pub open spec fn default_ledger_path(hold: Seq<char>) -> Seq<char> {
    let dir = match path_parent(hold) {
        Some(p) => p,
        None => hold,
    };
    path_join(dir, "guard-ledger.jsonl"@)
}

/// The default hold under the home directory `home`.
pub fn default_hold_under(home: &str) -> (r: String)
    ensures
        r@ == default_hold_path(home@),
{
    let a = join_text(home, "wintermute");
    let b = join_text(a.as_str(), ".hold");
    join_text(b.as_str(), "target")
}

/// The hold to work on: the one given, or the default under the home
/// directory, which must then be known.
pub fn resolve_hold(cli_hold: Option<String>, home: Option<String>) -> (r: Result<String, PathError>)
    ensures
        match cli_hold {
            Some(h) => r matches Ok(s) && s@ == h@,
            None => match home {
                Some(dir) => r matches Ok(s) && s@ == default_hold_path(dir@),
                None => r == Err::<String, PathError>(PathError::HomeNotSet),
            },
        },
{
    match cli_hold {
        Some(h) => Ok(h),
        None => match home {
            Some(dir) => Ok(default_hold_under(dir.as_str())),
            None => Err(PathError::HomeNotSet),
        },
    }
}

/// The default ledger for a hold: `guard-ledger.jsonl` beside the hold.
pub fn default_ledger(hold: &str) -> (r: String)
    ensures
        r@ == default_ledger_path(hold@),
{
    match parent_text(hold) {
        Some(dir) => join_text(dir.as_str(), "guard-ledger.jsonl"),
        None => join_text(hold, "guard-ledger.jsonl"),
    }
}

/// The ledger to use: the one given, or the default beside the hold.
pub fn resolve_ledger(cli_ledger: Option<String>, hold: &str) -> (r: String)
    ensures
        match cli_ledger {
            Some(l) => r@ == l@,
            None => r@ == default_ledger_path(hold@),
        },
{
    match cli_ledger {
        Some(l) => l,
        None => default_ledger(hold),
    }
}

} // verus!
