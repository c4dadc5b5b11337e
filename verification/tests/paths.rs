use hold_guard::paths::{default_hold_under, default_ledger, resolve_hold, resolve_ledger, PathError};

#[test]
fn default_hold_is_under_home() {
    assert_eq!(default_hold_under("/home/u"), "/home/u/wintermute/.hold/target");
    assert_eq!(default_hold_under("/home/u/"), "/home/u/wintermute/.hold/target");
}

#[test]
fn default_ledger_sits_beside_the_hold() {
    assert_eq!(
        default_ledger("/home/u/wintermute/.hold/target"),
        "/home/u/wintermute/.hold/guard-ledger.jsonl"
    );
    assert_eq!(default_ledger("target"), "guard-ledger.jsonl");
    assert_eq!(default_ledger("/"), "/guard-ledger.jsonl");
}

#[test]
fn resolve_hold_prefers_the_given_hold() {
    assert_eq!(resolve_hold(Some("/tmp/h".to_string()), None), Ok("/tmp/h".to_string()));
    assert_eq!(
        resolve_hold(None, Some("/home/u".to_string())),
        Ok("/home/u/wintermute/.hold/target".to_string())
    );
    assert_eq!(resolve_hold(None, None), Err(PathError::HomeNotSet));
}

#[test]
fn resolve_ledger_prefers_the_given_ledger() {
    assert_eq!(resolve_ledger(Some("/x/l.jsonl".to_string()), "/h/target"), "/x/l.jsonl");
    assert_eq!(resolve_ledger(None, "/h/target"), "/h/guard-ledger.jsonl");
}
