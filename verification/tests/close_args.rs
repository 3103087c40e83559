//! The close command's arguments.

use beads_store::close::CloseArgs;

#[test]
fn test_close_args_default() {
    let args = CloseArgs::default();
    assert!(args.ids.is_empty());
    assert!(args.reason.is_none());
    assert!(!args.force);
    assert!(args.session.is_none());
    assert!(!args.suggest_next);
}

#[test]
fn test_close_args_with_all_fields() {
    let args = CloseArgs {
        ids: vec!["bd-abc".to_string(), "bd-xyz".to_string()],
        reason: Some("Fixed in PR #123".to_string()),
        force: true,
        session: Some("session-456".to_string()),
        suggest_next: true,
    };
    assert_eq!(args.ids.len(), 2);
    assert_eq!(args.ids[0], "bd-abc");
    assert_eq!(args.reason.as_deref(), Some("Fixed in PR #123"));
    assert!(args.force);
    assert_eq!(args.session.as_deref(), Some("session-456"));
    assert!(args.suggest_next);
}

#[test]
fn test_close_args_clone() {
    let args = CloseArgs {
        ids: vec!["bd-clone".to_string()],
        reason: Some("Clone test".to_string()),
        force: true,
        session: Some("sess".to_string()),
        suggest_next: true,
    };
    let cloned = args.clone();
    assert_eq!(cloned.ids, args.ids);
    assert_eq!(cloned.reason, args.reason);
    assert_eq!(cloned.force, args.force);
    assert_eq!(cloned.session, args.session);
    assert_eq!(cloned.suggest_next, args.suggest_next);
}

#[test]
fn test_close_args_debug_impl() {
    let args = CloseArgs::default();
    let debug_str = format!("{args:?}");
    assert!(debug_str.contains("CloseArgs"));
    assert!(debug_str.contains("ids"));
    assert!(debug_str.contains("reason"));
}
