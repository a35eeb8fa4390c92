use blackboard::errors::BBError;
use blackboard::identity::IdentityResolver;

#[test]
fn test_resolve_precedence() {
    let resolver =
        IdentityResolver::new(Some("from-arg".to_string()), Some("from-env".to_string()));
    assert_eq!(resolver.resolve(), Some("from-arg".to_string()));

    let resolver = IdentityResolver::new(None, Some("from-env".to_string()));
    assert_eq!(resolver.resolve(), Some("from-env".to_string()));
}

#[test]
fn test_identify_sets_identity() {
    let mut resolver = IdentityResolver::new(None, None);

    let result = resolver.identify("agent-1").unwrap();
    assert_eq!(result.agent_id, "agent-1");
    assert_eq!(result.source, "identify");

    assert_eq!(resolver.resolve(), Some("agent-1".to_string()));
}

#[test]
fn test_identify_fails_when_fixed() {
    let mut resolver = IdentityResolver::new(Some("fixed".to_string()), None);

    assert!(resolver.identify("agent-1").is_err());
}

#[test]
fn test_identify_fails_when_different_env() {
    let mut resolver = IdentityResolver::new(None, Some("from-env".to_string()));

    assert!(resolver.identify("different").is_err());
}

#[test]
fn test_identify_succeeds_when_same_env() {
    let mut resolver = IdentityResolver::new(None, Some("agent-1".to_string()));

    let result = resolver.identify("agent-1").unwrap();
    assert_eq!(result.source, "env");
}

#[test]
fn test_identify_noop_when_same() {
    let mut resolver = IdentityResolver::new(None, None);

    resolver.identify("agent-1").unwrap();
    let result = resolver.identify("agent-1").unwrap();

    assert_eq!(result.agent_id, "agent-1");
    assert_eq!(resolver.resolve(), Some("agent-1".to_string()));
}

#[test]
fn test_identify_fails_when_different_resolved() {
    let mut resolver = IdentityResolver::new(None, None);

    resolver.identify("agent-1").unwrap();
    assert!(resolver.identify("agent-2").is_err());
}

#[test]
fn test_require_identity() {
    let resolver = IdentityResolver::new(None, None);
    assert!(resolver.require_identity().is_err());

    let resolver = IdentityResolver::new(Some("agent-1".to_string()), None);
    assert_eq!(resolver.require_identity().unwrap(), "agent-1");
}

#[test]
fn test_identify_with_fixed_and_env_rejects_third_value() {
    let mut resolver = IdentityResolver::new(Some("A".to_string()), Some("B".to_string()));
    assert_eq!(resolver.resolve(), Some("A".to_string()));
    assert_eq!(resolver.identify("C"), Err(BBError::IdentityAlreadyFixed));
}

#[test]
fn test_identify_conflict_error_kind() {
    let mut resolver = IdentityResolver::new(None, Some("B".to_string()));
    assert_eq!(resolver.identify("C"), Err(BBError::IdentityConflict));

    let mut resolver = IdentityResolver::new(None, None);
    resolver.identify("X").unwrap();
    assert_eq!(resolver.identify("Y"), Err(BBError::IdentityConflict));
}

#[test]
fn test_identify_rejects_invalid_agent_id() {
    let mut resolver = IdentityResolver::new(None, None);
    assert!(resolver.identify("").is_err());
    assert_eq!(resolver.resolve(), None);
}
