use blackboard::duration::{parse_duration, validate_duration};
use blackboard::errors::{BBError, InvalidReason, TraversalReason};
use blackboard::validation::{
    validate_agent_id, validate_artifact_path, validate_blockers, validate_message_content,
    validate_tags, validate_task, validate_version, PathResolution, MAX_AGENT_ID_LEN,
    MAX_BLOCKERS_LEN, MAX_MESSAGE_CONTENT_LEN, MAX_TAGS_PER_MESSAGE, MAX_TASK_LEN,
    MAX_VERSION_LEN,
};

#[test]
fn test_validate_agent_id_valid() {
    assert!(validate_agent_id("agent-1").is_ok());
    assert!(validate_agent_id("codex-01").is_ok());
}

#[test]
fn test_validate_agent_id_empty() {
    assert!(validate_agent_id("").is_err());
}

#[test]
fn test_validate_agent_id_too_long() {
    let long_id = "a".repeat(MAX_AGENT_ID_LEN + 1);
    assert!(validate_agent_id(&long_id).is_err());
}

#[test]
fn test_validate_agent_id_control_chars() {
    assert!(validate_agent_id("agent\x00name").is_err());
}

#[test]
fn test_validate_task_too_long() {
    let long_task = "a".repeat(MAX_TASK_LEN + 1);
    assert!(validate_task(&long_task).is_err());
}

#[test]
fn test_validate_task_valid() {
    assert!(validate_task("Short task").is_ok());
}

#[test]
fn test_validate_blockers_too_long() {
    let long_blockers = "a".repeat(MAX_BLOCKERS_LEN + 1);
    assert!(validate_blockers(&long_blockers).is_err());
}

#[test]
fn test_validate_message_content_empty() {
    assert!(validate_message_content("").is_err());
}

#[test]
fn test_validate_message_content_too_long() {
    let long_content = "a".repeat(MAX_MESSAGE_CONTENT_LEN + 1);
    assert!(validate_message_content(&long_content).is_err());
}

#[test]
fn test_validate_message_content_valid() {
    assert!(validate_message_content("Hello world").is_ok());
}

#[test]
fn test_validate_artifact_path_absolute() {
    assert!(validate_artifact_path("/etc/passwd", PathResolution::Inside).is_err());
}

#[test]
fn test_validate_artifact_path_traversal() {
    assert!(validate_artifact_path("../etc/passwd", PathResolution::Inside).is_err());
}

#[test]
fn test_validate_artifact_path_valid() {
    assert!(validate_artifact_path("src/main.rs", PathResolution::Inside).is_ok());
}

#[test]
fn test_validate_artifact_path_escaping_resolution_fails() {
    assert_eq!(
        validate_artifact_path("link/out", PathResolution::Outside),
        Err(BBError::PathTraversal(TraversalReason::EscapesRoot))
    );
    assert_eq!(
        validate_artifact_path("missing/file", PathResolution::Failed),
        Err(BBError::InvalidInput(InvalidReason::PathUnresolvable))
    );
}

#[test]
fn test_validate_artifact_path_error_kinds() {
    assert_eq!(
        validate_artifact_path("/abs", PathResolution::Inside),
        Err(BBError::PathTraversal(TraversalReason::AbsolutePath))
    );
    assert_eq!(
        validate_artifact_path("../secret", PathResolution::Inside),
        Err(BBError::PathTraversal(TraversalReason::ParentSegment))
    );
    assert_eq!(
        validate_artifact_path("", PathResolution::Inside),
        Err(BBError::InvalidInput(InvalidReason::PathEmpty))
    );
}

#[test]
fn test_validate_version_too_long() {
    let long_version = "v".repeat(MAX_VERSION_LEN + 1);
    assert!(validate_version(&long_version).is_err());
}

#[test]
fn test_validate_tags_too_many() {
    let tags: Vec<String> = (0..MAX_TAGS_PER_MESSAGE + 1)
        .map(|i| format!("tag{}", i))
        .collect();
    assert!(validate_tags(&tags).is_err());
}

#[test]
fn test_validate_tags_empty_tag() {
    assert!(validate_tags(&vec!["valid".to_string(), "".to_string()]).is_err());
}

#[test]
fn test_validate_tags_with_whitespace() {
    assert!(validate_tags(&vec!["hello world".to_string()]).is_err());
}

#[test]
fn test_validate_tags_valid() {
    assert!(validate_tags(&vec!["tag1".to_string(), "tag2".to_string()]).is_ok());
}

#[test]
fn test_parse_duration_seconds() {
    assert_eq!(parse_duration("30s").unwrap(), 30);
    assert_eq!(parse_duration("1s").unwrap(), 1);
}

#[test]
fn test_parse_duration_minutes() {
    assert_eq!(parse_duration("10m").unwrap(), 600);
    assert_eq!(parse_duration("1m").unwrap(), 60);
}

#[test]
fn test_parse_duration_hours() {
    assert_eq!(parse_duration("2h").unwrap(), 7200);
    assert_eq!(parse_duration("1h").unwrap(), 3600);
}

#[test]
fn test_parse_duration_days() {
    assert_eq!(parse_duration("1d").unwrap(), 86400);
    assert_eq!(parse_duration("2d").unwrap(), 172800);
}

#[test]
fn test_parse_duration_weeks() {
    assert_eq!(parse_duration("1w").unwrap(), 604800);
    assert_eq!(parse_duration("2w").unwrap(), 1209600);
}

#[test]
fn test_parse_duration_whitespace() {
    assert_eq!(parse_duration("  10m  ").unwrap(), 600);
}

#[test]
fn test_parse_duration_invalid_unit() {
    assert!(parse_duration("10x").is_err());
    assert!(parse_duration("10y").is_err());
}

#[test]
fn test_parse_duration_invalid_number() {
    assert!(parse_duration("abc").is_err());
    assert!(parse_duration("xm").is_err());
}

#[test]
fn test_parse_duration_empty() {
    assert!(parse_duration("").is_err());
}

#[test]
fn test_parse_duration_no_unit() {
    assert!(parse_duration("10").is_err());
}

#[test]
fn test_parse_duration_only_unit() {
    assert!(parse_duration("m").is_err());
}

#[test]
fn test_validate_duration_valid() {
    assert_eq!(validate_duration("10m").unwrap(), 600);
    assert_eq!(validate_duration("2h").unwrap(), 7200);
    assert_eq!(validate_duration("1d").unwrap(), 86400);
}

#[test]
fn test_validate_duration_invalid() {
    assert!(validate_duration("invalid").is_err());
    assert!(validate_duration("10x").is_err());
    assert!(validate_duration("").is_err());
}

#[test]
fn test_validation_error_kinds_are_specific() {
    assert_eq!(
        validate_agent_id(""),
        Err(BBError::InvalidInput(InvalidReason::AgentIdEmpty))
    );
    assert_eq!(
        validate_message_content(""),
        Err(BBError::InvalidInput(InvalidReason::ContentEmpty))
    );
    assert_eq!(
        validate_tags(&vec!["a b".to_string()]),
        Err(BBError::InvalidInput(InvalidReason::TagInvalidChars))
    );
    assert_eq!(
        parse_duration("5q"),
        Err(BBError::InvalidInput(InvalidReason::DurationBadUnit))
    );
    assert_eq!(
        parse_duration(""),
        Err(BBError::InvalidInput(InvalidReason::DurationEmpty))
    );
}
