use blackboard::agent::{Agent, AgentStatus, Liveness};
use blackboard::install::InstallTool;
use blackboard::message::{Message, Priority};
use blackboard::artifact::Artifact;
use blackboard::reference::{RefValue, Reference};

const NOW: i64 = 1_700_000_000;

#[test]
fn test_agent_new() {
    let agent = Agent::new("test-agent", NOW);
    assert_eq!(agent.id, "test-agent");
    assert_eq!(agent.current_task, "");
    assert_eq!(agent.progress, 0);
    assert_eq!(agent.status, AgentStatus::Idle);
    assert!(agent.blockers.is_none());
}

#[test]
fn test_agent_status_as_str() {
    assert_eq!(AgentStatus::Idle.as_str(), "idle");
    assert_eq!(AgentStatus::Planning.as_str(), "planning");
    assert_eq!(AgentStatus::Coding.as_str(), "coding");
    assert_eq!(AgentStatus::Testing.as_str(), "testing");
    assert_eq!(AgentStatus::Reviewing.as_str(), "reviewing");
    assert_eq!(AgentStatus::Blocked.as_str(), "blocked");
    assert_eq!(AgentStatus::Offline.as_str(), "offline");
}

#[test]
fn test_agent_status_from_str() {
    assert_eq!(AgentStatus::from_str("idle"), AgentStatus::Idle);
    assert_eq!(AgentStatus::from_str("planning"), AgentStatus::Planning);
    assert_eq!(AgentStatus::from_str("coding"), AgentStatus::Coding);
    assert_eq!(AgentStatus::from_str("testing"), AgentStatus::Testing);
    assert_eq!(AgentStatus::from_str("reviewing"), AgentStatus::Reviewing);
    assert_eq!(AgentStatus::from_str("blocked"), AgentStatus::Blocked);
    assert_eq!(AgentStatus::from_str("offline"), AgentStatus::Offline);
}

#[test]
fn test_agent_status_case_insensitive() {
    assert_eq!(AgentStatus::from_str("IDLE"), AgentStatus::Idle);
    assert_eq!(AgentStatus::from_str("Coding"), AgentStatus::Coding);
}

#[test]
fn test_agent_status_default() {
    assert_eq!(AgentStatus::from_str("unknown"), AgentStatus::Idle);
}

#[test]
fn test_liveness_enum() {
    assert_eq!(Liveness::Active, Liveness::Active);
    assert_ne!(Liveness::Active, Liveness::Stale);
}

#[test]
fn test_message_new() {
    let msg = Message {
        id: 0,
        from_agent: "agent-1".to_string(),
        content: "Hello world".to_string(),
        tags: vec![],
        priority: Priority::Normal,
        in_reply_to: None,
        refs: vec![],
        created_at: NOW,
    };
    assert_eq!(msg.from_agent, "agent-1");
    assert_eq!(msg.content, "Hello world");
    assert!(msg.tags.is_empty());
    assert_eq!(msg.priority, Priority::Normal);
    assert!(msg.in_reply_to.is_none());
    assert!(msg.refs.is_empty());
}

#[test]
fn test_priority_as_str() {
    assert_eq!(Priority::Low.as_str(), "low");
    assert_eq!(Priority::Normal.as_str(), "normal");
    assert_eq!(Priority::High.as_str(), "high");
    assert_eq!(Priority::Critical.as_str(), "critical");
}

#[test]
fn test_priority_from_str() {
    assert_eq!(Priority::parse("low"), Priority::Low);
    assert_eq!(Priority::parse("normal"), Priority::Normal);
    assert_eq!(Priority::parse("high"), Priority::High);
    assert_eq!(Priority::parse("critical"), Priority::Critical);
}

#[test]
fn test_priority_case_insensitive() {
    assert_eq!(Priority::parse("LOW"), Priority::Low);
    assert_eq!(Priority::parse("High"), Priority::High);
}

#[test]
fn test_priority_level() {
    assert_eq!(Priority::Low.level(), 0);
    assert_eq!(Priority::Normal.level(), 1);
    assert_eq!(Priority::High.level(), 2);
    assert_eq!(Priority::Critical.level(), 3);
}

#[test]
fn test_priority_ordering() {
    assert!(Priority::Low < Priority::Normal);
    assert!(Priority::Normal < Priority::High);
    assert!(Priority::High < Priority::Critical);
}

#[test]
fn test_priority_default_on_unknown() {
    assert_eq!(Priority::parse("urgent"), Priority::Normal);
}

#[test]
fn test_artifact_new() {
    let artifact = Artifact {
        id: 0,
        path: "src/main.rs".to_string(),
        produced_by: "agent-1".to_string(),
        description: "Main entry point".to_string(),
        version: None,
        refs: vec![],
        created_at: NOW,
    };
    assert_eq!(artifact.path, "src/main.rs");
    assert_eq!(artifact.produced_by, "agent-1");
    assert_eq!(artifact.description, "Main entry point");
    assert!(artifact.version.is_none());
    assert!(artifact.refs.is_empty());
}

#[test]
fn test_reference_creation() {
    let r = Reference {
        where_: "tt".to_string(),
        what: "task".to_string(),
        ref_: RefValue::Num(13),
    };
    assert_eq!(r.where_, "tt");
    assert_eq!(r.what, "task");
    assert_eq!(r.ref_, RefValue::Num(13));
}

#[test]
fn test_reference_with_string_ref() {
    let r = Reference {
        where_: "github".to_string(),
        what: "issue".to_string(),
        ref_: RefValue::Text("abc-123".to_string()),
    };
    assert_eq!(r.ref_, RefValue::Text("abc-123".to_string()));
}

#[test]
fn test_reference_clone() {
    let r1 = Reference {
        where_: "bb".to_string(),
        what: "message".to_string(),
        ref_: RefValue::Num(42),
    };
    let r2 = r1.clone();
    assert_eq!(r1, r2);
}

#[test]
fn test_install_tool_parse() {
    assert_eq!(InstallTool::parse("aider"), Some(InstallTool::Aider));
    assert_eq!(InstallTool::parse("KIMI"), Some(InstallTool::Kimi));
    assert_eq!(InstallTool::parse("Kilo"), Some(InstallTool::Kilo));
    assert_eq!(InstallTool::parse("emacs"), None);
}
