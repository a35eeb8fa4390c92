use blackboard::agent::{Agent, AgentStatus};
use blackboard::artifact::Artifact;
use blackboard::errors::BBError;
use blackboard::liveness::classify_liveness;
use blackboard::agent::Liveness;
use blackboard::message::{Message, Priority};
use blackboard::reference::{RefValue, Reference};
use blackboard::store::Store;
use blackboard::validation::PathResolution;

const NOW: i64 = 1_700_000_000;

fn num_ref(where_: &str, what: &str, n: i64) -> Reference {
    Reference {
        where_: where_.to_string(),
        what: what.to_string(),
        ref_: RefValue::Num(n),
    }
}

fn text_ref(where_: &str, what: &str, s: &str) -> Reference {
    Reference {
        where_: where_.to_string(),
        what: what.to_string(),
        ref_: RefValue::Text(s.to_string()),
    }
}

#[test]
fn test_classify_liveness_active() {
    assert_eq!(classify_liveness(NOW, NOW - 3 * 60), Liveness::Active);
}

#[test]
fn test_classify_liveness_stale() {
    assert_eq!(classify_liveness(NOW, NOW - 15 * 60), Liveness::Stale);
}

#[test]
fn test_classify_liveness_offline() {
    assert_eq!(classify_liveness(NOW, NOW - 35 * 60), Liveness::Offline);
}

#[test]
fn test_classify_liveness_boundaries() {
    assert_eq!(classify_liveness(NOW, NOW - 5 * 60), Liveness::Active);
    assert_eq!(classify_liveness(NOW, NOW - 5 * 60 - 59), Liveness::Active);
    assert_eq!(classify_liveness(NOW, NOW - 6 * 60), Liveness::Stale);
    assert_eq!(classify_liveness(NOW, NOW - 30 * 60), Liveness::Stale);
    assert_eq!(classify_liveness(NOW, NOW - 30 * 60 - 59), Liveness::Stale);
    assert_eq!(classify_liveness(NOW, NOW - 31 * 60), Liveness::Offline);
    assert_eq!(classify_liveness(NOW, NOW + 600), Liveness::Active);
}

#[test]
fn test_update_agent_status_creates_new() {
    let mut store = Store::new();

    let agent = store
        .update_agent_status(
            "test-agent",
            Some("working on task"),
            Some(50),
            Some(AgentStatus::Coding),
            None,
            NOW,
        )
        .unwrap();

    assert_eq!(agent.id, "test-agent");
    assert_eq!(agent.current_task, "working on task");
    assert_eq!(agent.progress, 50);
    assert_eq!(agent.status, AgentStatus::Coding);
}

#[test]
fn test_update_agent_status_updates_existing() {
    let mut store = Store::new();

    store
        .update_agent_status(
            "test-agent",
            Some("initial task"),
            Some(10),
            Some(AgentStatus::Planning),
            None,
            NOW,
        )
        .unwrap();

    let agent = store
        .update_agent_status(
            "test-agent",
            Some("updated task"),
            Some(75),
            Some(AgentStatus::Coding),
            None,
            NOW + 5,
        )
        .unwrap();

    assert_eq!(agent.current_task, "updated task");
    assert_eq!(agent.progress, 75);
    assert_eq!(agent.status, AgentStatus::Coding);

    let agents = store.get_all_agents();
    assert_eq!(agents.len(), 1);
}

#[test]
fn test_clear_agent_status() {
    let mut store = Store::new();

    store
        .update_agent_status(
            "test-agent",
            Some("working"),
            Some(50),
            Some(AgentStatus::Blocked),
            Some("blocked by issue"),
            NOW,
        )
        .unwrap();

    let agent = store.clear_agent_status("test-agent", NOW + 1).unwrap();

    assert_eq!(agent.current_task, "");
    assert_eq!(agent.progress, 0);
    assert_eq!(agent.status, AgentStatus::Idle);
    assert!(agent.blockers.is_none());
}

#[test]
fn test_blockers_cleared_when_not_blocked() {
    let mut store = Store::new();

    store
        .update_agent_status(
            "test-agent",
            Some("working"),
            Some(50),
            Some(AgentStatus::Blocked),
            Some("blocked by issue"),
            NOW,
        )
        .unwrap();

    let coding = store
        .update_agent_status("test-agent", None, None, Some(AgentStatus::Coding), None, NOW + 1)
        .unwrap();
    assert!(coding.blockers.is_none());

    let blocked_agent = store
        .update_agent_status(
            "test-agent",
            None,
            None,
            Some(AgentStatus::Blocked),
            Some("new blocker"),
            NOW + 2,
        )
        .unwrap();

    assert_eq!(blocked_agent.blockers, Some("new blocker".to_string()));
    assert_eq!(blocked_agent.status, AgentStatus::Blocked);
}

#[test]
fn test_progress_is_clamped_to_100() {
    let mut store = Store::new();
    let agent = store
        .update_agent_status("a", None, Some(150), None, None, NOW)
        .unwrap();
    assert_eq!(agent.progress, 100);
}

#[test]
fn test_delete_offline_agents() {
    let mut store = Store::new();

    let mut offline_agent = Agent::new("offline-agent", NOW - 7200);
    offline_agent.status = AgentStatus::Offline;
    store.upsert_agent(&offline_agent);

    let active_agent = Agent::new("active-agent", NOW);
    store.upsert_agent(&active_agent);

    let deleted = store.delete_offline_agents();
    assert_eq!(deleted, 1);

    let remaining = store.get_all_agents();
    assert_eq!(remaining.len(), 1);
    assert_eq!(remaining[0].id, "active-agent");
}

#[test]
fn test_upsert_agent_insert() {
    let mut store = Store::new();
    let mut agent = Agent::new("test-agent", NOW);
    agent.current_task = "testing".to_string();
    agent.progress = 50;
    agent.status = AgentStatus::Coding;

    store.upsert_agent(&agent);

    let retrieved = store.get_agent("test-agent").unwrap().unwrap();
    assert_eq!(retrieved.id, "test-agent");
    assert_eq!(retrieved.current_task, "testing");
    assert_eq!(retrieved.progress, 50);
}

#[test]
fn test_get_agent_not_found() {
    let store = Store::new();
    let result = store.get_agent("nonexistent").unwrap();
    assert!(result.is_none());
}

#[test]
fn test_upsert_agent_update() {
    let mut store = Store::new();
    let mut agent = Agent::new("test-agent", NOW);
    agent.current_task = "testing".to_string();
    agent.progress = 50;
    store.upsert_agent(&agent);

    agent.current_task = "updated task".to_string();
    agent.progress = 75;
    store.upsert_agent(&agent);

    let retrieved = store.get_agent("test-agent").unwrap().unwrap();
    assert_eq!(retrieved.current_task, "updated task");
    assert_eq!(retrieved.progress, 75);
}

#[test]
fn test_get_all_agents() {
    let mut store = Store::new();
    store.upsert_agent(&Agent::new("test-agent", NOW));
    store.upsert_agent(&Agent::new("test-agent-2", NOW + 1));

    let agents = store.get_all_agents();
    assert_eq!(agents.len(), 2);
    assert_eq!(agents[0].id, "test-agent-2");
    assert_eq!(agents[1].id, "test-agent");
}

#[test]
fn test_offline_sweep_persists_status() {
    let mut store = Store::new();
    store
        .update_agent_status("busy", Some("x"), None, Some(AgentStatus::Coding), None, NOW - 2400)
        .unwrap();

    let listed = store.get_all_agents_with_liveness(NOW);
    assert_eq!(listed.len(), 1);
    assert_eq!(listed[0].status, AgentStatus::Offline);

    let persisted = store.get_agent("busy").unwrap().unwrap();
    assert_eq!(persisted.status, AgentStatus::Offline);
}

#[test]
fn test_offline_sweep_spares_recent_agents() {
    let mut store = Store::new();
    store
        .update_agent_status("fresh", None, None, Some(AgentStatus::Coding), None, NOW - 60)
        .unwrap();

    store.get_all_agents_with_liveness(NOW);
    let persisted = store.get_agent("fresh").unwrap().unwrap();
    assert_eq!(persisted.status, AgentStatus::Coding);
}

#[test]
fn test_post_message() {
    let mut store = Store::new();

    let msg = store
        .post_message(
            "agent-1",
            "Hello world",
            vec!["greeting".to_string()],
            Priority::Normal,
            None,
            vec![],
            NOW,
        )
        .unwrap();

    assert!(msg.id > 0);
    assert_eq!(msg.from_agent, "agent-1");
    assert_eq!(msg.content, "Hello world");
    assert_eq!(msg.tags, vec!["greeting"]);
}

#[test]
fn test_post_message_empty_content_fails() {
    let mut store = Store::new();

    let result = store.post_message("agent-1", "", vec![], Priority::Normal, None, vec![], NOW);

    assert!(result.is_err());
}

#[test]
fn test_post_message_with_reply() {
    let mut store = Store::new();

    let parent = store
        .post_message("agent-1", "Parent message", vec![], Priority::Normal, None, vec![], NOW)
        .unwrap();

    let reply = store
        .post_message(
            "agent-2",
            "Reply message",
            vec![],
            Priority::Normal,
            Some(parent.id),
            vec![],
            NOW + 1,
        )
        .unwrap();

    assert_eq!(reply.in_reply_to, Some(parent.id));
}

#[test]
fn test_post_message_reply_to_nonexistent_fails() {
    let mut store = Store::new();

    let result = store.post_message(
        "agent-1",
        "Reply",
        vec![],
        Priority::Normal,
        Some(9999),
        vec![],
        NOW,
    );

    assert!(matches!(result, Err(BBError::NotFound)));
    let all = store.list_messages(None, &vec![], None, None, None, None, None, 100);
    assert!(all.is_empty());
}

#[test]
fn test_get_message_thread() {
    let mut store = Store::new();

    let parent = store
        .post_message("agent-1", "Parent", vec![], Priority::Normal, None, vec![], NOW)
        .unwrap();

    let reply = store
        .post_message(
            "agent-2",
            "Reply",
            vec![],
            Priority::Normal,
            Some(parent.id),
            vec![],
            NOW + 1,
        )
        .unwrap();

    let thread = store.get_message_thread(parent.id).unwrap();
    assert_eq!(thread.len(), 2);
    assert_eq!(thread[0].id, parent.id);
    assert_eq!(thread[1].id, reply.id);
}

#[test]
fn test_get_message_thread_missing_is_not_found() {
    let store = Store::new();
    assert!(matches!(store.get_message_thread(5), Err(BBError::NotFound)));
}

#[test]
fn test_list_messages_by_tag() {
    let mut store = Store::new();

    store
        .post_message(
            "agent-1",
            "Message 1",
            vec!["decision".to_string()],
            Priority::Normal,
            None,
            vec![],
            NOW,
        )
        .unwrap();

    store
        .post_message(
            "agent-2",
            "Message 2",
            vec!["question".to_string()],
            Priority::Normal,
            None,
            vec![],
            NOW + 1,
        )
        .unwrap();

    let results = store.list_messages(
        None,
        &vec!["decision".to_string()],
        None,
        None,
        None,
        None,
        None,
        10,
    );

    assert_eq!(results.len(), 1);
    assert_eq!(results[0].content, "Message 1");
}

#[test]
fn test_list_messages_with_tags() {
    let mut store = Store::new();

    store
        .post_message(
            "agent-1",
            "test content",
            vec!["decision".to_string(), "important".to_string()],
            Priority::Normal,
            None,
            vec![],
            NOW,
        )
        .unwrap();

    store
        .post_message(
            "agent-2",
            "test content",
            vec!["question".to_string()],
            Priority::Normal,
            None,
            vec![],
            NOW + 1,
        )
        .unwrap();

    let results = store.list_messages(
        None,
        &vec!["decision".to_string()],
        None,
        None,
        None,
        None,
        None,
        10,
    );
    assert_eq!(results.len(), 1);
    assert!(results[0].tags.contains(&"decision".to_string()));
}

#[test]
fn test_insert_and_get_message() {
    let mut store = Store::new();
    let message = Message {
        id: 0,
        from_agent: "agent-1".to_string(),
        content: "test content".to_string(),
        tags: vec!["test".to_string()],
        priority: Priority::Normal,
        in_reply_to: None,
        refs: vec![],
        created_at: NOW,
    };

    let id = store.insert_message(&message).unwrap();
    assert!(id > 0);

    let retrieved = store.get_message(id).unwrap();
    assert_eq!(retrieved.from_agent, "agent-1");
    assert_eq!(retrieved.content, "test content");
}

#[test]
fn test_find_messages_by_ref() {
    let mut store = Store::new();

    store
        .post_message(
            "agent-1",
            "test content",
            vec![],
            Priority::Normal,
            None,
            vec![num_ref("tt", "task", 13)],
            NOW,
        )
        .unwrap();

    let results = store.find_references("tt", "task", &RefValue::Num(13));
    assert_eq!(results.messages.len(), 1);
}

#[test]
fn test_delete_messages_before() {
    let mut store = Store::new();

    store
        .post_message("agent-1", "Old message", vec![], Priority::Normal, None, vec![], NOW - 864000)
        .unwrap();

    let cutoff = NOW - 432000;
    let deleted = store.delete_messages_before(cutoff);

    assert_eq!(deleted, 1);
}

#[test]
fn message_test_delete_messages_before() {
    let mut store = Store::new();

    store
        .post_message("agent-1", "old", vec![], Priority::Normal, None, vec![], NOW - 864000)
        .unwrap();
    store
        .post_message("agent-1", "new", vec![], Priority::Normal, None, vec![], NOW)
        .unwrap();

    let deleted = store.delete_messages_before(NOW - 432000);
    assert_eq!(deleted, 1);
    let remaining = store.list_messages(None, &vec![], None, None, None, None, None, 100);
    assert_eq!(remaining.len(), 1);
    assert_eq!(remaining[0].content, "new");
}

#[test]
fn test_list_messages_priority_floor() {
    let mut store = Store::new();

    for (content, prio) in [
        ("low msg", Priority::Low),
        ("normal msg", Priority::Normal),
        ("high msg", Priority::High),
        ("critical msg", Priority::Critical),
    ] {
        store
            .post_message("agent-1", content, vec![], prio, None, vec![], NOW)
            .unwrap();
    }

    let results =
        store.list_messages(None, &vec![], None, Some(Priority::High), None, None, None, 10);
    assert_eq!(results.len(), 2);
    assert!(results
        .iter()
        .all(|m| m.priority == Priority::High || m.priority == Priority::Critical));
}

#[test]
fn test_list_messages_newest_first_and_limit_cap() {
    let mut store = Store::new();
    for k in 0..120 {
        store
            .post_message("agent-1", "m", vec![], Priority::Normal, None, vec![], NOW + k)
            .unwrap();
    }
    let results = store.list_messages(None, &vec![], None, None, None, None, None, 500);
    assert_eq!(results.len(), 100);
    assert_eq!(results[0].created_at, NOW + 119);
    assert!(results.windows(2).all(|w| w[0].created_at >= w[1].created_at));
}

#[test]
fn test_list_messages_since_and_from_filters() {
    let mut store = Store::new();
    store
        .post_message("a", "early", vec![], Priority::Normal, None, vec![], NOW - 100)
        .unwrap();
    store
        .post_message("b", "late", vec![], Priority::Normal, None, vec![], NOW)
        .unwrap();

    let since = store.list_messages(Some(NOW - 50), &vec![], None, None, None, None, None, 10);
    assert_eq!(since.len(), 1);
    assert_eq!(since[0].content, "late");

    let from = store.list_messages(None, &vec![], Some("a"), None, None, None, None, 10);
    assert_eq!(from.len(), 1);
    assert_eq!(from[0].content, "early");
}

#[test]
fn test_list_ref_filter_is_type_sensitive() {
    let mut store = Store::new();
    store
        .post_message(
            "a",
            "text-ref",
            vec![],
            Priority::Normal,
            None,
            vec![text_ref("tt", "task", "13")],
            NOW,
        )
        .unwrap();
    store
        .post_message(
            "a",
            "num-ref",
            vec![],
            Priority::Normal,
            None,
            vec![num_ref("tt", "task", 13)],
            NOW + 1,
        )
        .unwrap();

    let hits =
        store.list_messages(None, &vec![], None, None, Some("tt"), Some("task"), Some("13"), 10);
    assert_eq!(hits.len(), 1);
    assert_eq!(hits[0].content, "num-ref");
}

#[test]
fn test_replies_capped_at_fifty_oldest_first() {
    let mut store = Store::new();
    let parent = store
        .post_message("a", "parent", vec![], Priority::Normal, None, vec![], NOW)
        .unwrap();
    for k in 0..60 {
        store
            .post_message("a", "r", vec![], Priority::Normal, Some(parent.id), vec![], NOW + 1 + k)
            .unwrap();
    }
    let replies = store.get_message_replies(parent.id);
    assert_eq!(replies.len(), 50);
    assert_eq!(replies[0].created_at, NOW + 1);
    assert!(replies.windows(2).all(|w| w[0].created_at <= w[1].created_at));
}

#[test]
fn test_register_artifact() {
    let mut store = Store::new();

    let artifact = store
        .register_artifact(
            "src/main.rs",
            "agent-1",
            "Main entry point",
            Some("v1.0.0"),
            vec![],
            NOW,
            PathResolution::Inside,
        )
        .unwrap();

    assert!(artifact.id > 0);
    assert_eq!(artifact.path, "src/main.rs");
    assert_eq!(artifact.produced_by, "agent-1");
    assert_eq!(artifact.description, "Main entry point");
    assert_eq!(artifact.version, Some("v1.0.0".to_string()));
}

#[test]
fn test_register_artifact_upserts() {
    let mut store = Store::new();

    store
        .register_artifact(
            "src/main.rs",
            "agent-1",
            "First description",
            Some("v1.0.0"),
            vec![],
            NOW,
            PathResolution::Inside,
        )
        .unwrap();

    let artifact = store
        .register_artifact(
            "src/main.rs",
            "agent-2",
            "Updated description",
            Some("v2.0.0"),
            vec![],
            NOW + 1,
            PathResolution::Inside,
        )
        .unwrap();

    assert_eq!(artifact.produced_by, "agent-2");
    assert_eq!(artifact.description, "Updated description");
    assert_eq!(artifact.version, Some("v2.0.0".to_string()));

    let listed = store.list_artifacts(None, None, None, None, 10);
    assert_eq!(listed.len(), 1);
    assert_eq!(listed[0].path, "src/main.rs");
}

#[test]
fn test_register_artifact_traversal_fails() {
    let mut store = Store::new();

    let result = store.register_artifact(
        "../etc/passwd",
        "agent-1",
        "Malicious",
        None,
        vec![],
        NOW,
        PathResolution::Inside,
    );

    assert!(result.is_err());
}

#[test]
fn test_register_artifact_rejects_bad_paths_before_storage() {
    let mut store = Store::new();

    assert!(matches!(
        store.register_artifact("../secret", "a", "d", None, vec![], NOW, PathResolution::Inside),
        Err(BBError::PathTraversal(_))
    ));
    assert!(matches!(
        store.register_artifact("/etc/passwd", "a", "d", None, vec![], NOW, PathResolution::Inside),
        Err(BBError::PathTraversal(_))
    ));
    assert!(matches!(
        store.register_artifact("link/out", "a", "d", None, vec![], NOW, PathResolution::Outside),
        Err(BBError::PathTraversal(_))
    ));

    let listed = store.list_artifacts(None, None, None, None, 10);
    assert!(listed.is_empty());
}

#[test]
fn test_upsert_artifact() {
    let mut store = Store::new();
    let artifact = Artifact {
        id: 0,
        path: "src/lib.rs".to_string(),
        produced_by: "agent-1".to_string(),
        description: "Library".to_string(),
        version: None,
        refs: vec![],
        created_at: NOW,
    };
    let id = store.upsert_artifact(&artifact).unwrap();
    assert!(id > 0);

    let retrieved = store.get_artifact_by_path("src/lib.rs").unwrap();
    assert_eq!(retrieved.produced_by, "agent-1");
    assert_eq!(retrieved.id, id);
}

#[test]
fn test_upsert_updates_existing() {
    let mut store = Store::new();
    let mut artifact = Artifact {
        id: 0,
        path: "src/lib.rs".to_string(),
        produced_by: "agent-1".to_string(),
        description: "Library".to_string(),
        version: None,
        refs: vec![],
        created_at: NOW,
    };
    let first_id = store.upsert_artifact(&artifact).unwrap();

    artifact.produced_by = "agent-2".to_string();
    artifact.description = "Updated".to_string();
    let second_id = store.upsert_artifact(&artifact).unwrap();

    assert_eq!(first_id, second_id);
    let retrieved = store.get_artifact_by_path("src/lib.rs").unwrap();
    assert_eq!(retrieved.produced_by, "agent-2");
    assert_eq!(retrieved.description, "Updated");
}

#[test]
fn test_list_artifacts_by_producer() {
    let mut store = Store::new();

    store
        .register_artifact("src/main.rs", "agent-1", "Main", None, vec![], NOW, PathResolution::Inside)
        .unwrap();
    store
        .register_artifact("src/lib.rs", "agent-2", "Lib", None, vec![], NOW + 1, PathResolution::Inside)
        .unwrap();

    let results = store.list_artifacts(Some("agent-1"), None, None, None, 10);
    assert_eq!(results.len(), 1);
    assert_eq!(results[0].path, "src/main.rs");
}

#[test]
fn artifact_test_list_artifacts_by_producer() {
    let mut store = Store::new();
    store
        .register_artifact("a.rs", "p1", "one", None, vec![], NOW, PathResolution::Inside)
        .unwrap();
    store
        .register_artifact("b.rs", "p2", "two", None, vec![], NOW + 1, PathResolution::Inside)
        .unwrap();
    store
        .register_artifact("c.rs", "p1", "three", None, vec![], NOW + 2, PathResolution::Inside)
        .unwrap();

    let results = store.list_artifacts(Some("p1"), None, None, None, 10);
    assert_eq!(results.len(), 2);
    assert!(results.iter().all(|a| a.produced_by == "p1"));
}

#[test]
fn test_clear_artifacts() {
    let mut store = Store::new();

    store
        .register_artifact("src/main.rs", "agent-1", "Main", None, vec![], NOW, PathResolution::Inside)
        .unwrap();

    let cleared = store.clear_artifacts();
    assert_eq!(cleared, 1);

    let remaining = store.list_artifacts(None, None, None, None, 10);
    assert!(remaining.is_empty());
}

#[test]
fn artifact_test_clear_artifacts() {
    let mut store = Store::new();
    store
        .register_artifact("x.rs", "p", "d", None, vec![], NOW, PathResolution::Inside)
        .unwrap();
    store
        .register_artifact("y.rs", "p", "d", None, vec![], NOW, PathResolution::Inside)
        .unwrap();
    assert_eq!(store.clear_artifacts(), 2);
    assert!(store.list_artifacts(None, None, None, None, 10).is_empty());
}

#[test]
fn test_find_artifacts_by_ref() {
    let mut store = Store::new();

    store
        .register_artifact(
            "src/main.rs",
            "agent-1",
            "Main file",
            None,
            vec![num_ref("tt", "task", 13)],
            NOW,
            PathResolution::Inside,
        )
        .unwrap();

    let results = store.find_references("tt", "task", &RefValue::Num(13));
    assert_eq!(results.artifacts.len(), 1);
}

#[test]
fn test_find_references() {
    let mut store = Store::new();

    store
        .post_message(
            "agent-1",
            "Test message",
            vec![],
            Priority::Normal,
            None,
            vec![num_ref("tt", "task", 13)],
            NOW,
        )
        .unwrap();

    store
        .register_artifact(
            "src/main.rs",
            "agent-1",
            "Main file",
            None,
            vec![num_ref("tt", "task", 13)],
            NOW,
            PathResolution::Inside,
        )
        .unwrap();

    let results = store.find_references("tt", "task", &RefValue::Num(13));

    assert_eq!(results.messages.len(), 1);
    assert_eq!(results.artifacts.len(), 1);
}

#[test]
fn test_find_references_no_matches() {
    let store = Store::new();

    let results = store.find_references("tt", "task", &RefValue::Num(999));

    assert!(results.messages.is_empty());
    assert!(results.artifacts.is_empty());
}

#[test]
fn test_find_references_cross_type() {
    let mut store = Store::new();

    store
        .post_message(
            "agent-1",
            "stored as number",
            vec![],
            Priority::Normal,
            None,
            vec![num_ref("tt", "task", 13)],
            NOW,
        )
        .unwrap();
    store
        .post_message(
            "agent-1",
            "stored as text",
            vec![],
            Priority::Normal,
            None,
            vec![text_ref("tt", "task", "13")],
            NOW + 1,
        )
        .unwrap();

    let by_text = store.find_references("tt", "task", &RefValue::Text("13".to_string()));
    assert_eq!(by_text.messages.len(), 2);

    let by_num = store.find_references("tt", "task", &RefValue::Num(13));
    assert_eq!(by_num.messages.len(), 2);
}

#[test]
fn test_from_rows_refuses_corrupt_rows() {
    let a1 = Agent::new("same-id", NOW);
    let a2 = Agent::new("same-id", NOW + 1);
    let r = Store::from_rows(vec![a1, a2], vec![], vec![], 1, 1);
    assert!(matches!(r, Err(BBError::Persistence)));

    let m1 = Message {
        id: 5,
        from_agent: "a".to_string(),
        content: "x".to_string(),
        tags: vec![],
        priority: Priority::Normal,
        in_reply_to: None,
        refs: vec![],
        created_at: NOW,
    };
    let mut m2 = m1.clone();
    m2.id = 3;
    let r = Store::from_rows(vec![], vec![m1, m2], vec![], 10, 1);
    assert!(matches!(r, Err(BBError::Persistence)));
}

#[test]
fn test_from_rows_round_trips_a_store() {
    let mut store = Store::new();
    store
        .post_message("a", "hello", vec![], Priority::Normal, None, vec![], NOW)
        .unwrap();
    store
        .register_artifact("x.rs", "a", "d", None, vec![], NOW, PathResolution::Inside)
        .unwrap();

    let rebuilt = Store::from_rows(
        store.agent_rows().clone(),
        store.message_rows().clone(),
        store.artifact_rows().clone(),
        store.next_message_id(),
        store.next_artifact_id(),
    )
    .unwrap();
    assert_eq!(
        rebuilt.list_messages(None, &vec![], None, None, None, None, None, 10).len(),
        1
    );
    assert_eq!(rebuilt.list_artifacts(None, None, None, None, 10).len(), 1);
}

#[test]
fn test_content_at_maximum_length_is_accepted() {
    let mut store = Store::new();
    let content = "a".repeat(65536);
    assert!(store
        .post_message("a", &content, vec![], Priority::Normal, None, vec![], NOW)
        .is_ok());
    let over = "a".repeat(65537);
    assert!(store
        .post_message("a", &over, vec![], Priority::Normal, None, vec![], NOW)
        .is_err());
}

#[test]
fn test_too_many_refs_rejected() {
    let mut store = Store::new();
    let refs: Vec<Reference> = (0..21).map(|k| num_ref("tt", "task", k)).collect();
    let result = store.post_message("a", "content", vec![], Priority::Normal, None, refs, NOW);
    assert!(result.is_err());
}
