use blackboard::agent::AgentStatus;
use blackboard::errors::BBError;
use blackboard::identity::IdentityResolver;
use blackboard::message::Priority;
use blackboard::reference::RefValue;
use blackboard::server::{
    error_code, lookup_tool, route_method, BlackboardMcpServer, FindRefsInput, GetStatusInput,
    IdentifyInput, ListArtifactsInput, PostMessageInput, ReadMessagesInput, RefInput,
    RegisterArtifactInput, RpcRoute, SetStatusInput, ToolCall, ToolKind, ToolOutput,
    JSONRPC_METHOD_NOT_FOUND, JSONRPC_PARSE_ERROR,
};
use blackboard::store::Store;
use blackboard::validation::PathResolution;

const NOW: i64 = 1_700_000_000;

fn server_with(fixed: Option<&str>, env: Option<&str>) -> BlackboardMcpServer {
    BlackboardMcpServer::new(
        IdentityResolver::new(fixed.map(|s| s.to_string()), env.map(|s| s.to_string())),
        true,
    )
}

fn post_input(content: &str) -> PostMessageInput {
    PostMessageInput {
        content: content.to_string(),
        tags: None,
        priority: None,
        reply_to: None,
        refs: None,
    }
}

#[test]
fn test_route_method_names() {
    assert_eq!(route_method("initialize"), RpcRoute::Initialize);
    assert_eq!(route_method("tools/list"), RpcRoute::ToolsList);
    assert_eq!(route_method("tools/call"), RpcRoute::ToolsCall);
    assert_eq!(route_method("shutdown"), RpcRoute::Unknown);
}

#[test]
fn test_lookup_tool_names() {
    assert_eq!(lookup_tool("identify"), Some(ToolKind::Identify));
    assert_eq!(lookup_tool("set_status"), Some(ToolKind::SetStatus));
    assert_eq!(lookup_tool("get_status"), Some(ToolKind::GetStatus));
    assert_eq!(lookup_tool("post_message"), Some(ToolKind::PostMessage));
    assert_eq!(lookup_tool("read_messages"), Some(ToolKind::ReadMessages));
    assert_eq!(lookup_tool("register_artifact"), Some(ToolKind::RegisterArtifact));
    assert_eq!(lookup_tool("list_artifacts"), Some(ToolKind::ListArtifacts));
    assert_eq!(lookup_tool("find_refs"), Some(ToolKind::FindRefs));
    assert_eq!(lookup_tool("summary"), Some(ToolKind::Summary));
    assert_eq!(lookup_tool("unknown_tool"), None);
}

#[test]
fn test_error_codes_are_stable() {
    assert_eq!(error_code(&BBError::NotInitialized), -32001);
    assert_eq!(error_code(&BBError::IdentityRequired), -32002);
    assert_eq!(
        error_code(&BBError::InvalidInput(blackboard::errors::InvalidReason::ContentEmpty)),
        -32003
    );
    assert_eq!(error_code(&BBError::IdentityAlreadyFixed), -32003);
    assert_eq!(error_code(&BBError::IdentityConflict), -32003);
    assert_eq!(error_code(&BBError::NotFound), -32004);
    assert_eq!(error_code(&BBError::InvalidRefFormat), -32005);
    assert_eq!(
        error_code(&BBError::PathTraversal(blackboard::errors::TraversalReason::AbsolutePath)),
        -32006
    );
    assert_eq!(error_code(&BBError::DatabaseBusy), -32007);
    assert_eq!(error_code(&BBError::Io), -32008);
    assert_eq!(error_code(&BBError::Persistence), -32009);
    assert_eq!(error_code(&BBError::Serialization), -32010);
    assert_eq!(JSONRPC_PARSE_ERROR, -32700);
    assert_eq!(JSONRPC_METHOD_NOT_FOUND, -32601);
}

#[test]
fn test_uninitialized_refuses_every_call() {
    let mut server = BlackboardMcpServer::new(IdentityResolver::new(None, None), false);
    let mut store = Store::new();
    let r = server.handle_tool(&mut store, ToolCall::Summary, NOW);
    assert!(matches!(r, Err(BBError::NotInitialized)));
    let r = server.handle_tool(
        &mut store,
        ToolCall::PostMessage(post_input("hello")),
        NOW,
    );
    assert!(matches!(r, Err(BBError::NotInitialized)));
    assert!(store.list_messages(None, &vec![], None, None, None, None, None, 10).is_empty());
}

#[test]
fn test_identify_tool_establishes_identity() {
    let mut server = server_with(None, None);
    let mut store = Store::new();
    let r = server.handle_tool(
        &mut store,
        ToolCall::Identify(IdentifyInput { agent_id: "agent-x".to_string() }),
        NOW,
    );
    match r {
        Ok(ToolOutput::Identity(o)) => {
            assert_eq!(o.agent_id, "agent-x");
            assert_eq!(o.source, "identify");
        }
        other => panic!("unexpected outcome: {:?}", other),
    }
    assert_eq!(server.identity.resolve(), Some("agent-x".to_string()));
}

#[test]
fn test_identify_tool_env_noop_and_conflict() {
    let mut server = server_with(None, Some("B"));
    let mut store = Store::new();
    let r = server.handle_tool(
        &mut store,
        ToolCall::Identify(IdentifyInput { agent_id: "B".to_string() }),
        NOW,
    );
    match r {
        Ok(ToolOutput::Identity(o)) => assert_eq!(o.source, "env"),
        other => panic!("unexpected outcome: {:?}", other),
    }
    let r = server.handle_tool(
        &mut store,
        ToolCall::Identify(IdentifyInput { agent_id: "C".to_string() }),
        NOW,
    );
    assert!(matches!(r, Err(BBError::IdentityConflict)));
}

#[test]
fn test_write_tools_require_identity() {
    let mut server = server_with(None, None);
    let mut store = Store::new();

    let r = server.handle_tool(&mut store, ToolCall::PostMessage(post_input("hi")), NOW);
    assert!(matches!(r, Err(BBError::IdentityRequired)));

    let r = server.handle_tool(
        &mut store,
        ToolCall::SetStatus(SetStatusInput {
            current_task: Some("t".to_string()),
            progress: None,
            status: None,
            blockers: None,
        }),
        NOW,
    );
    assert!(matches!(r, Err(BBError::IdentityRequired)));

    let r = server.handle_tool(
        &mut store,
        ToolCall::RegisterArtifact(
            RegisterArtifactInput {
                path: "src/a.rs".to_string(),
                description: "d".to_string(),
                version: None,
                refs: None,
            },
            PathResolution::Inside,
        ),
        NOW,
    );
    assert!(matches!(r, Err(BBError::IdentityRequired)));
}

#[test]
fn test_set_status_uses_resolved_identity() {
    let mut server = server_with(Some("fixed-agent"), None);
    let mut store = Store::new();
    let r = server.handle_tool(
        &mut store,
        ToolCall::SetStatus(SetStatusInput {
            current_task: Some("building".to_string()),
            progress: Some(40),
            status: Some("coding".to_string()),
            blockers: None,
        }),
        NOW,
    );
    match r {
        Ok(ToolOutput::Agent(a)) => {
            assert_eq!(a.id, "fixed-agent");
            assert_eq!(a.current_task, "building");
            assert_eq!(a.progress, 40);
            assert_eq!(a.status, AgentStatus::Coding);
        }
        other => panic!("unexpected outcome: {:?}", other),
    }
}

#[test]
fn test_get_status_all_persists_offline_sweep() {
    let mut server = server_with(None, None);
    let mut store = Store::new();
    store
        .update_agent_status("old-agent", None, None, Some(AgentStatus::Coding), None, NOW - 2400)
        .unwrap();

    let r = server.handle_tool(
        &mut store,
        ToolCall::GetStatus(GetStatusInput { agent_id: None }),
        NOW,
    );
    match r {
        Ok(ToolOutput::Agents(v)) => {
            assert_eq!(v.len(), 1);
            assert_eq!(v[0].agent.status, AgentStatus::Offline);
            assert_eq!(v[0].minutes_since_last_seen, 40);
        }
        other => panic!("unexpected outcome: {:?}", other),
    }
    let persisted = store.get_agent("old-agent").unwrap().unwrap();
    assert_eq!(persisted.status, AgentStatus::Offline);
}

#[test]
fn test_get_status_single_does_not_sweep() {
    let mut server = server_with(None, None);
    let mut store = Store::new();
    store
        .update_agent_status("old-agent", None, None, Some(AgentStatus::Coding), None, NOW - 2400)
        .unwrap();

    let r = server.handle_tool(
        &mut store,
        ToolCall::GetStatus(GetStatusInput { agent_id: Some("old-agent".to_string()) }),
        NOW,
    );
    match r {
        Ok(ToolOutput::Agents(v)) => {
            assert_eq!(v.len(), 1);
            assert_eq!(v[0].agent.status, AgentStatus::Coding);
            assert_eq!(v[0].liveness, blackboard::agent::Liveness::Offline);
        }
        other => panic!("unexpected outcome: {:?}", other),
    }
    let persisted = store.get_agent("old-agent").unwrap().unwrap();
    assert_eq!(persisted.status, AgentStatus::Coding);
}

#[test]
fn test_get_status_touches_resolved_agent() {
    let mut server = server_with(Some("me"), None);
    let mut store = Store::new();
    let r = server.handle_tool(
        &mut store,
        ToolCall::GetStatus(GetStatusInput { agent_id: None }),
        NOW,
    );
    assert!(r.is_ok());
    let me = store.get_agent("me").unwrap().unwrap();
    assert_eq!(me.last_seen, NOW);
}

#[test]
fn test_get_status_unknown_agent_is_not_found() {
    let mut server = server_with(None, None);
    let mut store = Store::new();
    let r = server.handle_tool(
        &mut store,
        ToolCall::GetStatus(GetStatusInput { agent_id: Some("ghost".to_string()) }),
        NOW,
    );
    assert!(matches!(r, Err(BBError::NotFound)));
}

#[test]
fn test_post_message_reply_to_missing_is_not_found() {
    let mut server = server_with(Some("me"), None);
    let mut store = Store::new();
    let mut input = post_input("a reply");
    input.reply_to = Some(4242);
    let r = server.handle_tool(&mut store, ToolCall::PostMessage(input), NOW);
    assert!(matches!(r, Err(BBError::NotFound)));
    assert!(store.list_messages(None, &vec![], None, None, None, None, None, 10).is_empty());
}

#[test]
fn test_post_and_read_messages_through_server() {
    let mut server = server_with(Some("me"), None);
    let mut store = Store::new();

    let mut input = post_input("needs attention");
    input.priority = Some("high".to_string());
    input.tags = Some(vec!["alert".to_string()]);
    let r = server.handle_tool(&mut store, ToolCall::PostMessage(input), NOW);
    let posted = match r {
        Ok(ToolOutput::Message(m)) => m,
        other => panic!("unexpected outcome: {:?}", other),
    };
    assert_eq!(posted.priority, Priority::High);
    assert_eq!(posted.from_agent, "me");

    let r = server.handle_tool(
        &mut store,
        ToolCall::ReadMessages(ReadMessagesInput {
            since: None,
            tags: None,
            from_agent: None,
            priority: Some("high".to_string()),
            ref_where: None,
            ref_what: None,
            ref_ref: None,
            limit: None,
        }),
        NOW + 10,
    );
    match r {
        Ok(ToolOutput::Messages(v)) => {
            assert_eq!(v.len(), 1);
            assert_eq!(v[0].content, "needs attention");
        }
        other => panic!("unexpected outcome: {:?}", other),
    }
}

#[test]
fn test_read_messages_priority_floor_excludes_lower() {
    let mut server = server_with(Some("me"), None);
    let mut store = Store::new();
    for (content, prio) in [("l", "low"), ("n", "normal"), ("h", "high"), ("c", "critical")] {
        let mut input = post_input(content);
        input.priority = Some(prio.to_string());
        server.handle_tool(&mut store, ToolCall::PostMessage(input), NOW).unwrap();
    }
    let r = server.handle_tool(
        &mut store,
        ToolCall::ReadMessages(ReadMessagesInput {
            since: None,
            tags: None,
            from_agent: None,
            priority: Some("high".to_string()),
            ref_where: None,
            ref_what: None,
            ref_ref: None,
            limit: None,
        }),
        NOW,
    );
    match r {
        Ok(ToolOutput::Messages(v)) => {
            assert_eq!(v.len(), 2);
            assert!(v
                .iter()
                .all(|m| m.priority == Priority::High || m.priority == Priority::Critical));
        }
        other => panic!("unexpected outcome: {:?}", other),
    }
}

#[test]
fn test_read_messages_bad_since_duration_fails() {
    let mut server = server_with(None, None);
    let mut store = Store::new();
    let r = server.handle_tool(
        &mut store,
        ToolCall::ReadMessages(ReadMessagesInput {
            since: Some("10x".to_string()),
            tags: None,
            from_agent: None,
            priority: None,
            ref_where: None,
            ref_what: None,
            ref_ref: None,
            limit: None,
        }),
        NOW,
    );
    assert!(matches!(r, Err(BBError::InvalidInput(_))));
}

#[test]
fn test_register_and_list_artifacts_through_server() {
    let mut server = server_with(Some("me"), None);
    let mut store = Store::new();
    let r = server.handle_tool(
        &mut store,
        ToolCall::RegisterArtifact(
            RegisterArtifactInput {
                path: "docs/notes.md".to_string(),
                description: "notes".to_string(),
                version: Some("v1".to_string()),
                refs: Some(vec![RefInput {
                    where_: "tt".to_string(),
                    what: "task".to_string(),
                    ref_: RefValue::Num(7),
                }]),
            },
            PathResolution::Inside,
        ),
        NOW,
    );
    let art = match r {
        Ok(ToolOutput::Artifact(a)) => a,
        other => panic!("unexpected outcome: {:?}", other),
    };
    assert_eq!(art.produced_by, "me");

    let r = server.handle_tool(
        &mut store,
        ToolCall::ListArtifacts(ListArtifactsInput {
            by: Some("me".to_string()),
            ref_where: None,
            ref_what: None,
            ref_ref: None,
            limit: None,
        }),
        NOW,
    );
    match r {
        Ok(ToolOutput::Artifacts(v)) => {
            assert_eq!(v.len(), 1);
            assert_eq!(v[0].path, "docs/notes.md");
        }
        other => panic!("unexpected outcome: {:?}", other),
    }
}

#[test]
fn test_register_artifact_escaping_path_rejected_through_server() {
    let mut server = server_with(Some("me"), None);
    let mut store = Store::new();
    let r = server.handle_tool(
        &mut store,
        ToolCall::RegisterArtifact(
            RegisterArtifactInput {
                path: "../secret".to_string(),
                description: "d".to_string(),
                version: None,
                refs: None,
            },
            PathResolution::Inside,
        ),
        NOW,
    );
    assert!(matches!(r, Err(BBError::PathTraversal(_))));
    assert!(store.list_artifacts(None, None, None, None, 10).is_empty());
}

#[test]
fn test_find_refs_is_type_insensitive_through_server() {
    let mut server = server_with(Some("me"), None);
    let mut store = Store::new();
    let mut input = post_input("about task 13");
    input.refs = Some(vec![RefInput {
        where_: "tt".to_string(),
        what: "task".to_string(),
        ref_: RefValue::Text("13".to_string()),
    }]);
    server.handle_tool(&mut store, ToolCall::PostMessage(input), NOW).unwrap();

    let r = server.handle_tool(
        &mut store,
        ToolCall::FindRefs(FindRefsInput {
            where_: "tt".to_string(),
            what: "task".to_string(),
            ref_: "13".to_string(),
        }),
        NOW,
    );
    match r {
        Ok(ToolOutput::Refs(res)) => {
            assert_eq!(res.messages.len(), 1);
            assert!(res.artifacts.is_empty());
        }
        other => panic!("unexpected outcome: {:?}", other),
    }
}

#[test]
fn test_summary_composition() {
    let mut server = server_with(Some("me"), None);
    let mut store = Store::new();

    store
        .update_agent_status("stuck", None, None, Some(AgentStatus::Blocked), Some("waiting"), NOW)
        .unwrap();
    store
        .post_message("me", "recent", vec![], Priority::Normal, None, vec![], NOW - 60)
        .unwrap();
    store
        .post_message("me", "ancient critical", vec![], Priority::Critical, None, vec![], NOW - 86400)
        .unwrap();
    store
        .register_artifact("new.rs", "me", "fresh", None, vec![], NOW - 60, PathResolution::Inside)
        .unwrap();
    store
        .register_artifact("old.rs", "me", "stale", None, vec![], NOW - 7200, PathResolution::Inside)
        .unwrap();

    let r = server.handle_tool(&mut store, ToolCall::Summary, NOW);
    match r {
        Ok(ToolOutput::Summary(s)) => {
            assert_eq!(s.agents.len(), 1);
            assert_eq!(s.blocked_agents.len(), 1);
            assert_eq!(s.blocked_agents[0].agent.id, "stuck");
            assert_eq!(s.recent_messages.len(), 1);
            assert_eq!(s.recent_messages[0].content, "recent");
            assert_eq!(s.high_priority_messages.len(), 1);
            assert_eq!(s.high_priority_messages[0].content, "ancient critical");
            assert_eq!(s.recent_artifacts.len(), 1);
            assert_eq!(s.recent_artifacts[0].path, "new.rs");
        }
        other => panic!("unexpected outcome: {:?}", other),
    }
}
