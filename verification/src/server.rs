//! The protocol dispatcher's decision core: method routing, the initialized
//! gate, identity gating, tool execution against the store, and the mapping
//! of every error kind to its stable numeric code.
//!
//! The boundary owns the byte stream: it reads one line, decodes one request,
//! hands the decoded call here, and serializes the outcome (a tool result as
//! one text content block, or the mapped error) back out, one response per
//! request line in arrival order.

use crate::agent::{Agent, AgentStatus, AgentV, Liveness, status_of_str};
use crate::artifact::{Artifact, ArtifactV};
use crate::duration::{parse_duration, parse_duration_spec};
use crate::errors::{BBError, BBResult};
use crate::identity::{
    identify_result, identify_state, resolve_spec, IdentifyResponseV, IdentityResolver,
};
use crate::liveness::{classify_liveness, classify_spec, minutes_between, minutes_since};
use crate::message::{priority_of_str, Message, MessageV, Priority};
use crate::reference::{classify_token, token_to_ref_value, RefValue, Reference, ReferenceV};
use crate::sort::{sort_agents_spec, sort_arts, sort_msgs};
use crate::store::{
    filter_arts, filter_arts_byref, filter_msgs, filter_msgs_byref, opt_i64_view, opt_str_view,
    post_error, register_error, status_update_base, status_update_error, sweep_agent,
    take_at_most, upsert_agent_seq, upsert_artifact_seq, upsert_artifact_stored, ArtQueryV,
    MsgQueryV, RefQueryV, ReferenceResults, Store, StoreV,
};
use crate::text::str_eq;
use crate::validation::{validate_agent_id_spec, PathResolution};
use vstd::prelude::*;

verus! {

/// The code a line that fails to parse as a request is answered with.
pub const JSONRPC_PARSE_ERROR: i64 = -32700;

/// The code an unknown top-level method is answered with.
pub const JSONRPC_METHOD_NOT_FOUND: i64 = -32601;

/// The route a top-level method name selects.
#[derive(Clone, Copy, Debug, PartialEq, Eq, Structural)]
pub enum RpcRoute {
    Initialize,
    ToolsList,
    ToolsCall,
    Unknown,
}

/// The route each method name selects; anything unrecognized is Unknown.
pub open spec fn route_of(m: Seq<char>) -> RpcRoute {
    if m == "initialize"@ {
        RpcRoute::Initialize
    } else if m == "tools/list"@ {
        RpcRoute::ToolsList
    } else if m == "tools/call"@ {
        RpcRoute::ToolsCall
    } else {
        RpcRoute::Unknown
    }
}

/// Routes a top-level method name.
pub fn route_method(method: &str) -> (r: RpcRoute)
    ensures
        r == route_of(method@),
{
    if str_eq(method, "initialize") {
        RpcRoute::Initialize
    } else if str_eq(method, "tools/list") {
        RpcRoute::ToolsList
    } else if str_eq(method, "tools/call") {
        RpcRoute::ToolsCall
    } else {
        RpcRoute::Unknown
    }
}

/// The stable negative code each error kind maps to.
pub open spec fn error_code_spec(e: BBError) -> int {
    match e {
        BBError::NotInitialized => -32001,
        BBError::IdentityRequired => -32002,
        BBError::InvalidInput(_) => -32003,
        BBError::IdentityAlreadyFixed => -32003,
        BBError::IdentityConflict => -32003,
        BBError::NotFound => -32004,
        BBError::InvalidRefFormat => -32005,
        BBError::PathTraversal(_) => -32006,
        BBError::DatabaseBusy => -32007,
        BBError::Io => -32008,
        BBError::Persistence => -32009,
        BBError::Serialization => -32010,
    }
}

/// Maps an error kind to its stable numeric code.
pub fn error_code(e: &BBError) -> (r: i64)
    ensures
        r as int == error_code_spec(*e),
{
    match e {
        BBError::NotInitialized => -32001,
        BBError::IdentityRequired => -32002,
        BBError::InvalidInput(_) => -32003,
        BBError::IdentityAlreadyFixed => -32003,
        BBError::IdentityConflict => -32003,
        BBError::NotFound => -32004,
        BBError::InvalidRefFormat => -32005,
        BBError::PathTraversal(_) => -32006,
        BBError::DatabaseBusy => -32007,
        BBError::Io => -32008,
        BBError::Persistence => -32009,
        BBError::Serialization => -32010,
    }
}

/// The domain tools the dispatcher exposes.
#[derive(Clone, Copy, Debug, PartialEq, Eq, Structural)]
pub enum ToolKind {
    Identify,
    SetStatus,
    GetStatus,
    PostMessage,
    ReadMessages,
    RegisterArtifact,
    ListArtifacts,
    FindRefs,
    Summary,
}

/// The tool each name designates, if any.
pub open spec fn tool_kind_of(name: Seq<char>) -> Option<ToolKind> {
    if name == "identify"@ {
        Some(ToolKind::Identify)
    } else if name == "set_status"@ {
        Some(ToolKind::SetStatus)
    } else if name == "get_status"@ {
        Some(ToolKind::GetStatus)
    } else if name == "post_message"@ {
        Some(ToolKind::PostMessage)
    } else if name == "read_messages"@ {
        Some(ToolKind::ReadMessages)
    } else if name == "register_artifact"@ {
        Some(ToolKind::RegisterArtifact)
    } else if name == "list_artifacts"@ {
        Some(ToolKind::ListArtifacts)
    } else if name == "find_refs"@ {
        Some(ToolKind::FindRefs)
    } else if name == "summary"@ {
        Some(ToolKind::Summary)
    } else {
        None
    }
}

/// Resolves a tool name to its kind.
pub fn lookup_tool(name: &str) -> (r: Option<ToolKind>)
    ensures
        r == tool_kind_of(name@),
{
    if str_eq(name, "identify") {
        Some(ToolKind::Identify)
    } else if str_eq(name, "set_status") {
        Some(ToolKind::SetStatus)
    } else if str_eq(name, "get_status") {
        Some(ToolKind::GetStatus)
    } else if str_eq(name, "post_message") {
        Some(ToolKind::PostMessage)
    } else if str_eq(name, "read_messages") {
        Some(ToolKind::ReadMessages)
    } else if str_eq(name, "register_artifact") {
        Some(ToolKind::RegisterArtifact)
    } else if str_eq(name, "list_artifacts") {
        Some(ToolKind::ListArtifacts)
    } else if str_eq(name, "find_refs") {
        Some(ToolKind::FindRefs)
    } else if str_eq(name, "summary") {
        Some(ToolKind::Summary)
    } else {
        None
    }
}

/// Arguments of the `identify` tool.
#[derive(Debug)]
pub struct IdentifyInput {
    pub agent_id: String,
}

/// Result of the `identify` tool.
#[derive(Debug)]
pub struct IdentifyOutput {
    pub agent_id: String,
    pub source: String,
}

/// Arguments of the `set_status` tool.
#[derive(Debug)]
pub struct SetStatusInput {
    pub current_task: Option<String>,
    pub progress: Option<u8>,
    pub status: Option<String>,
    pub blockers: Option<String>,
}

/// Arguments of the `get_status` tool.
#[derive(Debug)]
pub struct GetStatusInput {
    pub agent_id: Option<String>,
}

/// A reference triple as protocol payloads carry it.
#[derive(Debug)]
pub struct RefInput {
    pub where_: String,
    pub what: String,
    pub ref_: RefValue,
}

impl View for RefInput {
    type V = ReferenceV;

    open spec fn view(&self) -> ReferenceV {
        ReferenceV { where_: self.where_@, what: self.what@, ref_: self.ref_@ }
    }
}

impl DeepView for RefInput {
    type V = ReferenceV;

    open spec fn deep_view(&self) -> ReferenceV {
        self.view()
    }
}

/// Arguments of the `post_message` tool.
#[derive(Debug)]
pub struct PostMessageInput {
    pub content: String,
    pub tags: Option<Vec<String>>,
    pub priority: Option<String>,
    pub reply_to: Option<i64>,
    pub refs: Option<Vec<RefInput>>,
}

/// Arguments of the `read_messages` tool.
#[derive(Debug)]
pub struct ReadMessagesInput {
    pub since: Option<String>,
    pub tags: Option<Vec<String>>,
    pub from_agent: Option<String>,
    pub priority: Option<String>,
    pub ref_where: Option<String>,
    pub ref_what: Option<String>,
    pub ref_ref: Option<String>,
    pub limit: Option<usize>,
}

/// Arguments of the `register_artifact` tool.
#[derive(Debug)]
pub struct RegisterArtifactInput {
    pub path: String,
    pub description: String,
    pub version: Option<String>,
    pub refs: Option<Vec<RefInput>>,
}

/// Arguments of the `list_artifacts` tool.
#[derive(Debug)]
pub struct ListArtifactsInput {
    pub by: Option<String>,
    pub ref_where: Option<String>,
    pub ref_what: Option<String>,
    pub ref_ref: Option<String>,
    pub limit: Option<usize>,
}

/// Arguments of the `find_refs` tool.
#[derive(Debug)]
pub struct FindRefsInput {
    pub where_: String,
    pub what: String,
    pub ref_: String,
}

/// An agent together with its derived liveness, as status reads return it.
#[derive(Debug)]
pub struct AgentWithLiveness {
    pub agent: Agent,
    pub liveness: Liveness,
    pub minutes_since_last_seen: i64,
}

/// Mathematical counterpart of [`AgentWithLiveness`].
#[verifier::ext_equal]
pub struct AgentWithLivenessV {
    pub agent: AgentV,
    pub liveness: Liveness,
    pub minutes_since_last_seen: int,
}

impl View for AgentWithLiveness {
    type V = AgentWithLivenessV;

    open spec fn view(&self) -> AgentWithLivenessV {
        AgentWithLivenessV {
            agent: self.agent@,
            liveness: self.liveness,
            minutes_since_last_seen: self.minutes_since_last_seen as int,
        }
    }
}

impl DeepView for AgentWithLiveness {
    type V = AgentWithLivenessV;

    open spec fn deep_view(&self) -> AgentWithLivenessV {
        self.view()
    }
}

/// An agent decorated with its classification and elapsed minutes at `now`.
pub open spec fn with_liveness(a: AgentV, now: int) -> AgentWithLivenessV {
    AgentWithLivenessV {
        agent: a,
        liveness: classify_spec(now, a.last_seen),
        minutes_since_last_seen: minutes_between(now, a.last_seen),
    }
}

/// A sequence of agents, each decorated with its liveness at `now`.
pub open spec fn with_liveness_seq(s: Seq<AgentV>, now: int) -> Seq<AgentWithLivenessV> {
    Seq::new(s.len(), |i: int| with_liveness(s[i], now))
}

/// The blocked entries of a decorated agent list, in order.
pub open spec fn filter_blocked(s: Seq<AgentWithLivenessV>) -> Seq<AgentWithLivenessV>
    decreases s.len(),
{
    if s.len() == 0 {
        Seq::empty()
    } else if s.last().agent.status == AgentStatus::Blocked {
        filter_blocked(s.drop_last()).push(s.last())
    } else {
        filter_blocked(s.drop_last())
    }
}

/// The artifacts of a list created at or after the cutoff, in order.
pub open spec fn filter_recent_arts(s: Seq<ArtifactV>, cutoff: int) -> Seq<ArtifactV>
    decreases s.len(),
{
    if s.len() == 0 {
        Seq::empty()
    } else if s.last().created_at >= cutoff {
        filter_recent_arts(s.drop_last(), cutoff).push(s.last())
    } else {
        filter_recent_arts(s.drop_last(), cutoff)
    }
}

/// The whole-store summary: agents with liveness (after the sweep), the
/// blocked ones among them, recent messages, high-priority messages, and
/// recently registered artifacts.
#[derive(Debug)]
pub struct SummaryOutput {
    pub agents: Vec<AgentWithLiveness>,
    pub blocked_agents: Vec<AgentWithLiveness>,
    pub recent_messages: Vec<Message>,
    pub high_priority_messages: Vec<Message>,
    pub recent_artifacts: Vec<Artifact>,
}

/// A decoded `tools/call` request. The register variant carries the
/// boundary's answer to whether the path resolves inside the project root.
#[derive(Debug)]
pub enum ToolCall {
    Identify(IdentifyInput),
    SetStatus(SetStatusInput),
    GetStatus(GetStatusInput),
    PostMessage(PostMessageInput),
    ReadMessages(ReadMessagesInput),
    RegisterArtifact(RegisterArtifactInput, PathResolution),
    ListArtifacts(ListArtifactsInput),
    FindRefs(FindRefsInput),
    Summary,
}

/// What a tool call yields, before serialization.
#[derive(Debug)]
pub enum ToolOutput {
    Identity(IdentifyOutput),
    Agent(Agent),
    Agents(Vec<AgentWithLiveness>),
    Message(Message),
    Messages(Vec<Message>),
    Artifact(Artifact),
    Artifacts(Vec<Artifact>),
    Refs(ReferenceResults),
    Summary(SummaryOutput),
}

/// The view of an optional owned string.
pub open spec fn opt_string_view(o: Option<String>) -> Option<Seq<char>> {
    match o {
        Some(s) => Some(s@),
        None => None,
    }
}

/// The tags of a post, defaulting to none.
pub open spec fn tags_or_empty(o: Option<Vec<String>>) -> Seq<Seq<char>> {
    match o {
        Some(v) => v.deep_view(),
        None => Seq::empty(),
    }
}

/// The references of a post, defaulting to none.
pub open spec fn refs_or_empty(o: Option<Vec<RefInput>>) -> Seq<ReferenceV> {
    match o {
        Some(v) => v.deep_view(),
        None => Seq::empty(),
    }
}

/// The priority a post carries: the parsed name, defaulting to Normal.
pub open spec fn priority_or_normal(o: Option<String>) -> Priority {
    match o {
        Some(s) => priority_of_str(s@),
        None => Priority::Normal,
    }
}

/// An optional priority filter, parsed.
pub open spec fn opt_priority(o: Option<String>) -> Option<Priority> {
    match o {
        Some(s) => Some(priority_of_str(s@)),
        None => None,
    }
}

/// An integer clamped into the 64-bit signed range.
pub open spec fn clamp_i64(x: int) -> int {
    if x < i64::MIN {
        i64::MIN as int
    } else if x > i64::MAX {
        i64::MAX as int
    } else {
        x
    }
}

/// Converts protocol reference payloads into stored reference triples.
fn refs_to_references(o: &Option<Vec<RefInput>>) -> (r: Vec<Reference>)
    ensures
        r.deep_view() == refs_or_empty_ref(o),
{
    let mut out: Vec<Reference> = Vec::new();
    match o {
        None => {
            proof {
                assert(out.deep_view() =~= Seq::<ReferenceV>::empty());
            }
        },
        Some(v) => {
            let mut i: usize = 0;
            while i < v.len()
                invariant
                    i <= v@.len(),
                    v.deep_view().len() == v@.len(),
                    out@.len() == i,
                    forall|j: int|
                        0 <= j < i ==> #[trigger] out@[j].deep_view() == v.deep_view()[j],
                decreases v@.len() - i,
            {
                let ghost old_elems = out@;
                let item = &v[i];
                let converted = Reference {
                    where_: item.where_.clone(),
                    what: item.what.clone(),
                    ref_: item.ref_.clone(),
                };
                proof {
                    assert(converted@ =~= v@[i as int]@);
                    assert(v.deep_view()[i as int] == v@[i as int]@);
                }
                out.push(converted);
                proof {
                    assert forall|j: int| 0 <= j < i + 1 implies #[trigger] out@[j].deep_view()
                        == v.deep_view()[j] by {
                        if j < old_elems.len() {
                            assert(out@[j] == old_elems[j]);
                        }
                    }
                }
                i = i + 1;
            }
            proof {
                assert(out.deep_view() =~= v.deep_view());
            }
        },
    }
    out
}

/// The references of a post by reference, defaulting to none.
pub open spec fn refs_or_empty_ref(o: &Option<Vec<RefInput>>) -> Seq<ReferenceV> {
    match o {
        Some(v) => v.deep_view(),
        None => Seq::empty(),
    }
}

/// An optional status argument, parsed.
pub open spec fn opt_status(o: Option<String>) -> Option<AgentStatus> {
    match o {
        Some(s) => Some(status_of_str(s@)),
        None => None,
    }
}

/// The agent list after the optional read-touch: when the session resolves
/// to a valid id, that agent's last-seen time is refreshed (creating it on
/// first touch); otherwise nothing changes.
pub open spec fn touched_agents(
    agents: Seq<AgentV>,
    ident: crate::identity::IdentityV,
    now: int,
) -> Seq<AgentV> {
    match resolve_spec(ident) {
        Some(id) => if validate_agent_id_spec(id) is Ok {
            upsert_agent_seq(
                agents,
                AgentV { last_seen: now, ..status_update_base(agents, id, now) },
            )
        } else {
            agents
        },
        None => agents,
    }
}

/// The reference filter built from optional owned lookup parts.
pub open spec fn ref_query_owned(
    w: Option<String>,
    h: Option<String>,
    v: Option<String>,
) -> Option<RefQueryV> {
    match (w, h, v) {
        (Some(ws), Some(hs), Some(vs)) => Some(
            RefQueryV { where_: ws@, what: hs@, value: classify_token(vs@) },
        ),
        _ => None,
    }
}

/// The message query a `read_messages` call describes, once its `since`
/// duration (if any) has parsed to `since_ts`.
pub open spec fn read_query(input: ReadMessagesInput, since_ts: Option<int>) -> MsgQueryV {
    MsgQueryV {
        since: since_ts,
        tags: tags_or_empty(input.tags),
        from_agent: opt_string_view(input.from_agent),
        min_priority: opt_priority(input.priority),
        refq: ref_query_owned(input.ref_where, input.ref_what, input.ref_ref),
    }
}

/// What `set_status` guarantees: it requires a resolved identity, then
/// behaves as the store's status update for that identity.
pub open spec fn set_status_post(
    ident: crate::identity::IdentityV,
    old_store: StoreV,
    new_store: StoreV,
    input: SetStatusInput,
    now: int,
    r: BBResult<Agent>,
) -> bool {
    match resolve_spec(ident) {
        None => r == Err::<Agent, BBError>(BBError::IdentityRequired) && new_store == old_store,
        Some(id) => match r {
            Err(e) => new_store == old_store && status_update_error(
                id,
                opt_string_view(input.current_task),
                opt_string_view(input.blockers),
            ) == Some(e),
            Ok(a) => status_update_error(
                id,
                opt_string_view(input.current_task),
                opt_string_view(input.blockers),
            ) is None && a@ == apply_status_update_spec(
                status_update_base(old_store.agents, id, now),
                input,
                now,
            ) && new_store == (StoreV {
                agents: upsert_agent_seq(old_store.agents, a@),
                ..old_store
            }),
        },
    }
}

/// The status update a `set_status` input applies to a base row.
pub open spec fn apply_status_update_spec(base: AgentV, input: SetStatusInput, now: int) -> AgentV {
    crate::store::apply_status_update(
        base,
        opt_string_view(input.current_task),
        input.progress,
        opt_status(input.status),
        opt_string_view(input.blockers),
        now,
    )
}

/// What `get_status` guarantees: the resolved agent (if any) is touched
/// first; a named agent is classified without the sweep; listing all agents
/// persists the sweep and orders by last-seen time.
pub open spec fn get_status_post(
    ident: crate::identity::IdentityV,
    old_store: StoreV,
    new_store: StoreV,
    input: GetStatusInput,
    now: int,
    r: BBResult<Vec<AgentWithLiveness>>,
) -> bool {
    let touched = touched_agents(old_store.agents, ident, now);
    match input.agent_id {
        Some(qid) => new_store == (StoreV { agents: touched, ..old_store }) && match r {
            Err(e) => (validate_agent_id_spec(qid@) == Err::<(), BBError>(e)) || (
            validate_agent_id_spec(qid@) is Ok && crate::store::agent_idx(touched, qid@)
                == touched.len() && e == BBError::NotFound),
            Ok(v) => validate_agent_id_spec(qid@) is Ok && crate::store::agent_idx(touched, qid@)
                < touched.len() && v.deep_view() == seq![
                with_liveness(touched[crate::store::agent_idx(touched, qid@)], now),
            ],
        },
        None => {
            &&& new_store.agents.len() == touched.len()
            &&& forall|i: int|
                0 <= i < touched.len() ==> new_store.agents[i] == sweep_agent(
                    #[trigger] touched[i],
                    now,
                )
            &&& new_store == (StoreV { agents: new_store.agents, ..old_store })
            &&& match r {
                Ok(v) => v.deep_view() == with_liveness_seq(
                    sort_agents_spec(new_store.agents),
                    now,
                ),
                Err(_) => false,
            }
        },
    }
}

/// What `post_message` guarantees: it requires a resolved identity, then
/// behaves as the store's post for that identity, with the priority name
/// parsed (defaulting to Normal) and absent tags or references as empty.
pub open spec fn post_message_post(
    ident: crate::identity::IdentityV,
    old_store: StoreV,
    new_store: StoreV,
    input: PostMessageInput,
    now: int,
    r: BBResult<Message>,
) -> bool {
    match resolve_spec(ident) {
        None => r == Err::<Message, BBError>(BBError::IdentityRequired) && new_store == old_store,
        Some(id) => match r {
            Err(e) => new_store == old_store && post_error(
                old_store.messages,
                input.content@,
                tags_or_empty(input.tags),
                refs_or_empty(input.refs).len() as int,
                opt_i64_view(input.reply_to),
                old_store.next_message_id,
            ) == Some(e),
            Ok(m) => post_error(
                old_store.messages,
                input.content@,
                tags_or_empty(input.tags),
                refs_or_empty(input.refs).len() as int,
                opt_i64_view(input.reply_to),
                old_store.next_message_id,
            ) is None && m@ == (MessageV {
                id: old_store.next_message_id,
                from_agent: id,
                content: input.content@,
                tags: tags_or_empty(input.tags),
                priority: priority_or_normal(input.priority),
                in_reply_to: opt_i64_view(input.reply_to),
                refs: refs_or_empty(input.refs),
                created_at: now,
            }) && new_store == (StoreV {
                messages: old_store.messages.push(m@),
                next_message_id: old_store.next_message_id + 1,
                ..old_store
            }),
        },
    }
}

/// What `read_messages` guarantees: a bad `since` duration is rejected;
/// otherwise the store listing for the described query, with the default
/// limit of twenty.
pub open spec fn read_messages_post(
    old_store: StoreV,
    new_store: StoreV,
    input: ReadMessagesInput,
    now: int,
    r: BBResult<Vec<Message>>,
) -> bool {
    &&& new_store == old_store
    &&& match input.since {
        Some(s) => match parse_duration_spec(s@) {
            Err(e) => r == Err::<Vec<Message>, BBError>(e),
            Ok(secs) => r is Ok && read_ok(
                old_store,
                input,
                Some(clamp_i64(now - secs)),
                r->Ok_0,
            ),
        },
        None => r is Ok && read_ok(old_store, input, None, r->Ok_0),
    }
}

/// The listing `read_messages` returns for a query with a resolved `since`.
pub open spec fn read_ok(
    store: StoreV,
    input: ReadMessagesInput,
    since_ts: Option<int>,
    v: Vec<Message>,
) -> bool {
    let lim: int = match input.limit {
        Some(l) => l as int,
        None => 20,
    };
    v.deep_view() == take_at_most(
        sort_msgs(filter_msgs(store.messages, read_query(input, since_ts))),
        if lim < 100 {
            lim
        } else {
            100
        },
    )
}

/// What `register_artifact` guarantees: it requires a resolved identity,
/// then behaves as the store's registration for that identity.
pub open spec fn register_artifact_post(
    ident: crate::identity::IdentityV,
    old_store: StoreV,
    new_store: StoreV,
    input: RegisterArtifactInput,
    resolution: PathResolution,
    now: int,
    r: BBResult<Artifact>,
) -> bool {
    match resolve_spec(ident) {
        None => r == Err::<Artifact, BBError>(BBError::IdentityRequired) && new_store == old_store,
        Some(id) => {
            let incoming = ArtifactV {
                id: 0,
                path: input.path@,
                produced_by: id,
                description: input.description@,
                version: opt_string_view(input.version),
                refs: refs_or_empty(input.refs),
                created_at: now,
            };
            match r {
                Err(e) => new_store == old_store && register_error(
                    old_store.artifacts,
                    old_store.next_artifact_id,
                    input.path@,
                    resolution,
                    input.description@,
                    opt_string_view(input.version),
                    refs_or_empty(input.refs).len() as int,
                ) == Some(e),
                Ok(a) => register_error(
                    old_store.artifacts,
                    old_store.next_artifact_id,
                    input.path@,
                    resolution,
                    input.description@,
                    opt_string_view(input.version),
                    refs_or_empty(input.refs).len() as int,
                ) is None && a@ == upsert_artifact_stored(
                    old_store.artifacts,
                    incoming,
                    old_store.next_artifact_id,
                ) && new_store == (StoreV {
                    artifacts: upsert_artifact_seq(
                        old_store.artifacts,
                        incoming,
                        old_store.next_artifact_id,
                    ),
                    next_artifact_id: if crate::store::artifact_idx(old_store.artifacts, input.path@)
                        < old_store.artifacts.len() {
                        old_store.next_artifact_id
                    } else {
                        old_store.next_artifact_id + 1
                    },
                    ..old_store
                }),
            }
        },
    }
}

/// What `list_artifacts` guarantees: the store listing for the described
/// query, with the default limit of fifty.
pub open spec fn list_artifacts_post(
    store: StoreV,
    input: ListArtifactsInput,
    r: BBResult<Vec<Artifact>>,
) -> bool {
    let lim: int = match input.limit {
        Some(l) => l as int,
        None => 50,
    };
    match r {
        Ok(v) => v.deep_view() == take_at_most(
            sort_arts(
                filter_arts(
                    store.artifacts,
                    ArtQueryV {
                        produced_by: opt_string_view(input.by),
                        refq: ref_query_owned(input.ref_where, input.ref_what, input.ref_ref),
                    },
                ),
            ),
            if lim < 100 {
                lim
            } else {
                100
            },
        ),
        Err(_) => false,
    }
}

/// What `find_refs` guarantees: the value token is classified as a parse
/// would classify it, and both entity kinds are searched type-insensitively.
pub open spec fn find_refs_post(store: StoreV, input: FindRefsInput, r: BBResult<
    ReferenceResults,
>) -> bool {
    match r {
        Ok(res) => {
            let v = classify_token(input.ref_@);
            res.messages.deep_view() == sort_msgs(
                filter_msgs_byref(store.messages, input.where_@, input.what@, v),
            ) && res.artifacts.deep_view() == sort_arts(
                filter_arts_byref(store.artifacts, input.where_@, input.what@, v),
            )
        },
        Err(_) => false,
    }
}

/// What `summary` guarantees: the sweep is persisted; the result carries the
/// decorated agent list, the blocked ones among them, messages of the last
/// thirty minutes (limit twenty), high-priority messages (limit ten), and
/// the last twenty artifacts narrowed to the last hour.
pub open spec fn summary_post(
    old_store: StoreV,
    new_store: StoreV,
    now: int,
    r: BBResult<SummaryOutput>,
) -> bool {
    &&& new_store.agents.len() == old_store.agents.len()
    &&& forall|i: int|
        0 <= i < old_store.agents.len() ==> new_store.agents[i] == sweep_agent(
            #[trigger] old_store.agents[i],
            now,
        )
    &&& new_store == (StoreV { agents: new_store.agents, ..old_store })
    &&& match r {
        Ok(s) => {
            let decorated = with_liveness_seq(sort_agents_spec(new_store.agents), now);
            &&& s.agents.deep_view() == decorated
            &&& s.blocked_agents.deep_view() == filter_blocked(decorated)
            &&& s.recent_messages.deep_view() == take_at_most(
                sort_msgs(
                    filter_msgs(
                        old_store.messages,
                        MsgQueryV {
                            since: Some(clamp_i64(now - 1800)),
                            tags: Seq::empty(),
                            from_agent: None,
                            min_priority: None,
                            refq: None,
                        },
                    ),
                ),
                20,
            )
            &&& s.high_priority_messages.deep_view() == take_at_most(
                sort_msgs(
                    filter_msgs(
                        old_store.messages,
                        MsgQueryV {
                            since: None,
                            tags: Seq::empty(),
                            from_agent: None,
                            min_priority: Some(Priority::High),
                            refq: None,
                        },
                    ),
                ),
                10,
            )
            &&& s.recent_artifacts.deep_view() == filter_recent_arts(
                take_at_most(
                    sort_arts(
                        filter_arts(
                            old_store.artifacts,
                            ArtQueryV { produced_by: None, refq: None },
                        ),
                    ),
                    20,
                ),
                clamp_i64(now - 3600),
            )
        },
        Err(_) => false,
    }
}

impl Clone for AgentWithLiveness {
    fn clone(&self) -> (r: Self)
        ensures
            r@ == self@,
    {
        let r = AgentWithLiveness {
            agent: self.agent.clone(),
            liveness: self.liveness,
            minutes_since_last_seen: self.minutes_since_last_seen,
        };
        proof {
            assert(r@ =~= self@);
        }
        r
    }
}

/// Decorates each agent with its liveness classification at `now`.
fn decorate_agents(v: Vec<Agent>, now: i64) -> (r: Vec<AgentWithLiveness>)
    ensures
        r.deep_view() == with_liveness_seq(v.deep_view(), now as int),
{
    let mut out: Vec<AgentWithLiveness> = Vec::new();
    let mut i: usize = 0;
    while i < v.len()
        invariant
            i <= v@.len(),
            v.deep_view().len() == v@.len(),
            out@.len() == i,
            forall|j: int|
                0 <= j < i ==> #[trigger] out@[j].deep_view() == with_liveness(
                    v.deep_view()[j],
                    now as int,
                ),
        decreases v@.len() - i,
    {
        let ghost old_elems = out@;
        let a = v[i].clone();
        let lv = classify_liveness(now, a.last_seen);
        let m = minutes_since(now, a.last_seen);
        let entry = AgentWithLiveness { agent: a, liveness: lv, minutes_since_last_seen: m };
        proof {
            assert(v.deep_view()[i as int] == v@[i as int]@);
            assert(entry@ =~= with_liveness(v.deep_view()[i as int], now as int));
        }
        out.push(entry);
        proof {
            assert forall|j: int| 0 <= j < i + 1 implies #[trigger] out@[j].deep_view()
                == with_liveness(v.deep_view()[j], now as int) by {
                if j < old_elems.len() {
                    assert(out@[j] == old_elems[j]);
                }
            }
        }
        i = i + 1;
    }
    proof {
        assert(out.deep_view() =~= with_liveness_seq(v.deep_view(), now as int));
    }
    out
}

/// Keeps the blocked entries of a decorated agent list, in order.
fn keep_blocked(v: &Vec<AgentWithLiveness>) -> (r: Vec<AgentWithLiveness>)
    ensures
        r.deep_view() == filter_blocked(v.deep_view()),
{
    let ghost dv = v.deep_view();
    let mut out: Vec<AgentWithLiveness> = Vec::new();
    proof {
        assert(dv.take(0) =~= Seq::<AgentWithLivenessV>::empty());
    }
    let mut i: usize = 0;
    while i < v.len()
        invariant
            i <= v@.len(),
            dv == v.deep_view(),
            dv.len() == v@.len(),
            out.deep_view() == filter_blocked(dv.take(i as int)),
            out@.len() == filter_blocked(dv.take(i as int)).len(),
        decreases v@.len() - i,
    {
        proof {
            assert(dv[i as int] == v@[i as int]@);
            assert(dv.take(i as int + 1).drop_last() =~= dv.take(i as int));
            assert(dv.take(i as int + 1).last() == dv[i as int]);
        }
        if matches!(v[i].agent.status, AgentStatus::Blocked) {
            let ghost old_elems = out@;
            out.push(v[i].clone());
            proof {
                assert forall|j: int| 0 <= j < out@.len() implies #[trigger] out@[j].deep_view()
                    == filter_blocked(dv.take(i as int + 1))[j] by {
                    if j < old_elems.len() {
                        assert(out@[j] == old_elems[j]);
                    }
                }
                assert(out.deep_view() =~= filter_blocked(dv.take(i as int + 1)));
            }
        }
        i = i + 1;
    }
    proof {
        assert(dv.take(dv.len() as int) =~= dv);
    }
    out
}

/// Keeps the artifacts created at or after the cutoff, in order.
fn keep_recent_arts(v: &Vec<Artifact>, cutoff: i64) -> (r: Vec<Artifact>)
    ensures
        r.deep_view() == filter_recent_arts(v.deep_view(), cutoff as int),
{
    let ghost dv = v.deep_view();
    let mut out: Vec<Artifact> = Vec::new();
    proof {
        assert(dv.take(0) =~= Seq::<ArtifactV>::empty());
    }
    let mut i: usize = 0;
    while i < v.len()
        invariant
            i <= v@.len(),
            dv == v.deep_view(),
            dv.len() == v@.len(),
            out.deep_view() == filter_recent_arts(dv.take(i as int), cutoff as int),
            out@.len() == filter_recent_arts(dv.take(i as int), cutoff as int).len(),
        decreases v@.len() - i,
    {
        proof {
            assert(dv[i as int] == v@[i as int]@);
            assert(dv.take(i as int + 1).drop_last() =~= dv.take(i as int));
            assert(dv.take(i as int + 1).last() == dv[i as int]);
        }
        if v[i].created_at >= cutoff {
            let ghost old_elems = out@;
            out.push(v[i].clone());
            proof {
                assert forall|j: int| 0 <= j < out@.len() implies #[trigger] out@[j].deep_view()
                    == filter_recent_arts(dv.take(i as int + 1), cutoff as int)[j] by {
                    if j < old_elems.len() {
                        assert(out@[j] == old_elems[j]);
                    }
                }
                assert(out.deep_view() =~= filter_recent_arts(dv.take(i as int + 1), cutoff as int));
            }
        }
        i = i + 1;
    }
    proof {
        assert(dv.take(dv.len() as int) =~= dv);
    }
    out
}

/// `a - b`, clamped into the 64-bit signed range.
fn sub_clamped(a: i64, b: i64) -> (r: i64)
    ensures
        r as int == clamp_i64(a as int - b as int),
{
    let wide: i128 = (a as i128) - (b as i128);
    if wide < i64::MIN as i128 {
        i64::MIN
    } else if wide > i64::MAX as i128 {
        i64::MAX
    } else {
        wide as i64
    }
}

/// The dispatcher's state: the session identity register and whether the
/// store existed when the session began. The boundary owns the byte stream
/// and the store handle; each decoded call lands here as one transition.
#[derive(Debug)]
pub struct BlackboardMcpServer {
    pub identity: IdentityResolver,
    pub initialized: bool,
}

impl BlackboardMcpServer {
    /// A dispatcher for one session.
    pub fn new(identity: IdentityResolver, initialized: bool) -> (r: Self)
        ensures
            r.identity@ == identity@,
            r.initialized == initialized,
    {
        BlackboardMcpServer { identity, initialized }
    }

    /// Executes one decoded tool call against the store. An uninitialized
    /// session refuses every call before touching anything; only `identify`
    /// changes the identity register.
    #[verifier::rlimit(100)]
    pub fn handle_tool(&mut self, store: &mut Store, call: ToolCall, now: i64) -> (r: BBResult<
        ToolOutput,
    >)
        requires
            old(store).wf(),
        ensures
            final(store).wf(),
            final(self).initialized == old(self).initialized,
            !old(self).initialized ==> r == Err::<ToolOutput, BBError>(BBError::NotInitialized)
                && final(store)@ == old(store)@ && final(self).identity@ == old(self).identity@,
            old(self).initialized ==> match call {
                ToolCall::Identify(input) => final(store)@ == old(store)@ && final(self).identity@
                    == identify_state(old(self).identity@, input.agent_id@) && (match r {
                    Ok(ToolOutput::Identity(o)) => identify_result(
                        old(self).identity@,
                        input.agent_id@,
                    ) == Ok::<IdentifyResponseV, BBError>(
                        IdentifyResponseV { agent_id: o.agent_id@, source: o.source@ },
                    ),
                    Err(e) => identify_result(old(self).identity@, input.agent_id@) == Err::<
                        IdentifyResponseV,
                        BBError,
                    >(e),
                    _ => false,
                }),
                ToolCall::SetStatus(input) => final(self).identity@ == old(self).identity@ && (
                match r {
                    Ok(ToolOutput::Agent(a)) => set_status_post(
                        old(self).identity@,
                        old(store)@,
                        final(store)@,
                        input,
                        now as int,
                        Ok(a),
                    ),
                    Err(e) => set_status_post(
                        old(self).identity@,
                        old(store)@,
                        final(store)@,
                        input,
                        now as int,
                        Err(e),
                    ),
                    _ => false,
                }),
                ToolCall::GetStatus(input) => final(self).identity@ == old(self).identity@ && (
                match r {
                    Ok(ToolOutput::Agents(v)) => get_status_post(
                        old(self).identity@,
                        old(store)@,
                        final(store)@,
                        input,
                        now as int,
                        Ok(v),
                    ),
                    Err(e) => get_status_post(
                        old(self).identity@,
                        old(store)@,
                        final(store)@,
                        input,
                        now as int,
                        Err(e),
                    ),
                    _ => false,
                }),
                ToolCall::PostMessage(input) => final(self).identity@ == old(self).identity@ && (
                match r {
                    Ok(ToolOutput::Message(m)) => post_message_post(
                        old(self).identity@,
                        old(store)@,
                        final(store)@,
                        input,
                        now as int,
                        Ok(m),
                    ),
                    Err(e) => post_message_post(
                        old(self).identity@,
                        old(store)@,
                        final(store)@,
                        input,
                        now as int,
                        Err(e),
                    ),
                    _ => false,
                }),
                ToolCall::ReadMessages(input) => final(self).identity@ == old(self).identity@ && (
                match r {
                    Ok(ToolOutput::Messages(v)) => read_messages_post(
                        old(store)@,
                        final(store)@,
                        input,
                        now as int,
                        Ok(v),
                    ),
                    Err(e) => read_messages_post(
                        old(store)@,
                        final(store)@,
                        input,
                        now as int,
                        Err(e),
                    ),
                    _ => false,
                }),
                ToolCall::RegisterArtifact(input, resolution) => final(self).identity@ == old(
                    self,
                ).identity@ && (match r {
                    Ok(ToolOutput::Artifact(a)) => register_artifact_post(
                        old(self).identity@,
                        old(store)@,
                        final(store)@,
                        input,
                        resolution,
                        now as int,
                        Ok(a),
                    ),
                    Err(e) => register_artifact_post(
                        old(self).identity@,
                        old(store)@,
                        final(store)@,
                        input,
                        resolution,
                        now as int,
                        Err(e),
                    ),
                    _ => false,
                }),
                ToolCall::ListArtifacts(input) => final(self).identity@ == old(self).identity@
                    && final(store)@ == old(store)@ && (match r {
                    Ok(ToolOutput::Artifacts(v)) => list_artifacts_post(old(store)@, input, Ok(v)),
                    _ => false,
                }),
                ToolCall::FindRefs(input) => final(self).identity@ == old(self).identity@
                    && final(store)@ == old(store)@ && (match r {
                    Ok(ToolOutput::Refs(res)) => find_refs_post(old(store)@, input, Ok(res)),
                    _ => false,
                }),
                ToolCall::Summary => final(self).identity@ == old(self).identity@ && (match r {
                    Ok(ToolOutput::Summary(s)) => summary_post(
                        old(store)@,
                        final(store)@,
                        now as int,
                        Ok(s),
                    ),
                    _ => false,
                }),
            },
    {
        if !self.initialized {
            return Err(BBError::NotInitialized);
        }
        match call {
            ToolCall::Identify(input) => {
                match self.identity.identify(input.agent_id.as_str()) {
                    Ok(resp) => Ok(
                        ToolOutput::Identity(
                            IdentifyOutput { agent_id: resp.agent_id, source: resp.source },
                        ),
                    ),
                    Err(e) => Err(e),
                }
            },
            ToolCall::SetStatus(input) => {
                let id = match self.identity.require_identity() {
                    Ok(id) => id,
                    Err(e) => {
                        return Err(e);
                    },
                };
                let task_arg: Option<&str> = match &input.current_task {
                    Some(t) => Some(t.as_str()),
                    None => None,
                };
                let blockers_arg: Option<&str> = match &input.blockers {
                    Some(b) => Some(b.as_str()),
                    None => None,
                };
                let status_arg: Option<AgentStatus> = match &input.status {
                    Some(s) => Some(AgentStatus::from_str(s.as_str())),
                    None => None,
                };
                let outcome = store.update_agent_status(
                    id.as_str(),
                    task_arg,
                    input.progress,
                    status_arg,
                    blockers_arg,
                    now,
                );
                match outcome {
                    Ok(a) => Ok(ToolOutput::Agent(a)),
                    Err(e) => Err(e),
                }
            },
            ToolCall::GetStatus(input) => {
                match self.identity.resolve() {
                    Some(id) => {
                        let _ = store.touch_agent(id.as_str(), now);
                    },
                    None => {},
                }
                match &input.agent_id {
                    Some(qid) => {
                        let looked = store.get_agent(qid.as_str());
                        match looked {
                            Err(e) => Err(e),
                            Ok(None) => Err(BBError::NotFound),
                            Ok(Some(a)) => {
                                let lv = classify_liveness(now, a.last_seen);
                                let m = minutes_since(now, a.last_seen);
                                let entry = AgentWithLiveness {
                                    agent: a,
                                    liveness: lv,
                                    minutes_since_last_seen: m,
                                };
                                let mut v: Vec<AgentWithLiveness> = Vec::new();
                                v.push(entry);
                                proof {
                                    let touched_v = touched_agents(
                                        old(store)@.agents,
                                        old(self).identity@,
                                        now as int,
                                    );
                                    assert(v.deep_view() =~= seq![
                                        with_liveness(
                                            touched_v[
                                                crate::store::agent_idx(touched_v, input.agent_id->0@)
                                            ],
                                            now as int,
                                        ),
                                    ]);
                                }
                                Ok(ToolOutput::Agents(v))
                            },
                        }
                    },
                    None => {
                        let agents = store.get_all_agents_with_liveness(now);
                        let decorated = decorate_agents(agents, now);
                        Ok(ToolOutput::Agents(decorated))
                    },
                }
            },
            ToolCall::PostMessage(input) => {
                let id = match self.identity.require_identity() {
                    Ok(id) => id,
                    Err(e) => {
                        return Err(e);
                    },
                };
                let tags_vec: Vec<String> = match &input.tags {
                    Some(t) => crate::text::clone_string_vec(t),
                    None => Vec::new(),
                };
                proof {
                    assert(tags_vec.deep_view() =~= tags_or_empty(input.tags));
                }
                let refs_vec = refs_to_references(&input.refs);
                let prio = match &input.priority {
                    Some(p) => Priority::parse(p.as_str()),
                    None => Priority::Normal,
                };
                let outcome = store.post_message(
                    id.as_str(),
                    input.content.as_str(),
                    tags_vec,
                    prio,
                    input.reply_to,
                    refs_vec,
                    now,
                );
                match outcome {
                    Ok(m) => Ok(ToolOutput::Message(m)),
                    Err(e) => Err(e),
                }
            },
            ToolCall::ReadMessages(input) => {
                let since_arg: Option<i64> = match &input.since {
                    Some(s) => match parse_duration(s.as_str()) {
                        Ok(secs) => Some(sub_clamped(now, secs)),
                        Err(e) => {
                            return Err(e);
                        },
                    },
                    None => None,
                };
                let tags_vec: Vec<String> = match &input.tags {
                    Some(t) => crate::text::clone_string_vec(t),
                    None => Vec::new(),
                };
                proof {
                    assert(tags_vec.deep_view() =~= tags_or_empty(input.tags));
                }
                let from_arg: Option<&str> = match &input.from_agent {
                    Some(f) => Some(f.as_str()),
                    None => None,
                };
                let prio_arg: Option<Priority> = match &input.priority {
                    Some(p) => Some(Priority::parse(p.as_str())),
                    None => None,
                };
                let w_arg: Option<&str> = match &input.ref_where {
                    Some(w) => Some(w.as_str()),
                    None => None,
                };
                let h_arg: Option<&str> = match &input.ref_what {
                    Some(h) => Some(h.as_str()),
                    None => None,
                };
                let v_arg: Option<&str> = match &input.ref_ref {
                    Some(v) => Some(v.as_str()),
                    None => None,
                };
                let lim: usize = match input.limit {
                    Some(l) => l,
                    None => 20,
                };
                let msgs = store.list_messages(
                    since_arg,
                    &tags_vec,
                    from_arg,
                    prio_arg,
                    w_arg,
                    h_arg,
                    v_arg,
                    lim,
                );
                proof {
                    assert(read_query(input, opt_i64_view(since_arg)) =~= (MsgQueryV {
                        since: opt_i64_view(since_arg),
                        tags: tags_vec.deep_view(),
                        from_agent: opt_str_view(from_arg),
                        min_priority: prio_arg,
                        refq: crate::store::ref_query_view(w_arg, h_arg, v_arg),
                    }));
                }
                Ok(ToolOutput::Messages(msgs))
            },
            ToolCall::RegisterArtifact(input, resolution) => {
                let id = match self.identity.require_identity() {
                    Ok(id) => id,
                    Err(e) => {
                        return Err(e);
                    },
                };
                let refs_vec = refs_to_references(&input.refs);
                let version_arg: Option<&str> = match &input.version {
                    Some(v) => Some(v.as_str()),
                    None => None,
                };
                let outcome = store.register_artifact(
                    input.path.as_str(),
                    id.as_str(),
                    input.description.as_str(),
                    version_arg,
                    refs_vec,
                    now,
                    resolution,
                );
                match outcome {
                    Ok(a) => Ok(ToolOutput::Artifact(a)),
                    Err(e) => Err(e),
                }
            },
            ToolCall::ListArtifacts(input) => {
                let by_arg: Option<&str> = match &input.by {
                    Some(b) => Some(b.as_str()),
                    None => None,
                };
                let w_arg: Option<&str> = match &input.ref_where {
                    Some(w) => Some(w.as_str()),
                    None => None,
                };
                let h_arg: Option<&str> = match &input.ref_what {
                    Some(h) => Some(h.as_str()),
                    None => None,
                };
                let v_arg: Option<&str> = match &input.ref_ref {
                    Some(v) => Some(v.as_str()),
                    None => None,
                };
                let lim: usize = match input.limit {
                    Some(l) => l,
                    None => 50,
                };
                let arts = store.list_artifacts(by_arg, w_arg, h_arg, v_arg, lim);
                Ok(ToolOutput::Artifacts(arts))
            },
            ToolCall::FindRefs(input) => {
                let rv = token_to_ref_value(input.ref_.as_str());
                let res = store.find_references(input.where_.as_str(), input.what.as_str(), &rv);
                Ok(ToolOutput::Refs(res))
            },
            ToolCall::Summary => {
                let agents = store.get_all_agents_with_liveness(now);
                let decorated = decorate_agents(agents, now);
                let blocked = keep_blocked(&decorated);
                let empty_tags: Vec<String> = Vec::new();
                proof {
                    assert(empty_tags.deep_view() =~= Seq::<Seq<char>>::empty());
                }
                let recent_since = sub_clamped(now, 1800);
                let recent = store.list_messages(
                    Some(recent_since),
                    &empty_tags,
                    None,
                    None,
                    None,
                    None,
                    None,
                    20,
                );
                let high = store.list_messages(
                    None,
                    &empty_tags,
                    None,
                    Some(Priority::High),
                    None,
                    None,
                    None,
                    10,
                );
                let arts = store.list_artifacts(None, None, None, None, 20);
                let art_cutoff = sub_clamped(now, 3600);
                let recent_arts = keep_recent_arts(&arts, art_cutoff);
                Ok(
                    ToolOutput::Summary(
                        SummaryOutput {
                            agents: decorated,
                            blocked_agents: blocked,
                            recent_messages: recent,
                            high_priority_messages: high,
                            recent_artifacts: recent_arts,
                        },
                    ),
                )
            },
        }
    }
}

} // verus!
