//! The entity store: agents, messages and artifacts, with upsert rules,
//! AND-composed query filters, newest-first ordering and capped pagination.
//!
//! The store is the in-memory model of the persisted rows; the boundary loads
//! and saves it around each logical operation. Every operation either fully
//! validates and then fully applies, or applies nothing.

use crate::agent::{Agent, AgentStatus, AgentV};
use crate::artifact::{Artifact, ArtifactV};
use crate::errors::{BBError, BBResult, InvalidReason};
use crate::liveness::LIVENESS_STALE_MINUTES;
use crate::message::{Message, MessageV, Priority};
use crate::reference::{
    classify_token, ref_triple_matches, ref_triple_same, reference_matches, reference_same,
    token_to_ref_value, RefValue, RefValueV, Reference,
};
use crate::sort::{sort_agents, sort_agents_spec, sort_artifacts, sort_arts, sort_messages,
    sort_msgs, reverse_messages};
use crate::text::str_eq;
use crate::validation::{
    validate_agent_id, validate_agent_id_spec, validate_artifact_description,
    validate_artifact_description_spec, validate_artifact_path, validate_artifact_path_spec,
    validate_blockers, validate_blockers_spec, validate_message_content,
    validate_message_content_spec, validate_tags, validate_tags_spec, validate_task,
    validate_task_spec, validate_version, validate_version_spec, PathResolution,
    MAX_REFS_PER_ENTITY,
};
use vstd::prelude::*;

verus! {

/// The entity store.
#[derive(Debug)]
pub struct Store {
    agents: Vec<Agent>,
    messages: Vec<Message>,
    artifacts: Vec<Artifact>,
    next_message_id: i64,
    next_artifact_id: i64,
}

/// Mathematical counterpart of [`Store`].
#[verifier::ext_equal]
pub struct StoreV {
    pub agents: Seq<AgentV>,
    pub messages: Seq<MessageV>,
    pub artifacts: Seq<ArtifactV>,
    pub next_message_id: int,
    pub next_artifact_id: int,
}

impl View for Store {
    type V = StoreV;

    closed spec fn view(&self) -> StoreV {
        StoreV {
            agents: self.agents.deep_view(),
            messages: self.messages.deep_view(),
            artifacts: self.artifacts.deep_view(),
            next_message_id: self.next_message_id as int,
            next_artifact_id: self.next_artifact_id as int,
        }
    }
}

/// The index of the agent with the given id, or the length if absent.
pub open spec fn agent_idx(agents: Seq<AgentV>, id: Seq<char>) -> int
    decreases agents.len(),
{
    if agents.len() == 0 {
        0
    } else if agents[0].id == id {
        0
    } else {
        1 + agent_idx(agents.drop_first(), id)
    }
}

pub proof fn lemma_agent_idx(agents: Seq<AgentV>, id: Seq<char>)
    ensures
        0 <= agent_idx(agents, id) <= agents.len(),
        agent_idx(agents, id) < agents.len() ==> agents[agent_idx(agents, id)].id == id,
        forall|j: int| 0 <= j < agent_idx(agents, id) ==> (#[trigger] agents[j]).id != id,
    decreases agents.len(),
{
    if agents.len() > 0 && agents[0].id != id {
        lemma_agent_idx(agents.drop_first(), id);
        assert forall|j: int| 0 <= j < agent_idx(agents, id) implies (#[trigger] agents[j]).id
            != id by {
            if j > 0 {
                assert(agents.drop_first()[j - 1] == agents[j]);
            }
        }
    }
}

/// The index of the message with the given id, or the length if absent.
pub open spec fn msg_idx(msgs: Seq<MessageV>, id: int) -> int
    decreases msgs.len(),
{
    if msgs.len() == 0 {
        0
    } else if msgs[0].id == id {
        0
    } else {
        1 + msg_idx(msgs.drop_first(), id)
    }
}

pub proof fn lemma_msg_idx(msgs: Seq<MessageV>, id: int)
    ensures
        0 <= msg_idx(msgs, id) <= msgs.len(),
        msg_idx(msgs, id) < msgs.len() ==> msgs[msg_idx(msgs, id)].id == id,
        forall|j: int| 0 <= j < msg_idx(msgs, id) ==> (#[trigger] msgs[j]).id != id,
    decreases msgs.len(),
{
    if msgs.len() > 0 && msgs[0].id != id {
        lemma_msg_idx(msgs.drop_first(), id);
        assert forall|j: int| 0 <= j < msg_idx(msgs, id) implies (#[trigger] msgs[j]).id != id by {
            if j > 0 {
                assert(msgs.drop_first()[j - 1] == msgs[j]);
            }
        }
    }
}

/// The index of the artifact with the given path, or the length if absent.
pub open spec fn artifact_idx(arts: Seq<ArtifactV>, path: Seq<char>) -> int
    decreases arts.len(),
{
    if arts.len() == 0 {
        0
    } else if arts[0].path == path {
        0
    } else {
        1 + artifact_idx(arts.drop_first(), path)
    }
}

pub proof fn lemma_artifact_idx(arts: Seq<ArtifactV>, path: Seq<char>)
    ensures
        0 <= artifact_idx(arts, path) <= arts.len(),
        artifact_idx(arts, path) < arts.len() ==> arts[artifact_idx(arts, path)].path == path,
        forall|j: int| 0 <= j < artifact_idx(arts, path) ==> (#[trigger] arts[j]).path != path,
    decreases arts.len(),
{
    if arts.len() > 0 && arts[0].path != path {
        lemma_artifact_idx(arts.drop_first(), path);
        assert forall|j: int| 0 <= j < artifact_idx(arts, path) implies (#[trigger] arts[j]).path
            != path by {
            if j > 0 {
                assert(arts.drop_first()[j - 1] == arts[j]);
            }
        }
    }
}

/// The agent list after an upsert: the row with the same id is replaced in
/// place, or the new row is appended.
pub open spec fn upsert_agent_seq(agents: Seq<AgentV>, a: AgentV) -> Seq<AgentV> {
    let i = agent_idx(agents, a.id);
    if i < agents.len() {
        agents.update(i, a)
    } else {
        agents.push(a)
    }
}

/// A fresh agent row: empty task, zero progress, Idle, no blockers, both
/// timestamps at `now`.
pub open spec fn fresh_agent(id: Seq<char>, now: int) -> AgentV {
    AgentV {
        id: id,
        current_task: Seq::<char>::empty(),
        progress: 0,
        status: AgentStatus::Idle,
        blockers: None,
        last_seen: now,
        updated_at: now,
    }
}

/// The row a status update starts from: the stored row with this id, or a
/// fresh one created on first touch.
pub open spec fn status_update_base(agents: Seq<AgentV>, id: Seq<char>, now: int) -> AgentV {
    let i = agent_idx(agents, id);
    if i < agents.len() {
        agents[i]
    } else {
        fresh_agent(id, now)
    }
}

/// The view of an optional string argument.
pub open spec fn opt_str_view(o: Option<&str>) -> Option<Seq<char>> {
    match o {
        Some(s) => Some(s@),
        None => None,
    }
}

/// A progress value clamped to at most 100.
pub open spec fn clamp100(p: u8) -> u8 {
    if p > 100 {
        100
    } else {
        p
    }
}

/// A status update applied to one agent row, field by field: the task if
/// given; the clamped progress if given; the status if given, clearing the
/// blockers whenever that status is not Blocked; explicit blockers if given;
/// and both timestamps set to `now`.
pub open spec fn apply_status_update(
    a: AgentV,
    task: Option<Seq<char>>,
    progress: Option<u8>,
    status: Option<AgentStatus>,
    blockers: Option<Seq<char>>,
    now: int,
) -> AgentV {
    let a1 = match task {
        Some(t) => AgentV { current_task: t, ..a },
        None => a,
    };
    let a2 = match progress {
        Some(p) => AgentV { progress: clamp100(p), ..a1 },
        None => a1,
    };
    let a3 = match status {
        Some(st) => AgentV {
            status: st,
            blockers: if st != AgentStatus::Blocked {
                None
            } else {
                a2.blockers
            },
            ..a2
        },
        None => a2,
    };
    let a4 = match blockers {
        Some(b) => AgentV { blockers: Some(b), ..a3 },
        None => a3,
    };
    AgentV { last_seen: now, updated_at: now, ..a4 }
}

/// The error a status update reports, if any: an invalid id first, then an
/// over-long task, then over-long blockers.
pub open spec fn status_update_error(
    id: Seq<char>,
    task: Option<Seq<char>>,
    blockers: Option<Seq<char>>,
) -> Option<BBError> {
    if validate_agent_id_spec(id) is Err {
        Some(validate_agent_id_spec(id)->Err_0)
    } else if task is Some && validate_task_spec(task->0) is Err {
        Some(validate_task_spec(task->0)->Err_0)
    } else if blockers is Some && validate_blockers_spec(blockers->0) is Err {
        Some(validate_blockers_spec(blockers->0)->Err_0)
    } else {
        None
    }
}

/// The agent rows that survive the offline purge: every row whose persisted
/// status is not Offline, in stored order.
pub open spec fn keep_present_agents(s: Seq<AgentV>) -> Seq<AgentV>
    decreases s.len(),
{
    if s.len() == 0 {
        Seq::empty()
    } else if s.last().status != AgentStatus::Offline {
        keep_present_agents(s.drop_last()).push(s.last())
    } else {
        keep_present_agents(s.drop_last())
    }
}

/// The purge keeps at most as many rows, keeps only stored rows, and keeps
/// distinct ids distinct.
pub proof fn lemma_keep_present_agents(s: Seq<AgentV>)
    requires
        forall|i: int, j: int|
            0 <= i < j < s.len() ==> (#[trigger] s[i]).id != (#[trigger] s[j]).id,
    ensures
        keep_present_agents(s).len() <= s.len(),
        forall|x: AgentV| #[trigger] keep_present_agents(s).contains(x) ==> s.contains(x),
        forall|i: int, j: int|
            0 <= i < j < keep_present_agents(s).len() ==> (#[trigger] keep_present_agents(
                s,
            )[i]).id != (#[trigger] keep_present_agents(s)[j]).id,
    decreases s.len(),
{
    broadcast use vstd::seq_lib::group_seq_properties;

    if s.len() > 0 {
        let rest = s.drop_last();
        lemma_keep_present_agents(rest);
        let kept = keep_present_agents(rest);
        assert(s =~= rest + seq![s.last()]);
        assert forall|x: AgentV| #[trigger] kept.contains(x) implies s.contains(x) by {
            assert(rest.contains(x));
        }
        if s.last().status != AgentStatus::Offline {
            let all = kept.push(s.last());
            assert forall|i: int, j: int|
                0 <= i < j < all.len() implies (#[trigger] all[i]).id != (#[trigger] all[j]).id by {
                if j == all.len() - 1 {
                    assert(kept.contains(kept[i]));
                    assert(rest.contains(kept[i]));
                    let k = choose|k: int| 0 <= k < rest.len() && rest[k] == kept[i];
                    assert(s[k] == kept[i]);
                    assert(s[k].id != s[s.len() - 1].id);
                } else {
                    assert(all[i] == kept[i]);
                    assert(all[j] == kept[j]);
                }
            }
        }
    }
}

/// Row-level consistency: agent ids unique; artifact paths unique and ids
/// positive, below the next id; message ids positive, strictly increasing in
/// stored order and below the next id.
pub open spec fn rows_consistent(
    agents: Seq<AgentV>,
    messages: Seq<MessageV>,
    artifacts: Seq<ArtifactV>,
    next_message_id: int,
    next_artifact_id: int,
) -> bool {
    &&& forall|i: int, j: int|
        0 <= i < j < agents.len() ==> (#[trigger] agents[i]).id != (#[trigger] agents[j]).id
    &&& forall|i: int, j: int|
        0 <= i < j < artifacts.len() ==> (#[trigger] artifacts[i]).path != (
        #[trigger] artifacts[j]).path
    &&& forall|i: int|
        0 <= i < artifacts.len() ==> 0 < (#[trigger] artifacts[i]).id < next_artifact_id
    &&& forall|i: int, j: int|
        0 <= i < j < messages.len() ==> (#[trigger] messages[i]).id < (#[trigger] messages[j]).id
    &&& forall|i: int|
        0 <= i < messages.len() ==> 0 < (#[trigger] messages[i]).id < next_message_id
    &&& 1 <= next_message_id
    &&& 1 <= next_artifact_id
}

impl Store {
    /// Store well-formedness: the stored rows are consistent.
    pub open spec fn wf(&self) -> bool {
        let v = self@;
        rows_consistent(v.agents, v.messages, v.artifacts, v.next_message_id, v.next_artifact_id)
    }

    /// An empty store.
    pub fn new() -> (r: Store)
        ensures
            r.wf(),
            r@ == (StoreV {
                agents: Seq::<AgentV>::empty(),
                messages: Seq::<MessageV>::empty(),
                artifacts: Seq::<ArtifactV>::empty(),
                next_message_id: 1,
                next_artifact_id: 1,
            }),
    {
        let r = Store {
            agents: Vec::new(),
            messages: Vec::new(),
            artifacts: Vec::new(),
            next_message_id: 1,
            next_artifact_id: 1,
        };
        proof {
            assert(r.agents.deep_view() =~= Seq::<AgentV>::empty());
            assert(r.messages.deep_view() =~= Seq::<MessageV>::empty());
            assert(r.artifacts.deep_view() =~= Seq::<ArtifactV>::empty());
            assert(r@ =~= (StoreV {
                agents: Seq::<AgentV>::empty(),
                messages: Seq::<MessageV>::empty(),
                artifacts: Seq::<ArtifactV>::empty(),
                next_message_id: 1,
                next_artifact_id: 1,
            }));
        }
        r
    }

    /// Rebuilds a store from persisted rows. Succeeds exactly when the rows
    /// are consistent; corrupt rows are refused as a persistence failure.
    pub fn from_rows(
        agents: Vec<Agent>,
        messages: Vec<Message>,
        artifacts: Vec<Artifact>,
        next_message_id: i64,
        next_artifact_id: i64,
    ) -> (r: BBResult<Store>)
        ensures
            match r {
                Ok(s) => s.wf() && s@ == (StoreV {
                    agents: agents.deep_view(),
                    messages: messages.deep_view(),
                    artifacts: artifacts.deep_view(),
                    next_message_id: next_message_id as int,
                    next_artifact_id: next_artifact_id as int,
                }),
                Err(e) => e == BBError::Persistence && !rows_consistent(
                    agents.deep_view(),
                    messages.deep_view(),
                    artifacts.deep_view(),
                    next_message_id as int,
                    next_artifact_id as int,
                ),
            },
    {
        let ghost av = agents.deep_view();
        let ghost mv = messages.deep_view();
        let ghost tv = artifacts.deep_view();
        if next_message_id < 1 || next_artifact_id < 1 {
            return Err(BBError::Persistence);
        }
        let mut j: usize = 1;
        while j < agents.len()
            invariant
                1 <= j <= agents@.len() || agents@.len() == 0,
                av == agents.deep_view(),
                av.len() == agents@.len(),
                forall|a: int, b: int|
                    0 <= a < b < j ==> (#[trigger] av[a]).id != (#[trigger] av[b]).id,
            decreases agents@.len() - j,
        {
            let mut a: usize = 0;
            while a < j
                invariant
                    a <= j < agents@.len(),
                    av == agents.deep_view(),
                    av.len() == agents@.len(),
                    forall|b: int| 0 <= b < a ==> (#[trigger] av[b]).id != av[j as int].id,
                decreases j - a,
            {
                proof {
                    assert(av[a as int] == agents@[a as int]@);
                    assert(av[j as int] == agents@[j as int]@);
                }
                if str_eq(agents[a].id.as_str(), agents[j].id.as_str()) {
                    return Err(BBError::Persistence);
                }
                a = a + 1;
            }
            j = j + 1;
        }
        let mut j: usize = 1;
        while j < artifacts.len()
            invariant
                1 <= j <= artifacts@.len() || artifacts@.len() == 0,
                tv == artifacts.deep_view(),
                tv.len() == artifacts@.len(),
                forall|a: int, b: int|
                    0 <= a < b < j ==> (#[trigger] tv[a]).path != (#[trigger] tv[b]).path,
            decreases artifacts@.len() - j,
        {
            let mut a: usize = 0;
            while a < j
                invariant
                    a <= j < artifacts@.len(),
                    tv == artifacts.deep_view(),
                    tv.len() == artifacts@.len(),
                    forall|b: int| 0 <= b < a ==> (#[trigger] tv[b]).path != tv[j as int].path,
                decreases j - a,
            {
                proof {
                    assert(tv[a as int] == artifacts@[a as int]@);
                    assert(tv[j as int] == artifacts@[j as int]@);
                }
                if str_eq(artifacts[a].path.as_str(), artifacts[j].path.as_str()) {
                    return Err(BBError::Persistence);
                }
                a = a + 1;
            }
            j = j + 1;
        }
        let mut k: usize = 0;
        while k < artifacts.len()
            invariant
                k <= artifacts@.len(),
                tv == artifacts.deep_view(),
                tv.len() == artifacts@.len(),
                forall|i: int|
                    0 <= i < k ==> 0 < (#[trigger] tv[i]).id < next_artifact_id as int,
            decreases artifacts@.len() - k,
        {
            proof {
                assert(tv[k as int] == artifacts@[k as int]@);
            }
            if artifacts[k].id < 1 || artifacts[k].id >= next_artifact_id {
                return Err(BBError::Persistence);
            }
            k = k + 1;
        }
        let mut k: usize = 0;
        while k < messages.len()
            invariant
                k <= messages@.len(),
                mv == messages.deep_view(),
                mv.len() == messages@.len(),
                forall|i: int|
                    0 <= i < k ==> 0 < (#[trigger] mv[i]).id < next_message_id as int,
                forall|a: int, b: int|
                    0 <= a < b < k ==> (#[trigger] mv[a]).id < (#[trigger] mv[b]).id,
            decreases messages@.len() - k,
        {
            proof {
                assert(mv[k as int] == messages@[k as int]@);
                if k > 0 {
                    assert(mv[k as int - 1] == messages@[k as int - 1]@);
                }
            }
            if messages[k].id < 1 || messages[k].id >= next_message_id {
                return Err(BBError::Persistence);
            }
            if k > 0 && messages[k - 1].id >= messages[k].id {
                return Err(BBError::Persistence);
            }
            proof {
                assert forall|a: int, b: int| 0 <= a < b < k + 1 implies (#[trigger] mv[a]).id < (
                #[trigger] mv[b]).id by {
                    if b == k as int && a < k - 1 {
                        assert(mv[a].id < mv[k as int - 1].id);
                    }
                }
            }
            k = k + 1;
        }
        let s = Store { agents, messages, artifacts, next_message_id, next_artifact_id };
        proof {
            assert(s@ =~= (StoreV {
                agents: av,
                messages: mv,
                artifacts: tv,
                next_message_id: next_message_id as int,
                next_artifact_id: next_artifact_id as int,
            }));
        }
        Ok(s)
    }

    /// The stored agent rows, in stored order.
    pub fn agent_rows(&self) -> (r: &Vec<Agent>)
        ensures
            r.deep_view() == self@.agents,
    {
        &self.agents
    }

    /// The stored message rows, in stored (id) order.
    pub fn message_rows(&self) -> (r: &Vec<Message>)
        ensures
            r.deep_view() == self@.messages,
    {
        &self.messages
    }

    /// The stored artifact rows, in stored order.
    pub fn artifact_rows(&self) -> (r: &Vec<Artifact>)
        ensures
            r.deep_view() == self@.artifacts,
    {
        &self.artifacts
    }

    /// The next id a message will be assigned.
    pub fn next_message_id(&self) -> (r: i64)
        ensures
            r as int == self@.next_message_id,
    {
        self.next_message_id
    }

    /// The next id a fresh artifact will be assigned.
    pub fn next_artifact_id(&self) -> (r: i64)
        ensures
            r as int == self@.next_artifact_id,
    {
        self.next_artifact_id
    }

    /// The position of the agent with this id, or the count if absent.
    fn find_agent(&self, id: &str) -> (r: usize)
        ensures
            r == agent_idx(self@.agents, id@),
    {
        let ghost av = self@.agents;
        proof {
            lemma_agent_idx(av, id@);
        }
        let mut i: usize = 0;
        while i < self.agents.len()
            invariant
                i <= self.agents@.len(),
                av == self@.agents,
                av.len() == self.agents@.len(),
                forall|j: int| 0 <= j < i ==> (#[trigger] av[j]).id != id@,
                0 <= agent_idx(av, id@) <= av.len(),
                agent_idx(av, id@) < av.len() ==> av[agent_idx(av, id@)].id == id@,
                forall|j: int| 0 <= j < agent_idx(av, id@) ==> (#[trigger] av[j]).id != id@,
            decreases self.agents@.len() - i,
        {
            proof {
                assert(av[i as int] == self.agents@[i as int]@);
            }
            if str_eq(self.agents[i].id.as_str(), id) {
                return i;
            }
            i = i + 1;
        }
        i
    }

    /// Inserts the agent row, or fully replaces the row with the same id.
    pub fn upsert_agent(&mut self, agent: &Agent)
        requires
            old(self).wf(),
        ensures
            final(self).wf(),
            final(self)@ == (StoreV {
                agents: upsert_agent_seq(old(self)@.agents, agent@),
                ..old(self)@
            }),
    {
        let ghost av = self@.agents;
        proof {
            lemma_agent_idx(av, agent@.id);
        }
        let i = self.find_agent(agent.id.as_str());
        if i < self.agents.len() {
            let ghost old_elems = self.agents@;
            self.agents.set(i, agent.clone());
            proof {
                assert forall|j: int| 0 <= j < self.agents@.len() implies #[trigger] self.agents@[j].deep_view()
                    == av.update(i as int, agent@)[j] by {
                    if j != i {
                        assert(self.agents@[j] == old_elems[j]);
                    }
                }
                assert(self.agents.deep_view() =~= av.update(i as int, agent@));
                assert(self@ =~= (StoreV {
                    agents: upsert_agent_seq(old(self)@.agents, agent@),
                    ..old(self)@
                }));
            }
        } else {
            let ghost old_elems = self.agents@;
            self.agents.push(agent.clone());
            proof {
                assert forall|j: int| 0 <= j < self.agents@.len() implies #[trigger] self.agents@[j].deep_view()
                    == av.push(agent@)[j] by {
                    if j < old_elems.len() {
                        assert(self.agents@[j] == old_elems[j]);
                    }
                }
                assert(self.agents.deep_view() =~= av.push(agent@));
                assert(self@ =~= (StoreV {
                    agents: upsert_agent_seq(old(self)@.agents, agent@),
                    ..old(self)@
                }));
            }
        }
    }

    /// Looks an agent up by id; the id is validated first.
    pub fn get_agent(&self, agent_id: &str) -> (r: BBResult<Option<Agent>>)
        ensures
            match r {
                Err(e) => validate_agent_id_spec(agent_id@) == Err::<(), BBError>(e),
                Ok(found) => validate_agent_id_spec(agent_id@) is Ok && match found {
                    Some(a) => agent_idx(self@.agents, agent_id@) < self@.agents.len() && a@
                        == self@.agents[agent_idx(self@.agents, agent_id@)],
                    None => agent_idx(self@.agents, agent_id@) == self@.agents.len(),
                },
            },
    {
        if let Err(e) = validate_agent_id(agent_id) {
            return Err(e);
        }
        proof {
            assert(self@.agents.len() == self.agents@.len());
            lemma_agent_idx(self@.agents, agent_id@);
        }
        let i = self.find_agent(agent_id);
        if i < self.agents.len() {
            proof {
                assert(self@.agents[i as int] == self.agents@[i as int]@);
            }
            Ok(Some(self.agents[i].clone()))
        } else {
            Ok(None)
        }
    }

    /// All agents, ordered by last-seen time descending (no sweep).
    pub fn get_all_agents(&self) -> (r: Vec<Agent>)
        ensures
            r.deep_view() == sort_agents_spec(self@.agents),
    {
        sort_agents(&self.agents)
    }
}

/// Whether the sweep turns this agent offline: its persisted status is not
/// already Offline and it was last seen more than the stale threshold ago.
pub open spec fn sweep_cond(a: AgentV, now: int) -> bool {
    a.status != AgentStatus::Offline && a.last_seen < now - (LIVENESS_STALE_MINUTES as int) * 60
}

/// The agent after the sweep: turned Offline if [`sweep_cond`] holds.
pub open spec fn sweep_agent(a: AgentV, now: int) -> AgentV {
    if sweep_cond(a, now) {
        AgentV { status: AgentStatus::Offline, ..a }
    } else {
        a
    }
}

/// How many agents of `s` the sweep turns offline.
pub open spec fn sweep_count(s: Seq<AgentV>, now: int) -> int
    decreases s.len(),
{
    if s.len() == 0 {
        0
    } else {
        sweep_count(s.drop_last(), now) + if sweep_cond(s.last(), now) {
            1int
        } else {
            0int
        }
    }
}

proof fn lemma_sweep_count_bound(s: Seq<AgentV>, now: int)
    ensures
        0 <= sweep_count(s, now) <= s.len(),
    decreases s.len(),
{
    if s.len() > 0 {
        lemma_sweep_count_bound(s.drop_last(), now);
    }
}

impl Store {
    /// Persists status Offline for every agent whose persisted status is not
    /// already Offline and whose last-seen time is older than the stale
    /// threshold; returns how many rows changed.
    pub fn update_offline_status(&mut self, now: i64) -> (n: usize)
        requires
            old(self).wf(),
        ensures
            final(self).wf(),
            final(self)@.agents.len() == old(self)@.agents.len(),
            forall|i: int|
                0 <= i < old(self)@.agents.len() ==> final(self)@.agents[i] == sweep_agent(
                    #[trigger] old(self)@.agents[i],
                    now as int,
                ),
            final(self)@ == (StoreV { agents: final(self)@.agents, ..old(self)@ }),
            n == sweep_count(old(self)@.agents, now as int),
    {
        let ghost av = self@.agents;
        let mut n: usize = 0;
        let mut i: usize = 0;
        proof {
            lemma_sweep_count_bound(av, now as int);
        }
        while i < self.agents.len()
            invariant
                old(self).wf(),
                i <= self.agents@.len(),
                self.agents@.len() == av.len(),
                av == old(self)@.agents,
                self.messages == old(self).messages,
                self.artifacts == old(self).artifacts,
                self.next_message_id == old(self).next_message_id,
                self.next_artifact_id == old(self).next_artifact_id,
                forall|j: int|
                    0 <= j < i ==> #[trigger] self.agents@[j].deep_view() == sweep_agent(
                        av[j],
                        now as int,
                    ),
                forall|j: int|
                    i <= j < av.len() ==> #[trigger] self.agents@[j].deep_view() == av[j],
                n == sweep_count(av.take(i as int), now as int),
                n <= i,
            decreases self.agents@.len() - i,
        {
            proof {
                assert(self.agents@[i as int].deep_view() == av[i as int]);
                assert(av.take(i as int + 1).drop_last() =~= av.take(i as int));
                assert(av.take(i as int + 1).last() == av[i as int]);
            }
            let stale = {
                let a = &self.agents[i];
                !matches!(a.status, AgentStatus::Offline) && (a.last_seen as i128) < (now as i128)
                    - (LIVENESS_STALE_MINUTES as i128) * 60
            };
            if stale {
                let ghost old_elems = self.agents@;
                let mut a = self.agents[i].clone();
                a.status = AgentStatus::Offline;
                proof {
                    assert(a.deep_view() == sweep_agent(av[i as int], now as int));
                }
                self.agents.set(i, a);
                proof {
                    assert(forall|j: int|
                        0 <= j < self.agents@.len() && j != i ==> #[trigger] self.agents@[j]
                            == old_elems[j]);
                }
                n = n + 1;
            } else {
                proof {
                    assert(!sweep_cond(av[i as int], now as int));
                    assert(self.agents@[i as int].deep_view() == sweep_agent(
                        av[i as int],
                        now as int,
                    ));
                }
            }
            i = i + 1;
        }
        proof {
            assert(av.take(av.len() as int) =~= av);
            assert forall|k: int| 0 <= k < self@.agents.len() implies self@.agents[k]
                == sweep_agent(av[k], now as int) by {
                assert(self@.agents[k] == self.agents@[k].deep_view());
            }
            assert(self@ =~= (StoreV { agents: self@.agents, ..old(self)@ }));
        }
        n
    }

    /// Removes every agent whose persisted status is Offline; returns how
    /// many rows were removed.
    pub fn delete_offline_agents(&mut self) -> (n: usize)
        requires
            old(self).wf(),
        ensures
            final(self).wf(),
            final(self)@ == (StoreV {
                agents: keep_present_agents(old(self)@.agents),
                ..old(self)@
            }),
            n == old(self)@.agents.len() - keep_present_agents(old(self)@.agents).len(),
    {
        let ghost av = self@.agents;
        proof {
            lemma_keep_present_agents(av);
            assert(av.take(0) =~= Seq::<AgentV>::empty());
        }
        let mut out: Vec<Agent> = Vec::new();
        let mut i: usize = 0;
        while i < self.agents.len()
            invariant
                i <= self.agents@.len(),
                av == self@.agents,
                av.len() == self.agents@.len(),
                out.deep_view() == keep_present_agents(av.take(i as int)),
                out@.len() == keep_present_agents(av.take(i as int)).len(),
            decreases self.agents@.len() - i,
        {
            proof {
                assert(av[i as int] == self.agents@[i as int]@);
                assert(av.take(i as int + 1).drop_last() =~= av.take(i as int));
                assert(av.take(i as int + 1).last() == av[i as int]);
            }
            let keep = !matches!(self.agents[i].status, AgentStatus::Offline);
            if keep {
                let ghost old_elems = out@;
                out.push(self.agents[i].clone());
                proof {
                    assert forall|j: int| 0 <= j < out@.len() implies #[trigger] out@[j].deep_view()
                        == keep_present_agents(av.take(i as int + 1))[j] by {
                        if j < old_elems.len() {
                            assert(out@[j] == old_elems[j]);
                        }
                    }
                    assert(out.deep_view() =~= keep_present_agents(av.take(i as int + 1)));
                }
            }
            i = i + 1;
        }
        proof {
            assert(av.take(av.len() as int) =~= av);
        }
        let n = self.agents.len() - out.len();
        self.agents = out;
        proof {
            assert(self@ =~= (StoreV { agents: keep_present_agents(av), ..old(self)@ }));
        }
        n
    }

    /// Creates the agent on first touch or applies the partial update to the
    /// stored row: task, clamped progress, status (any status other than
    /// Blocked clears the blockers), then explicit blockers; both timestamps
    /// are set to `now`. Validation failures leave the store unchanged.
    pub fn update_agent_status(
        &mut self,
        agent_id: &str,
        current_task: Option<&str>,
        progress: Option<u8>,
        status: Option<AgentStatus>,
        blockers: Option<&str>,
        now: i64,
    ) -> (r: BBResult<Agent>)
        requires
            old(self).wf(),
        ensures
            final(self).wf(),
            match r {
                Err(e) => final(self)@ == old(self)@ && status_update_error(
                    agent_id@,
                    opt_str_view(current_task),
                    opt_str_view(blockers),
                ) == Some(e),
                Ok(a) => status_update_error(
                    agent_id@,
                    opt_str_view(current_task),
                    opt_str_view(blockers),
                ) is None && a@ == apply_status_update(
                    status_update_base(old(self)@.agents, agent_id@, now as int),
                    opt_str_view(current_task),
                    progress,
                    status,
                    opt_str_view(blockers),
                    now as int,
                ) && final(self)@ == (StoreV {
                    agents: upsert_agent_seq(old(self)@.agents, a@),
                    ..old(self)@
                }),
            },
    {
        if let Err(e) = validate_agent_id(agent_id) {
            return Err(e);
        }
        if let Some(task) = current_task {
            if let Err(e) = validate_task(task) {
                return Err(e);
            }
        }
        if let Some(b) = blockers {
            if let Err(e) = validate_blockers(b) {
                return Err(e);
            }
        }
        proof {
            assert(self@.agents.len() == self.agents@.len());
            lemma_agent_idx(self@.agents, agent_id@);
        }
        let i = self.find_agent(agent_id);
        let mut base: Agent = if i < self.agents.len() {
            proof {
                assert(self@.agents[i as int] == self.agents@[i as int]@);
            }
            self.agents[i].clone()
        } else {
            Agent::new(agent_id, now)
        };
        proof {
            assert(base@ == status_update_base(self@.agents, agent_id@, now as int));
        }
        if let Some(task) = current_task {
            base.current_task = task.to_owned();
        }
        if let Some(p) = progress {
            base.progress = if p > 100 {
                100
            } else {
                p
            };
        }
        if let Some(st) = status {
            base.status = st;
            if !matches!(st, AgentStatus::Blocked) {
                base.blockers = None;
            }
        }
        if let Some(b) = blockers {
            base.blockers = Some(b.to_owned());
        }
        base.last_seen = now;
        base.updated_at = now;
        proof {
            assert(base@ =~= apply_status_update(
                status_update_base(old(self)@.agents, agent_id@, now as int),
                opt_str_view(current_task),
                progress,
                status,
                opt_str_view(blockers),
                now as int,
            ));
        }
        let result = base.clone();
        self.upsert_agent(&base);
        proof {
            assert(result@ == base@);
        }
        Ok(result)
    }

    /// Refreshes only the agent's last-seen time, creating the agent on
    /// first touch.
    pub fn touch_agent(&mut self, agent_id: &str, now: i64) -> (r: BBResult<()>)
        requires
            old(self).wf(),
        ensures
            final(self).wf(),
            match r {
                Err(e) => final(self)@ == old(self)@ && validate_agent_id_spec(agent_id@)
                    == Err::<(), BBError>(e),
                Ok(_) => validate_agent_id_spec(agent_id@) is Ok && final(self)@ == (StoreV {
                    agents: upsert_agent_seq(
                        old(self)@.agents,
                        AgentV {
                            last_seen: now as int,
                            ..status_update_base(old(self)@.agents, agent_id@, now as int)
                        },
                    ),
                    ..old(self)@
                }),
            },
    {
        if let Err(e) = validate_agent_id(agent_id) {
            return Err(e);
        }
        proof {
            assert(self@.agents.len() == self.agents@.len());
            lemma_agent_idx(self@.agents, agent_id@);
        }
        let i = self.find_agent(agent_id);
        let mut base: Agent = if i < self.agents.len() {
            proof {
                assert(self@.agents[i as int] == self.agents@[i as int]@);
            }
            self.agents[i].clone()
        } else {
            Agent::new(agent_id, now)
        };
        base.last_seen = now;
        proof {
            assert(base@ =~= (AgentV {
                last_seen: now as int,
                ..status_update_base(old(self)@.agents, agent_id@, now as int)
            }));
        }
        self.upsert_agent(&base);
        Ok(())
    }

    /// Resets the agent to a fresh state: empty task, zero progress, Idle,
    /// no blockers, both timestamps set to `now`.
    pub fn clear_agent_status(&mut self, agent_id: &str, now: i64) -> (r: BBResult<Agent>)
        requires
            old(self).wf(),
        ensures
            final(self).wf(),
            match r {
                Err(e) => final(self)@ == old(self)@ && validate_agent_id_spec(agent_id@)
                    == Err::<(), BBError>(e),
                Ok(a) => validate_agent_id_spec(agent_id@) is Ok && a@ == fresh_agent(
                    agent_id@,
                    now as int,
                ) && final(self)@ == (StoreV {
                    agents: upsert_agent_seq(old(self)@.agents, a@),
                    ..old(self)@
                }),
            },
    {
        if let Err(e) = validate_agent_id(agent_id) {
            return Err(e);
        }
        let cleared = Agent::new(agent_id, now);
        let result = cleared.clone();
        proof {
            assert(cleared@ =~= fresh_agent(agent_id@, now as int));
        }
        self.upsert_agent(&cleared);
        Ok(result)
    }

    /// All agents ordered by last-seen time descending, after first
    /// persisting the offline sweep: the read that mutates state.
    pub fn get_all_agents_with_liveness(&mut self, now: i64) -> (r: Vec<Agent>)
        requires
            old(self).wf(),
        ensures
            final(self).wf(),
            final(self)@.agents.len() == old(self)@.agents.len(),
            forall|i: int|
                0 <= i < old(self)@.agents.len() ==> final(self)@.agents[i] == sweep_agent(
                    #[trigger] old(self)@.agents[i],
                    now as int,
                ),
            final(self)@ == (StoreV { agents: final(self)@.agents, ..old(self)@ }),
            r.deep_view() == sort_agents_spec(final(self)@.agents),
    {
        self.update_offline_status(now);
        self.get_all_agents()
    }
}

/// A reference lookup as the list filters take it: `where` and `what` fields
/// plus the classified value.
#[verifier::ext_equal]
pub struct RefQueryV {
    pub where_: Seq<char>,
    pub what: Seq<char>,
    pub value: RefValueV,
}

/// The query a message listing filters by; every given part must hold.
#[verifier::ext_equal]
pub struct MsgQueryV {
    pub since: Option<int>,
    pub tags: Seq<Seq<char>>,
    pub from_agent: Option<Seq<char>>,
    pub min_priority: Option<Priority>,
    pub refq: Option<RefQueryV>,
}

/// The reference filter that is active when all three lookup parts are given:
/// the value part is classified as a parse would classify it.
pub open spec fn ref_query_view(
    w: Option<&str>,
    h: Option<&str>,
    v: Option<&str>,
) -> Option<RefQueryV> {
    match (w, h, v) {
        (Some(ws), Some(hs), Some(vs)) => Some(
            RefQueryV { where_: ws@, what: hs@, value: classify_token(vs@) },
        ),
        _ => None,
    }
}

/// The view of an optional timestamp argument.
pub open spec fn opt_i64_view(o: Option<i64>) -> Option<int> {
    match o {
        Some(t) => Some(t as int),
        None => None,
    }
}

/// Whether a message passes every given filter: created at or after `since`;
/// sharing at least one tag with the given set (when nonempty); the exact
/// sender; at least the given priority; and an exact reference-triple match.
pub open spec fn msg_passes(m: MessageV, q: MsgQueryV) -> bool {
    &&& match q.since {
        Some(t) => m.created_at >= t,
        None => true,
    }
    &&& (q.tags.len() == 0 || exists|i: int, j: int|
        0 <= i < m.tags.len() && 0 <= j < q.tags.len() && #[trigger] m.tags[i] == #[trigger] q.tags[j])
    &&& match q.from_agent {
        Some(f) => m.from_agent == f,
        None => true,
    }
    &&& match q.min_priority {
        Some(p) => m.priority.level_spec() >= p.level_spec(),
        None => true,
    }
    &&& match q.refq {
        Some(rq) => exists|i: int|
            0 <= i < m.refs.len() && ref_triple_same(#[trigger] m.refs[i], rq.where_, rq.what, rq.value),
        None => true,
    }
}

/// The messages that pass the query, in stored order.
pub open spec fn filter_msgs(s: Seq<MessageV>, q: MsgQueryV) -> Seq<MessageV>
    decreases s.len(),
{
    if s.len() == 0 {
        Seq::empty()
    } else if msg_passes(s.last(), q) {
        filter_msgs(s.drop_last(), q).push(s.last())
    } else {
        filter_msgs(s.drop_last(), q)
    }
}

/// Every filtered message passes the query.
pub proof fn lemma_filter_msgs_pass(s: Seq<MessageV>, q: MsgQueryV)
    ensures
        filter_msgs(s, q).len() <= s.len(),
        forall|i: int|
            0 <= i < filter_msgs(s, q).len() ==> msg_passes(#[trigger] filter_msgs(s, q)[i], q),
    decreases s.len(),
{
    if s.len() > 0 {
        lemma_filter_msgs_pass(s.drop_last(), q);
        if msg_passes(s.last(), q) {
            let kept = filter_msgs(s.drop_last(), q);
            assert(forall|i: int|
                0 <= i < kept.len() ==> #[trigger] kept.push(s.last())[i] == kept[i]);
        }
    }
}

/// The replies to one message, in stored order.
pub open spec fn filter_replies(s: Seq<MessageV>, id: int) -> Seq<MessageV>
    decreases s.len(),
{
    if s.len() == 0 {
        Seq::empty()
    } else if s.last().in_reply_to == Some(id) {
        filter_replies(s.drop_last(), id).push(s.last())
    } else {
        filter_replies(s.drop_last(), id)
    }
}

/// The messages created at or after `before` — what a purge keeps.
pub open spec fn keep_msgs_from(s: Seq<MessageV>, before: int) -> Seq<MessageV>
    decreases s.len(),
{
    if s.len() == 0 {
        Seq::empty()
    } else if s.last().created_at >= before {
        keep_msgs_from(s.drop_last(), before).push(s.last())
    } else {
        keep_msgs_from(s.drop_last(), before)
    }
}

/// The purge keeps at most as many rows and keeps their ids strictly
/// increasing.
pub proof fn lemma_keep_msgs_from(s: Seq<MessageV>, before: int)
    requires
        forall|i: int, j: int|
            0 <= i < j < s.len() ==> (#[trigger] s[i]).id < (#[trigger] s[j]).id,
    ensures
        keep_msgs_from(s, before).len() <= s.len(),
        forall|x: MessageV| #[trigger] keep_msgs_from(s, before).contains(x) ==> s.contains(x),
        forall|i: int, j: int|
            0 <= i < j < keep_msgs_from(s, before).len() ==> (#[trigger] keep_msgs_from(
                s,
                before,
            )[i]).id < (#[trigger] keep_msgs_from(s, before)[j]).id,
    decreases s.len(),
{
    broadcast use vstd::seq_lib::group_seq_properties;

    if s.len() > 0 {
        let rest = s.drop_last();
        lemma_keep_msgs_from(rest, before);
        let kept = keep_msgs_from(rest, before);
        assert(s =~= rest + seq![s.last()]);
        assert forall|x: MessageV| #[trigger] kept.contains(x) implies s.contains(x) by {
            assert(rest.contains(x));
        }
        if s.last().created_at >= before {
            let all = kept.push(s.last());
            assert forall|i: int, j: int|
                0 <= i < j < all.len() implies (#[trigger] all[i]).id < (#[trigger] all[j]).id by {
                if j == all.len() - 1 {
                    assert(kept.contains(kept[i]));
                    assert(rest.contains(kept[i]));
                    let k = choose|k: int| 0 <= k < rest.len() && rest[k] == kept[i];
                    assert(s[k] == kept[i]);
                    assert(s[k].id < s[s.len() - 1].id);
                } else {
                    assert(all[i] == kept[i]);
                    assert(all[j] == kept[j]);
                }
            }
        }
    }
}

/// The error posting a message reports, if any: empty or over-long content;
/// bad tags; too many references; a reply target that does not exist; or an
/// exhausted id space.
pub open spec fn post_error(
    msgs: Seq<MessageV>,
    content: Seq<char>,
    tags: Seq<Seq<char>>,
    refs_len: int,
    in_reply_to: Option<int>,
    next_id: int,
) -> Option<BBError> {
    if validate_message_content_spec(content) is Err {
        Some(validate_message_content_spec(content)->Err_0)
    } else if validate_tags_spec(tags) is Err {
        Some(validate_tags_spec(tags)->Err_0)
    } else if refs_len > MAX_REFS_PER_ENTITY {
        Some(BBError::InvalidInput(InvalidReason::TooManyRefs))
    } else if in_reply_to is Some && msg_idx(msgs, in_reply_to->0) == msgs.len() {
        Some(BBError::NotFound)
    } else if next_id >= i64::MAX {
        Some(BBError::Persistence)
    } else {
        None
    }
}

impl Store {
    /// The position of the message with this id, or the count if absent.
    fn find_message(&self, id: i64) -> (r: usize)
        ensures
            r == msg_idx(self@.messages, id as int),
    {
        let ghost mv = self@.messages;
        proof {
            lemma_msg_idx(mv, id as int);
        }
        let mut i: usize = 0;
        while i < self.messages.len()
            invariant
                i <= self.messages@.len(),
                mv == self@.messages,
                mv.len() == self.messages@.len(),
                forall|j: int| 0 <= j < i ==> (#[trigger] mv[j]).id != id as int,
                0 <= msg_idx(mv, id as int) <= mv.len(),
                msg_idx(mv, id as int) < mv.len() ==> mv[msg_idx(mv, id as int)].id == id as int,
                forall|j: int| 0 <= j < msg_idx(mv, id as int) ==> (#[trigger] mv[j]).id != id as int,
            decreases self.messages@.len() - i,
        {
            proof {
                assert(mv[i as int] == self.messages@[i as int]@);
            }
            if self.messages[i].id == id {
                return i;
            }
            i = i + 1;
        }
        i
    }

    /// Looks a message up by id.
    pub fn get_message(&self, id: i64) -> (r: Option<Message>)
        ensures
            match r {
                Some(m) => msg_idx(self@.messages, id as int) < self@.messages.len() && m@
                    == self@.messages[msg_idx(self@.messages, id as int)],
                None => msg_idx(self@.messages, id as int) == self@.messages.len(),
            },
    {
        proof {
            assert(self@.messages.len() == self.messages@.len());
            lemma_msg_idx(self@.messages, id as int);
        }
        let i = self.find_message(id);
        if i < self.messages.len() {
            proof {
                assert(self@.messages[i as int] == self.messages@[i as int]@);
            }
            Some(self.messages[i].clone())
        } else {
            None
        }
    }

    /// Appends a message row, assigning it the next monotonic id; every other
    /// field is taken from the given message as it stands. Fails only when
    /// the id space is exhausted.
    pub fn insert_message(&mut self, message: &Message) -> (r: BBResult<i64>)
        requires
            old(self).wf(),
        ensures
            final(self).wf(),
            match r {
                Ok(id) => old(self)@.next_message_id < i64::MAX && id == old(
                    self,
                )@.next_message_id && final(self)@ == (StoreV {
                    messages: old(self)@.messages.push(
                        MessageV { id: old(self)@.next_message_id, ..message@ },
                    ),
                    next_message_id: old(self)@.next_message_id + 1,
                    ..old(self)@
                }),
                Err(e) => e == BBError::Persistence && old(self)@.next_message_id == i64::MAX
                    && final(self)@ == old(self)@,
            },
    {
        if self.next_message_id == i64::MAX {
            return Err(BBError::Persistence);
        }
        let id = self.next_message_id;
        let mut row = message.clone();
        row.id = id;
        proof {
            assert(row@ =~= (MessageV { id: id as int, ..message@ }));
        }
        let ghost old_elems = self.messages@;
        let ghost old_msgs = self@.messages;
        self.messages.push(row);
        self.next_message_id = id + 1;
        proof {
            assert forall|j: int| 0 <= j < self.messages@.len() implies #[trigger] self.messages@[j].deep_view()
                == old_msgs.push(MessageV { id: id as int, ..message@ })[j] by {
                if j < old_elems.len() {
                    assert(self.messages@[j] == old_elems[j]);
                }
            }
            assert(self.messages.deep_view() =~= old_msgs.push(
                MessageV { id: id as int, ..message@ },
            ));
            assert(self@ =~= (StoreV {
                messages: old(self)@.messages.push(MessageV { id: id as int, ..message@ }),
                next_message_id: old(self)@.next_message_id + 1,
                ..old(self)@
            }));
        }
        Ok(id)
    }

    /// Posts a message: validates content, tags and reference count, checks
    /// the reply target exists, then appends the row with the next id and
    /// `now` as its creation time. On any failure nothing is written.
    pub fn post_message(
        &mut self,
        from_agent: &str,
        content: &str,
        tags: Vec<String>,
        priority: Priority,
        in_reply_to: Option<i64>,
        refs: Vec<Reference>,
        now: i64,
    ) -> (r: BBResult<Message>)
        requires
            old(self).wf(),
        ensures
            final(self).wf(),
            match r {
                Err(e) => final(self)@ == old(self)@ && post_error(
                    old(self)@.messages,
                    content@,
                    tags.deep_view(),
                    refs.deep_view().len() as int,
                    opt_i64_view(in_reply_to),
                    old(self)@.next_message_id,
                ) == Some(e),
                Ok(m) => post_error(
                    old(self)@.messages,
                    content@,
                    tags.deep_view(),
                    refs.deep_view().len() as int,
                    opt_i64_view(in_reply_to),
                    old(self)@.next_message_id,
                ) is None && m@ == (MessageV {
                    id: old(self)@.next_message_id,
                    from_agent: from_agent@,
                    content: content@,
                    tags: tags.deep_view(),
                    priority: priority,
                    in_reply_to: opt_i64_view(in_reply_to),
                    refs: refs.deep_view(),
                    created_at: now as int,
                }) && final(self)@ == (StoreV {
                    messages: old(self)@.messages.push(m@),
                    next_message_id: old(self)@.next_message_id + 1,
                    ..old(self)@
                }),
            },
    {
        if let Err(e) = validate_message_content(content) {
            return Err(e);
        }
        if let Err(e) = validate_tags(&tags) {
            return Err(e);
        }
        if refs.len() > MAX_REFS_PER_ENTITY {
            proof {
                assert(refs.deep_view().len() == refs@.len());
            }
            return Err(BBError::InvalidInput(InvalidReason::TooManyRefs));
        }
        proof {
            assert(refs.deep_view().len() == refs@.len());
            assert(self@.messages.len() == self.messages@.len());
            lemma_msg_idx(self@.messages, match in_reply_to {
                Some(t) => t as int,
                None => 0,
            });
        }
        if let Some(reply_to) = in_reply_to {
            proof {
                lemma_msg_idx(self@.messages, reply_to as int);
            }
            let i = self.find_message(reply_to);
            if i == self.messages.len() {
                return Err(BBError::NotFound);
            }
        }
        if self.next_message_id == i64::MAX {
            return Err(BBError::Persistence);
        }
        let id = self.next_message_id;
        let row = Message {
            id,
            from_agent: from_agent.to_owned(),
            content: content.to_owned(),
            tags,
            priority,
            in_reply_to,
            refs,
            created_at: now,
        };
        let result = row.clone();
        let ghost old_elems = self.messages@;
        let ghost old_msgs = self@.messages;
        self.messages.push(row);
        self.next_message_id = id + 1;
        proof {
            assert forall|j: int| 0 <= j < self.messages@.len() implies #[trigger] self.messages@[j].deep_view()
                == old_msgs.push(result@)[j] by {
                if j < old_elems.len() {
                    assert(self.messages@[j] == old_elems[j]);
                }
            }
            assert(self.messages.deep_view() =~= old_msgs.push(result@));
            assert(self@ =~= (StoreV {
                messages: old(self)@.messages.push(result@),
                next_message_id: old(self)@.next_message_id + 1,
                ..old(self)@
            }));
            assert(result@ =~= (MessageV {
                id: old(self)@.next_message_id,
                from_agent: from_agent@,
                content: content@,
                tags: result@.tags,
                priority: priority,
                in_reply_to: opt_i64_view(in_reply_to),
                refs: result@.refs,
                created_at: now as int,
            }));
        }
        Ok(result)
    }

    /// The replies to a message, oldest first, capped at fifty independent of
    /// any caller limit.
    pub fn get_message_replies(&self, message_id: i64) -> (r: Vec<Message>)
        ensures
            r.deep_view() == take_at_most(
                sort_msgs(filter_replies(self@.messages, message_id as int)).reverse(),
                50,
            ),
    {
        let ghost mv = self@.messages;
        let mut coll: Vec<Message> = Vec::new();
        proof {
            assert(mv.take(0) =~= Seq::<MessageV>::empty());
        }
        let mut i: usize = 0;
        while i < self.messages.len()
            invariant
                i <= self.messages@.len(),
                mv == self@.messages,
                mv.len() == self.messages@.len(),
                coll.deep_view() == filter_replies(mv.take(i as int), message_id as int),
                coll@.len() == filter_replies(mv.take(i as int), message_id as int).len(),
            decreases self.messages@.len() - i,
        {
            proof {
                assert(mv[i as int] == self.messages@[i as int]@);
                assert(mv.take(i as int + 1).drop_last() =~= mv.take(i as int));
                assert(mv.take(i as int + 1).last() == mv[i as int]);
            }
            let is_reply = match self.messages[i].in_reply_to {
                Some(t) => t == message_id,
                None => false,
            };
            if is_reply {
                let ghost old_elems = coll@;
                coll.push(self.messages[i].clone());
                proof {
                    assert forall|j: int| 0 <= j < coll@.len() implies #[trigger] coll@[j].deep_view()
                        == filter_replies(mv.take(i as int + 1), message_id as int)[j] by {
                        if j < old_elems.len() {
                            assert(coll@[j] == old_elems[j]);
                        }
                    }
                    assert(coll.deep_view() =~= filter_replies(
                        mv.take(i as int + 1),
                        message_id as int,
                    ));
                }
            }
            i = i + 1;
        }
        proof {
            assert(mv.take(mv.len() as int) =~= mv);
        }
        let sorted = sort_messages(&coll);
        let oldest_first = reverse_messages(sorted);
        truncate_messages(oldest_first, 50)
    }

    /// A message and its replies: the message itself first, then its replies
    /// oldest first (capped at fifty).
    pub fn get_message_thread(&self, id: i64) -> (r: BBResult<Vec<Message>>)
        ensures
            match r {
                Ok(v) => msg_idx(self@.messages, id as int) < self@.messages.len()
                    && v.deep_view() == seq![
                    self@.messages[msg_idx(self@.messages, id as int)],
                ] + take_at_most(
                    sort_msgs(filter_replies(self@.messages, id as int)).reverse(),
                    50,
                ),
                Err(e) => e == BBError::NotFound && msg_idx(self@.messages, id as int)
                    == self@.messages.len(),
            },
    {
        let first = match self.get_message(id) {
            Some(m) => m,
            None => {
                return Err(BBError::NotFound);
            },
        };
        let replies = self.get_message_replies(id);
        let mut out: Vec<Message> = Vec::new();
        out.push(first);
        let ghost base = out.deep_view();
        proof {
            assert(base =~= seq![self@.messages[msg_idx(self@.messages, id as int)]]);
        }
        let mut k: usize = 0;
        while k < replies.len()
            invariant
                k <= replies@.len(),
                replies.deep_view().len() == replies@.len(),
                base == seq![self@.messages[msg_idx(self@.messages, id as int)]],
                out@.len() == 1 + k,
                forall|j: int| 0 <= j < out@.len() ==> #[trigger] out@[j].deep_view() == (base
                    + replies.deep_view().take(k as int))[j],
            decreases replies@.len() - k,
        {
            let ghost old_elems = out@;
            proof {
                assert(replies.deep_view()[k as int] == replies@[k as int]@);
            }
            out.push(replies[k].clone());
            proof {
                assert forall|j: int| 0 <= j < out@.len() implies #[trigger] out@[j].deep_view() == (
                base + replies.deep_view().take(k as int + 1))[j] by {
                    if j < old_elems.len() {
                        assert(out@[j] == old_elems[j]);
                    }
                }
            }
            k = k + 1;
        }
        proof {
            assert(replies.deep_view().take(replies@.len() as int) =~= replies.deep_view());
            assert(out.deep_view() =~= base + replies.deep_view());
        }
        Ok(out)
    }

    /// Messages passing every given filter, newest first, truncated to the
    /// caller's limit capped at one hundred.
    pub fn list_messages(
        &self,
        since: Option<i64>,
        tags: &Vec<String>,
        from_agent: Option<&str>,
        priority: Option<Priority>,
        ref_where: Option<&str>,
        ref_what: Option<&str>,
        ref_ref: Option<&str>,
        limit: usize,
    ) -> (r: Vec<Message>)
        ensures
            r.deep_view() == take_at_most(
                sort_msgs(
                    filter_msgs(
                        self@.messages,
                        MsgQueryV {
                            since: opt_i64_view(since),
                            tags: tags.deep_view(),
                            from_agent: opt_str_view(from_agent),
                            min_priority: priority,
                            refq: ref_query_view(ref_where, ref_what, ref_ref),
                        },
                    ),
                ),
                if limit < 100 {
                    limit as int
                } else {
                    100
                },
            ),
            forall|k: int|
                0 <= k < r.deep_view().len() ==> msg_passes(
                    #[trigger] r.deep_view()[k],
                    MsgQueryV {
                        since: opt_i64_view(since),
                        tags: tags.deep_view(),
                        from_agent: opt_str_view(from_agent),
                        min_priority: priority,
                        refq: ref_query_view(ref_where, ref_what, ref_ref),
                    },
                ),
    {
        let ghost q = MsgQueryV {
            since: opt_i64_view(since),
            tags: tags.deep_view(),
            from_agent: opt_str_view(from_agent),
            min_priority: priority,
            refq: ref_query_view(ref_where, ref_what, ref_ref),
        };
        let rv: Option<RefValue> = match (ref_where, ref_what, ref_ref) {
            (Some(_), Some(_), Some(vs)) => Some(token_to_ref_value(vs)),
            _ => None,
        };
        let ghost mv = self@.messages;
        let mut coll: Vec<Message> = Vec::new();
        proof {
            assert(mv.take(0) =~= Seq::<MessageV>::empty());
        }
        let mut i: usize = 0;
        while i < self.messages.len()
            invariant
                i <= self.messages@.len(),
                mv == self@.messages,
                mv.len() == self.messages@.len(),
                q == (MsgQueryV {
                    since: opt_i64_view(since),
                    tags: tags.deep_view(),
                    from_agent: opt_str_view(from_agent),
                    min_priority: priority,
                    refq: ref_query_view(ref_where, ref_what, ref_ref),
                }),
                match rv {
                    Some(v) => q.refq is Some && v@ == q.refq->0.value && ref_where is Some
                        && ref_what is Some,
                    None => q.refq is None,
                },
                coll.deep_view() == filter_msgs(mv.take(i as int), q),
                coll@.len() == filter_msgs(mv.take(i as int), q).len(),
            decreases self.messages@.len() - i,
        {
            proof {
                assert(mv[i as int] == self.messages@[i as int]@);
                assert(mv.take(i as int + 1).drop_last() =~= mv.take(i as int));
                assert(mv.take(i as int + 1).last() == mv[i as int]);
            }
            let m = &self.messages[i];
            let passes = message_matches(m, since, tags, from_agent, priority, ref_where, ref_what, &rv, Ghost(q));
            if passes {
                let ghost old_elems = coll@;
                coll.push(self.messages[i].clone());
                proof {
                    assert forall|j: int| 0 <= j < coll@.len() implies #[trigger] coll@[j].deep_view()
                        == filter_msgs(mv.take(i as int + 1), q)[j] by {
                        if j < old_elems.len() {
                            assert(coll@[j] == old_elems[j]);
                        }
                    }
                    assert(coll.deep_view() =~= filter_msgs(mv.take(i as int + 1), q));
                }
            }
            i = i + 1;
        }
        proof {
            assert(mv.take(mv.len() as int) =~= mv);
        }
        let sorted = sort_messages(&coll);
        let cap: usize = if limit < 100 {
            limit
        } else {
            100
        };
        let out = truncate_messages(sorted, cap);
        proof {
            lemma_filter_msgs_pass(mv, q);
            crate::sort::lemma_sort_msgs_elems(filter_msgs(mv, q));
            assert forall|k: int| 0 <= k < out.deep_view().len() implies msg_passes(
                #[trigger] out.deep_view()[k],
                q,
            ) by {
                let f = filter_msgs(mv, q);
                let srt = sort_msgs(f);
                assert(out.deep_view()[k] == srt[k]);
                assert(srt.contains(srt[k]));
                assert(f.contains(srt[k]));
                let j = choose|j: int| 0 <= j < f.len() && f[j] == srt[k];
                assert(msg_passes(f[j], q));
            }
        }
        out
    }

    /// Deletes every message created before the cutoff; returns how many
    /// rows were removed.
    pub fn delete_messages_before(&mut self, before: i64) -> (n: usize)
        requires
            old(self).wf(),
        ensures
            final(self).wf(),
            final(self)@ == (StoreV {
                messages: keep_msgs_from(old(self)@.messages, before as int),
                ..old(self)@
            }),
            n == old(self)@.messages.len() - keep_msgs_from(
                old(self)@.messages,
                before as int,
            ).len(),
    {
        let ghost mv = self@.messages;
        proof {
            lemma_keep_msgs_from(mv, before as int);
            assert(mv.take(0) =~= Seq::<MessageV>::empty());
        }
        let mut out: Vec<Message> = Vec::new();
        let mut i: usize = 0;
        while i < self.messages.len()
            invariant
                i <= self.messages@.len(),
                mv == self@.messages,
                mv.len() == self.messages@.len(),
                out.deep_view() == keep_msgs_from(mv.take(i as int), before as int),
                out@.len() == keep_msgs_from(mv.take(i as int), before as int).len(),
            decreases self.messages@.len() - i,
        {
            proof {
                assert(mv[i as int] == self.messages@[i as int]@);
                assert(mv.take(i as int + 1).drop_last() =~= mv.take(i as int));
                assert(mv.take(i as int + 1).last() == mv[i as int]);
            }
            if self.messages[i].created_at >= before {
                let ghost old_elems = out@;
                out.push(self.messages[i].clone());
                proof {
                    assert forall|j: int| 0 <= j < out@.len() implies #[trigger] out@[j].deep_view()
                        == keep_msgs_from(mv.take(i as int + 1), before as int)[j] by {
                        if j < old_elems.len() {
                            assert(out@[j] == old_elems[j]);
                        }
                    }
                    assert(out.deep_view() =~= keep_msgs_from(
                        mv.take(i as int + 1),
                        before as int,
                    ));
                }
            }
            i = i + 1;
        }
        proof {
            assert(mv.take(mv.len() as int) =~= mv);
        }
        let n = self.messages.len() - out.len();
        self.messages = out;
        proof {
            assert(self@ =~= (StoreV {
                messages: keep_msgs_from(mv, before as int),
                ..old(self)@
            }));
            let kept = keep_msgs_from(mv, before as int);
            assert forall|i: int| 0 <= i < kept.len() implies 0 < (#[trigger] kept[i]).id < self@.next_message_id by {
                assert(kept.contains(kept[i]));
                assert(mv.contains(kept[i]));
                let k = choose|k: int| 0 <= k < mv.len() && mv[k] == kept[i];
                assert(0 < mv[k].id < old(self)@.next_message_id);
            }
        }
        n
    }
}

/// The artifact row an upsert stores: the incoming fields, keyed id. A row
/// replaced in place keeps its id; a fresh row takes the next id.
pub open spec fn upsert_artifact_stored(arts: Seq<ArtifactV>, a: ArtifactV, next: int) -> ArtifactV {
    let i = artifact_idx(arts, a.path);
    if i < arts.len() {
        ArtifactV { id: arts[i].id, ..a }
    } else {
        ArtifactV { id: next, ..a }
    }
}

/// The artifact list after an upsert by path: the row with the same path is
/// fully replaced in place (every mutable field, keeping its id), or the new
/// row is appended with the next id.
pub open spec fn upsert_artifact_seq(arts: Seq<ArtifactV>, a: ArtifactV, next: int) -> Seq<
    ArtifactV,
> {
    let i = artifact_idx(arts, a.path);
    if i < arts.len() {
        arts.update(i, upsert_artifact_stored(arts, a, next))
    } else {
        arts.push(upsert_artifact_stored(arts, a, next))
    }
}

/// The error registering an artifact reports, if any: a rejected path first
/// (including the boundary's resolution answer), then an over-long
/// description, an over-long version, too many references, or an exhausted
/// id space.
pub open spec fn register_error(
    arts: Seq<ArtifactV>,
    next: int,
    path: Seq<char>,
    res: PathResolution,
    desc: Seq<char>,
    version: Option<Seq<char>>,
    refs_len: int,
) -> Option<BBError> {
    if validate_artifact_path_spec(path, res) is Err {
        Some(validate_artifact_path_spec(path, res)->Err_0)
    } else if validate_artifact_description_spec(desc) is Err {
        Some(validate_artifact_description_spec(desc)->Err_0)
    } else if version is Some && validate_version_spec(version->0) is Err {
        Some(validate_version_spec(version->0)->Err_0)
    } else if refs_len > MAX_REFS_PER_ENTITY {
        Some(BBError::InvalidInput(InvalidReason::TooManyRefs))
    } else if artifact_idx(arts, path) == arts.len() && next >= i64::MAX {
        Some(BBError::Persistence)
    } else {
        None
    }
}

/// The query an artifact listing filters by; every given part must hold.
#[verifier::ext_equal]
pub struct ArtQueryV {
    pub produced_by: Option<Seq<char>>,
    pub refq: Option<RefQueryV>,
}

/// Whether an artifact passes every given filter: the exact producer and an
/// exact reference-triple match.
pub open spec fn art_passes(a: ArtifactV, q: ArtQueryV) -> bool {
    &&& match q.produced_by {
        Some(p) => a.produced_by == p,
        None => true,
    }
    &&& match q.refq {
        Some(rq) => exists|i: int|
            0 <= i < a.refs.len() && ref_triple_same(#[trigger] a.refs[i], rq.where_, rq.what, rq.value),
        None => true,
    }
}

/// The artifacts that pass the query, in stored order.
pub open spec fn filter_arts(s: Seq<ArtifactV>, q: ArtQueryV) -> Seq<ArtifactV>
    decreases s.len(),
{
    if s.len() == 0 {
        Seq::empty()
    } else if art_passes(s.last(), q) {
        filter_arts(s.drop_last(), q).push(s.last())
    } else {
        filter_arts(s.drop_last(), q)
    }
}

/// The messages holding a triple that matches the lookup type-insensitively,
/// in stored order.
pub open spec fn filter_msgs_byref(
    s: Seq<MessageV>,
    w: Seq<char>,
    h: Seq<char>,
    v: RefValueV,
) -> Seq<MessageV>
    decreases s.len(),
{
    if s.len() == 0 {
        Seq::empty()
    } else if exists|i: int|
        0 <= i < s.last().refs.len() && ref_triple_matches(#[trigger] s.last().refs[i], w, h, v) {
        filter_msgs_byref(s.drop_last(), w, h, v).push(s.last())
    } else {
        filter_msgs_byref(s.drop_last(), w, h, v)
    }
}

/// The artifacts holding a triple that matches the lookup type-insensitively,
/// in stored order.
pub open spec fn filter_arts_byref(
    s: Seq<ArtifactV>,
    w: Seq<char>,
    h: Seq<char>,
    v: RefValueV,
) -> Seq<ArtifactV>
    decreases s.len(),
{
    if s.len() == 0 {
        Seq::empty()
    } else if exists|i: int|
        0 <= i < s.last().refs.len() && ref_triple_matches(#[trigger] s.last().refs[i], w, h, v) {
        filter_arts_byref(s.drop_last(), w, h, v).push(s.last())
    } else {
        filter_arts_byref(s.drop_last(), w, h, v)
    }
}

/// The two sides of a reference lookup: matching messages and artifacts.
#[derive(Debug)]
pub struct ReferenceResults {
    pub messages: Vec<Message>,
    pub artifacts: Vec<Artifact>,
}

impl Store {
    /// The position of the artifact with this path, or the count if absent.
    fn find_artifact(&self, path: &str) -> (r: usize)
        ensures
            r == artifact_idx(self@.artifacts, path@),
    {
        let ghost av = self@.artifacts;
        proof {
            lemma_artifact_idx(av, path@);
        }
        let mut i: usize = 0;
        while i < self.artifacts.len()
            invariant
                i <= self.artifacts@.len(),
                av == self@.artifacts,
                av.len() == self.artifacts@.len(),
                forall|j: int| 0 <= j < i ==> (#[trigger] av[j]).path != path@,
                0 <= artifact_idx(av, path@) <= av.len(),
                artifact_idx(av, path@) < av.len() ==> av[artifact_idx(av, path@)].path == path@,
                forall|j: int| 0 <= j < artifact_idx(av, path@) ==> (#[trigger] av[j]).path != path@,
            decreases self.artifacts@.len() - i,
        {
            proof {
                assert(av[i as int] == self.artifacts@[i as int]@);
            }
            if str_eq(self.artifacts[i].path.as_str(), path) {
                return i;
            }
            i = i + 1;
        }
        i
    }

    /// Looks an artifact up by path.
    pub fn get_artifact_by_path(&self, path: &str) -> (r: Option<Artifact>)
        ensures
            match r {
                Some(a) => artifact_idx(self@.artifacts, path@) < self@.artifacts.len() && a@
                    == self@.artifacts[artifact_idx(self@.artifacts, path@)],
                None => artifact_idx(self@.artifacts, path@) == self@.artifacts.len(),
            },
    {
        proof {
            assert(self@.artifacts.len() == self.artifacts@.len());
            lemma_artifact_idx(self@.artifacts, path@);
        }
        let i = self.find_artifact(path);
        if i < self.artifacts.len() {
            proof {
                assert(self@.artifacts[i as int] == self.artifacts@[i as int]@);
            }
            Some(self.artifacts[i].clone())
        } else {
            None
        }
    }

    /// Looks an artifact up by path.
    pub fn get_artifact(&self, path: &str) -> (r: Option<Artifact>)
        ensures
            match r {
                Some(a) => artifact_idx(self@.artifacts, path@) < self@.artifacts.len() && a@
                    == self@.artifacts[artifact_idx(self@.artifacts, path@)],
                None => artifact_idx(self@.artifacts, path@) == self@.artifacts.len(),
            },
    {
        self.get_artifact_by_path(path)
    }

    /// Inserts the artifact row keyed by its path, or fully replaces the row
    /// with the same path (the replaced row keeps its id; every other field
    /// takes the incoming value). Returns the stored row's id. Fails only
    /// when a fresh row is needed and the id space is exhausted.
    pub fn upsert_artifact(&mut self, artifact: &Artifact) -> (r: BBResult<i64>)
        requires
            old(self).wf(),
        ensures
            final(self).wf(),
            match r {
                Ok(id) => {
                    &&& (artifact_idx(old(self)@.artifacts, artifact@.path) < old(
                        self,
                    )@.artifacts.len() || old(self)@.next_artifact_id < i64::MAX)
                    &&& id == upsert_artifact_stored(
                        old(self)@.artifacts,
                        artifact@,
                        old(self)@.next_artifact_id,
                    ).id
                    &&& final(self)@ == (StoreV {
                        artifacts: upsert_artifact_seq(
                            old(self)@.artifacts,
                            artifact@,
                            old(self)@.next_artifact_id,
                        ),
                        next_artifact_id: if artifact_idx(old(self)@.artifacts, artifact@.path)
                            < old(self)@.artifacts.len() {
                            old(self)@.next_artifact_id
                        } else {
                            old(self)@.next_artifact_id + 1
                        },
                        ..old(self)@
                    })
                },
                Err(e) => e == BBError::Persistence && artifact_idx(
                    old(self)@.artifacts,
                    artifact@.path,
                ) == old(self)@.artifacts.len() && old(self)@.next_artifact_id == i64::MAX
                    && final(self)@ == old(self)@,
            },
    {
        let ghost av = self@.artifacts;
        proof {
            assert(self@.artifacts.len() == self.artifacts@.len());
            lemma_artifact_idx(av, artifact@.path);
        }
        let i = self.find_artifact(artifact.path.as_str());
        if i < self.artifacts.len() {
            let ghost old_elems = self.artifacts@;
            let mut row = artifact.clone();
            proof {
                assert(self@.artifacts[i as int] == self.artifacts@[i as int]@);
            }
            let id = self.artifacts[i].id;
            row.id = id;
            proof {
                assert(row@ =~= upsert_artifact_stored(av, artifact@, old(self)@.next_artifact_id));
            }
            self.artifacts.set(i, row);
            proof {
                let stored = upsert_artifact_stored(av, artifact@, old(self)@.next_artifact_id);
                assert forall|j: int| 0 <= j < self.artifacts@.len() implies #[trigger] self.artifacts@[j].deep_view()
                    == av.update(i as int, stored)[j] by {
                    if j != i {
                        assert(self.artifacts@[j] == old_elems[j]);
                    }
                }
                assert(self.artifacts.deep_view() =~= av.update(i as int, stored));
                assert(self@ =~= (StoreV {
                    artifacts: upsert_artifact_seq(
                        old(self)@.artifacts,
                        artifact@,
                        old(self)@.next_artifact_id,
                    ),
                    next_artifact_id: old(self)@.next_artifact_id,
                    ..old(self)@
                }));
            }
            Ok(id)
        } else {
            if self.next_artifact_id == i64::MAX {
                return Err(BBError::Persistence);
            }
            let ghost old_elems = self.artifacts@;
            let mut row = artifact.clone();
            let id = self.next_artifact_id;
            row.id = id;
            proof {
                assert(row@ =~= upsert_artifact_stored(av, artifact@, old(self)@.next_artifact_id));
            }
            self.artifacts.push(row);
            self.next_artifact_id = id + 1;
            proof {
                let stored = upsert_artifact_stored(av, artifact@, old(self)@.next_artifact_id);
                assert forall|j: int| 0 <= j < self.artifacts@.len() implies #[trigger] self.artifacts@[j].deep_view()
                    == av.push(stored)[j] by {
                    if j < old_elems.len() {
                        assert(self.artifacts@[j] == old_elems[j]);
                    }
                }
                assert(self.artifacts.deep_view() =~= av.push(stored));
                assert(self@ =~= (StoreV {
                    artifacts: upsert_artifact_seq(
                        old(self)@.artifacts,
                        artifact@,
                        old(self)@.next_artifact_id,
                    ),
                    next_artifact_id: old(self)@.next_artifact_id + 1,
                    ..old(self)@
                }));
            }
            Ok(id)
        }
    }

    /// Registers an artifact: validates the path (with the boundary's
    /// resolution answer), description, version and reference count, then
    /// upserts by path and returns the stored row. On any failure nothing is
    /// written.
    pub fn register_artifact(
        &mut self,
        path: &str,
        produced_by: &str,
        description: &str,
        version: Option<&str>,
        refs: Vec<Reference>,
        now: i64,
        resolution: PathResolution,
    ) -> (r: BBResult<Artifact>)
        requires
            old(self).wf(),
        ensures
            final(self).wf(),
            match r {
                Err(e) => final(self)@ == old(self)@ && register_error(
                    old(self)@.artifacts,
                    old(self)@.next_artifact_id,
                    path@,
                    resolution,
                    description@,
                    opt_str_view(version),
                    refs.deep_view().len() as int,
                ) == Some(e),
                Ok(a) => register_error(
                    old(self)@.artifacts,
                    old(self)@.next_artifact_id,
                    path@,
                    resolution,
                    description@,
                    opt_str_view(version),
                    refs.deep_view().len() as int,
                ) is None && a@ == upsert_artifact_stored(
                    old(self)@.artifacts,
                    ArtifactV {
                        id: 0,
                        path: path@,
                        produced_by: produced_by@,
                        description: description@,
                        version: opt_str_view(version),
                        refs: refs.deep_view(),
                        created_at: now as int,
                    },
                    old(self)@.next_artifact_id,
                ) && final(self)@ == (StoreV {
                    artifacts: upsert_artifact_seq(
                        old(self)@.artifacts,
                        ArtifactV {
                            id: 0,
                            path: path@,
                            produced_by: produced_by@,
                            description: description@,
                            version: opt_str_view(version),
                            refs: refs.deep_view(),
                            created_at: now as int,
                        },
                        old(self)@.next_artifact_id,
                    ),
                    next_artifact_id: if artifact_idx(old(self)@.artifacts, path@) < old(
                        self,
                    )@.artifacts.len() {
                        old(self)@.next_artifact_id
                    } else {
                        old(self)@.next_artifact_id + 1
                    },
                    ..old(self)@
                }),
            },
    {
        if let Err(e) = validate_artifact_path(path, resolution) {
            return Err(e);
        }
        if let Err(e) = validate_artifact_description(description) {
            return Err(e);
        }
        if let Some(v) = version {
            if let Err(e) = validate_version(v) {
                return Err(e);
            }
        }
        if refs.len() > MAX_REFS_PER_ENTITY {
            proof {
                assert(refs.deep_view().len() == refs@.len());
            }
            return Err(BBError::InvalidInput(InvalidReason::TooManyRefs));
        }
        proof {
            assert(refs.deep_view().len() == refs@.len());
        }
        let incoming = Artifact {
            id: 0,
            path: path.to_owned(),
            produced_by: produced_by.to_owned(),
            description: description.to_owned(),
            version: match version {
                Some(v) => Some(v.to_owned()),
                None => None,
            },
            refs,
            created_at: now,
        };
        let ghost iv = ArtifactV {
            id: 0,
            path: path@,
            produced_by: produced_by@,
            description: description@,
            version: opt_str_view(version),
            refs: incoming@.refs,
            created_at: now as int,
        };
        proof {
            assert(incoming@ =~= iv);
        }
        let id = match self.upsert_artifact(&incoming) {
            Ok(id) => id,
            Err(e) => {
                return Err(e);
            },
        };
        let ghost stored = upsert_artifact_stored(
            old(self)@.artifacts,
            iv,
            old(self)@.next_artifact_id,
        );
        proof {
            let av = old(self)@.artifacts;
            lemma_artifact_idx(av, path@);
            let i = artifact_idx(av, path@);
            let u = upsert_artifact_seq(av, iv, old(self)@.next_artifact_id);
            lemma_artifact_idx(u, path@);
            if i < av.len() {
                assert(u[i].path == path@);
                assert(forall|j: int| 0 <= j < i ==> (#[trigger] u[j]).path != path@);
                assert(artifact_idx(u, path@) == i);
            } else {
                assert(u[av.len() as int].path == path@);
                assert(forall|j: int| 0 <= j < av.len() ==> #[trigger] u[j] == av[j]);
                assert(artifact_idx(u, path@) == av.len());
            }
            assert(u[artifact_idx(u, path@)] == stored);
        }
        let found = self.get_artifact_by_path(path);
        match found {
            Some(a) => Ok(a),
            None => {
                proof {
                    assert(false);
                }
                Err(BBError::NotFound)
            },
        }
    }

    /// Artifacts passing every given filter, newest first, truncated to the
    /// caller's limit capped at one hundred.
    pub fn list_artifacts(
        &self,
        produced_by: Option<&str>,
        ref_where: Option<&str>,
        ref_what: Option<&str>,
        ref_ref: Option<&str>,
        limit: usize,
    ) -> (r: Vec<Artifact>)
        ensures
            r.deep_view() == take_at_most(
                sort_arts(
                    filter_arts(
                        self@.artifacts,
                        ArtQueryV {
                            produced_by: opt_str_view(produced_by),
                            refq: ref_query_view(ref_where, ref_what, ref_ref),
                        },
                    ),
                ),
                if limit < 100 {
                    limit as int
                } else {
                    100
                },
            ),
    {
        let ghost q = ArtQueryV {
            produced_by: opt_str_view(produced_by),
            refq: ref_query_view(ref_where, ref_what, ref_ref),
        };
        let rv: Option<RefValue> = match (ref_where, ref_what, ref_ref) {
            (Some(_), Some(_), Some(vs)) => Some(token_to_ref_value(vs)),
            _ => None,
        };
        let ghost av = self@.artifacts;
        let mut coll: Vec<Artifact> = Vec::new();
        proof {
            assert(av.take(0) =~= Seq::<ArtifactV>::empty());
        }
        let mut i: usize = 0;
        while i < self.artifacts.len()
            invariant
                i <= self.artifacts@.len(),
                av == self@.artifacts,
                av.len() == self.artifacts@.len(),
                q == (ArtQueryV {
                    produced_by: opt_str_view(produced_by),
                    refq: ref_query_view(ref_where, ref_what, ref_ref),
                }),
                match rv {
                    Some(v) => q.refq is Some && v@ == q.refq->0.value && ref_where is Some
                        && ref_what is Some,
                    None => q.refq is None,
                },
                coll.deep_view() == filter_arts(av.take(i as int), q),
                coll@.len() == filter_arts(av.take(i as int), q).len(),
            decreases self.artifacts@.len() - i,
        {
            proof {
                assert(av[i as int] == self.artifacts@[i as int]@);
                assert(av.take(i as int + 1).drop_last() =~= av.take(i as int));
                assert(av.take(i as int + 1).last() == av[i as int]);
            }
            let a = &self.artifacts[i];
            let by_ok = match produced_by {
                Some(p) => str_eq(a.produced_by.as_str(), p),
                None => true,
            };
            let ref_ok = match &rv {
                Some(v) => {
                    let w = match ref_where {
                        Some(w) => w,
                        None => "",
                    };
                    let h = match ref_what {
                        Some(h) => h,
                        None => "",
                    };
                    has_exact_ref_art(&a.refs, w, h, v)
                },
                None => true,
            };
            proof {
                assert(av[i as int].refs == a.refs.deep_view());
            }
            if by_ok && ref_ok {
                let ghost old_elems = coll@;
                coll.push(self.artifacts[i].clone());
                proof {
                    assert forall|j: int| 0 <= j < coll@.len() implies #[trigger] coll@[j].deep_view()
                        == filter_arts(av.take(i as int + 1), q)[j] by {
                        if j < old_elems.len() {
                            assert(coll@[j] == old_elems[j]);
                        }
                    }
                    assert(coll.deep_view() =~= filter_arts(av.take(i as int + 1), q));
                }
            }
            i = i + 1;
        }
        proof {
            assert(av.take(av.len() as int) =~= av);
        }
        let sorted = sort_artifacts(&coll);
        let cap: usize = if limit < 100 {
            limit
        } else {
            100
        };
        truncate_artifacts(sorted, cap)
    }

    /// Removes every artifact; returns how many rows were removed.
    pub fn clear_artifacts(&mut self) -> (n: usize)
        requires
            old(self).wf(),
        ensures
            final(self).wf(),
            final(self)@ == (StoreV { artifacts: Seq::<ArtifactV>::empty(), ..old(self)@ }),
            n == old(self)@.artifacts.len(),
    {
        let n = self.artifacts.len();
        proof {
            assert(self@.artifacts.len() == self.artifacts@.len());
        }
        self.artifacts = Vec::new();
        proof {
            assert(self.artifacts.deep_view() =~= Seq::<ArtifactV>::empty());
            assert(self@ =~= (StoreV { artifacts: Seq::<ArtifactV>::empty(), ..old(self)@ }));
        }
        n
    }

    /// Everything a reference lookup finds: the messages and artifacts
    /// holding a matching triple (type-insensitively), each newest first.
    pub fn find_references(&self, where_: &str, what: &str, ref_: &RefValue) -> (r:
        ReferenceResults)
        ensures
            r.messages.deep_view() == sort_msgs(
                filter_msgs_byref(self@.messages, where_@, what@, ref_@),
            ),
            r.artifacts.deep_view() == sort_arts(
                filter_arts_byref(self@.artifacts, where_@, what@, ref_@),
            ),
    {
        ReferenceResults {
            messages: self.find_messages_by_ref(where_, what, ref_),
            artifacts: self.find_artifacts_by_ref(where_, what, ref_),
        }
    }

    /// The messages holding a triple that matches the lookup
    /// type-insensitively, newest first.
    pub fn find_messages_by_ref(&self, where_: &str, what: &str, ref_: &RefValue) -> (r: Vec<
        Message,
    >)
        ensures
            r.deep_view() == sort_msgs(filter_msgs_byref(self@.messages, where_@, what@, ref_@)),
    {
        let ghost mv = self@.messages;
        let mut mcoll: Vec<Message> = Vec::new();
        proof {
            assert(mv.take(0) =~= Seq::<MessageV>::empty());
        }
        let mut i: usize = 0;
        while i < self.messages.len()
            invariant
                i <= self.messages@.len(),
                mv == self@.messages,
                mv.len() == self.messages@.len(),
                mcoll.deep_view() == filter_msgs_byref(mv.take(i as int), where_@, what@, ref_@),
                mcoll@.len() == filter_msgs_byref(mv.take(i as int), where_@, what@, ref_@).len(),
            decreases self.messages@.len() - i,
        {
            proof {
                assert(mv[i as int] == self.messages@[i as int]@);
                assert(mv.take(i as int + 1).drop_last() =~= mv.take(i as int));
                assert(mv.take(i as int + 1).last() == mv[i as int]);
            }
            let hit = has_loose_ref(&self.messages[i].refs, where_, what, ref_);
            proof {
                assert(mv[i as int].refs == self.messages@[i as int].refs.deep_view());
            }
            if hit {
                let ghost old_elems = mcoll@;
                mcoll.push(self.messages[i].clone());
                proof {
                    assert forall|j: int| 0 <= j < mcoll@.len() implies #[trigger] mcoll@[j].deep_view()
                        == filter_msgs_byref(mv.take(i as int + 1), where_@, what@, ref_@)[j] by {
                        if j < old_elems.len() {
                            assert(mcoll@[j] == old_elems[j]);
                        }
                    }
                    assert(mcoll.deep_view() =~= filter_msgs_byref(
                        mv.take(i as int + 1),
                        where_@,
                        what@,
                        ref_@,
                    ));
                }
            }
            i = i + 1;
        }
        proof {
            assert(mv.take(mv.len() as int) =~= mv);
        }
        sort_messages(&mcoll)
    }

    /// The artifacts holding a triple that matches the lookup
    /// type-insensitively, newest first.
    pub fn find_artifacts_by_ref(&self, where_: &str, what: &str, ref_: &RefValue) -> (r: Vec<
        Artifact,
    >)
        ensures
            r.deep_view() == sort_arts(filter_arts_byref(self@.artifacts, where_@, what@, ref_@)),
    {
        let ghost av = self@.artifacts;
        let mut acoll: Vec<Artifact> = Vec::new();
        proof {
            assert(av.take(0) =~= Seq::<ArtifactV>::empty());
        }
        let mut k: usize = 0;
        while k < self.artifacts.len()
            invariant
                k <= self.artifacts@.len(),
                av == self@.artifacts,
                av.len() == self.artifacts@.len(),
                acoll.deep_view() == filter_arts_byref(av.take(k as int), where_@, what@, ref_@),
                acoll@.len() == filter_arts_byref(av.take(k as int), where_@, what@, ref_@).len(),
            decreases self.artifacts@.len() - k,
        {
            proof {
                assert(av[k as int] == self.artifacts@[k as int]@);
                assert(av.take(k as int + 1).drop_last() =~= av.take(k as int));
                assert(av.take(k as int + 1).last() == av[k as int]);
            }
            let hit = has_loose_ref(&self.artifacts[k].refs, where_, what, ref_);
            proof {
                assert(av[k as int].refs == self.artifacts@[k as int].refs.deep_view());
            }
            if hit {
                let ghost old_elems = acoll@;
                acoll.push(self.artifacts[k].clone());
                proof {
                    assert forall|j: int| 0 <= j < acoll@.len() implies #[trigger] acoll@[j].deep_view()
                        == filter_arts_byref(av.take(k as int + 1), where_@, what@, ref_@)[j] by {
                        if j < old_elems.len() {
                            assert(acoll@[j] == old_elems[j]);
                        }
                    }
                    assert(acoll.deep_view() =~= filter_arts_byref(
                        av.take(k as int + 1),
                        where_@,
                        what@,
                        ref_@,
                    ));
                }
            }
            k = k + 1;
        }
        proof {
            assert(av.take(av.len() as int) =~= av);
        }
        sort_artifacts(&acoll)
    }
}

/// The first `cap` artifacts of `v` (all of them if fewer), as fresh copies.
fn truncate_artifacts(v: Vec<Artifact>, cap: usize) -> (r: Vec<Artifact>)
    ensures
        r.deep_view() == take_at_most(v.deep_view(), cap as int),
{
    let n = if cap < v.len() {
        cap
    } else {
        v.len()
    };
    let mut out: Vec<Artifact> = Vec::new();
    let mut i: usize = 0;
    while i < n
        invariant
            i <= n,
            n <= v@.len(),
            v.deep_view().len() == v@.len(),
            out@.len() == i,
            forall|j: int| 0 <= j < i ==> #[trigger] out@[j].deep_view() == v.deep_view()[j],
        decreases n - i,
    {
        let ghost old_elems = out@;
        proof {
            assert(v.deep_view()[i as int] == v@[i as int]@);
        }
        out.push(v[i].clone());
        proof {
            assert forall|j: int| 0 <= j < i + 1 implies #[trigger] out@[j].deep_view()
                == v.deep_view()[j] by {
                if j < old_elems.len() {
                    assert(out@[j] == old_elems[j]);
                }
            }
        }
        i = i + 1;
    }
    proof {
        if cap as int <= v.deep_view().len() {
            assert(out.deep_view() =~= v.deep_view().take(cap as int));
        } else {
            assert(out.deep_view() =~= v.deep_view());
        }
    }
    out
}

/// Whether any stored reference triple matches the lookup exactly.
fn has_exact_ref_art(refs: &Vec<Reference>, w: &str, h: &str, v: &RefValue) -> (r: bool)
    ensures
        r == (exists|i: int|
            0 <= i < refs.deep_view().len() && ref_triple_same(
                #[trigger] refs.deep_view()[i],
                w@,
                h@,
                v@,
            )),
{
    has_exact_ref(refs, w, h, v)
}

/// An upsert keeps artifact paths distinct and leaves the upserted path
/// present, holding exactly the stored row.
pub proof fn lemma_upsert_artifact_distinct(arts: Seq<ArtifactV>, a: ArtifactV, next: int)
    requires
        forall|i: int, j: int|
            0 <= i < j < arts.len() ==> (#[trigger] arts[i]).path != (#[trigger] arts[j]).path,
    ensures
        ({
            let u = upsert_artifact_seq(arts, a, next);
            &&& forall|i: int, j: int|
                0 <= i < j < u.len() ==> (#[trigger] u[i]).path != (#[trigger] u[j]).path
            &&& artifact_idx(u, a.path) < u.len()
            &&& u[artifact_idx(u, a.path)] == upsert_artifact_stored(arts, a, next)
            &&& u.len() == if artifact_idx(arts, a.path) < arts.len() {
                arts.len() as int
            } else {
                arts.len() as int + 1
            }
        }),
{
    lemma_artifact_idx(arts, a.path);
    let i = artifact_idx(arts, a.path);
    let stored = upsert_artifact_stored(arts, a, next);
    let u = upsert_artifact_seq(arts, a, next);
    lemma_artifact_idx(u, a.path);
    if i < arts.len() {
        assert(u[i].path == a.path);
        assert(forall|j: int| 0 <= j < i ==> (#[trigger] u[j]).path != a.path);
        assert(artifact_idx(u, a.path) == i);
    } else {
        assert(u[arts.len() as int].path == a.path);
        assert(forall|j: int| 0 <= j < arts.len() ==> #[trigger] u[j] == arts[j]);
        assert(artifact_idx(u, a.path) == arts.len());
    }
}

/// Registering an artifact at the same path twice updates the producer,
/// description, version, references and creation time in place, keeps the
/// first registration's id, and leaves exactly one row for that path.
pub proof fn lemma_register_same_path_twice(
    arts: Seq<ArtifactV>,
    a: ArtifactV,
    b: ArtifactV,
    next1: int,
    next2: int,
)
    requires
        forall|i: int, j: int|
            0 <= i < j < arts.len() ==> (#[trigger] arts[i]).path != (#[trigger] arts[j]).path,
        b.path == a.path,
    ensures
        ({
            let u1 = upsert_artifact_seq(arts, a, next1);
            let u2 = upsert_artifact_seq(u1, b, next2);
            let k = artifact_idx(u2, b.path);
            &&& u2.len() == u1.len()
            &&& k < u2.len()
            &&& u2[k].path == b.path
            &&& u2[k].produced_by == b.produced_by
            &&& u2[k].description == b.description
            &&& u2[k].version == b.version
            &&& u2[k].refs == b.refs
            &&& u2[k].created_at == b.created_at
            &&& u2[k].id == upsert_artifact_stored(arts, a, next1).id
            &&& forall|j: int| 0 <= j < u2.len() && j != k ==> (#[trigger] u2[j]).path != b.path
        }),
{
    lemma_upsert_artifact_distinct(arts, a, next1);
    let u1 = upsert_artifact_seq(arts, a, next1);
    lemma_upsert_artifact_distinct(u1, b, next2);
    let u2 = upsert_artifact_seq(u1, b, next2);
    lemma_artifact_idx(u1, b.path);
    lemma_artifact_idx(u2, b.path);
    let i1 = artifact_idx(u1, b.path);
    assert(u1[artifact_idx(u1, a.path)] == upsert_artifact_stored(arts, a, next1));
    assert(i1 == artifact_idx(u1, a.path));
    assert(i1 < u1.len());
    let k = artifact_idx(u2, b.path);
    assert(u2[k] == upsert_artifact_stored(u1, b, next2));
    assert(upsert_artifact_stored(u1, b, next2).id == u1[i1].id);
    assert forall|j: int| 0 <= j < u2.len() && j != k implies (#[trigger] u2[j]).path != b.path by {
        if u2[j].path == b.path {
            if j < k {
                assert(u2[j].path != u2[k].path);
            } else {
                assert(u2[k].path != u2[j].path);
            }
        }
    }
}

/// The first `n` elements of `s`, or all of them if fewer.
pub open spec fn take_at_most<T>(s: Seq<T>, n: int) -> Seq<T> {
    if n <= s.len() {
        s.take(n)
    } else {
        s
    }
}

/// The first `cap` messages of `v` (all of them if fewer), as fresh copies.
fn truncate_messages(v: Vec<Message>, cap: usize) -> (r: Vec<Message>)
    ensures
        r.deep_view() == take_at_most(v.deep_view(), cap as int),
{
    let n = if cap < v.len() {
        cap
    } else {
        v.len()
    };
    let mut out: Vec<Message> = Vec::new();
    let mut i: usize = 0;
    while i < n
        invariant
            i <= n,
            n <= v@.len(),
            v.deep_view().len() == v@.len(),
            out@.len() == i,
            forall|j: int| 0 <= j < i ==> #[trigger] out@[j].deep_view() == v.deep_view()[j],
        decreases n - i,
    {
        let ghost old_elems = out@;
        proof {
            assert(v.deep_view()[i as int] == v@[i as int]@);
        }
        out.push(v[i].clone());
        proof {
            assert forall|j: int| 0 <= j < i + 1 implies #[trigger] out@[j].deep_view()
                == v.deep_view()[j] by {
                if j < old_elems.len() {
                    assert(out@[j] == old_elems[j]);
                }
            }
        }
        i = i + 1;
    }
    proof {
        if cap as int <= v.deep_view().len() {
            assert(out.deep_view() =~= v.deep_view().take(cap as int));
        } else {
            assert(out.deep_view() =~= v.deep_view());
        }
    }
    out
}

/// Decides whether one message passes the query the given arguments describe.
fn message_matches(
    m: &Message,
    since: Option<i64>,
    tags: &Vec<String>,
    from_agent: Option<&str>,
    priority: Option<Priority>,
    ref_where: Option<&str>,
    ref_what: Option<&str>,
    rv: &Option<RefValue>,
    q: Ghost<MsgQueryV>,
) -> (r: bool)
    requires
        q@ == (MsgQueryV {
            since: opt_i64_view(since),
            tags: tags.deep_view(),
            from_agent: opt_str_view(from_agent),
            min_priority: priority,
            refq: q@.refq,
        }),
        match rv {
            Some(v) => q@.refq is Some && v@ == q@.refq->0.value && ref_where is Some && ref_what
                is Some && q@.refq->0.where_ == ref_where->0@ && q@.refq->0.what == ref_what->0@,
            None => q@.refq is None,
        },
    ensures
        r == msg_passes(m@, q@),
{
    proof {
        assert(tags.deep_view().len() == tags@.len());
        assert(m@.tags == m.tags.deep_view());
        assert(m@.refs == m.refs.deep_view());
    }
    let since_ok = match since {
        Some(t) => m.created_at >= t,
        None => true,
    };
    if !since_ok {
        return false;
    }
    let tags_ok = if tags.len() == 0 {
        true
    } else {
        has_any_tag(&m.tags, tags)
    };
    if !tags_ok {
        return false;
    }
    let from_ok = match from_agent {
        Some(f) => str_eq(m.from_agent.as_str(), f),
        None => true,
    };
    if !from_ok {
        return false;
    }
    let prio_ok = match priority {
        Some(p) => m.priority.level() >= p.level(),
        None => true,
    };
    if !prio_ok {
        return false;
    }
    let ref_ok = match rv {
        Some(v) => {
            let w = match ref_where {
                Some(w) => w,
                None => "",
            };
            let h = match ref_what {
                Some(h) => h,
                None => "",
            };
            has_exact_ref(&m.refs, w, h, v)
        },
        None => true,
    };
    ref_ok
}

/// Whether the message's tag list shares at least one tag with the query's.
fn has_any_tag(mtags: &Vec<String>, qtags: &Vec<String>) -> (r: bool)
    ensures
        r == (exists|i: int, j: int|
            0 <= i < mtags.deep_view().len() && 0 <= j < qtags.deep_view().len()
                && #[trigger] mtags.deep_view()[i] == #[trigger] qtags.deep_view()[j]),
{
    let ghost mt = mtags.deep_view();
    let ghost qt = qtags.deep_view();
    let mut i: usize = 0;
    while i < mtags.len()
        invariant
            i <= mtags@.len(),
            mt == mtags.deep_view(),
            qt == qtags.deep_view(),
            mt.len() == mtags@.len(),
            qt.len() == qtags@.len(),
            forall|a: int, b: int| 0 <= a < i && 0 <= b < qt.len() ==> #[trigger] mt[a] != #[trigger] qt[b],
        decreases mtags@.len() - i,
    {
        let mut j: usize = 0;
        while j < qtags.len()
            invariant
                i < mtags@.len(),
                j <= qtags@.len(),
                mt == mtags.deep_view(),
                qt == qtags.deep_view(),
                mt.len() == mtags@.len(),
                qt.len() == qtags@.len(),
                forall|b: int| 0 <= b < j ==> mt[i as int] != #[trigger] qt[b],
            decreases qtags@.len() - j,
        {
            proof {
                assert(mt[i as int] == mtags@[i as int]@);
                assert(qt[j as int] == qtags@[j as int]@);
            }
            if str_eq(mtags[i].as_str(), qtags[j].as_str()) {
                return true;
            }
            j = j + 1;
        }
        i = i + 1;
    }
    false
}

/// Whether any stored reference triple matches the lookup exactly.
fn has_exact_ref(refs: &Vec<Reference>, w: &str, h: &str, v: &RefValue) -> (r: bool)
    ensures
        r == (exists|i: int|
            0 <= i < refs.deep_view().len() && ref_triple_same(
                #[trigger] refs.deep_view()[i],
                w@,
                h@,
                v@,
            )),
{
    let ghost rs = refs.deep_view();
    let mut i: usize = 0;
    while i < refs.len()
        invariant
            i <= refs@.len(),
            rs == refs.deep_view(),
            rs.len() == refs@.len(),
            forall|j: int| 0 <= j < i ==> !ref_triple_same(#[trigger] rs[j], w@, h@, v@),
        decreases refs@.len() - i,
    {
        proof {
            assert(rs[i as int] == refs@[i as int]@);
        }
        if reference_same(&refs[i], w, h, v) {
            return true;
        }
        i = i + 1;
    }
    false
}

/// Whether any stored reference triple matches the lookup type-insensitively.
fn has_loose_ref(refs: &Vec<Reference>, w: &str, h: &str, v: &RefValue) -> (r: bool)
    ensures
        r == (exists|i: int|
            0 <= i < refs.deep_view().len() && ref_triple_matches(
                #[trigger] refs.deep_view()[i],
                w@,
                h@,
                v@,
            )),
{
    let ghost rs = refs.deep_view();
    let mut i: usize = 0;
    while i < refs.len()
        invariant
            i <= refs@.len(),
            rs == refs.deep_view(),
            rs.len() == refs@.len(),
            forall|j: int| 0 <= j < i ==> !ref_triple_matches(#[trigger] rs[j], w@, h@, v@),
        decreases refs@.len() - i,
    {
        proof {
            assert(rs[i as int] == refs@[i as int]@);
        }
        if reference_matches(&refs[i], w, h, v) {
            return true;
        }
        i = i + 1;
    }
    false
}

} // verus!
