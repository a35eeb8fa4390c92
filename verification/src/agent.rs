//! Agents and their working status.
//!
//! An agent is identified by an immutable id and carries a mutable task,
//! progress, status, optional blockers, and two timestamps. Timestamps are
//! seconds since the Unix epoch; the boundary converts wall-clock values.

use crate::text::{eq_lowered, lower_seq};
use vstd::prelude::*;

verus! {

/// The working status an agent reports.
#[derive(Clone, Copy, Debug, PartialEq, Eq, Structural)]
pub enum AgentStatus {
    Idle,
    Planning,
    Coding,
    Testing,
    Reviewing,
    Blocked,
    Offline,
}

/// The status a (case-insensitive) name designates; unknown names mean Idle.
pub open spec fn status_of_str(s: Seq<char>) -> AgentStatus {
    if lower_seq(s) == "idle"@ {
        AgentStatus::Idle
    } else if lower_seq(s) == "planning"@ {
        AgentStatus::Planning
    } else if lower_seq(s) == "coding"@ {
        AgentStatus::Coding
    } else if lower_seq(s) == "testing"@ {
        AgentStatus::Testing
    } else if lower_seq(s) == "reviewing"@ {
        AgentStatus::Reviewing
    } else if lower_seq(s) == "blocked"@ {
        AgentStatus::Blocked
    } else if lower_seq(s) == "offline"@ {
        AgentStatus::Offline
    } else {
        AgentStatus::Idle
    }
}

impl AgentStatus {
    /// The canonical lowercase name of this status.
    pub open spec fn as_str_spec(&self) -> Seq<char> {
        match self {
            AgentStatus::Idle => "idle"@,
            AgentStatus::Planning => "planning"@,
            AgentStatus::Coding => "coding"@,
            AgentStatus::Testing => "testing"@,
            AgentStatus::Reviewing => "reviewing"@,
            AgentStatus::Blocked => "blocked"@,
            AgentStatus::Offline => "offline"@,
        }
    }

    /// The canonical lowercase name of this status.
    pub fn as_str(&self) -> (r: &'static str)
        ensures
            r@ == self.as_str_spec(),
    {
        match self {
            AgentStatus::Idle => "idle",
            AgentStatus::Planning => "planning",
            AgentStatus::Coding => "coding",
            AgentStatus::Testing => "testing",
            AgentStatus::Reviewing => "reviewing",
            AgentStatus::Blocked => "blocked",
            AgentStatus::Offline => "offline",
        }
    }

    /// Parses a status name, ignoring ASCII case; unknown names mean Idle.
    pub fn from_str(s: &str) -> (r: Self)
        ensures
            r == status_of_str(s@),
    {
        if eq_lowered(s, "idle") {
            AgentStatus::Idle
        } else if eq_lowered(s, "planning") {
            AgentStatus::Planning
        } else if eq_lowered(s, "coding") {
            AgentStatus::Coding
        } else if eq_lowered(s, "testing") {
            AgentStatus::Testing
        } else if eq_lowered(s, "reviewing") {
            AgentStatus::Reviewing
        } else if eq_lowered(s, "blocked") {
            AgentStatus::Blocked
        } else if eq_lowered(s, "offline") {
            AgentStatus::Offline
        } else {
            AgentStatus::Idle
        }
    }
}

/// Time-derived classification of an agent's presence.
#[derive(Clone, Copy, Debug, PartialEq, Eq, Structural)]
pub enum Liveness {
    Active,
    Stale,
    Offline,
}

impl Liveness {
    /// The canonical lowercase name of this classification.
    pub open spec fn as_str_spec(&self) -> Seq<char> {
        match self {
            Liveness::Active => "active"@,
            Liveness::Stale => "stale"@,
            Liveness::Offline => "offline"@,
        }
    }

    /// The canonical lowercase name of this classification.
    pub fn as_str(&self) -> (r: &'static str)
        ensures
            r@ == self.as_str_spec(),
    {
        match self {
            Liveness::Active => "active",
            Liveness::Stale => "stale",
            Liveness::Offline => "offline",
        }
    }
}

/// An agent row of the store.
#[derive(Debug)]
pub struct Agent {
    pub id: String,
    pub current_task: String,
    pub progress: u8,
    pub status: AgentStatus,
    pub blockers: Option<String>,
    pub last_seen: i64,
    pub updated_at: i64,
}

/// Mathematical counterpart of [`Agent`].
#[verifier::ext_equal]
pub struct AgentV {
    pub id: Seq<char>,
    pub current_task: Seq<char>,
    pub progress: u8,
    pub status: AgentStatus,
    pub blockers: Option<Seq<char>>,
    pub last_seen: int,
    pub updated_at: int,
}

impl View for Agent {
    type V = AgentV;

    open spec fn view(&self) -> AgentV {
        AgentV {
            id: self.id@,
            current_task: self.current_task@,
            progress: self.progress,
            status: self.status,
            blockers: match self.blockers {
                Some(b) => Some(b@),
                None => None,
            },
            last_seen: self.last_seen as int,
            updated_at: self.updated_at as int,
        }
    }
}

impl DeepView for Agent {
    type V = AgentV;

    open spec fn deep_view(&self) -> AgentV {
        self.view()
    }
}

impl Clone for Agent {
    fn clone(&self) -> (r: Self)
        ensures
            r@ == self@,
    {
        let r = Agent {
            id: self.id.clone(),
            current_task: self.current_task.clone(),
            progress: self.progress,
            status: self.status,
            blockers: match &self.blockers {
                Some(b) => Some(b.clone()),
                None => None,
            },
            last_seen: self.last_seen,
            updated_at: self.updated_at,
        };
        proof {
            assert(r@ =~= self@);
        }
        r
    }
}

impl Agent {
    /// A fresh agent: empty task, zero progress, Idle, no blockers, both
    /// timestamps set to the given moment.
    pub fn new(id: &str, now: i64) -> (r: Agent)
        ensures
            r@ == (AgentV {
                id: id@,
                current_task: Seq::<char>::empty(),
                progress: 0,
                status: AgentStatus::Idle,
                blockers: None,
                last_seen: now as int,
                updated_at: now as int,
            }),
    {
        let r = Agent {
            id: id.to_owned(),
            current_task: String::new(),
            progress: 0,
            status: AgentStatus::Idle,
            blockers: None,
            last_seen: now,
            updated_at: now,
        };
        proof {
            assert(r@ =~= (AgentV {
                id: id@,
                current_task: Seq::<char>::empty(),
                progress: 0,
                status: AgentStatus::Idle,
                blockers: None,
                last_seen: now as int,
                updated_at: now as int,
            }));
        }
        r
    }
}

} // verus!
