//! Messages: append-only, store-assigned monotonic ids, tags, a totally
//! ordered priority, optional reply linkage and reference triples.

use crate::reference::{clone_ref_vec, Reference, ReferenceV};
use crate::text::{clone_string_vec, eq_lowered, lower_seq};
use vstd::prelude::*;

verus! {

/// Message priority, totally ordered: Low < Normal < High < Critical.
#[derive(Clone, Copy, Debug, PartialEq, Eq, PartialOrd, Ord, Structural)]
pub enum Priority {
    Low,
    Normal,
    High,
    Critical,
}

/// The priority a (case-insensitive) name designates; unknown names mean Normal.
pub open spec fn priority_of_str(s: Seq<char>) -> Priority {
    if lower_seq(s) == "low"@ {
        Priority::Low
    } else if lower_seq(s) == "normal"@ {
        Priority::Normal
    } else if lower_seq(s) == "high"@ {
        Priority::High
    } else if lower_seq(s) == "critical"@ {
        Priority::Critical
    } else {
        Priority::Normal
    }
}

impl Priority {
    /// The canonical lowercase name of this priority.
    pub open spec fn as_str_spec(&self) -> Seq<char> {
        match self {
            Priority::Low => "low"@,
            Priority::Normal => "normal"@,
            Priority::High => "high"@,
            Priority::Critical => "critical"@,
        }
    }

    /// The canonical lowercase name of this priority.
    pub fn as_str(&self) -> (r: &'static str)
        ensures
            r@ == self.as_str_spec(),
    {
        match self {
            Priority::Low => "low",
            Priority::Normal => "normal",
            Priority::High => "high",
            Priority::Critical => "critical",
        }
    }

    /// Parses a priority name, ignoring ASCII case; unknown names mean Normal.
    pub fn parse(s: &str) -> (r: Self)
        ensures
            r == priority_of_str(s@),
    {
        if eq_lowered(s, "low") {
            Priority::Low
        } else if eq_lowered(s, "normal") {
            Priority::Normal
        } else if eq_lowered(s, "high") {
            Priority::High
        } else if eq_lowered(s, "critical") {
            Priority::Critical
        } else {
            Priority::Normal
        }
    }

    /// The ordinal of this priority in the total order.
    pub open spec fn level_spec(&self) -> u8 {
        match self {
            Priority::Low => 0,
            Priority::Normal => 1,
            Priority::High => 2,
            Priority::Critical => 3,
        }
    }

    /// The ordinal of this priority in the total order.
    pub fn level(&self) -> (r: u8)
        ensures
            r == self.level_spec(),
    {
        match self {
            Priority::Low => 0,
            Priority::Normal => 1,
            Priority::High => 2,
            Priority::Critical => 3,
        }
    }
}

/// A message row of the store.
#[derive(Debug)]
pub struct Message {
    pub id: i64,
    pub from_agent: String,
    pub content: String,
    pub tags: Vec<String>,
    pub priority: Priority,
    pub in_reply_to: Option<i64>,
    pub refs: Vec<Reference>,
    pub created_at: i64,
}

/// Mathematical counterpart of [`Message`].
#[verifier::ext_equal]
pub struct MessageV {
    pub id: int,
    pub from_agent: Seq<char>,
    pub content: Seq<char>,
    pub tags: Seq<Seq<char>>,
    pub priority: Priority,
    pub in_reply_to: Option<int>,
    pub refs: Seq<ReferenceV>,
    pub created_at: int,
}

impl View for Message {
    type V = MessageV;

    open spec fn view(&self) -> MessageV {
        MessageV {
            id: self.id as int,
            from_agent: self.from_agent@,
            content: self.content@,
            tags: self.tags.deep_view(),
            priority: self.priority,
            in_reply_to: match self.in_reply_to {
                Some(i) => Some(i as int),
                None => None,
            },
            refs: self.refs.deep_view(),
            created_at: self.created_at as int,
        }
    }
}

impl DeepView for Message {
    type V = MessageV;

    open spec fn deep_view(&self) -> MessageV {
        self.view()
    }
}

impl Clone for Message {
    fn clone(&self) -> (r: Self)
        ensures
            r@ == self@,
    {
        let r = Message {
            id: self.id,
            from_agent: self.from_agent.clone(),
            content: self.content.clone(),
            tags: clone_string_vec(&self.tags),
            priority: self.priority,
            in_reply_to: self.in_reply_to,
            refs: clone_ref_vec(&self.refs),
            created_at: self.created_at,
        };
        proof {
            assert(r@ =~= self@);
        }
        r
    }
}

} // verus!
