//! The per-session identity resolver: a compare-and-fail single-assignment
//! register with layered immutable overrides.
//!
//! A session is constructed with an optional fixed identity (set at process
//! start, immutable) and an optional environment-bound identity (also
//! immutable). A third, resolved slot starts empty and is set at most once by
//! `identify`. `resolve` applies strict precedence: fixed, else env-bound,
//! else resolved, else empty. The caller guards a shared resolver with a
//! mutual-exclusion lock; every rule here is enforced on the state as a
//! whole, so each locked call is one atomic transition.

use crate::errors::{BBError, BBResult};
use crate::text::str_eq;
use crate::validation::{validate_agent_id, validate_agent_id_spec};
use vstd::prelude::*;

verus! {

/// The session-scoped identity state.
#[derive(Debug)]
pub struct IdentityResolver {
    fixed_agent: Option<String>,
    env_agent: Option<String>,
    resolved: Option<String>,
}

/// Mathematical counterpart of [`IdentityResolver`].
#[verifier::ext_equal]
pub struct IdentityV {
    pub fixed_agent: Option<Seq<char>>,
    pub env_agent: Option<Seq<char>>,
    pub resolved: Option<Seq<char>>,
}

impl View for IdentityResolver {
    type V = IdentityV;

    closed spec fn view(&self) -> IdentityV {
        IdentityV {
            fixed_agent: match self.fixed_agent {
                Some(s) => Some(s@),
                None => None,
            },
            env_agent: match self.env_agent {
                Some(s) => Some(s@),
                None => None,
            },
            resolved: match self.resolved {
                Some(s) => Some(s@),
                None => None,
            },
        }
    }
}

/// The identity a session resolves to: fixed, else env-bound, else resolved,
/// else empty — strict precedence.
pub open spec fn resolve_spec(v: IdentityV) -> Option<Seq<char>> {
    if v.fixed_agent is Some {
        v.fixed_agent
    } else if v.env_agent is Some {
        v.env_agent
    } else {
        v.resolved
    }
}

/// The outcome of an identify response: the established id and its source.
#[derive(Debug, PartialEq)]
pub struct IdentifyResponse {
    pub agent_id: String,
    pub source: String,
}

/// Mathematical counterpart of [`IdentifyResponse`].
#[verifier::ext_equal]
pub struct IdentifyResponseV {
    pub agent_id: Seq<char>,
    pub source: Seq<char>,
}

impl View for IdentifyResponse {
    type V = IdentifyResponseV;

    open spec fn view(&self) -> IdentifyResponseV {
        IdentifyResponseV { agent_id: self.agent_id@, source: self.source@ }
    }
}

/// The state after `identify(id)`: only a first assignment to the empty
/// resolved slot (with no fixed or env-bound identity) changes anything.
pub open spec fn identify_state(v: IdentityV, id: Seq<char>) -> IdentityV {
    if validate_agent_id_spec(id) is Err || v.fixed_agent is Some || v.env_agent is Some
        || v.resolved is Some {
        v
    } else {
        IdentityV { resolved: Some(id), ..v }
    }
}

/// The result of `identify(id)`: it fails if the id is invalid, if a fixed
/// identity exists, or if it disagrees with an env-bound or already-resolved
/// identity; re-asserting the bound value succeeds as a no-op, with the
/// source naming where the identity is bound.
pub open spec fn identify_result(v: IdentityV, id: Seq<char>) -> BBResult<IdentifyResponseV> {
    if validate_agent_id_spec(id) is Err {
        Err(validate_agent_id_spec(id)->Err_0)
    } else if v.fixed_agent is Some {
        Err(BBError::IdentityAlreadyFixed)
    } else if v.env_agent is Some {
        if v.env_agent == Some(id) {
            Ok(IdentifyResponseV { agent_id: id, source: "env"@ })
        } else {
            Err(BBError::IdentityConflict)
        }
    } else if v.resolved is Some {
        if v.resolved == Some(id) {
            Ok(IdentifyResponseV { agent_id: id, source: "identify"@ })
        } else {
            Err(BBError::IdentityConflict)
        }
    } else {
        Ok(IdentifyResponseV { agent_id: id, source: "identify"@ })
    }
}

impl IdentityResolver {
    /// A fresh session with the given fixed and env-bound identities and an
    /// empty resolved slot.
    pub fn new(fixed_agent: Option<String>, env_agent: Option<String>) -> (r: Self)
        ensures
            r@.fixed_agent == (match fixed_agent {
                Some(s) => Some(s@),
                None => None::<Seq<char>>,
            }),
            r@.env_agent == (match env_agent {
                Some(s) => Some(s@),
                None => None::<Seq<char>>,
            }),
            r@.resolved is None,
    {
        IdentityResolver { fixed_agent, env_agent, resolved: None }
    }

    /// The identity this session resolves to, by strict precedence.
    pub fn resolve(&self) -> (r: Option<String>)
        ensures
            match r {
                Some(s) => resolve_spec(self@) == Some(s@),
                None => resolve_spec(self@) is None,
            },
    {
        match &self.fixed_agent {
            Some(s) => Some(s.clone()),
            None => match &self.env_agent {
                Some(s) => Some(s.clone()),
                None => match &self.resolved {
                    Some(s) => Some(s.clone()),
                    None => None,
                },
            },
        }
    }

    /// Establishes the session identity, or verifies it: see
    /// [`identify_state`] and [`identify_result`] for the exact transition.
    pub fn identify(&mut self, agent_id: &str) -> (r: BBResult<IdentifyResponse>)
        ensures
            final(self)@ == identify_state(old(self)@, agent_id@),
            match r {
                Ok(resp) => identify_result(old(self)@, agent_id@) == Ok::<
                    IdentifyResponseV,
                    BBError,
                >(resp@),
                Err(e) => identify_result(old(self)@, agent_id@) == Err::<
                    IdentifyResponseV,
                    BBError,
                >(e),
            },
    {
        if let Err(e) = validate_agent_id(agent_id) {
            return Err(e);
        }
        if self.fixed_agent.is_some() {
            return Err(BBError::IdentityAlreadyFixed);
        }
        if let Some(env_id) = &self.env_agent {
            if !str_eq(env_id.as_str(), agent_id) {
                return Err(BBError::IdentityConflict);
            }
            let resp = IdentifyResponse { agent_id: agent_id.to_owned(), source: "env".to_owned() };
            proof {
                assert(resp@ =~= (IdentifyResponseV { agent_id: agent_id@, source: "env"@ }));
            }
            return Ok(resp);
        }
        if let Some(existing) = &self.resolved {
            if !str_eq(existing.as_str(), agent_id) {
                return Err(BBError::IdentityConflict);
            }
            let resp = IdentifyResponse {
                agent_id: agent_id.to_owned(),
                source: "identify".to_owned(),
            };
            proof {
                assert(resp@ =~= (IdentifyResponseV { agent_id: agent_id@, source: "identify"@ }));
            }
            return Ok(resp);
        }
        self.resolved = Some(agent_id.to_owned());
        proof {
            assert(self@ =~= identify_state(old(self)@, agent_id@));
        }
        let resp = IdentifyResponse { agent_id: agent_id.to_owned(), source: "identify".to_owned() };
        proof {
            assert(resp@ =~= (IdentifyResponseV { agent_id: agent_id@, source: "identify"@ }));
        }
        Ok(resp)
    }

    /// The resolved identity, or [`BBError::IdentityRequired`] if the session
    /// has none.
    pub fn require_identity(&self) -> (r: BBResult<String>)
        ensures
            match r {
                Ok(s) => resolve_spec(self@) == Some(s@),
                Err(e) => resolve_spec(self@) is None && e == BBError::IdentityRequired,
            },
    {
        match self.resolve() {
            Some(s) => Ok(s),
            None => Err(BBError::IdentityRequired),
        }
    }
}

/// A fixed identity always wins resolution; an env-bound identity wins over
/// a resolved one; the resolved slot answers only when both are absent.
pub proof fn lemma_resolve_precedence(v: IdentityV)
    ensures
        v.fixed_agent is Some ==> resolve_spec(v) == v.fixed_agent,
        v.fixed_agent is None && v.env_agent is Some ==> resolve_spec(v) == v.env_agent,
        v.fixed_agent is None && v.env_agent is None ==> resolve_spec(v) == v.resolved,
{
}

/// Identifying the same id twice: once it succeeds, the second call succeeds
/// as a no-op that leaves the state unchanged.
pub proof fn lemma_identify_idempotent(v: IdentityV, id: Seq<char>)
    requires
        identify_result(v, id) is Ok,
    ensures
        identify_state(identify_state(v, id), id) == identify_state(v, id),
        identify_result(identify_state(v, id), id) is Ok,
        (identify_result(identify_state(v, id), id)->Ok_0).agent_id == id,
{
}

/// After a first successful assignment of `id` in a session with no fixed or
/// env-bound identity, identifying any different id fails with a conflict
/// and changes nothing.
pub proof fn lemma_identify_single_assignment(v: IdentityV, id: Seq<char>, other: Seq<char>)
    requires
        v.fixed_agent is None,
        v.env_agent is None,
        v.resolved is None,
        validate_agent_id_spec(id) is Ok,
        validate_agent_id_spec(other) is Ok,
        other != id,
    ensures
        identify_result(v, id) == Ok::<IdentifyResponseV, BBError>(
            IdentifyResponseV { agent_id: id, source: "identify"@ },
        ),
        identify_result(identify_state(v, id), other) == Err::<IdentifyResponseV, BBError>(
            BBError::IdentityConflict,
        ),
        identify_state(identify_state(v, id), other) == identify_state(v, id),
{
}

/// A fixed identity can never be overridden: identify always fails then.
pub proof fn lemma_identify_fixed_immutable(v: IdentityV, id: Seq<char>)
    requires
        v.fixed_agent is Some,
        validate_agent_id_spec(id) is Ok,
    ensures
        identify_result(v, id) == Err::<IdentifyResponseV, BBError>(BBError::IdentityAlreadyFixed),
        identify_state(v, id) == v,
{
}

} // verus!
