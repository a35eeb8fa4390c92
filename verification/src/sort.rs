//! Newest-first ordering of query results.
//!
//! Each entity kind is ordered by its creation-time key, descending, with the
//! store-assigned id (or, for agents, the stored position) breaking ties; the
//! ordering is specified as a stable insertion sort, so every query result is
//! pinned exactly.

use crate::agent::{Agent, AgentV};
use crate::artifact::{Artifact, ArtifactV};
use crate::message::{Message, MessageV};
use vstd::prelude::*;

verus! {

/// Strict newest-first precedence for messages: later creation first, ties
/// broken by the higher store-assigned id.
pub open spec fn msg_before(a: MessageV, b: MessageV) -> bool {
    a.created_at > b.created_at || (a.created_at == b.created_at && a.id > b.id)
}

/// `m` inserted after every element it does not strictly precede.
pub open spec fn insert_msg(s: Seq<MessageV>, m: MessageV) -> Seq<MessageV>
    decreases s.len(),
{
    if s.len() == 0 {
        seq![m]
    } else if msg_before(m, s[0]) {
        seq![m] + s
    } else {
        seq![s[0]] + insert_msg(s.drop_first(), m)
    }
}

/// The newest-first ordering of messages: a stable insertion sort.
pub open spec fn sort_msgs(s: Seq<MessageV>) -> Seq<MessageV>
    decreases s.len(),
{
    if s.len() == 0 {
        Seq::empty()
    } else {
        insert_msg(sort_msgs(s.drop_last()), s.last())
    }
}

proof fn lemma_insert_msg_at(s: Seq<MessageV>, m: MessageV, pos: int)
    requires
        0 <= pos <= s.len(),
        forall|j: int| 0 <= j < pos ==> !msg_before(m, #[trigger] s[j]),
        pos < s.len() ==> msg_before(m, s[pos]),
    ensures
        insert_msg(s, m) == s.take(pos) + seq![m] + s.skip(pos),
    decreases s.len(),
{
    if s.len() == 0 {
        assert(insert_msg(s, m) =~= s.take(pos) + seq![m] + s.skip(pos));
    } else if pos == 0 {
        assert(insert_msg(s, m) =~= s.take(pos) + seq![m] + s.skip(pos));
    } else {
        let rest = s.drop_first();
        lemma_insert_msg_at(rest, m, pos - 1);
        assert(insert_msg(s, m) =~= s.take(pos) + seq![m] + s.skip(pos));
    }
}

/// `insert_msg` keeps exactly the elements, plus the inserted one.
pub proof fn lemma_insert_msg_elems(s: Seq<MessageV>, m: MessageV)
    ensures
        insert_msg(s, m).len() == s.len() + 1,
        forall|x: MessageV| #[trigger] insert_msg(s, m).contains(x) <==> (s.contains(x) || x == m),
    decreases s.len(),
{
    broadcast use vstd::seq_lib::group_seq_properties;

    if s.len() == 0 {
        assert(seq![m][0] == m);
        assert(insert_msg(s, m) =~= Seq::<MessageV>::empty() + seq![m]);
    } else if msg_before(m, s[0]) {
        assert(seq![m][0] == m);
        assert(forall|x: MessageV| seq![m].contains(x) ==> x == m);
    } else {
        let rest = s.drop_first();
        lemma_insert_msg_elems(rest, m);
        assert(seq![s[0]][0] == s[0]);
        assert(forall|x: MessageV| seq![s[0]].contains(x) ==> x == s[0]);
        assert(s =~= seq![s[0]] + rest);
        assert(insert_msg(s, m) == seq![s[0]] + insert_msg(rest, m));
    }
}

/// Sorting keeps exactly the elements.
pub proof fn lemma_sort_msgs_elems(s: Seq<MessageV>)
    ensures
        sort_msgs(s).len() == s.len(),
        forall|x: MessageV| #[trigger] sort_msgs(s).contains(x) <==> s.contains(x),
    decreases s.len(),
{
    broadcast use vstd::seq_lib::group_seq_properties;

    if s.len() > 0 {
        let rest = s.drop_last();
        lemma_sort_msgs_elems(rest);
        lemma_insert_msg_elems(sort_msgs(rest), s.last());
        assert(seq![s.last()][0] == s.last());
        assert(forall|x: MessageV| seq![s.last()].contains(x) ==> x == s.last());
        assert(s =~= rest + seq![s.last()]);
    }
}

/// Newest-first order: no element strictly precedes an earlier one.
pub open spec fn msgs_sorted_desc(s: Seq<MessageV>) -> bool {
    forall|i: int, j: int| 0 <= i < j < s.len() ==> !msg_before(#[trigger] s[j], #[trigger] s[i])
}

proof fn lemma_insert_msg_sorted(s: Seq<MessageV>, m: MessageV)
    requires
        msgs_sorted_desc(s),
    ensures
        msgs_sorted_desc(insert_msg(s, m)),
    decreases s.len(),
{
    if s.len() == 0 {
    } else if msg_before(m, s[0]) {
        let t = seq![m] + s;
        assert forall|i: int, j: int| 0 <= i < j < t.len() implies !msg_before(
            #[trigger] t[j],
            #[trigger] t[i],
        ) by {
            if i == 0 {
                assert(t[j] == s[j - 1]);
                if j > 1 {
                    assert(!msg_before(s[j - 1], s[0]));
                }
            } else {
                assert(t[i] == s[i - 1]);
                assert(t[j] == s[j - 1]);
            }
        }
    } else {
        let rest = s.drop_first();
        assert forall|i: int, j: int| 0 <= i < j < rest.len() implies !msg_before(
            #[trigger] rest[j],
            #[trigger] rest[i],
        ) by {
            assert(rest[i] == s[i + 1]);
            assert(rest[j] == s[j + 1]);
        }
        lemma_insert_msg_sorted(rest, m);
        lemma_insert_msg_elems(rest, m);
        let t = seq![s[0]] + insert_msg(rest, m);
        assert forall|i: int, j: int| 0 <= i < j < t.len() implies !msg_before(
            #[trigger] t[j],
            #[trigger] t[i],
        ) by {
            if i == 0 {
                let x = t[j];
                assert(insert_msg(rest, m)[j - 1] == x);
                assert(insert_msg(rest, m).contains(x));
                if x == m {
                    assert(!msg_before(m, s[0]));
                } else {
                    assert(rest.contains(x));
                    let k = choose|k: int| 0 <= k < rest.len() && rest[k] == x;
                    assert(s[k + 1] == x);
                    assert(!msg_before(s[k + 1], s[0]));
                }
            } else {
                assert(t[i] == insert_msg(rest, m)[i - 1]);
                assert(t[j] == insert_msg(rest, m)[j - 1]);
            }
        }
    }
}

/// The newest-first ordering really is newest first: in a sorted sequence no
/// message strictly precedes one listed before it.
pub proof fn lemma_sort_msgs_newest_first(s: Seq<MessageV>)
    ensures
        msgs_sorted_desc(sort_msgs(s)),
    decreases s.len(),
{
    if s.len() > 0 {
        lemma_sort_msgs_newest_first(s.drop_last());
        lemma_insert_msg_sorted(sort_msgs(s.drop_last()), s.last());
    }
}

fn msg_before_exec(a: &Message, b: &Message) -> (r: bool)
    ensures
        r == msg_before(a@, b@),
{
    a.created_at > b.created_at || (a.created_at == b.created_at && a.id > b.id)
}

/// Sorts messages newest-first: by creation time descending, ties broken by
/// id descending.
pub fn sort_messages(v: &Vec<Message>) -> (r: Vec<Message>)
    ensures
        r.deep_view() == sort_msgs(v.deep_view()),
{
    let ghost vs = v.deep_view();
    let mut out: Vec<Message> = Vec::new();
    proof {
        assert(vs.take(0) =~= Seq::<MessageV>::empty());
    }
    let mut i: usize = 0;
    while i < v.len()
        invariant
            i <= v@.len(),
            vs == v.deep_view(),
            vs.len() == v@.len(),
            out.deep_view() == sort_msgs(vs.take(i as int)),
        decreases v@.len() - i,
    {
        proof {
            assert(vs[i as int] == v@[i as int]@);
        }
        let m = v[i].clone();
        let mut pos: usize = 0;
        while pos < out.len() && !msg_before_exec(&m, &out[pos])
            invariant
                pos <= out@.len(),
                out.deep_view().len() == out@.len(),
                m@ == vs[i as int],
                forall|j: int| 0 <= j < pos ==> !msg_before(m@, #[trigger] out.deep_view()[j]),
            decreases out@.len() - pos,
        {
            proof {
                assert(out.deep_view()[pos as int] == out@[pos as int]@);
            }
            pos = pos + 1;
        }
        proof {
            if pos < out@.len() {
                assert(out.deep_view()[pos as int] == out@[pos as int]@);
            }
        }
        let ghost prev = out.deep_view();
        let ghost old_elems = out@;
        out.insert(pos, m);
        proof {
            lemma_insert_msg_at(prev, m@, pos as int);
            assert(out@ == old_elems.insert(pos as int, m));
            assert forall|j: int| 0 <= j < out@.len() implies #[trigger] out.deep_view()[j] == (
            prev.take(pos as int) + seq![m@] + prev.skip(pos as int))[j] by {
                if j < pos {
                    assert(out@[j] == old_elems[j]);
                    assert(prev[j] == old_elems[j]@);
                } else if j == pos {
                    assert(out@[j] == m);
                } else {
                    assert(out@[j] == old_elems[j - 1]);
                    assert(prev[j - 1] == old_elems[j - 1]@);
                }
            }
            assert(out.deep_view() =~= prev.take(pos as int) + seq![m@] + prev.skip(pos as int));
            assert(vs.take(i as int + 1).drop_last() =~= vs.take(i as int));
            assert(vs.take(i as int + 1).last() == vs[i as int]);
            assert(out.deep_view() == sort_msgs(vs.take(i as int + 1)));
        }
        i = i + 1;
    }
    proof {
        assert(vs.take(vs.len() as int) =~= vs);
    }
    out
}

/// Reverses a vector of messages.
pub fn reverse_messages(v: Vec<Message>) -> (r: Vec<Message>)
    ensures
        r.deep_view() == v.deep_view().reverse(),
{
    let ghost vs = v.deep_view();
    let mut out: Vec<Message> = Vec::new();
    let len = v.len();
    let mut i: usize = 0;
    while i < len
        invariant
            i <= len,
            len == v@.len(),
            vs == v.deep_view(),
            vs.len() == len,
            out@.len() == i,
            forall|j: int| 0 <= j < i ==> #[trigger] out@[j].deep_view() == vs[len - 1 - j],
        decreases len - i,
    {
        let ghost old_elems = out@;
        let m = v[len - 1 - i].clone();
        proof {
            assert(m@ == v@[len - 1 - i as int]@);
            assert(vs[len - 1 - i as int] == v@[len - 1 - i as int]@);
        }
        out.push(m);
        proof {
            assert forall|j: int| 0 <= j < i + 1 implies #[trigger] out@[j].deep_view() == vs[len
                - 1 - j] by {
                if j < old_elems.len() {
                    assert(out@[j] == old_elems[j]);
                } else {
                    assert(out@[j] == m);
                }
            }
        }
        i = i + 1;
    }
    proof {
        assert(out.deep_view() =~= vs.reverse());
    }
    out
}

/// Strict newest-first precedence for artifacts: later creation first, ties
/// broken by the higher store-assigned id.
pub open spec fn art_before(a: ArtifactV, b: ArtifactV) -> bool {
    a.created_at > b.created_at || (a.created_at == b.created_at && a.id > b.id)
}

/// `m` inserted after every element it does not strictly precede.
pub open spec fn insert_art(s: Seq<ArtifactV>, m: ArtifactV) -> Seq<ArtifactV>
    decreases s.len(),
{
    if s.len() == 0 {
        seq![m]
    } else if art_before(m, s[0]) {
        seq![m] + s
    } else {
        seq![s[0]] + insert_art(s.drop_first(), m)
    }
}

/// The newest-first ordering of artifacts: a stable insertion sort.
pub open spec fn sort_arts(s: Seq<ArtifactV>) -> Seq<ArtifactV>
    decreases s.len(),
{
    if s.len() == 0 {
        Seq::empty()
    } else {
        insert_art(sort_arts(s.drop_last()), s.last())
    }
}

proof fn lemma_insert_art_at(s: Seq<ArtifactV>, m: ArtifactV, pos: int)
    requires
        0 <= pos <= s.len(),
        forall|j: int| 0 <= j < pos ==> !art_before(m, #[trigger] s[j]),
        pos < s.len() ==> art_before(m, s[pos]),
    ensures
        insert_art(s, m) == s.take(pos) + seq![m] + s.skip(pos),
    decreases s.len(),
{
    if s.len() == 0 {
        assert(insert_art(s, m) =~= s.take(pos) + seq![m] + s.skip(pos));
    } else if pos == 0 {
        assert(insert_art(s, m) =~= s.take(pos) + seq![m] + s.skip(pos));
    } else {
        let rest = s.drop_first();
        lemma_insert_art_at(rest, m, pos - 1);
        assert(insert_art(s, m) =~= s.take(pos) + seq![m] + s.skip(pos));
    }
}

/// `insert_art` keeps exactly the elements, plus the inserted one.
proof fn lemma_insert_art_elems(s: Seq<ArtifactV>, m: ArtifactV)
    ensures
        insert_art(s, m).len() == s.len() + 1,
        forall|x: ArtifactV| #[trigger] insert_art(s, m).contains(x) <==> (s.contains(x) || x == m),
    decreases s.len(),
{
    broadcast use vstd::seq_lib::group_seq_properties;

    if s.len() == 0 {
        assert(seq![m][0] == m);
        assert(insert_art(s, m) =~= Seq::<ArtifactV>::empty() + seq![m]);
    } else if art_before(m, s[0]) {
        assert(seq![m][0] == m);
        assert(forall|x: ArtifactV| seq![m].contains(x) ==> x == m);
    } else {
        let rest = s.drop_first();
        lemma_insert_art_elems(rest, m);
        assert(seq![s[0]][0] == s[0]);
        assert(forall|x: ArtifactV| seq![s[0]].contains(x) ==> x == s[0]);
        assert(s =~= seq![s[0]] + rest);
        assert(insert_art(s, m) == seq![s[0]] + insert_art(rest, m));
    }
}

/// Newest-first order: no element strictly precedes an earlier one.
pub open spec fn arts_sorted_desc(s: Seq<ArtifactV>) -> bool {
    forall|i: int, j: int| 0 <= i < j < s.len() ==> !art_before(#[trigger] s[j], #[trigger] s[i])
}

proof fn lemma_insert_art_sorted(s: Seq<ArtifactV>, m: ArtifactV)
    requires
        arts_sorted_desc(s),
    ensures
        arts_sorted_desc(insert_art(s, m)),
    decreases s.len(),
{
    if s.len() == 0 {
    } else if art_before(m, s[0]) {
        let t = seq![m] + s;
        assert forall|i: int, j: int| 0 <= i < j < t.len() implies !art_before(
            #[trigger] t[j],
            #[trigger] t[i],
        ) by {
            if i == 0 {
                assert(t[j] == s[j - 1]);
                if j > 1 {
                    assert(!art_before(s[j - 1], s[0]));
                }
            } else {
                assert(t[i] == s[i - 1]);
                assert(t[j] == s[j - 1]);
            }
        }
    } else {
        let rest = s.drop_first();
        assert forall|i: int, j: int| 0 <= i < j < rest.len() implies !art_before(
            #[trigger] rest[j],
            #[trigger] rest[i],
        ) by {
            assert(rest[i] == s[i + 1]);
            assert(rest[j] == s[j + 1]);
        }
        lemma_insert_art_sorted(rest, m);
        lemma_insert_art_elems(rest, m);
        let t = seq![s[0]] + insert_art(rest, m);
        assert forall|i: int, j: int| 0 <= i < j < t.len() implies !art_before(
            #[trigger] t[j],
            #[trigger] t[i],
        ) by {
            if i == 0 {
                let x = t[j];
                assert(insert_art(rest, m)[j - 1] == x);
                assert(insert_art(rest, m).contains(x));
                if x == m {
                    assert(!art_before(m, s[0]));
                } else {
                    assert(rest.contains(x));
                    let k = choose|k: int| 0 <= k < rest.len() && rest[k] == x;
                    assert(s[k + 1] == x);
                    assert(!art_before(s[k + 1], s[0]));
                }
            } else {
                assert(t[i] == insert_art(rest, m)[i - 1]);
                assert(t[j] == insert_art(rest, m)[j - 1]);
            }
        }
    }
}

/// The newest-first ordering really is newest first: in a sorted sequence no
/// artifact strictly precedes one listed before it.
pub proof fn lemma_sort_arts_newest_first(s: Seq<ArtifactV>)
    ensures
        arts_sorted_desc(sort_arts(s)),
    decreases s.len(),
{
    if s.len() > 0 {
        lemma_sort_arts_newest_first(s.drop_last());
        lemma_insert_art_sorted(sort_arts(s.drop_last()), s.last());
    }
}

fn art_before_exec(a: &Artifact, b: &Artifact) -> (r: bool)
    ensures
        r == art_before(a@, b@),
{
    a.created_at > b.created_at || (a.created_at == b.created_at && a.id > b.id)
}

/// Sorts artifacts newest-first: by creation time descending, ties broken by
/// id descending.
pub fn sort_artifacts(v: &Vec<Artifact>) -> (r: Vec<Artifact>)
    ensures
        r.deep_view() == sort_arts(v.deep_view()),
{
    let ghost vs = v.deep_view();
    let mut out: Vec<Artifact> = Vec::new();
    proof {
        assert(vs.take(0) =~= Seq::<ArtifactV>::empty());
    }
    let mut i: usize = 0;
    while i < v.len()
        invariant
            i <= v@.len(),
            vs == v.deep_view(),
            vs.len() == v@.len(),
            out.deep_view() == sort_arts(vs.take(i as int)),
        decreases v@.len() - i,
    {
        proof {
            assert(vs[i as int] == v@[i as int]@);
        }
        let m = v[i].clone();
        let mut pos: usize = 0;
        while pos < out.len() && !art_before_exec(&m, &out[pos])
            invariant
                pos <= out@.len(),
                out.deep_view().len() == out@.len(),
                m@ == vs[i as int],
                forall|j: int| 0 <= j < pos ==> !art_before(m@, #[trigger] out.deep_view()[j]),
            decreases out@.len() - pos,
        {
            proof {
                assert(out.deep_view()[pos as int] == out@[pos as int]@);
            }
            pos = pos + 1;
        }
        proof {
            if pos < out@.len() {
                assert(out.deep_view()[pos as int] == out@[pos as int]@);
            }
        }
        let ghost prev = out.deep_view();
        let ghost old_elems = out@;
        out.insert(pos, m);
        proof {
            lemma_insert_art_at(prev, m@, pos as int);
            assert(out@ == old_elems.insert(pos as int, m));
            assert forall|j: int| 0 <= j < out@.len() implies #[trigger] out.deep_view()[j] == (
            prev.take(pos as int) + seq![m@] + prev.skip(pos as int))[j] by {
                if j < pos {
                    assert(out@[j] == old_elems[j]);
                    assert(prev[j] == old_elems[j]@);
                } else if j == pos {
                    assert(out@[j] == m);
                } else {
                    assert(out@[j] == old_elems[j - 1]);
                    assert(prev[j - 1] == old_elems[j - 1]@);
                }
            }
            assert(out.deep_view() =~= prev.take(pos as int) + seq![m@] + prev.skip(pos as int));
            assert(vs.take(i as int + 1).drop_last() =~= vs.take(i as int));
            assert(vs.take(i as int + 1).last() == vs[i as int]);
            assert(out.deep_view() == sort_arts(vs.take(i as int + 1)));
        }
        i = i + 1;
    }
    proof {
        assert(vs.take(vs.len() as int) =~= vs);
    }
    out
}

/// Strict precedence for agents in the status listing: more recently seen
/// first; agents seen at the same moment keep their stored order.
pub open spec fn agent_before(a: AgentV, b: AgentV) -> bool {
    a.last_seen > b.last_seen
}

/// `m` inserted after every element it does not strictly precede.
pub open spec fn insert_agent(s: Seq<AgentV>, m: AgentV) -> Seq<AgentV>
    decreases s.len(),
{
    if s.len() == 0 {
        seq![m]
    } else if agent_before(m, s[0]) {
        seq![m] + s
    } else {
        seq![s[0]] + insert_agent(s.drop_first(), m)
    }
}

/// The most-recently-seen-first ordering of agents: a stable insertion sort.
pub open spec fn sort_agents_spec(s: Seq<AgentV>) -> Seq<AgentV>
    decreases s.len(),
{
    if s.len() == 0 {
        Seq::empty()
    } else {
        insert_agent(sort_agents_spec(s.drop_last()), s.last())
    }
}

proof fn lemma_insert_agent_at(s: Seq<AgentV>, m: AgentV, pos: int)
    requires
        0 <= pos <= s.len(),
        forall|j: int| 0 <= j < pos ==> !agent_before(m, #[trigger] s[j]),
        pos < s.len() ==> agent_before(m, s[pos]),
    ensures
        insert_agent(s, m) == s.take(pos) + seq![m] + s.skip(pos),
    decreases s.len(),
{
    if s.len() == 0 {
        assert(insert_agent(s, m) =~= s.take(pos) + seq![m] + s.skip(pos));
    } else if pos == 0 {
        assert(insert_agent(s, m) =~= s.take(pos) + seq![m] + s.skip(pos));
    } else {
        let rest = s.drop_first();
        lemma_insert_agent_at(rest, m, pos - 1);
        assert(insert_agent(s, m) =~= s.take(pos) + seq![m] + s.skip(pos));
    }
}

/// `insert_agent` keeps exactly the elements, plus the inserted one.
proof fn lemma_insert_agent_elems(s: Seq<AgentV>, m: AgentV)
    ensures
        insert_agent(s, m).len() == s.len() + 1,
        forall|x: AgentV| #[trigger] insert_agent(s, m).contains(x) <==> (s.contains(x) || x == m),
    decreases s.len(),
{
    broadcast use vstd::seq_lib::group_seq_properties;

    if s.len() == 0 {
        assert(seq![m][0] == m);
        assert(insert_agent(s, m) =~= Seq::<AgentV>::empty() + seq![m]);
    } else if agent_before(m, s[0]) {
        assert(seq![m][0] == m);
        assert(forall|x: AgentV| seq![m].contains(x) ==> x == m);
    } else {
        let rest = s.drop_first();
        lemma_insert_agent_elems(rest, m);
        assert(seq![s[0]][0] == s[0]);
        assert(forall|x: AgentV| seq![s[0]].contains(x) ==> x == s[0]);
        assert(s =~= seq![s[0]] + rest);
        assert(insert_agent(s, m) == seq![s[0]] + insert_agent(rest, m));
    }
}

/// Most-recently-seen-first order: no element was seen strictly later than
/// an earlier one.
pub open spec fn agents_sorted_desc(s: Seq<AgentV>) -> bool {
    forall|i: int, j: int| 0 <= i < j < s.len() ==> !agent_before(#[trigger] s[j], #[trigger] s[i])
}

proof fn lemma_insert_agent_sorted(s: Seq<AgentV>, m: AgentV)
    requires
        agents_sorted_desc(s),
    ensures
        agents_sorted_desc(insert_agent(s, m)),
    decreases s.len(),
{
    if s.len() == 0 {
    } else if agent_before(m, s[0]) {
        let t = seq![m] + s;
        assert forall|i: int, j: int| 0 <= i < j < t.len() implies !agent_before(
            #[trigger] t[j],
            #[trigger] t[i],
        ) by {
            if i == 0 {
                assert(t[j] == s[j - 1]);
                if j > 1 {
                    assert(!agent_before(s[j - 1], s[0]));
                }
            } else {
                assert(t[i] == s[i - 1]);
                assert(t[j] == s[j - 1]);
            }
        }
    } else {
        let rest = s.drop_first();
        assert forall|i: int, j: int| 0 <= i < j < rest.len() implies !agent_before(
            #[trigger] rest[j],
            #[trigger] rest[i],
        ) by {
            assert(rest[i] == s[i + 1]);
            assert(rest[j] == s[j + 1]);
        }
        lemma_insert_agent_sorted(rest, m);
        lemma_insert_agent_elems(rest, m);
        let t = seq![s[0]] + insert_agent(rest, m);
        assert forall|i: int, j: int| 0 <= i < j < t.len() implies !agent_before(
            #[trigger] t[j],
            #[trigger] t[i],
        ) by {
            if i == 0 {
                let x = t[j];
                assert(insert_agent(rest, m)[j - 1] == x);
                assert(insert_agent(rest, m).contains(x));
                if x == m {
                    assert(!agent_before(m, s[0]));
                } else {
                    assert(rest.contains(x));
                    let k = choose|k: int| 0 <= k < rest.len() && rest[k] == x;
                    assert(s[k + 1] == x);
                    assert(!agent_before(s[k + 1], s[0]));
                }
            } else {
                assert(t[i] == insert_agent(rest, m)[i - 1]);
                assert(t[j] == insert_agent(rest, m)[j - 1]);
            }
        }
    }
}

/// The status listing really is most-recently-seen first: in a sorted
/// sequence no agent was seen strictly later than one listed before it.
pub proof fn lemma_sort_agents_most_recent_first(s: Seq<AgentV>)
    ensures
        agents_sorted_desc(sort_agents_spec(s)),
    decreases s.len(),
{
    if s.len() > 0 {
        lemma_sort_agents_most_recent_first(s.drop_last());
        lemma_insert_agent_sorted(sort_agents_spec(s.drop_last()), s.last());
    }
}

fn agent_before_exec(a: &Agent, b: &Agent) -> (r: bool)
    ensures
        r == agent_before(a@, b@),
{
    a.last_seen > b.last_seen
}

/// Sorts agents by last-seen time, descending; ties keep their stored order.
pub fn sort_agents(v: &Vec<Agent>) -> (r: Vec<Agent>)
    ensures
        r.deep_view() == sort_agents_spec(v.deep_view()),
{
    let ghost vs = v.deep_view();
    let mut out: Vec<Agent> = Vec::new();
    proof {
        assert(vs.take(0) =~= Seq::<AgentV>::empty());
    }
    let mut i: usize = 0;
    while i < v.len()
        invariant
            i <= v@.len(),
            vs == v.deep_view(),
            vs.len() == v@.len(),
            out.deep_view() == sort_agents_spec(vs.take(i as int)),
        decreases v@.len() - i,
    {
        proof {
            assert(vs[i as int] == v@[i as int]@);
        }
        let m = v[i].clone();
        let mut pos: usize = 0;
        while pos < out.len() && !agent_before_exec(&m, &out[pos])
            invariant
                pos <= out@.len(),
                out.deep_view().len() == out@.len(),
                m@ == vs[i as int],
                forall|j: int| 0 <= j < pos ==> !agent_before(m@, #[trigger] out.deep_view()[j]),
            decreases out@.len() - pos,
        {
            proof {
                assert(out.deep_view()[pos as int] == out@[pos as int]@);
            }
            pos = pos + 1;
        }
        proof {
            if pos < out@.len() {
                assert(out.deep_view()[pos as int] == out@[pos as int]@);
            }
        }
        let ghost prev = out.deep_view();
        let ghost old_elems = out@;
        out.insert(pos, m);
        proof {
            lemma_insert_agent_at(prev, m@, pos as int);
            assert(out@ == old_elems.insert(pos as int, m));
            assert forall|j: int| 0 <= j < out@.len() implies #[trigger] out.deep_view()[j] == (
            prev.take(pos as int) + seq![m@] + prev.skip(pos as int))[j] by {
                if j < pos {
                    assert(out@[j] == old_elems[j]);
                    assert(prev[j] == old_elems[j]@);
                } else if j == pos {
                    assert(out@[j] == m);
                } else {
                    assert(out@[j] == old_elems[j - 1]);
                    assert(prev[j - 1] == old_elems[j - 1]@);
                }
            }
            assert(out.deep_view() =~= prev.take(pos as int) + seq![m@] + prev.skip(pos as int));
            assert(vs.take(i as int + 1).drop_last() =~= vs.take(i as int));
            assert(vs.take(i as int + 1).last() == vs[i as int]);
            assert(out.deep_view() == sort_agents_spec(vs.take(i as int + 1)));
        }
        i = i + 1;
    }
    proof {
        assert(vs.take(vs.len() as int) =~= vs);
    }
    out
}

} // verus!
