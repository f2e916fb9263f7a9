use vstd::prelude::*;
use crate::broadcast::{BroadcastBody, BroadcastNode};
use crate::message::{Message, NodeError};

verus! {

/// `next` follows `s` by one step of the node: a handled message, or a gossip
/// tick, which leaves the state as it was.
pub open spec fn is_step(s: BroadcastNode, next: BroadcastNode) -> bool {
    next == s || exists|m: Message<BroadcastBody>, r: Result<Vec<Message<BroadcastBody>>, NodeError>|
        #[trigger] s.handled(m, r, next)
}

/// Handling any message never drops an accepted value.
pub proof fn lemma_handled_keeps_accepted(
    s: BroadcastNode,
    m: Message<BroadcastBody>,
    r: Result<Vec<Message<BroadcastBody>>, NodeError>,
    next: BroadcastNode,
)
    requires
        s.handled(m, r, next),
    ensures
        s.accepted().subset_of(next.accepted()),
{
}

/// Over any run of the node, what is accepted at one point is still accepted
/// at every later point.
pub proof fn lemma_accepted_monotone(run: Seq<BroadcastNode>, i: int, j: int)
    requires
        forall|k: int| 0 <= k < run.len() - 1 ==> is_step(#[trigger] run[k], run[k + 1]),
        0 <= i <= j < run.len(),
    ensures
        run[i].accepted().subset_of(run[j].accepted()),
    decreases j - i,
{
    if i < j {
        lemma_accepted_monotone(run, i, j - 1);
        assert(is_step(run[j - 1], run[j]));
        if run[j] != run[j - 1] {
            let (m, r) = choose|m: Message<BroadcastBody>, r: Result<Vec<Message<BroadcastBody>>, NodeError>|
                #[trigger] run[j - 1].handled(m, r, run[j]);
            lemma_handled_keeps_accepted(run[j - 1], m, r, run[j]);
        }
    }
}

/// Accepting the same value twice: the second `Broadcast` of `v` leaves the
/// accepted set exactly as the first one left it, and `v` is in it.
pub proof fn lemma_broadcast_twice(
    s0: BroadcastNode,
    m1: Message<BroadcastBody>,
    r1: Result<Vec<Message<BroadcastBody>>, NodeError>,
    s1: BroadcastNode,
    m2: Message<BroadcastBody>,
    r2: Result<Vec<Message<BroadcastBody>>, NodeError>,
    s2: BroadcastNode,
    v: usize,
)
    requires
        m1.body.kind == (BroadcastBody::Broadcast { message: v }),
        m2.body.kind == (BroadcastBody::Broadcast { message: v }),
        s0.handled(m1, r1, s1),
        s1.handled(m2, r2, s2),
    ensures
        s1.accepted().contains(v),
        s2.accepted() == s1.accepted(),
{
    assert(s2.accepted() =~= s1.accepted());
}

/// Gossip that carries only values already accepted leaves the accepted set unchanged.
pub proof fn lemma_known_gossip_changes_nothing(
    s: BroadcastNode,
    m: Message<BroadcastBody>,
    r: Result<Vec<Message<BroadcastBody>>, NodeError>,
    next: BroadcastNode,
)
    requires
        m.body.kind matches BroadcastBody::Gossip { messages } && messages@.to_set().subset_of(s.accepted()),
        s.handled(m, r, next),
    ensures
        next.accepted() == s.accepted(),
{
    if let BroadcastBody::Gossip { messages } = m.body.kind {
        assert(s.accepted() + messages@.to_set() =~= s.accepted());
    }
}

proof fn lemma_targets_avoid(s: BroadcastNode, n: Seq<char>, k: int)
    requires
        s.pending(n) == Set::<usize>::empty(),
    ensures
        forall|i: int| 0 <= i < s.gossip_targets(k).len() ==> #[trigger] s.gossip_targets(k)[i] != n,
    decreases k,
{
    if k > 0 {
        lemma_targets_avoid(s, n, k - 1);
        let rest = s.gossip_targets(k - 1);
        let x = s.neighbor_ids()[k - 1];
        if s.pending(x) != Set::<usize>::empty() {
            assert forall|i: int| 0 <= i < rest.len() + 1 implies #[trigger] rest.push(x)[i] != n by {
                if i < rest.len() {
                    assert(rest.push(x)[i] == rest[i]);
                }
            }
        }
    }
}

/// Once node `n` is known to hold every accepted value, a gossip tick sends it nothing.
pub proof fn lemma_covered_neighbor_not_pushed(s: BroadcastNode, n: Seq<char>)
    requires
        s.accepted().subset_of(s.delivered(n)),
    ensures
        forall|i: int|
            0 <= i < s.gossip_targets(s.neighbor_ids().len() as int).len() ==> #[trigger] s.gossip_targets(
                s.neighbor_ids().len() as int,
            )[i] != n,
{
    assert(s.pending(n) =~= Set::<usize>::empty());
    lemma_targets_avoid(s, n, s.neighbor_ids().len() as int);
}

/// Until a new value is accepted, a member known to hold every accepted value stays so.
pub proof fn lemma_cover_persists(
    s: BroadcastNode,
    m: Message<BroadcastBody>,
    r: Result<Vec<Message<BroadcastBody>>, NodeError>,
    next: BroadcastNode,
    n: Seq<char>,
)
    requires
        s.member_ids().contains(n),
        s.accepted().subset_of(s.delivered(n)),
        s.handled(m, r, next),
        next.accepted() == s.accepted(),
    ensures
        next.accepted().subset_of(next.delivered(n)),
{
    assert(s.delivered_to()[n] == s.delivered(n));
    assert(next.delivered_to()[n] == next.delivered(n));
}

/// One gossip round over a link: once `b` handles the push `g` that `a` sends
/// it, `b` holds all that `a` owed it; once `a` handles `b`'s acknowledgment,
/// `a` owes `b` nothing and has accepted nothing new.
pub proof fn lemma_gossip_round(
    a: BroadcastNode,
    g: Message<BroadcastBody>,
    b: BroadcastNode,
    rb: Result<Vec<Message<BroadcastBody>>, NodeError>,
    b_next: BroadcastNode,
    ra: Result<Vec<Message<BroadcastBody>>, NodeError>,
    a_next: BroadcastNode,
)
    requires
        a.wf(),
        a.is_gossip(g, b.node_id()),
        a.member_ids().contains(b.node_id()),
        b.member_ids().contains(a.node_id()),
        b.handled(g, rb, b_next),
        rb matches Ok(out) && out@.len() >= 1 && a.handled(out@[0], ra, a_next),
    ensures
        a.pending(b.node_id()).subset_of(b_next.accepted()),
        a_next.accepted() == a.accepted(),
        a_next.pending(b.node_id()) == Set::<usize>::empty(),
{
    let n = b.node_id();
    if let BroadcastBody::Gossip { messages } = g.body.kind {
        if let Ok(out) = rb {
            let ack = out@[0];
            assert(ack.src@ == n);
            a.lemma_delivered_accepted(n);
            assert(a_next.delivered_to()[n] == a_next.delivered(n));
            assert(messages@.to_set().intersect(a.accepted()) =~= a.pending(n));
            assert(a_next.pending(n) =~= Set::<usize>::empty());
        }
    }
}

} // verus!
