use vstd::prelude::*;
use crate::message::{answers, is_reply_to, Body, Message, NodeError, REPLY_MSG_ID};
use crate::node::Node;
use crate::values::{holds, insert_all, insert_all_within, insert_value, lemma_take_step};

verus! {

/// The bodies of the broadcast workload.
#[derive(Debug, Clone)]
pub enum BroadcastBody {
    Broadcast { message: usize },
    BroadcastOk,
    Read,
    ReadOk { messages: Vec<usize> },
    /// The cluster graph: each entry is a node id and that node's neighbours.
    Topology { topology: Vec<(String, Vec<String>)> },
    TopologyOk,
    Gossip { messages: Vec<usize> },
    GossipOk { messages: Vec<usize> },
}

/// The ids that a list of strings holds.
pub open spec fn ids(v: Seq<String>) -> Seq<Seq<char>> {
    v.map_values(|s: String| s@)
}

/// The neighbours that the first entry of `t` keyed by `id` lists; none if no entry is.
pub open spec fn neighbors_in(t: Seq<(String, Vec<String>)>, id: Seq<char>) -> Seq<Seq<char>>
    decreases t.len(),
{
    if t.len() == 0 {
        Seq::empty()
    } else if t[0].0@ == id {
        ids(t[0].1@)
    } else {
        neighbors_in(t.drop_first(), id)
    }
}

/// State of one broadcast node.
pub struct BroadcastNode {
    id: String,
    neighbors: Vec<String>,
    /// The accepted values, each once.
    messages: Vec<usize>,
    /// The cluster's members; `seen[i]` lists what `members[i]` is known to hold.
    members: Vec<String>,
    seen: Vec<Vec<usize>>,
}

impl BroadcastNode {
    pub closed spec fn node_id(self) -> Seq<char> {
        self.id@
    }

    /// The direct peers that gossip goes to, in order.
    pub closed spec fn neighbor_ids(self) -> Seq<Seq<char>> {
        ids(self.neighbors@)
    }

    /// Every value accepted so far.
    pub closed spec fn accepted(self) -> Set<usize> {
        self.messages@.to_set()
    }

    /// The cluster's members, as given at the handshake.
    pub closed spec fn member_ids(self) -> Seq<Seq<char>> {
        ids(self.members@)
    }

    /// The values known to have reached node `n`.
    pub closed spec fn delivered(self, n: Seq<char>) -> Set<usize> {
        Set::new(
            |v: usize|
                exists|i: int|
                    0 <= i < self.seen@.len() && self.members@[i]@ == n
                        && #[trigger] self.seen@[i]@.contains(v),
        )
    }

    /// For each member, the values known to have reached it.
    pub open spec fn delivered_to(self) -> Map<Seq<char>, Set<usize>> {
        Map::new(|n: Seq<char>| self.member_ids().contains(n), |n: Seq<char>| self.delivered(n))
    }

    /// What gossip still owes node `n`.
    pub open spec fn pending(self, n: Seq<char>) -> Set<usize> {
        self.accepted().difference(self.delivered(n))
    }

    pub closed spec fn wf(self) -> bool {
        &&& self.seen@.len() == self.members@.len()
        &&& self.messages@.no_duplicates()
        &&& forall|i: int| 0 <= i < self.seen@.len() ==> (#[trigger] self.seen@[i])@.no_duplicates()
        &&& forall|i: int, v: usize|
            0 <= i < self.seen@.len() && #[trigger] self.seen@[i]@.contains(v) ==> self.messages@.contains(v)
        &&& forall|k: int| 0 <= k < self.neighbors@.len() ==> self.member_ids().contains(#[trigger] self.neighbor_ids()[k])
    }

    /// What is delivered somewhere was accepted here.
    pub proof fn lemma_delivered_accepted(self, n: Seq<char>)
        requires
            self.wf(),
        ensures
            self.delivered(n).subset_of(self.accepted()),
    {
    }

    /// The neighbours, in order, that a gossip step sends to among the first `k`.
    pub open spec fn gossip_targets(self, k: int) -> Seq<Seq<char>>
        decreases k,
    {
        if k <= 0 {
            Seq::empty()
        } else {
            let rest = self.gossip_targets(k - 1);
            let n = self.neighbor_ids()[k - 1];
            if self.pending(n) == Set::<usize>::empty() {
                rest
            } else {
                rest.push(n)
            }
        }
    }

    /// `g` pushes to `n` exactly what this node still owes it.
    pub open spec fn is_gossip(self, g: Message<BroadcastBody>, n: Seq<char>) -> bool {
        &&& g.src@ == self.node_id()
        &&& g.dst@ == n
        &&& g.body.msg_id == None::<usize>
        &&& g.body.in_reply_to == None::<usize>
        &&& g.body.kind matches BroadcastBody::Gossip { messages } && messages@.to_set() == self.pending(n)
            && messages@.no_duplicates()
    }

    /// `out` is what one gossip step sends: one push to each neighbour that is owed something.
    pub open spec fn gossip_sends(self, out: Seq<Message<BroadcastBody>>) -> bool {
        let t = self.gossip_targets(self.neighbor_ids().len() as int);
        &&& out.len() == t.len()
        &&& forall|i: int| 0 <= i < out.len() ==> self.is_gossip(out[i], #[trigger] t[i])
    }

    /// Whether value `v` is known to have reached node `n`.
    fn is_delivered(&self, n: &String, v: usize) -> (r: bool)
        requires
            self.wf(),
        ensures
            r == self.delivered(n@).contains(v),
    {
        let mut i: usize = 0;
        while i < self.members.len()
            invariant
                self.wf(),
                0 <= i <= self.members@.len(),
                forall|j: int| 0 <= j < i ==> !(self.members@[j]@ == n@ && #[trigger] self.seen@[j]@.contains(v)),
            decreases self.members.len() - i,
        {
            if self.members[i].eq(n) && holds(&self.seen[i], v) {
                return true;
            }
            i = i + 1;
        }
        false
    }

    /// The accepted values that node `n` is not known to hold, each once.
    fn pending_values(&self, n: &String) -> (r: Vec<usize>)
        requires
            self.wf(),
        ensures
            r@.no_duplicates(),
            r@.to_set() == self.pending(n@),
    {
        let mut out: Vec<usize> = Vec::new();
        let mut j: usize = 0;
        while j < self.messages.len()
            invariant
                self.wf(),
                0 <= j <= self.messages@.len(),
                out@.no_duplicates(),
                out@.to_set() == self.messages@.take(j as int).to_set().difference(self.delivered(n@)),
            decreases self.messages.len() - j,
        {
            let v = self.messages[j];
            proof {
                lemma_take_step(self.messages@, j as int);
            }
            if !self.is_delivered(n, v) {
                proof {
                    if out@.contains(v) {
                        assert(out@.to_set().contains(v));
                        let k = choose|k: int| 0 <= k < j && #[trigger] self.messages@.take(j as int)[k] == v;
                        assert(self.messages@[k] == self.messages@[j as int]);
                    }
                    out@.lemma_push_to_set_commute(v);
                }
                out.push(v);
            }
            assert(out@.to_set() =~= self.messages@.take(j + 1).to_set().difference(self.delivered(n@)));
            j = j + 1;
        }
        assert(self.messages@.take(self.messages@.len() as int) =~= self.messages@);
        out
    }

    /// The values known to have reached `n` through the first `i` member slots.
    closed spec fn delivered_upto(self, n: Seq<char>, i: int) -> Set<usize> {
        Set::new(
            |v: usize|
                exists|j: int|
                    0 <= j < i && j < self.seen@.len() && self.members@[j]@ == n
                        && #[trigger] self.seen@[j]@.contains(v),
        )
    }

    /// This node's id.
    pub fn id(&self) -> (r: &String)
        ensures
            r@ == self.node_id(),
    {
        &self.id
    }

    /// The direct peers that gossip goes to.
    pub fn neighbors(&self) -> (r: &Vec<String>)
        ensures
            ids(r@) == self.neighbor_ids(),
    {
        &self.neighbors
    }

    /// Every accepted value, each once.
    pub fn accepted_values(&self) -> (r: Vec<usize>)
        requires
            self.wf(),
        ensures
            r@.no_duplicates(),
            r@.to_set() == self.accepted(),
    {
        let r = self.messages.clone();
        assert(r@ =~= self.messages@);
        r
    }

    /// The values known to have reached `n`, each once; `None` where `n` is not a member.
    pub fn delivered_values(&self, n: &String) -> (r: Option<Vec<usize>>)
        requires
            self.wf(),
        ensures
            r is Some <==> self.member_ids().contains(n@),
            r matches Some(v) ==> v@.no_duplicates() && v@.to_set() == self.delivered(n@),
    {
        let mut out: Vec<usize> = Vec::new();
        let mut found = false;
        let mut i: usize = 0;
        while i < self.members.len()
            invariant
                self.wf(),
                0 <= i <= self.members@.len(),
                out@.no_duplicates(),
                out@.to_set() == self.delivered_upto(n@, i as int),
                found == exists|j: int| 0 <= j < i && (#[trigger] self.members@[j])@ == n@,
            decreases self.members.len() - i,
        {
            if self.members[i].eq(n) {
                insert_all(&mut out, &self.seen[i]);
                found = true;
                assert(out@.to_set() =~= self.delivered_upto(n@, i + 1));
            } else {
                assert(self.delivered_upto(n@, i as int) =~= self.delivered_upto(n@, i + 1));
            }
            i = i + 1;
        }
        assert(self.delivered_upto(n@, i as int) =~= self.delivered(n@));
        if found {
            let ghost j = choose|j: int| 0 <= j < i && (#[trigger] self.members@[j])@ == n@;
            assert(self.member_ids()[j] == n@);
            Some(out)
        } else {
            assert forall|j: int| 0 <= j < self.member_ids().len() implies #[trigger] self.member_ids()[j] != n@ by {
                assert(self.members@[j]@ != n@);
            }
            None
        }
    }

    /// The parts of the state that a step may change all stay as they were.
    pub open spec fn unchanged(self, next: BroadcastNode) -> bool {
        &&& next.accepted() == self.accepted()
        &&& next.neighbor_ids() == self.neighbor_ids()
        &&& next.delivered_to() == self.delivered_to()
    }

    /// `next` and `r` are what handling `m` in this state gives.
    ///
    /// An acknowledgment records as delivered only values that this node has
    /// accepted, so that what is delivered stays within what is accepted; an
    /// acknowledgment of this node's own gossip carries no others.
    pub open spec fn handled(
        self,
        m: Message<BroadcastBody>,
        r: Result<Vec<Message<BroadcastBody>>, NodeError>,
        next: BroadcastNode,
    ) -> bool {
        let from = m.src@;
        &&& next.node_id() == self.node_id()
        &&& next.member_ids() == self.member_ids()
        &&& match m.body.kind {
            BroadcastBody::Broadcast { message } => {
                &&& r matches Ok(out) && out@.len() == 1
                    && is_reply_to(out@[0], m, BroadcastBody::BroadcastOk)
                &&& next.accepted() == self.accepted().insert(message)
                &&& next.neighbor_ids() == self.neighbor_ids()
                &&& next.delivered_to() == self.delivered_to()
            },
            BroadcastBody::Read => {
                &&& r matches Ok(out) && out@.len() == 1 && answers(out@[0], m)
                    && (out@[0].body.kind matches BroadcastBody::ReadOk { messages }
                    && messages@.to_set() == self.accepted() && messages@.no_duplicates())
                &&& self.unchanged(next)
            },
            BroadcastBody::Topology { topology } => {
                let nb = neighbors_in(topology@, self.node_id());
                if forall|k: int| 0 <= k < nb.len() ==> self.member_ids().contains(#[trigger] nb[k]) {
                    &&& r matches Ok(out) && out@.len() == 1
                        && is_reply_to(out@[0], m, BroadcastBody::TopologyOk)
                    &&& next.neighbor_ids() == nb
                    &&& next.accepted() == self.accepted()
                    &&& next.delivered_to() == self.delivered_to()
                } else {
                    &&& r == Err::<Vec<Message<BroadcastBody>>, NodeError>(NodeError::ProtocolViolation)
                    &&& self.unchanged(next)
                }
            },
            BroadcastBody::Gossip { messages } => {
                if self.member_ids().contains(from) {
                    &&& r matches Ok(out) && out@.len() == 1
                        && is_reply_to(out@[0], m, BroadcastBody::GossipOk { messages })
                    &&& next.accepted() == self.accepted() + messages@.to_set()
                    &&& next.neighbor_ids() == self.neighbor_ids()
                    &&& next.delivered_to() == self.delivered_to().insert(
                        from,
                        self.delivered(from) + messages@.to_set(),
                    )
                } else {
                    &&& r == Err::<Vec<Message<BroadcastBody>>, NodeError>(NodeError::UnroutableNeighbor)
                    &&& self.unchanged(next)
                }
            },
            BroadcastBody::GossipOk { messages } => {
                if self.member_ids().contains(from) {
                    &&& r matches Ok(out) && out@.len() == 0
                    &&& next.accepted() == self.accepted()
                    &&& next.neighbor_ids() == self.neighbor_ids()
                    &&& next.delivered_to() == self.delivered_to().insert(
                        from,
                        self.delivered(from) + messages@.to_set().intersect(self.accepted()),
                    )
                } else {
                    &&& r == Err::<Vec<Message<BroadcastBody>>, NodeError>(NodeError::UnroutableNeighbor)
                    &&& self.unchanged(next)
                }
            },
            _ => {
                &&& r matches Ok(out) && out@.len() == 1 && is_reply_to(out@[0], m, m.body.kind)
                &&& self.unchanged(next)
            },
        }
    }
}

/// The first index at which `names` holds `n`.
fn position(names: &Vec<String>, n: &String) -> (r: Option<usize>)
    ensures
        match r {
            Some(i) => i < names@.len() && names@[i as int]@ == n@,
            None => !ids(names@).contains(n@),
        },
{
    let mut i: usize = 0;
    while i < names.len()
        invariant
            0 <= i <= names@.len(),
            forall|j: int| 0 <= j < i ==> (#[trigger] names@[j])@ != n@,
        decreases names.len() - i,
    {
        if names[i].eq(n) {
            return Some(i);
        }
        i = i + 1;
    }
    assert forall|j: int| 0 <= j < ids(names@).len() implies #[trigger] ids(names@)[j] != n@ by {
        assert(names@[j]@ != n@);
    }
    None
}

/// A one-element list.
fn single<T>(x: T) -> (r: Vec<T>)
    ensures
        r@ == seq![x],
{
    let mut r = Vec::new();
    r.push(x);
    r
}

/// The neighbours that the first entry of `t` keyed by `id` lists; none if no entry is.
fn neighbors_of(topology: Vec<(String, Vec<String>)>, id: &String) -> (r: Vec<String>)
    ensures
        ids(r@) == neighbors_in(topology@, id@),
{
    let mut t = topology;
    let ghost whole = t@;
    assert(whole == topology@);
    let mut i: usize = 0;
    assert(whole.subrange(0, whole.len() as int) =~= whole);
    while i < t.len()
        invariant
            t@ == whole,
            whole == topology@,
            0 <= i <= t@.len(),
            neighbors_in(whole, id@) == neighbors_in(whole.subrange(i as int, whole.len() as int), id@),
        decreases t.len() - i,
    {
        assert(whole.subrange(i as int, whole.len() as int)[0] == whole[i as int]);
        if t[i].0.eq(id) {
            let (_, nb) = t.swap_remove(i);
            assert(neighbors_in(whole.subrange(i as int, whole.len() as int), id@) == ids(nb@));
            assert(neighbors_in(topology@, id@) == ids(nb@));
            return nb;
        }
        assert(whole.subrange(i as int, whole.len() as int).drop_first() =~= whole.subrange(i + 1, whole.len() as int));
        i = i + 1;
    }
    let r: Vec<String> = Vec::new();
    assert(ids(r@) =~= Seq::empty());
    r
}

/// Whether every name in `nb` is one of `members`.
fn all_known(nb: &Vec<String>, members: &Vec<String>) -> (r: bool)
    ensures
        r == forall|k: int| 0 <= k < ids(nb@).len() ==> ids(members@).contains(#[trigger] ids(nb@)[k]),
{
    let mut k: usize = 0;
    while k < nb.len()
        invariant
            0 <= k <= nb@.len(),
            forall|j: int| 0 <= j < k ==> ids(members@).contains(#[trigger] ids(nb@)[j]),
        decreases nb.len() - k,
    {
        match position(members, &nb[k]) {
            None => {
                assert(ids(nb@)[k as int] == nb@[k as int]@);
                return false;
            },
            Some(i) => {
                assert(ids(members@)[i as int] == ids(nb@)[k as int]);
            },
        }
        k = k + 1;
    }
    true
}

/// A reply from `me` to `peer`, correlated to `msg_id`.
fn reply(me: String, peer: String, msg_id: Option<usize>, kind: BroadcastBody) -> (r: Message<BroadcastBody>)
    ensures
        r.src == me,
        r.dst == peer,
        r.body.msg_id == Some(REPLY_MSG_ID),
        r.body.in_reply_to == msg_id,
        r.body.kind == kind,
{
    Message { src: me, dst: peer, body: Body { kind, msg_id: Some(REPLY_MSG_ID), in_reply_to: msg_id } }
}

/// Accepting more values, or recording accepted ones as delivered, keeps the state well formed.
proof fn lemma_wf_grow(before: BroadcastNode, after: BroadcastNode)
    requires
        before.wf(),
        after.neighbors@ == before.neighbors@,
        after.members@ == before.members@,
        after.seen@.len() == before.seen@.len(),
        after.messages@.no_duplicates(),
        before.accepted().subset_of(after.accepted()),
        forall|i: int| 0 <= i < after.seen@.len() ==> (#[trigger] after.seen@[i])@.no_duplicates(),
        forall|i: int|
            0 <= i < after.seen@.len() ==> (#[trigger] after.seen@[i])@.to_set().subset_of(
                before.seen@[i]@.to_set() + after.accepted(),
            ),
    ensures
        after.wf(),
{
    assert forall|i: int, v: usize|
        0 <= i < after.seen@.len() && #[trigger] after.seen@[i]@.contains(v) implies after.messages@.contains(v) by {
        assert(after.seen@[i]@.to_set().contains(v));
        if before.seen@[i]@.contains(v) {
            assert(before.messages@.contains(v));
            assert(before.accepted().contains(v));
        }
        assert(after.accepted().contains(v));
    }
    assert forall|k: int| 0 <= k < after.neighbors@.len() implies after.member_ids().contains(
        #[trigger] after.neighbor_ids()[k],
    ) by {
        assert(after.neighbor_ids() =~= before.neighbor_ids());
        assert(after.member_ids() =~= before.member_ids());
        assert(before.member_ids().contains(before.neighbor_ids()[k]));
    }
}

/// Growing what member `i` holds by `added` grows its delivered set by `added` alone.
proof fn lemma_record(before: BroadcastNode, after: BroadcastNode, i: int, added: Set<usize>)
    requires
        before.seen@.len() == before.members@.len(),
        after.members@ == before.members@,
        after.seen@.len() == before.seen@.len(),
        0 <= i < before.seen@.len(),
        after.seen@ == before.seen@.update(i, after.seen@[i]),
        after.seen@[i]@.to_set() == before.seen@[i]@.to_set() + added,
    ensures
        after.member_ids() == before.member_ids(),
        after.delivered_to() == before.delivered_to().insert(
            before.members@[i]@,
            before.delivered(before.members@[i]@) + added,
        ),
{
    let name = before.members@[i]@;
    assert(after.member_ids() =~= before.member_ids());
    assert(before.member_ids()[i] == name);
    assert forall|n: Seq<char>| #[trigger] after.delivered(n) == (if n == name {
        before.delivered(n) + added
    } else {
        before.delivered(n)
    }) by {
        let goal = if n == name { before.delivered(n) + added } else { before.delivered(n) };
        assert forall|v: usize| after.delivered(n).contains(v) <==> goal.contains(v) by {
            if after.delivered(n).contains(v) {
                let j = choose|j: int|
                    0 <= j < after.seen@.len() && after.members@[j]@ == n && #[trigger] after.seen@[j]@.contains(v);
                if j != i {
                    assert(before.seen@[j]@.contains(v));
                } else if !added.contains(v) {
                    assert(after.seen@[i]@.to_set().contains(v));
                    assert(before.seen@[i]@.contains(v));
                }
            }
            if before.delivered(n).contains(v) {
                let j = choose|j: int|
                    0 <= j < before.seen@.len() && before.members@[j]@ == n && #[trigger] before.seen@[j]@.contains(v);
                if j != i {
                    assert(after.seen@[j]@.contains(v));
                } else {
                    assert(before.seen@[i]@.to_set().contains(v));
                    assert((before.seen@[i]@.to_set() + added).contains(v));
                    assert(after.seen@[i]@.to_set().contains(v));
                    assert(after.seen@[i]@.contains(v));
                }
            }
            if n == name && added.contains(v) {
                assert((before.seen@[i]@.to_set() + added).contains(v));
                assert(after.seen@[i]@.to_set().contains(v));
                assert(after.seen@[i]@.contains(v));
            }
        }
        assert(after.delivered(n) =~= goal);
    }
    assert(after.delivered_to() =~= before.delivered_to().insert(name, before.delivered(name) + added));
}

impl Node<BroadcastBody> for BroadcastNode {
    open spec fn inv(&self) -> bool {
        self.wf()
    }

    /// A node that knows the cluster's members and has accepted nothing yet.
    fn new(id: String, node_ids: Vec<String>) -> (r: Self)
        ensures
            r.wf(),
            r.node_id() == id@,
            r.member_ids() == ids(node_ids@),
            r.neighbor_ids() == Seq::<Seq<char>>::empty(),
            r.accepted() == Set::<usize>::empty(),
            forall|n: Seq<char>| #[trigger] r.delivered(n) == Set::<usize>::empty(),
    {
        let mut seen: Vec<Vec<usize>> = Vec::new();
        let mut i: usize = 0;
        while i < node_ids.len()
            invariant
                0 <= i <= node_ids@.len(),
                seen@.len() == i,
                forall|j: int| 0 <= j < i ==> (#[trigger] seen@[j])@.len() == 0,
            decreases node_ids.len() - i,
        {
            seen.push(Vec::new());
            i = i + 1;
        }
        let r = BroadcastNode { id, neighbors: Vec::new(), messages: Vec::new(), members: node_ids, seen };
        assert(r.accepted() =~= Set::<usize>::empty());
        assert(r.neighbor_ids() =~= Seq::<Seq<char>>::empty());
        assert forall|n: Seq<char>| #[trigger] r.delivered(n) == Set::<usize>::empty() by {
            assert(r.delivered(n) =~= Set::<usize>::empty());
        }
        r
    }

    fn handle(&mut self, message: Message<BroadcastBody>) -> (r: Result<Vec<Message<BroadcastBody>>, NodeError>)
        ensures
            final(self).wf(),
            old(self).handled(message, r, *final(self)),
    {
        let ghost before = *self;
        let Message { src, dst, body } = message;
        let Body { kind, msg_id, in_reply_to: _ } = body;
        match kind {
            BroadcastBody::Broadcast { message: v } => {
                insert_value(&mut self.messages, v);
                proof {
                    lemma_wf_grow(before, *self);
                    assert(self.delivered_to() =~= before.delivered_to());
                    assert(self.neighbor_ids() =~= before.neighbor_ids());
                    assert(self.member_ids() =~= before.member_ids());
                }
                let out = single(reply(dst, src, msg_id, BroadcastBody::BroadcastOk));
                assert(is_reply_to(out@[0], message, BroadcastBody::BroadcastOk));
                assert(self.accepted() == before.accepted().insert(v));
                assert(message.body.kind == BroadcastBody::Broadcast { message: v });
                assert(before.handled(message, Ok(out), *self));
                assert(before == *old(self));
                Ok(out)
            },
            BroadcastBody::Read => {
                let messages = self.messages.clone();
                assert(messages@ =~= self.messages@);
                let res = Ok(single(reply(dst, src, msg_id, BroadcastBody::ReadOk { messages })));
                assert(before.handled(message, res, *self));
                res
            },
            BroadcastBody::Topology { topology } => {
                let ghost graph = neighbors_in(topology@, self.id@);
                assert(message.body.kind matches BroadcastBody::Topology { topology: t } && neighbors_in(t@, before.node_id()) == graph);
                let nb = neighbors_of(topology, &self.id);
                if all_known(&nb, &self.members) {
                    self.neighbors = nb;
                    assert(self.neighbor_ids() == graph);
                    assert(self.member_ids() == before.member_ids());
                    assert(forall|k: int| 0 <= k < graph.len() ==> before.member_ids().contains(#[trigger] graph[k]));
                    assert(self.delivered_to() =~= before.delivered_to());
                    assert(self.accepted() =~= before.accepted());
                    let res = Ok(single(reply(dst, src, msg_id, BroadcastBody::TopologyOk)));
                    assert(before.handled(message, res, *self));
                    res
                } else {
                    assert(!(forall|k: int| 0 <= k < graph.len() ==> before.member_ids().contains(#[trigger] graph[k])));
                    let res = Err(NodeError::ProtocolViolation);
                    assert(before.handled(message, res, *self));
                    res
                }
            },
            BroadcastBody::Gossip { messages } => {
                match position(&self.members, &src) {
                    None => {
                        let res = Err(NodeError::UnroutableNeighbor);
                        assert(before.handled(message, res, *self));
                        res
                    },
                    Some(i) => {
                        insert_all(&mut self.messages, &messages);
                        let ghost mid = *self;
                        insert_all_within(&mut self.seen[i], &messages, &self.messages);
                        proof {
                            assert(mid.delivered_to() =~= before.delivered_to());
                            assert(messages@.to_set().intersect(self.messages@.to_set()) =~= messages@.to_set());
                            lemma_record(mid, *self, i as int, messages@.to_set());
                            assert(before.member_ids()[i as int] == src@);
                            lemma_wf_grow(before, *self);
                        }
                        let res = Ok(single(reply(dst, src, msg_id, BroadcastBody::GossipOk { messages })));
                        assert(before.handled(message, res, *self));
                        res
                    },
                }
            },
            BroadcastBody::GossipOk { messages } => {
                match position(&self.members, &src) {
                    None => {
                        let res = Err(NodeError::UnroutableNeighbor);
                        assert(before.handled(message, res, *self));
                        res
                    },
                    Some(i) => {
                        insert_all_within(&mut self.seen[i], &messages, &self.messages);
                        proof {
                            lemma_record(before, *self, i as int, messages@.to_set().intersect(before.accepted()));
                            assert(before.member_ids()[i as int] == src@);
                            lemma_wf_grow(before, *self);
                        }
                        let res = Ok(Vec::new());
                        assert(before.handled(message, res, *self));
                        res
                    },
                }
            },
            other => {
                let res = Ok(single(reply(dst, src, msg_id, other)));
                assert(before.handled(message, res, *self));
                res
            },
        }
    }

    /// Pushes to each neighbour the accepted values it is not known to hold.
    /// Nothing is marked delivered here: only an acknowledgment or the
    /// neighbour's own gossip does that.
    fn gossip(&mut self) -> (r: Vec<Message<BroadcastBody>>)
        ensures
            *final(self) == *old(self),
            old(self).gossip_sends(r@),
    {
        let mut out: Vec<Message<BroadcastBody>> = Vec::new();
        let mut k: usize = 0;
        while k < self.neighbors.len()
            invariant
                self.wf(),
                *self == *old(self),
                0 <= k <= self.neighbors@.len(),
                out@.len() == self.gossip_targets(k as int).len(),
                forall|i: int| 0 <= i < out@.len() ==> self.is_gossip(out@[i], #[trigger] self.gossip_targets(k as int)[i]),
            decreases self.neighbors.len() - k,
        {
            let pending = self.pending_values(&self.neighbors[k]);
            assert(self.neighbor_ids()[k as int] == self.neighbors@[k as int]@);
            if pending.len() > 0 {
                assert(pending@.to_set().contains(pending@[0]));
                let g = Message {
                    src: self.id.clone(),
                    dst: self.neighbors[k].clone(),
                    body: Body { kind: BroadcastBody::Gossip { messages: pending }, msg_id: None, in_reply_to: None },
                };
                out.push(g);
            } else {
                assert(pending@.to_set() =~= Set::<usize>::empty());
            }
            k = k + 1;
        }
        out
    }
}

} // verus!
