//! Incremental evaluation of a graph: which nodes must be computed again and
//! which can reuse their last result.

use vstd::prelude::*;
use std::hash::{Hash, Hasher};
use crate::params::NodeParams;
use crate::graph::{Graph, GraphError, NodeId, ids_contain, copy_ids, lemma_distinct_nodes_bound, lemma_upstream_along, dfs_visit};

verus! {

/// Cache hit and miss counters kept across evaluations.
#[derive(Debug, Clone, Copy)]
pub struct EvalCacheStats {
    pub hits: u64,
    pub misses: u64,
}

impl Default for EvalCacheStats {
    fn default() -> (r: Self)
        ensures
            r.hits == 0 && r.misses == 0,
    {
        EvalCacheStats { hits: 0, misses: 0 }
    }
}

/// What is remembered of a node between evaluations.
#[derive(Debug, Clone, Copy)]
pub struct NodeEvalState {
    pub node: NodeId,
    pub last_signature: u64,
    pub last_param_version: u64,
    pub last_upstream_signature: u64,
    pub initialized: bool,
    pub output_version: u64,
}

/// The remembered state of a node that has none yet.
pub open spec fn fresh_state(node: NodeId) -> NodeEvalState {
    NodeEvalState {
        node,
        last_signature: 0,
        last_param_version: 0,
        last_upstream_signature: 0,
        initialized: false,
        output_version: 0,
    }
}

/// The evaluation state of a graph: one remembered state per node met so far.
#[derive(Debug)]
pub struct EvalState {
    nodes: Vec<NodeEvalState>,
    pub stats: EvalCacheStats,
}

/// Why a node is evaluated again.
#[derive(Debug, Clone, Copy, PartialEq, Eq, Structural)]
pub enum DirtyReason {
    NewNode,
    ParamChanged,
    UpstreamChanged,
    ParamAndUpstreamChanged,
}

/// A node that was found dirty, and why.
#[derive(Debug, Clone, Copy, PartialEq, Eq, Structural)]
pub struct DirtyNodeReport {
    pub node: NodeId,
    pub reason: DirtyReason,
}

/// Why a node has no valid output.
#[derive(Debug, Clone)]
pub enum EvalError {
    Node { node: NodeId, message: String },
    Upstream { node: NodeId, upstream: Vec<NodeId> },
}

/// The outcome for one node of an evaluation (its time is measured by the caller).
#[derive(Debug, Clone)]
pub struct EvalNodeReport {
    pub node: NodeId,
    pub cache_hit: bool,
    pub output_version: u64,
    pub error: Option<EvalError>,
}

/// The outcome of an evaluation. `node_reports` lists one report per evaluated
/// node, in evaluation order.
#[derive(Debug)]
pub struct EvalReport {
    pub ordered: Vec<NodeId>,
    pub computed: Vec<NodeId>,
    pub cache_hits: u64,
    pub cache_misses: u64,
    pub node_reports: Vec<EvalNodeReport>,
    pub dirty: Vec<DirtyNodeReport>,
    pub errors: Vec<EvalError>,
    pub output_valid: bool,
}

impl EvalReport {
    /// The report of node `node`, if it was evaluated.
    pub fn node_report(&self, node: NodeId) -> (r: Option<&EvalNodeReport>)
        ensures
            match r {
                Some(x) => x.node == node && exists|i: int| 0 <= i < self.node_reports@.len() && #[trigger] self.node_reports@[i] == *x,
                None => forall|i: int| 0 <= i < self.node_reports@.len() ==> (#[trigger] self.node_reports@[i]).node != node,
            },
    {
        let mut i: usize = 0;
        while i < self.node_reports.len()
            invariant
                0 <= i <= self.node_reports@.len(),
                forall|j: int| 0 <= j < i ==> (#[trigger] self.node_reports@[j]).node != node,
            decreases self.node_reports@.len() - i,
        {
            if self.node_reports[i].node.0 == node.0 {
                return Some(&self.node_reports[i]);
            }
            i = i + 1;
        }
        None
    }
}

/// The hash of a list of (node, output version) pairs.
pub uninterp spec fn upstream_hash(versions: Seq<(u64, u64)>) -> u64;

/// The hash of a parameter version followed by a list of (node, output version) pairs.
pub uninterp spec fn signature_hash(param_version: u64, versions: Seq<(u64, u64)>) -> u64;

/// Hashes the upstream versions with `std::collections::hash_map::DefaultHasher`
/// (`DefaultHasher::new`, `Hash::hash` of the slice, `Hasher::finish`). Claimed: the
/// result is a function of the pairs alone, named `upstream_hash`.
#[verifier::external_body]
fn hash_upstream(upstream_versions: &[(u64, u64)]) -> (r: u64)
    ensures
        r == upstream_hash(upstream_versions@),
{
    let mut hasher = std::collections::hash_map::DefaultHasher::new();
    upstream_versions.hash(&mut hasher);
    hasher.finish()
}

/// Hashes the parameter version and then the upstream versions with
/// `std::collections::hash_map::DefaultHasher`. Claimed: the result is a function of
/// its arguments alone, named `signature_hash`.
#[verifier::external_body]
fn hash_signature(param_version: u64, upstream_versions: &[(u64, u64)]) -> (r: u64)
    ensures
        r == signature_hash(param_version, upstream_versions@),
{
    let mut hasher = std::collections::hash_map::DefaultHasher::new();
    param_version.hash(&mut hasher);
    upstream_versions.hash(&mut hasher);
    hasher.finish()
}

impl EvalState {
    /// The remembered states, in the order in which their nodes were first met.
    pub closed spec fn state_seq(&self) -> Seq<NodeEvalState> {
        self.nodes@
    }

    /// The cache counters: the value of the `stats` field. Public contracts speak
    /// of the counters through this function, since the remembered states are a
    /// private field and Verus keeps the fields of such a struct out of them;
    /// `cache_stats` hands the same value to callers.
    pub closed spec fn stats_view(&self) -> EvalCacheStats {
        self.stats
    }

    /// The cache counters (the `stats` field), as a value contracts can name.
    pub fn cache_stats(&self) -> (r: EvalCacheStats)
        ensures
            r == self.stats_view(),
    {
        self.stats
    }

    /// No node has two remembered states.
    pub open spec fn wf(&self) -> bool {
        forall|i: int, j: int| 0 <= i < self.state_seq().len() && 0 <= j < self.state_seq().len() && i != j
            ==> (#[trigger] self.state_seq()[i]).node != (#[trigger] self.state_seq()[j]).node
    }

    pub open spec fn has_state(&self, id: NodeId) -> bool {
        exists|i: int| 0 <= i < self.state_seq().len() && #[trigger] self.state_seq()[i].node == id
    }

    /// The remembered state of a node, or the state of a node never met.
    pub open spec fn state_of(&self, id: NodeId) -> NodeEvalState {
        if self.has_state(id) {
            self.state_seq()[choose|i: int| 0 <= i < self.state_seq().len() && #[trigger] self.state_seq()[i].node == id]
        } else {
            fresh_state(id)
        }
    }

    /// An empty evaluation state.
    pub fn new() -> (r: Self)
        ensures
            r.wf(),
            r.state_seq().len() == 0,
            r.stats_view().hits == 0 && r.stats_view().misses == 0,
    {
        EvalState { nodes: Vec::new(), stats: EvalCacheStats::default() }
    }

    fn find(&self, id: NodeId) -> (r: Option<usize>)
        requires
            self.wf(),
        ensures
            match r {
                Some(i) => i < self.state_seq().len() && self.state_seq()[i as int].node == id
                    && self.has_state(id) && self.state_of(id) == self.state_seq()[i as int],
                None => !self.has_state(id),
            },
    {
        let mut i: usize = 0;
        while i < self.nodes.len()
            invariant
                self.wf(),
                0 <= i <= self.nodes@.len(),
                forall|j: int| 0 <= j < i ==> self.nodes@[j].node != id,
            decreases self.nodes@.len() - i,
        {
            if self.nodes[i].node.0 == id.0 {
                proof {
                    assert(self.state_seq()[i as int].node == id);
                    let k = choose|k: int| 0 <= k < self.state_seq().len() && #[trigger] self.state_seq()[k].node == id;
                    assert(k == i);
                }
                return Some(i);
            }
            i = i + 1;
        }
        None
    }

    /// The output version of a node, if it has been met.
    pub fn node_output_version(&self, node_id: NodeId) -> (r: Option<u64>)
        requires
            self.wf(),
        ensures
            r == (if self.has_state(node_id) { Some(self.state_of(node_id).output_version) } else { None }),
    {
        match self.find(node_id) {
            Some(i) => Some(self.nodes[i].output_version),
            None => None,
        }
    }

    /// The position of the state of `node_id`, adding a fresh state when there is none.
    fn node_state_mut(&mut self, node_id: NodeId) -> (r: usize)
        requires
            old(self).wf(),
        ensures
            final(self).wf(),
            r < final(self).state_seq().len(),
            final(self).state_seq()[r as int].node == node_id,
            final(self).has_state(node_id),
            final(self).stats_view() == old(self).stats_view(),
            forall|x: NodeId| #[trigger] final(self).state_of(x) == old(self).state_of(x),
            forall|x: NodeId| #[trigger] final(self).has_state(x) == (old(self).has_state(x) || x == node_id),
            final(self).state_of(node_id) == final(self).state_seq()[r as int],
    {
        match self.find(node_id) {
            Some(i) => i,
            None => {
                let ghost old_seq = self.nodes@;
                self.nodes.push(NodeEvalState {
                    node: node_id,
                    last_signature: 0,
                    last_param_version: 0,
                    last_upstream_signature: 0,
                    initialized: false,
                    output_version: 0,
                });
                let i = self.nodes.len() - 1;
                proof {
                    let s = self.nodes@;
                    assert(old_seq == old(self).state_seq());
                    assert forall|b: int| 0 <= b < old_seq.len() implies old_seq[b].node != node_id by {
                        if old_seq[b].node == node_id {
                            assert(old(self).state_seq()[b].node == node_id);
                        }
                    }
                    assert forall|a: int, b: int| 0 <= a < s.len() && 0 <= b < s.len() && a != b implies
                        (#[trigger] s[a]).node != (#[trigger] s[b]).node by {
                        if a < old_seq.len() && b < old_seq.len() {
                            assert(old_seq[a] == s[a] && old_seq[b] == s[b]);
                        } else if a < old_seq.len() {
                            assert(old_seq[a] == s[a]);
                        } else if b < old_seq.len() {
                            assert(old_seq[b] == s[b]);
                        }
                    }
                    assert(s[i as int].node == node_id);
                    assert forall|x: NodeId| #[trigger] self.has_state(x) == (old(self).has_state(x) || x == node_id) by {
                        if old(self).has_state(x) {
                            let k = choose|k: int| 0 <= k < old_seq.len() && #[trigger] old_seq[k].node == x;
                            assert(s[k].node == x);
                        }
                        if self.has_state(x) && x != node_id {
                            let k = choose|k: int| 0 <= k < s.len() && #[trigger] s[k].node == x;
                            assert(old_seq[k].node == x);
                        }
                    }
                    assert forall|x: NodeId| #[trigger] self.state_of(x) == old(self).state_of(x) by {
                        if old(self).has_state(x) {
                            let k = choose|k: int| 0 <= k < old_seq.len() && #[trigger] old_seq[k].node == x;
                            let k2 = choose|k: int| 0 <= k < s.len() && #[trigger] s[k].node == x;
                            assert(s[k].node == x);
                            assert(k2 == k);
                        } else if x == node_id {
                            let k2 = choose|k: int| 0 <= k < s.len() && #[trigger] s[k].node == x;
                            assert(k2 == i);
                        }
                    }
                    let k2 = choose|k: int| 0 <= k < s.len() && #[trigger] s[k].node == node_id;
                    assert(k2 == i);
                }
                i
            },
        }
    }

    /// Replaces the state at position `i` with one for the same node.
    fn put_state(&mut self, i: usize, st: NodeEvalState)
        requires
            old(self).wf(),
            i < old(self).state_seq().len(),
            st.node == old(self).state_seq()[i as int].node,
        ensures
            final(self).wf(),
            final(self).stats_view() == old(self).stats_view(),
            forall|x: NodeId| #[trigger] final(self).has_state(x) == old(self).has_state(x),
            forall|x: NodeId| #[trigger] final(self).state_of(x) == (if x == st.node { st } else { old(self).state_of(x) }),
    {
        let ghost old_seq = self.nodes@;
        self.nodes.set(i, st);
        proof {
            let s = self.nodes@;
            assert(old_seq == old(self).state_seq());
            assert forall|a: int, b: int| 0 <= a < s.len() && 0 <= b < s.len() && a != b implies
                (#[trigger] s[a]).node != (#[trigger] s[b]).node by {
                assert(old_seq[a].node == s[a].node && old_seq[b].node == s[b].node);
            }
            assert forall|k: int| 0 <= k < s.len() implies (#[trigger] s[k]).node == old_seq[k].node by {
                if k == i {
                    assert(s[k] == st);
                }
            }
            assert forall|x: NodeId| #[trigger] self.has_state(x) == old(self).has_state(x) by {
                if old(self).has_state(x) {
                    let k = choose|k: int| 0 <= k < old_seq.len() && #[trigger] old_seq[k].node == x;
                    assert(self.state_seq()[k].node == x);
                }
                if self.has_state(x) {
                    let k = choose|k: int| 0 <= k < s.len() && #[trigger] s[k].node == x;
                    assert(old(self).state_seq()[k].node == x);
                }
            }
            assert forall|x: NodeId| #[trigger] self.state_of(x) == (if x == st.node { st } else { old(self).state_of(x) }) by {
                if self.has_state(x) {
                    let k = choose|k: int| 0 <= k < s.len() && #[trigger] s[k].node == x;
                    let k0 = choose|k: int| 0 <= k < old_seq.len() && #[trigger] old_seq[k].node == x;
                    assert(old_seq[k].node == x);
                    if x == st.node {
                        assert(s[i as int].node == x);
                        assert(k == i);
                    } else {
                        assert(k != i);
                        assert(k0 == k);
                    }
                }
            }
        }
    }
}


/// Node ids ascend (ties allowed) along the sequence.
pub open spec fn ids_sorted(s: Seq<NodeId>) -> bool {
    forall|i: int, j: int| 0 <= i < j < s.len() ==> (#[trigger] s[i]).0 <= (#[trigger] s[j]).0
}

/// The ids of `v` in ascending order.
pub fn sort_ids(v: &[NodeId]) -> (r: Vec<NodeId>)
    ensures
        ids_sorted(r@),
        r@.to_multiset() == v@.to_multiset(),
{
    broadcast use vstd::seq_lib::to_multiset_insert;
    let mut out: Vec<NodeId> = Vec::new();
    let mut i: usize = 0;
    assert(v@.take(0) =~= out@);
    while i < v.len()
        invariant
            0 <= i <= v@.len(),
            ids_sorted(out@),
            out@.to_multiset() == v@.take(i as int).to_multiset(),
        decreases v@.len() - i,
    {
        let x = v[i];
        let mut p: usize = 0;
        while p < out.len() && out[p].0 <= x.0
            invariant
                0 <= p <= out@.len(),
                forall|j: int| 0 <= j < p ==> (#[trigger] out@[j]).0 <= x.0,
            decreases out@.len() - p,
        {
            p = p + 1;
        }
        let ghost before = out@;
        out.insert(p, x);
        proof {
            assert(out@ == before.insert(p as int, x));
            assert forall|a: int, b: int| 0 <= a < b < out@.len() implies (#[trigger] out@[a]).0 <= (#[trigger] out@[b]).0 by {
                if b < p {
                    assert(out@[a] == before[a] && out@[b] == before[b]);
                } else if b == p {
                    assert(out@[a] == before[a]);
                } else if a < p {
                    assert(out@[a] == before[a] && out@[b] == before[b - 1]);
                    if p < before.len() {
                        assert(x.0 < before[p as int].0);
                        assert(before[p as int].0 <= before[b - 1].0);
                    }
                } else if a == p {
                    assert(out@[b] == before[b - 1]);
                    assert(x.0 < before[p as int].0);
                } else {
                    assert(out@[a] == before[a - 1] && out@[b] == before[b - 1]);
                }
            }
            assert(v@.take(i + 1) =~= v@.take(i as int).push(x));
            vstd::seq_lib::to_multiset_build(v@.take(i as int), x);
            vstd::seq_lib::to_multiset_insert(before, p as int, x);
        }
        i = i + 1;
    }
    assert(v@.take(v@.len() as int) =~= v@);
    out
}

/// What the evaluation of a node amounts to.
#[derive(Debug, Clone, Copy, PartialEq, Eq, Structural)]
pub enum PlanAction {
    /// A node that feeds it failed; it fails too.
    UpstreamFailed,
    /// Nothing it depends on changed; its last output stands.
    CacheHit,
    /// It must be computed again.
    Compute,
}

/// Everything the evaluation of a node decided before its computation.
#[derive(Debug)]
pub struct NodePlan {
    pub node: NodeId,
    pub param_version: u64,
    pub upstream: Vec<NodeId>,
    pub upstream_versions: Vec<(u64, u64)>,
    pub upstream_signature: u64,
    pub signature: u64,
    pub last_signature: u64,
    pub output_version: u64,
    pub failed_upstream: Vec<NodeId>,
    pub dirty: Option<DirtyReason>,
    pub action: PlanAction,
}

/// Why a node with remembered state `st` is dirty, given its new signatures.
pub open spec fn dirty_reason(st: NodeEvalState, signature: u64, param_version: u64, upstream_signature: u64) -> Option<DirtyReason> {
    if !st.initialized {
        Some(DirtyReason::NewNode)
    } else if st.last_signature == signature {
        None
    } else {
        let param_changed = param_version != st.last_param_version;
        let upstream_changed = upstream_signature != st.last_upstream_signature;
        if param_changed && upstream_changed {
            Some(DirtyReason::ParamAndUpstreamChanged)
        } else if param_changed {
            Some(DirtyReason::ParamChanged)
        } else if upstream_changed {
            Some(DirtyReason::UpstreamChanged)
        } else {
            None
        }
    }
}

/// The (node, output version) pairs of the given nodes in state `st`.
pub open spec fn versions_of(st: EvalState, ids: Seq<NodeId>) -> Seq<(u64, u64)> {
    Seq::new(ids.len(), |i: int| (ids[i].0, st.state_of(ids[i]).output_version))
}

/// `plan` is the plan that evaluating `node_id` of `graph` makes in state `st`, given
/// the nodes that failed so far.
pub open spec fn is_plan(plan: NodePlan, graph: Graph, st: EvalState, node_id: NodeId, failed: Seq<NodeId>) -> bool {
    let up = plan.upstream@;
    let versions = versions_of(st, up);
    let me = st.state_of(node_id);
    &&& plan.node == node_id
    &&& plan.param_version == graph.node_at(node_id).param_version
    &&& ids_sorted(up)
    &&& up.to_multiset() == graph.upstream_along(graph.link_seq(), node_id).to_multiset()
    &&& plan.upstream_versions@ == versions
    &&& plan.upstream_signature == upstream_hash(versions)
    &&& plan.signature == signature_hash(plan.param_version, versions)
    &&& plan.last_signature == me.last_signature
    &&& plan.output_version == me.output_version
    &&& plan.failed_upstream@ == up.filter(|id: NodeId| failed.contains(id))
    &&& plan.dirty == (if plan.failed_upstream@.len() > 0 {
        None
    } else {
        dirty_reason(me, plan.signature, plan.param_version, plan.upstream_signature)
    })
    &&& plan.action == (if plan.failed_upstream@.len() > 0 {
        PlanAction::UpstreamFailed
    } else if me.last_signature == plan.signature {
        PlanAction::CacheHit
    } else {
        PlanAction::Compute
    })
}

/// The dirty reason of a node, computed as the evaluation does.
fn compute_dirty(st: &NodeEvalState, signature: u64, param_version: u64, upstream_signature: u64) -> (r: Option<DirtyReason>)
    ensures
        r == dirty_reason(*st, signature, param_version, upstream_signature),
{
    if !st.initialized {
        Some(DirtyReason::NewNode)
    } else if st.last_signature == signature {
        None
    } else {
        let param_changed = param_version != st.last_param_version;
        let upstream_changed = upstream_signature != st.last_upstream_signature;
        match (param_changed, upstream_changed) {
            (true, true) => Some(DirtyReason::ParamAndUpstreamChanged),
            (true, false) => Some(DirtyReason::ParamChanged),
            (false, true) => Some(DirtyReason::UpstreamChanged),
            (false, false) => None,
        }
    }
}

/// The elements of `ids` that occur in `failed`, in order.
fn failed_among(ids: &[NodeId], failed: &[NodeId]) -> (r: Vec<NodeId>)
    ensures
        r@ == ids@.filter(|id: NodeId| failed@.contains(id)),
{
    let ghost pred = |id: NodeId| failed@.contains(id);
    let mut out: Vec<NodeId> = Vec::new();
    let mut i: usize = 0;
    while i < ids.len()
        invariant
            0 <= i <= ids@.len(),
            pred == (|id: NodeId| failed@.contains(id)),
            out@ == ids@.take(i as int).filter(pred),
        decreases ids@.len() - i,
    {
        proof {
            reveal_with_fuel(Seq::<NodeId>::filter, 1);
            assert(ids@.take(i + 1).drop_last() =~= ids@.take(i as int));
        }
        if ids_contain(failed, ids[i]) {
            out.push(ids[i]);
        }
        i = i + 1;
    }
    assert(ids@.take(ids@.len() as int) =~= ids@);
    out
}

impl EvalState {
    /// Decides how `node_id` is evaluated, as the evaluation loop does: reads the
    /// output versions of the nodes that feed it (in id order, meeting those not yet
    /// met), hashes them into its signatures, and compares with its remembered state.
    /// Fails when the node is not in the graph.
    pub fn plan_node(&mut self, graph: &Graph, node_id: NodeId, failed: &[NodeId]) -> (r: Result<NodePlan, GraphError>)
        requires
            old(self).wf(),
            graph.wf(),
        ensures
            final(self).wf(),
            !graph.has_node(node_id) ==> (r matches Err(GraphError::MissingNode(id)) && id == node_id)
                && *final(self) == *old(self),
            graph.has_node(node_id) ==> (r matches Ok(plan) && is_plan(plan, *graph, *old(self), node_id, failed@) && ({
                &&& final(self).stats_view() == old(self).stats_view()
                &&& forall|x: NodeId| #[trigger] final(self).state_of(x) == old(self).state_of(x)
                &&& forall|x: NodeId| #[trigger] final(self).has_state(x) == (old(self).has_state(x) || plan.upstream@.contains(x)
                    || x == node_id)
            })),
    {
        let param_version = match graph.node(node_id) {
            Some(n) => n.param_version,
            None => {
                return Err(GraphError::MissingNode(node_id));
            },
        };
        let ghost s0 = *self;
        let raw = graph.upstream_nodes(node_id);
        let upstream = sort_ids(raw.as_slice());
        let mut versions: Vec<(u64, u64)> = Vec::new();
        let mut i: usize = 0;
        while i < upstream.len()
            invariant
                self.wf(),
                0 <= i <= upstream@.len(),
                self.stats_view() == s0.stats_view(),
                forall|x: NodeId| #[trigger] self.state_of(x) == s0.state_of(x),
                forall|x: NodeId| #[trigger] self.has_state(x) == (s0.has_state(x) || upstream@.take(i as int).contains(x)),
                versions@ == versions_of(s0, upstream@.take(i as int)),
            decreases upstream@.len() - i,
        {
            let id = upstream[i];
            let k = self.node_state_mut(id);
            versions.push((id.0, self.nodes[k].output_version));
            proof {
                assert(versions@ =~= versions_of(s0, upstream@.take(i + 1)));
                assert forall|x: NodeId| #[trigger] self.has_state(x) == (s0.has_state(x) || upstream@.take(i + 1).contains(x)) by {
                    let a = upstream@.take(i as int);
                    let b = upstream@.take(i + 1);
                    if a.contains(x) {
                        let t = choose|t: int| 0 <= t < a.len() && #[trigger] a[t] == x;
                        assert(b[t] == x);
                    }
                    if b.contains(x) && x != id {
                        let t = choose|t: int| 0 <= t < b.len() && #[trigger] b[t] == x;
                        assert(a[t] == x);
                    }
                    if x == id {
                        assert(upstream@.take(i + 1)[i as int] == x);
                    }
                }
            }
            i = i + 1;
        }
        assert(upstream@.take(upstream@.len() as int) =~= upstream@);
        let upstream_signature = hash_upstream(versions.as_slice());
        let signature = hash_signature(param_version, versions.as_slice());
        let k = self.node_state_mut(node_id);
        let me = self.nodes[k];
        let failed_upstream = failed_among(upstream.as_slice(), failed);
        let dirty = if failed_upstream.len() > 0 {
            None
        } else {
            compute_dirty(&me, signature, param_version, upstream_signature)
        };
        let action = if failed_upstream.len() > 0 {
            PlanAction::UpstreamFailed
        } else if me.last_signature == signature {
            PlanAction::CacheHit
        } else {
            PlanAction::Compute
        };
        Ok(NodePlan {
            node: node_id,
            param_version,
            upstream,
            upstream_versions: versions,
            upstream_signature,
            signature,
            last_signature: me.last_signature,
            output_version: me.output_version,
            failed_upstream,
            dirty,
            action,
        })
    }
}


/// An evaluation in progress: the report so far, the nodes that failed so far, and
/// the position of the next node in evaluation order.
pub struct EvalRun {
    report: EvalReport,
    failed: Vec<NodeId>,
    next: usize,
}

/// A copy of an evaluation error.
fn copy_error(e: &EvalError) -> (r: EvalError)
    ensures
        same_error(r, *e),
{
    match e {
        EvalError::Node { node, message } => EvalError::Node { node: *node, message: message.clone() },
        EvalError::Upstream { node, upstream } => EvalError::Upstream { node: *node, upstream: copy_ids(upstream.as_slice()) },
    }
}

impl EvalRun {
    pub closed spec fn report_view(&self) -> &EvalReport {
        &self.report
    }

    pub closed spec fn failed_view(&self) -> Seq<NodeId> {
        self.failed@
    }

    pub closed spec fn position(&self) -> int {
        self.next as int
    }

    /// The counters of the report stay below the number of nodes evaluated so far.
    pub open spec fn wf(&self) -> bool {
        &&& 0 <= self.position() <= self.report_view().ordered@.len()
        &&& self.report_view().cache_hits + self.report_view().cache_misses <= self.position()
        &&& self.report_view().node_reports@.len() == self.position()
    }

    /// Starts an evaluation of `output`: orders it and its upstream nodes so that each
    /// comes after its feeders. Fails as `Graph::topo_sort_from` does.
    pub fn start(graph: &Graph, output: NodeId) -> (r: Result<EvalRun, GraphError>)
        requires
            graph.wf(),
        ensures
            !graph.has_node(output) ==> (r matches Err(GraphError::MissingNode(id)) && id == output),
            graph.has_node(output) ==> (r is Ok <==> !graph.has_cycle_upstream(output)),
            graph.has_node(output) ==> (r matches Err(e) ==> e matches GraphError::CycleDetected(p) && graph.is_cycle_from(output, p@)),
            r matches Ok(run) ==> {
                &&& run.report_view().ordered@ == dfs_visit(*graph, graph.node_seq().len() as nat, output, Seq::empty())
                &&& run.wf()
                &&& run.position() == 0
                &&& run.failed_view().len() == 0
                &&& run.report_view().ordered@.len() > 0
                &&& run.report_view().ordered@.last() == output
                &&& graph.ordered_ok(output, run.report_view().ordered@)
                &&& forall|a: NodeId| #[trigger] graph.reaches(output, a) ==> run.report_view().ordered@.contains(a)
                &&& run.report_view().computed@.len() == 0
                &&& run.report_view().cache_hits == 0
                &&& run.report_view().cache_misses == 0
                &&& run.report_view().dirty@.len() == 0
                &&& run.report_view().errors@.len() == 0
                &&& run.report_view().output_valid
            },
    {
        let ordered = graph.topo_sort_from(output)?;
        Ok(EvalRun {
            report: EvalReport {
                ordered,
                computed: Vec::new(),
                cache_hits: 0,
                cache_misses: 0,
                node_reports: Vec::new(),
                dirty: Vec::new(),
                errors: Vec::new(),
                output_valid: true,
            },
            failed: Vec::new(),
            next: 0,
        })
    }

    /// The next node to evaluate, if any is left.
    pub fn next_node(&self) -> (r: Option<NodeId>)
        requires
            self.wf(),
        ensures
            self.position() < self.report_view().ordered@.len() ==> r == Some(self.report_view().ordered@[self.position()]),
            self.position() >= self.report_view().ordered@.len() ==> r.is_none(),
    {
        if self.next < self.report.ordered.len() {
            Some(self.report.ordered[self.next])
        } else {
            None
        }
    }

    /// The nodes that failed so far.
    pub fn failed(&self) -> (r: &[NodeId])
        ensures
            r@ == self.failed_view(),
    {
        self.failed.as_slice()
    }

    /// The report so far.
    pub fn report(&self) -> (r: &EvalReport)
        ensures
            r == self.report_view(),
    {
        &self.report
    }

    /// Ends the evaluation and hands back its report.
    pub fn finish(self) -> (r: EvalReport)
        ensures
            r == *self.report_view(),
    {
        self.report
    }

    /// Records the evaluation of the next node by `plan`. `result` is the outcome of
    /// computing the node where the plan says to compute it, and is ignored otherwise.
    #[verifier::spinoff_prover]
    pub fn record(&mut self, state: &mut EvalState, plan: &NodePlan, result: Result<(), String>)
        requires
            old(self).wf(),
            old(self).position() < old(self).report_view().ordered@.len(),
            plan.node == old(self).report_view().ordered@[old(self).position()],
            old(state).wf(),
            old(state).has_state(plan.node),
            old(state).stats_view().hits < u64::MAX,
            old(state).stats_view().misses < u64::MAX,
        ensures
            final(self).wf(),
            final(self).position() == old(self).position() + 1,
            final(state).wf(),
            forall|x: NodeId| #[trigger] final(state).has_state(x) == old(state).has_state(x),
            forall|x: NodeId| x != plan.node ==> #[trigger] final(state).state_of(x) == old(state).state_of(x),
            final(self).report_view().ordered@ == old(self).report_view().ordered@,
            ({
                let before = old(self).report_view();
                let after = final(self).report_view();
                let st = old(state).state_of(plan.node);
                let st2 = final(state).state_of(plan.node);
                let computed_ok = plan.action == PlanAction::Compute && result is Ok;
                let fails = plan.action == PlanAction::UpstreamFailed || (plan.action == PlanAction::Compute && result is Err);
                &&& after.node_reports@.len() == before.node_reports@.len() + 1
                &&& after.node_reports@.drop_last() == before.node_reports@
                &&& after.node_reports@.last().node == plan.node
                &&& after.node_reports@.last().cache_hit == (plan.action == PlanAction::CacheHit)
                &&& after.node_reports@.last().error.is_some() == fails
                &&& after.node_reports@.last().output_version == (if computed_ok { st2.output_version } else { plan.output_version })
                &&& after.dirty@ == (if plan.action != PlanAction::UpstreamFailed && plan.dirty.is_some() {
                    before.dirty@.push(DirtyNodeReport { node: plan.node, reason: plan.dirty.unwrap() })
                } else {
                    before.dirty@
                })
                &&& after.computed@ == (if computed_ok { before.computed@.push(plan.node) } else { before.computed@ })
                &&& after.cache_hits == before.cache_hits + (if plan.action == PlanAction::CacheHit { 1int } else { 0int })
                &&& after.cache_misses == before.cache_misses + (if computed_ok { 1int } else { 0int })
                &&& final(state).stats_view().hits == old(state).stats_view().hits + (if plan.action == PlanAction::CacheHit { 1int } else { 0int })
                &&& final(state).stats_view().misses == old(state).stats_view().misses + (if computed_ok { 1int } else { 0int })
                &&& after.output_valid == (before.output_valid && !fails)
                &&& final(self).failed_view() == (if fails { old(self).failed_view().push(plan.node) } else { old(self).failed_view() })
                &&& after.errors@.len() == before.errors@.len() + (if fails { 1int } else { 0int })
                &&& after.errors@.take(before.errors@.len() as int) == before.errors@
                &&& (fails ==> (after.node_reports@.last().error matches Some(e) && same_error(e, after.errors@.last())))
                &&& (plan.action == PlanAction::UpstreamFailed ==> (after.errors@.last() matches EvalError::Upstream { node, upstream }
                    && node == plan.node && upstream@ == plan.failed_upstream@))
                &&& (plan.action == PlanAction::Compute ==> (result matches Err(m) ==> (after.errors@.last() matches EvalError::Node { node, message }
                    && node == plan.node && message@ == m@)))
                &&& st2 == (if plan.action == PlanAction::CacheHit {
                    NodeEvalState { last_param_version: plan.param_version, last_upstream_signature: plan.upstream_signature, initialized: true, ..st }
                } else if computed_ok {
                    NodeEvalState {
                        node: st.node,
                        last_signature: plan.signature,
                        last_param_version: plan.param_version,
                        last_upstream_signature: plan.upstream_signature,
                        initialized: true,
                        output_version: (if st.output_version == u64::MAX { 0 } else { (st.output_version + 1) as u64 }),
                    }
                } else {
                    st
                })
            }),
    {
        let node_id = plan.node;
        let ghost r0 = self.report;
        let total = self.report.ordered.len();
        assert(self.next < total);
        match plan.action {
            PlanAction::UpstreamFailed => {
                let error = EvalError::Upstream { node: node_id, upstream: copy_ids(plan.failed_upstream.as_slice()) };
                let error2 = copy_error(&error);
                self.report.node_reports.push(EvalNodeReport {
                    node: node_id,
                    cache_hit: false,
                    output_version: plan.output_version,
                    error: Some(error2),
                });
                self.report.errors.push(error);
                self.report.output_valid = false;
                self.failed.push(node_id);
            },
            PlanAction::CacheHit => {
                if let Some(reason) = plan.dirty {
                    self.report.dirty.push(DirtyNodeReport { node: node_id, reason });
                }
                self.report.cache_hits = self.report.cache_hits + 1;
                state.stats.hits = state.stats.hits + 1;
                let k = state.node_state_mut(node_id);
                let mut st = state.nodes[k];
                st.last_param_version = plan.param_version;
                st.last_upstream_signature = plan.upstream_signature;
                st.initialized = true;
                state.put_state(k, st);
                self.report.node_reports.push(EvalNodeReport {
                    node: node_id,
                    cache_hit: true,
                    output_version: plan.output_version,
                    error: None,
                });
            },
            PlanAction::Compute => {
                if let Some(reason) = plan.dirty {
                    self.report.dirty.push(DirtyNodeReport { node: node_id, reason });
                }
                match result {
                    Ok(()) => {
                        state.stats.misses = state.stats.misses + 1;
                        let k = state.node_state_mut(node_id);
                        let mut st = state.nodes[k];
                        st.last_signature = plan.signature;
                        st.last_param_version = plan.param_version;
                        st.last_upstream_signature = plan.upstream_signature;
                        st.initialized = true;
                        st.output_version = st.output_version.wrapping_add(1);
                        let version = st.output_version;
                        state.put_state(k, st);
                        self.report.cache_misses = self.report.cache_misses + 1;
                        self.report.computed.push(node_id);
                        self.report.node_reports.push(EvalNodeReport {
                            node: node_id,
                            cache_hit: false,
                            output_version: version,
                            error: None,
                        });
                    },
                    Err(message) => {
                        let error = EvalError::Node { node: node_id, message };
                        let error2 = copy_error(&error);
                        self.report.node_reports.push(EvalNodeReport {
                            node: node_id,
                            cache_hit: false,
                            output_version: plan.output_version,
                            error: Some(error2),
                        });
                        self.report.errors.push(error);
                        self.report.output_valid = false;
                        self.failed.push(node_id);
                    },
                }
            },
        }
        self.next = self.next + 1;
        proof {
            assert(self.report.node_reports@.drop_last() =~= r0.node_reports@);
            assert(self.report.errors@.take(r0.errors@.len() as int) =~= r0.errors@);
        }
    }
}


/// Two ascending sequences of node ids with the same elements are equal.
pub proof fn lemma_sorted_unique(s: Seq<NodeId>, t: Seq<NodeId>)
    requires
        ids_sorted(s),
        ids_sorted(t),
        s.to_multiset() == t.to_multiset(),
    ensures
        s == t,
    decreases s.len(),
{
    broadcast use vstd::seq_lib::to_multiset_contains, vstd::seq_lib::to_multiset_len, vstd::seq_lib::to_multiset_remove;
    if s.len() == 0 {
        assert(t.to_multiset().len() == 0);
        assert(t =~= s);
    } else {
        vstd::seq_lib::to_multiset_len(s);
        vstd::seq_lib::to_multiset_len(t);
        assert(t.len() == s.len());
        assert(s.contains(t[0])) by {
            assert(t.contains(t[0]));
            assert(t.to_multiset().contains(t[0]));
        }
        assert(t.contains(s[0])) by {
            assert(s.contains(s[0]));
            assert(s.to_multiset().contains(s[0]));
        }
        let i = choose|i: int| 0 <= i < s.len() && s[i] == t[0];
        let j = choose|j: int| 0 <= j < t.len() && t[j] == s[0];
        assert(s[0].0 <= s[i].0);
        assert(t[0].0 <= t[j].0);
        assert(s[0] == t[0]);
        assert(s.remove(0).to_multiset() == s.to_multiset().remove(s[0]));
        assert(t.remove(0).to_multiset() == t.to_multiset().remove(t[0]));
        assert(ids_sorted(s.remove(0)));
        assert(ids_sorted(t.remove(0)));
        lemma_sorted_unique(s.remove(0), t.remove(0));
        assert(s =~= seq![s[0]] + s.remove(0));
        assert(t =~= seq![t[0]] + t.remove(0));
    }
}

/// The feeders of `n` in ascending id order, one entry per link.
pub open spec fn sorted_upstream(graph: Graph, n: NodeId) -> Seq<NodeId> {
    choose|s: Seq<NodeId>| ids_sorted(s) && s.to_multiset() == graph.upstream_along(graph.link_seq(), n).to_multiset()
}

/// The signature node `n` would get now, evaluated in state `st`.
pub open spec fn current_signature(graph: Graph, st: EvalState, n: NodeId) -> u64 {
    signature_hash(graph.node_at(n).param_version, versions_of(st, sorted_upstream(graph, n)))
}

/// Node `n` has a remembered output whose signature matches what it would get now:
/// evaluating it again would reuse that output.
pub open spec fn node_settled(graph: Graph, st: EvalState, n: NodeId) -> bool {
    &&& exists|s: Seq<NodeId>| ids_sorted(s) && s.to_multiset() == graph.upstream_along(graph.link_seq(), n).to_multiset()
    &&& st.has_state(n)
    &&& st.state_of(n).initialized
    &&& st.state_of(n).last_signature == current_signature(graph, st, n)
}

/// A plan's upstream list is the sorted feeder list of its node.
proof fn lemma_plan_upstream(plan: NodePlan, graph: Graph, st: EvalState, n: NodeId, failed: Seq<NodeId>)
    requires
        is_plan(plan, graph, st, n, failed),
    ensures
        plan.upstream@ == sorted_upstream(graph, n),
        plan.signature == current_signature(graph, st, n),
{
    let up = graph.upstream_along(graph.link_seq(), n);
    assert(ids_sorted(plan.upstream@) && plan.upstream@.to_multiset() == up.to_multiset());
    let c = sorted_upstream(graph, n);
    lemma_sorted_unique(plan.upstream@, c);
}

/// Every element of the sorted feeder list of `n` feeds `n`.
proof fn lemma_sorted_upstream_feeds(graph: Graph, n: NodeId, x: NodeId)
    requires
        exists|s: Seq<NodeId>| ids_sorted(s) && s.to_multiset() == graph.upstream_along(graph.link_seq(), n).to_multiset(),
        sorted_upstream(graph, n).contains(x),
    ensures
        graph.feeds(x, n),
{
    broadcast use vstd::seq_lib::to_multiset_contains;
    let c = sorted_upstream(graph, n);
    let up = graph.upstream_along(graph.link_seq(), n);
    assert(c.to_multiset().contains(x));
    assert(up.contains(x));
    lemma_upstream_along(&graph, graph.link_seq(), n, x);
}

/// States that agree on the output version of every node give the same version lists.
proof fn lemma_versions_agree(a: EvalState, b: EvalState, ids: Seq<NodeId>)
    requires
        forall|i: int| 0 <= i < ids.len() ==> a.state_of(#[trigger] ids[i]).output_version == b.state_of(ids[i]).output_version,
    ensures
        versions_of(a, ids) == versions_of(b, ids),
{
    assert(versions_of(a, ids) =~= versions_of(b, ids));
}

/// The remembered state of every node, as a function: nodes never met have a fresh state.
pub open spec fn state_mem(st: EvalState) -> spec_fn(NodeId) -> NodeEvalState {
    |x: NodeId| st.state_of(x)
}

/// The (node, output version) pairs of the given nodes under the remembered states `mem`.
pub open spec fn mem_versions(mem: spec_fn(NodeId) -> NodeEvalState, ids: Seq<NodeId>) -> Seq<(u64, u64)> {
    Seq::new(ids.len(), |i: int| (ids[i].0, mem(ids[i]).output_version))
}

/// The feeders of `n` that are among the failed nodes, in ascending id order.
pub open spec fn failed_feeders(graph: Graph, failed: Seq<NodeId>, n: NodeId) -> Seq<NodeId> {
    sorted_upstream(graph, n).filter(|id: NodeId| failed.contains(id))
}

/// What the evaluation of `n` amounts to under the remembered states `mem`, given the
/// nodes that failed before it: it fails when a feeder failed, reuses its output when
/// its remembered signature equals the one it gets now, and is computed otherwise.
/// A node never computed remembers the signature 0, so it too reuses its (empty)
/// output in the unlikely case that its signature hashes to 0.
pub open spec fn planned_action(graph: Graph, mem: spec_fn(NodeId) -> NodeEvalState, failed: Seq<NodeId>, n: NodeId) -> PlanAction {
    let versions = mem_versions(mem, sorted_upstream(graph, n));
    if failed_feeders(graph, failed, n).len() > 0 {
        PlanAction::UpstreamFailed
    } else if mem(n).last_signature == signature_hash(graph.node_at(n).param_version, versions) {
        PlanAction::CacheHit
    } else {
        PlanAction::Compute
    }
}

/// The remembered state of `n` after its evaluation, where `ok` tells whether its
/// computation (if it was computed) succeeded.
pub open spec fn state_after(graph: Graph, mem: spec_fn(NodeId) -> NodeEvalState, failed: Seq<NodeId>, n: NodeId, ok: bool) -> NodeEvalState {
    let versions = mem_versions(mem, sorted_upstream(graph, n));
    let st = mem(n);
    let action = planned_action(graph, mem, failed, n);
    if action == PlanAction::CacheHit {
        NodeEvalState {
            last_param_version: graph.node_at(n).param_version,
            last_upstream_signature: upstream_hash(versions),
            initialized: true,
            ..st
        }
    } else if action == PlanAction::Compute && ok {
        NodeEvalState {
            node: st.node,
            last_signature: signature_hash(graph.node_at(n).param_version, versions),
            last_param_version: graph.node_at(n).param_version,
            last_upstream_signature: upstream_hash(versions),
            initialized: true,
            output_version: (if st.output_version == u64::MAX { 0 } else { (st.output_version + 1) as u64 }),
        }
    } else {
        st
    }
}

/// Why node `n` is found dirty under the remembered states `mem`, given the nodes that
/// failed before it: nothing when a feeder failed, else as `dirty_reason` says for its
/// new signatures.
pub open spec fn planned_dirty(graph: Graph, mem: spec_fn(NodeId) -> NodeEvalState, failed: Seq<NodeId>, n: NodeId) -> Option<DirtyReason> {
    let versions = mem_versions(mem, sorted_upstream(graph, n));
    let pv = graph.node_at(n).param_version;
    if failed_feeders(graph, failed, n).len() > 0 {
        None
    } else {
        dirty_reason(mem(n), signature_hash(pv, versions), pv, upstream_hash(versions))
    }
}

/// The dirty nodes, with their reasons, of the evaluations that `reps` report, in order.
pub open spec fn dirty_of(graph: Graph, mem0: spec_fn(NodeId) -> NodeEvalState, reps: Seq<EvalNodeReport>) -> Seq<DirtyNodeReport>
    decreases reps.len(),
{
    if reps.len() == 0 {
        Seq::empty()
    } else {
        let prev = reps.drop_last();
        let n = reps.last().node;
        match planned_dirty(graph, mem_of(graph, mem0, prev), failed_of(prev), n) {
            Some(reason) => dirty_of(graph, mem0, prev).push(DirtyNodeReport { node: n, reason }),
            None => dirty_of(graph, mem0, prev),
        }
    }
}

/// The nodes whose reports carry an error, in order.
pub open spec fn failed_of(reps: Seq<EvalNodeReport>) -> Seq<NodeId>
    decreases reps.len(),
{
    if reps.len() == 0 {
        Seq::empty()
    } else if reps.last().error.is_some() {
        failed_of(reps.drop_last()).push(reps.last().node)
    } else {
        failed_of(reps.drop_last())
    }
}

/// The nodes whose reports show a successful computation, in order.
pub open spec fn computed_of(reps: Seq<EvalNodeReport>) -> Seq<NodeId>
    decreases reps.len(),
{
    if reps.len() == 0 {
        Seq::empty()
    } else if !reps.last().cache_hit && reps.last().error.is_none() {
        computed_of(reps.drop_last()).push(reps.last().node)
    } else {
        computed_of(reps.drop_last())
    }
}

/// The number of reports that show a reused output.
pub open spec fn hits_of(reps: Seq<EvalNodeReport>) -> int
    decreases reps.len(),
{
    if reps.len() == 0 {
        0
    } else {
        hits_of(reps.drop_last()) + (if reps.last().cache_hit { 1int } else { 0int })
    }
}

/// The errors of the reports that carry one, in order.
pub open spec fn errors_of(reps: Seq<EvalNodeReport>) -> Seq<EvalError>
    decreases reps.len(),
{
    if reps.len() == 0 {
        Seq::empty()
    } else {
        match reps.last().error {
            Some(e) => errors_of(reps.drop_last()).push(e),
            None => errors_of(reps.drop_last()),
        }
    }
}

/// Two errors name the same node and say the same thing.
pub open spec fn same_error(a: EvalError, b: EvalError) -> bool {
    match (a, b) {
        (EvalError::Node { node: x, message: m }, EvalError::Node { node: y, message: n }) => x == y && m@ == n@,
        (EvalError::Upstream { node: x, upstream: u }, EvalError::Upstream { node: y, upstream: v }) => x == y && u@ == v@,
        _ => false,
    }
}

/// The remembered states after the evaluations that `reps` report, starting from `mem0`.
pub open spec fn mem_of(graph: Graph, mem0: spec_fn(NodeId) -> NodeEvalState, reps: Seq<EvalNodeReport>) -> spec_fn(NodeId) -> NodeEvalState
    decreases reps.len(),
{
    if reps.len() == 0 {
        mem0
    } else {
        let prev = reps.drop_last();
        let mem = mem_of(graph, mem0, prev);
        let n = reps.last().node;
        let st = state_after(graph, mem, failed_of(prev), n, reps.last().error.is_none());
        |x: NodeId| if x == n { st } else { mem(x) }
    }
}

/// Report `i` of `reps` is what evaluating `order[i]` gives after the evaluations
/// reported before it, starting from the remembered states `mem0`.
pub open spec fn report_follows(graph: Graph, mem0: spec_fn(NodeId) -> NodeEvalState, order: Seq<NodeId>, reps: Seq<EvalNodeReport>, i: int) -> bool {
    let prev = reps.take(i);
    let mem = mem_of(graph, mem0, prev);
    let failed = failed_of(prev);
    let n = order[i];
    let action = planned_action(graph, mem, failed, n);
    let rep = reps[i];
    &&& rep.node == n
    &&& rep.cache_hit == (action == PlanAction::CacheHit)
    &&& action == PlanAction::UpstreamFailed ==> (rep.error matches Some(EvalError::Upstream { node, upstream })
        && node == n && upstream@ == failed_feeders(graph, failed, n))
    &&& action == PlanAction::CacheHit ==> rep.error.is_none()
    &&& action == PlanAction::Compute ==> (rep.error.is_none() || (rep.error matches Some(EvalError::Node { node, .. }) && node == n))
    &&& rep.output_version == mem_of(graph, mem0, reps.take(i + 1))(n).output_version
}

/// The report of an evaluation of `order` from remembered states `mem0` follows the
/// evaluation rules node by node, and its totals are those of its node reports.
pub open spec fn report_ok(graph: Graph, mem0: spec_fn(NodeId) -> NodeEvalState, report: EvalReport) -> bool {
    let reps = report.node_reports@;
    &&& reps.len() == report.ordered@.len()
    &&& forall|i: int| 0 <= i < reps.len() ==> #[trigger] report_follows(graph, mem0, report.ordered@, reps, i)
    &&& report.computed@ == computed_of(reps)
    &&& report.cache_misses == report.computed@.len()
    &&& report.cache_hits == hits_of(reps)
    &&& report.errors@.len() == errors_of(reps).len()
    &&& forall|k: int| 0 <= k < report.errors@.len() ==> same_error(#[trigger] report.errors@[k], errors_of(reps)[k])
    &&& report.output_valid == (report.errors@.len() == 0)
    &&& report.dirty@ == dirty_of(graph, mem0, reps)
}

/// A node that feeds a node whose plan found no failed feeder is not among the failed
/// nodes the plan was made with.
pub(crate) proof fn lemma_feeder_not_failed(plan: NodePlan, graph: Graph, st: EvalState, n: NodeId, failed: Seq<NodeId>, u: NodeId)
    requires
        is_plan(plan, graph, st, n, failed),
        plan.failed_upstream@.len() == 0,
        graph.feeds(u, n),
    ensures
        !failed.contains(u),
{
    broadcast use vstd::seq_lib::to_multiset_contains;
    broadcast use vstd::seq_lib::group_filter_ensures;
    lemma_upstream_along(&graph, graph.link_seq(), n, u);
    assert(graph.upstream_along(graph.link_seq(), n).to_multiset().contains(u));
    assert(plan.upstream@.contains(u));
    if failed.contains(u) {
        let k = choose|k: int| 0 <= k < plan.upstream@.len() && plan.upstream@[k] == u;
        assert(plan.upstream@.filter(|id: NodeId| failed.contains(id)).contains(plan.upstream@[k]));
    }
}

/// One evaluation step keeps the remembered states, and the reports so far, in step
/// with the evaluation rules: the plan's action is the planned one, and the state and
/// report it records are the ones the rules give.
pub(crate) proof fn lemma_model_step(
    graph: Graph,
    m0: spec_fn(NodeId) -> NodeEvalState,
    order: Seq<NodeId>,
    reps: Seq<EvalNodeReport>,
    reps2: Seq<EvalNodeReport>,
    st1: EvalState,
    st3: EvalState,
    plan: NodePlan,
    ok: bool,
)
    requires
        reps.len() < order.len(),
        plan.node == order[reps.len() as int],
        is_plan(plan, graph, st1, plan.node, failed_of(reps)),
        forall|x: NodeId| #[trigger] st1.state_of(x) == mem_of(graph, m0, reps)(x),
        forall|j: int| 0 <= j < reps.len() ==> #[trigger] report_follows(graph, m0, order, reps, j),
        reps2.len() == reps.len() + 1,
        reps2.drop_last() == reps,
        reps2.last().node == plan.node,
        reps2.last().cache_hit == (plan.action == PlanAction::CacheHit),
        reps2.last().error.is_some() == (plan.action == PlanAction::UpstreamFailed || (plan.action == PlanAction::Compute && !ok)),
        plan.action == PlanAction::UpstreamFailed ==> (reps2.last().error matches Some(EvalError::Upstream { node, upstream })
            && node == plan.node && upstream@ == plan.failed_upstream@),
        plan.action == PlanAction::Compute && !ok ==> (reps2.last().error matches Some(EvalError::Node { node, .. }) && node == plan.node),
        reps2.last().output_version == st3.state_of(plan.node).output_version,
        forall|x: NodeId| x != plan.node ==> #[trigger] st3.state_of(x) == st1.state_of(x),
        ({
            let st = st1.state_of(plan.node);
            st3.state_of(plan.node) == (if plan.action == PlanAction::CacheHit {
                NodeEvalState { last_param_version: plan.param_version, last_upstream_signature: plan.upstream_signature, initialized: true, ..st }
            } else if plan.action == PlanAction::Compute && ok {
                NodeEvalState {
                    node: st.node,
                    last_signature: plan.signature,
                    last_param_version: plan.param_version,
                    last_upstream_signature: plan.upstream_signature,
                    initialized: true,
                    output_version: (if st.output_version == u64::MAX { 0 } else { (st.output_version + 1) as u64 }),
                }
            } else {
                st
            })
        }),
    ensures
        planned_action(graph, mem_of(graph, m0, reps), failed_of(reps), plan.node) == plan.action,
        planned_dirty(graph, mem_of(graph, m0, reps), failed_of(reps), plan.node) == plan.dirty,
        forall|x: NodeId| #[trigger] st3.state_of(x) == mem_of(graph, m0, reps2)(x),
        forall|j: int| 0 <= j < reps2.len() ==> #[trigger] report_follows(graph, m0, order, reps2, j),
{
    let n = plan.node;
    let mem = mem_of(graph, m0, reps);
    let failed = failed_of(reps);
    lemma_plan_upstream(plan, graph, st1, n, failed);
    let up = sorted_upstream(graph, n);
    assert(versions_of(st1, up) =~= mem_versions(mem, up));
    assert(failed_feeders(graph, failed, n) == plan.failed_upstream@);
    assert(planned_action(graph, mem, failed, n) == plan.action);
    assert(planned_dirty(graph, mem, failed, n) == plan.dirty);
    assert(reps2.drop_last() == reps);
    let ok2 = reps2.last().error.is_none();
    assert(plan.action == PlanAction::Compute ==> ok2 == ok);
    assert(st3.state_of(n) == state_after(graph, mem, failed, n, ok2));
    assert forall|x: NodeId| #[trigger] st3.state_of(x) == mem_of(graph, m0, reps2)(x) by {
        if x != n {
            assert(st1.state_of(x) == mem(x));
        }
    }
    assert forall|j: int| 0 <= j < reps2.len() implies #[trigger] report_follows(graph, m0, order, reps2, j) by {
        if j < reps.len() {
            assert(reps2.take(j) =~= reps.take(j));
            assert(reps2.take(j + 1) =~= reps.take(j + 1));
            assert(reps2[j] == reps[j]);
            assert(report_follows(graph, m0, order, reps, j));
        } else {
            assert(reps2.take(j) =~= reps);
            assert(reps2.take(j + 1) =~= reps2);
            assert(mem_of(graph, m0, reps2)(n) == st3.state_of(n));
        }
    }
}

/// Evaluates `output` and everything upstream of it, treating every computation as
/// successful: each node is computed again unless its parameter version and the
/// output versions of its feeders hash to the signature it was last computed with
/// (for a node never computed, the signature 0, so such a node whose signature hashes
/// to 0 counts as a cache hit).
pub fn evaluate_from(graph: &Graph, output: NodeId, state: &mut EvalState) -> (r: Result<EvalReport, GraphError>)
    requires
        graph.wf(),
        old(state).wf(),
        old(state).stats_view().hits + graph.node_seq().len() < u64::MAX,
        old(state).stats_view().misses + graph.node_seq().len() < u64::MAX,
    ensures
        final(state).wf(),
        !graph.has_node(output) ==> (r matches Err(GraphError::MissingNode(id)) && id == output),
        graph.has_node(output) ==> (r is Ok <==> !graph.has_cycle_upstream(output)),
        graph.has_node(output) ==> (r matches Err(e) ==> e matches GraphError::CycleDetected(p) && graph.is_cycle_from(output, p@)),
        r is Err ==> *final(state) == *old(state),
        r matches Ok(report) ==> {
            &&& report.ordered@ == dfs_visit(*graph, graph.node_seq().len() as nat, output, Seq::empty())
            &&& report.ordered@.len() > 0
            &&& report.ordered@.last() == output
            &&& graph.ordered_ok(output, report.ordered@)
            &&& forall|a: NodeId| #[trigger] graph.reaches(output, a) ==> report.ordered@.contains(a)
            &&& report.errors@.len() == 0
            &&& report.output_valid
            &&& report.node_reports@.len() == report.ordered@.len()
            &&& report.cache_hits + report.cache_misses == report.ordered@.len()
            &&& report.computed@.len() == report.cache_misses
            &&& forall|i: int| 0 <= i < report.ordered@.len() ==> node_settled(*graph, *final(state), #[trigger] report.ordered@[i])
            &&& (forall|i: int| 0 <= i < report.ordered@.len() ==> node_settled(*graph, *old(state), #[trigger] report.ordered@[i]))
                ==> report.computed@.len() == 0 && report.cache_hits == report.ordered@.len()
            &&& report_ok(*graph, state_mem(*old(state)), report)
            &&& forall|x: NodeId| #[trigger] final(state).state_of(x) == mem_of(*graph, state_mem(*old(state)), report.node_reports@)(x)
            &&& final(state).stats_view().hits == old(state).stats_view().hits + report.cache_hits
            &&& final(state).stats_view().misses == old(state).stats_view().misses + report.cache_misses
        },
{
    let mut run = EvalRun::start(graph, output)?;
    let ghost s0 = *state;
    let ghost order = run.report_view().ordered@;
    let ghost all_settled = forall|i: int| 0 <= i < order.len() ==> node_settled(*graph, s0, #[trigger] order[i]);
    proof {
        lemma_distinct_nodes_bound(graph, order);
    }
    loop
        invariant
            graph.wf(),
            state.wf(),
            run.wf(),
            run.report_view().ordered@ == order,
            order == dfs_visit(*graph, graph.node_seq().len() as nat, output, Seq::empty()),
            order.len() > 0,
            order.last() == output,
            graph.ordered_ok(output, order),
            forall|a: NodeId| #[trigger] graph.reaches(output, a) ==> order.contains(a),
            order.len() <= graph.node_seq().len(),
            run.failed_view().len() == 0,
            run.report_view().errors@.len() == 0,
            run.report_view().output_valid,
            run.report_view().cache_hits + run.report_view().cache_misses == run.position(),
            run.report_view().computed@.len() == run.report_view().cache_misses,
            state.stats_view().hits <= s0.stats_view().hits + run.position(),
            state.stats_view().misses <= s0.stats_view().misses + run.position(),
            s0.stats_view().hits + graph.node_seq().len() < u64::MAX,
            s0.stats_view().misses + graph.node_seq().len() < u64::MAX,
            forall|j: int| 0 <= j < run.position() ==> node_settled(*graph, *state, #[trigger] order[j]),
            forall|x: NodeId| !order.subrange(0, run.position()).contains(x) ==> #[trigger] state.state_of(x) == s0.state_of(x),
            all_settled == (forall|i: int| 0 <= i < order.len() ==> node_settled(*graph, s0, #[trigger] order[i])),
            all_settled ==> run.report_view().computed@.len() == 0 && run.report_view().cache_hits == run.position(),
            all_settled ==> forall|x: NodeId| #[trigger] state.state_of(x).output_version == s0.state_of(x).output_version
                && state.state_of(x).last_signature == s0.state_of(x).last_signature,
            all_settled ==> forall|x: NodeId| #[trigger] s0.has_state(x) ==> state.has_state(x),
            forall|x: NodeId| #[trigger] state.state_of(x) == mem_of(*graph, state_mem(s0), run.report_view().node_reports@)(x),
            run.failed_view() == failed_of(run.report_view().node_reports@),
            run.report_view().computed@ == computed_of(run.report_view().node_reports@),
            run.report_view().cache_hits == hits_of(run.report_view().node_reports@),
            run.report_view().dirty@ == dirty_of(*graph, state_mem(s0), run.report_view().node_reports@),
            errors_of(run.report_view().node_reports@).len() == 0,
            forall|j: int| 0 <= j < run.position() ==> #[trigger] report_follows(*graph, state_mem(s0), order, run.report_view().node_reports@, j),
            state.stats_view().hits == s0.stats_view().hits + run.report_view().cache_hits,
            state.stats_view().misses == s0.stats_view().misses + run.report_view().cache_misses,
        ensures
            run.position() == order.len(),
        decreases order.len() - run.position(),
    {
        let node_id = match run.next_node() {
            Some(n) => n,
            None => {
                break;
            },
        };
        let ghost pos = run.position();
        let ghost st1 = *state;
        assert(graph.has_node(order[pos]));
        let plan = match state.plan_node(graph, node_id, run.failed()) {
            Ok(p) => p,
            Err(e) => {
                return Err(e);
            },
        };
        let ghost st2 = *state;
        proof {
            lemma_plan_upstream(plan, *graph, st1, node_id, run.failed_view());
            reveal_with_fuel(Seq::<NodeId>::filter, 1);
            assert(plan.failed_upstream@ =~= Seq::<NodeId>::empty()) by {
                broadcast use vstd::seq_lib::group_filter_ensures;
                if plan.failed_upstream@.len() > 0 {
                    assert(run.failed_view().contains(plan.failed_upstream@[0]));
                }
            }
            // the node does not feed itself, and no settled node depends on it
            assert forall|x: NodeId| #[trigger] sorted_upstream(*graph, node_id).contains(x) implies
                order.subrange(0, pos).contains(x) by {
                lemma_sorted_upstream_feeds(*graph, node_id, x);
                assert(graph.feeds(x, order[pos]));
                let j = choose|j: int| 0 <= j < pos && #[trigger] order[j] == x;
                assert(order.subrange(0, pos)[j] == x);
            }
            if all_settled {
                assert(node_settled(*graph, s0, order[pos]));
                lemma_versions_agree(st1, s0, sorted_upstream(*graph, node_id));
                assert(plan.action == PlanAction::CacheHit);
            }
        }
        let ghost before_record = *state;
        let ghost r1 = *run.report_view();
        run.record(state, &plan, Ok(()));
        proof {
            let reps = r1.node_reports@;
            let reps2 = run.report_view().node_reports@;
            lemma_model_step(*graph, state_mem(s0), order, reps, reps2, st1, *state, plan, true);
            assert(reps2.drop_last() == reps);
            assert(computed_of(reps2) == run.report_view().computed@);
            assert(hits_of(reps2) == run.report_view().cache_hits);
            assert(dirty_of(*graph, state_mem(s0), reps2) == run.report_view().dirty@);
            assert(errors_of(reps2) == errors_of(reps));
        }
        proof {
            let st3 = *state;
            assert forall|j: int| 0 <= j < run.position() implies node_settled(*graph, *state, #[trigger] order[j]) by {
                let n = order[j];
                if j < pos {
                    assert(node_settled(*graph, st1, n));
                    assert(n != node_id) by {
                        assert(order.no_duplicates());
                    }
                    let up = sorted_upstream(*graph, n);
                    assert forall|i: int| 0 <= i < up.len() implies st3.state_of(#[trigger] up[i]).output_version == st1.state_of(up[i]).output_version by {
                        assert(up.contains(up[i]));
                        lemma_sorted_upstream_feeds(*graph, n, up[i]);
                        assert(graph.feeds(up[i], order[j]));
                        let k = choose|k: int| 0 <= k < j && #[trigger] order[k] == up[i];
                        if up[i] == node_id {
                            assert(order.no_duplicates());
                        }
                    }
                    lemma_versions_agree(st3, st1, up);
                } else {
                    assert(n == node_id);
                    let up = sorted_upstream(*graph, n);
                    assert forall|i: int| 0 <= i < up.len() implies st3.state_of(#[trigger] up[i]).output_version == st1.state_of(up[i]).output_version by {
                        assert(up.contains(up[i]));
                        assert(order.subrange(0, pos).contains(up[i]));
                        let k = choose|k: int| 0 <= k < pos && #[trigger] order.subrange(0, pos)[k] == up[i];
                        assert(order[k] == up[i]);
                        assert(order.no_duplicates());
                    }
                    lemma_versions_agree(st3, st1, up);
                }
            }
            assert forall|x: NodeId| !order.subrange(0, run.position()).contains(x) implies #[trigger] state.state_of(x) == s0.state_of(x) by {
                if order.subrange(0, pos).contains(x) {
                    let k = choose|k: int| 0 <= k < pos && #[trigger] order.subrange(0, pos)[k] == x;
                    assert(order.subrange(0, run.position())[k] == x);
                }
                assert(x != node_id) by {
                    assert(order.subrange(0, run.position())[pos] == node_id);
                }
            }
        }
    }
    proof {
        assert(run.position() == order.len());
    }
    Ok(run.finish())
}


/// Where the evaluation rules say to compute node `i` of the report, the outcome
/// recorded for it is one that `compute` gives for that node and its parameters: no
/// error when the call succeeded, and a node error with the call's message otherwise.
pub open spec fn compute_follows<F: FnMut(NodeId, &NodeParams) -> Result<(), String>>(
    compute: F,
    graph: Graph,
    mem0: spec_fn(NodeId) -> NodeEvalState,
    report: EvalReport,
    i: int,
) -> bool {
    let reps = report.node_reports@;
    let n = report.ordered@[i];
    let action = planned_action(graph, mem_of(graph, mem0, reps.take(i)), failed_of(reps.take(i)), n);
    action == PlanAction::Compute ==> match reps[i].error {
        None => call_ensures(compute, (n, &graph.node_at(n).params), Ok(())),
        Some(EvalError::Node { message, .. }) => exists|m: String| m@ == message@
            && #[trigger] call_ensures(compute, (n, &graph.node_at(n).params), Err(m)),
        Some(EvalError::Upstream { .. }) => false,
    }
}

/// Evaluates `output` and everything upstream of it, calling `compute` for each node
/// that must be computed again. A node fails when `compute` returns an error for it,
/// and a node fed by a failed node fails without being computed.
pub fn evaluate_from_with<F>(graph: &Graph, output: NodeId, state: &mut EvalState, mut compute: F) -> (r: Result<EvalReport, GraphError>)
    where F: FnMut(NodeId, &NodeParams) -> Result<(), String>,
    requires
        graph.wf(),
        old(state).wf(),
        old(state).stats_view().hits + graph.node_seq().len() < u64::MAX,
        old(state).stats_view().misses + graph.node_seq().len() < u64::MAX,
        forall|a: NodeId, p: &NodeParams| call_requires(compute, (a, p)),
    ensures
        final(state).wf(),
        !graph.has_node(output) ==> (r matches Err(GraphError::MissingNode(id)) && id == output),
        graph.has_node(output) ==> (r is Ok <==> !graph.has_cycle_upstream(output)),
        graph.has_node(output) ==> (r matches Err(e) ==> e matches GraphError::CycleDetected(p) && graph.is_cycle_from(output, p@)),
        r matches Ok(report) ==> {
            &&& report.ordered@ == dfs_visit(*graph, graph.node_seq().len() as nat, output, Seq::empty())
            &&& report.ordered@.len() > 0
            &&& report.ordered@.last() == output
            &&& graph.ordered_ok(output, report.ordered@)
            &&& forall|a: NodeId| #[trigger] graph.reaches(output, a) ==> report.ordered@.contains(a)
            &&& report.node_reports@.len() == report.ordered@.len()
            &&& forall|i: int| 0 <= i < report.ordered@.len() ==> (#[trigger] report.node_reports@[i]).node == report.ordered@[i]
            &&& report.cache_hits + report.cache_misses + report.errors@.len() == report.ordered@.len()
            &&& report.output_valid == (report.errors@.len() == 0)
            &&& forall|i: int, j: int| 0 <= j < i < report.ordered@.len() && (#[trigger] report.node_reports@[j]).error.is_some()
                && graph.feeds(report.ordered@[j], report.ordered@[i]) ==> (#[trigger] report.node_reports@[i]).error.is_some()
            &&& report_ok(*graph, state_mem(*old(state)), report)
            &&& forall|i: int| 0 <= i < report.ordered@.len() ==> #[trigger] compute_follows(compute, *graph, state_mem(*old(state)), report, i)
            &&& forall|x: NodeId| #[trigger] final(state).state_of(x) == mem_of(*graph, state_mem(*old(state)), report.node_reports@)(x)
            &&& final(state).stats_view().hits == old(state).stats_view().hits + report.cache_hits
            &&& final(state).stats_view().misses == old(state).stats_view().misses + report.cache_misses
        },
{
    let ghost compute0 = compute;
    let mut run = EvalRun::start(graph, output)?;
    let ghost order = run.report_view().ordered@;
    let ghost s0 = *state;
    proof {
        lemma_distinct_nodes_bound(graph, order);
    }
    loop
        invariant
            graph.wf(),
            state.wf(),
            run.wf(),
            forall|a: NodeId, p: &NodeParams| call_requires(compute, (a, p)),
            compute == compute0,
            run.report_view().ordered@ == order,
            order == dfs_visit(*graph, graph.node_seq().len() as nat, output, Seq::empty()),
            order.len() > 0,
            order.last() == output,
            graph.ordered_ok(output, order),
            forall|a: NodeId| #[trigger] graph.reaches(output, a) ==> order.contains(a),
            order.len() <= graph.node_seq().len(),
            run.report_view().cache_hits + run.report_view().cache_misses + run.report_view().errors@.len() == run.position(),
            run.report_view().output_valid == (run.report_view().errors@.len() == 0),
            state.stats_view().hits <= s0.stats_view().hits + run.position(),
            state.stats_view().misses <= s0.stats_view().misses + run.position(),
            s0.stats_view().hits + graph.node_seq().len() < u64::MAX,
            s0.stats_view().misses + graph.node_seq().len() < u64::MAX,
            forall|j: int| 0 <= j < run.position() ==> (#[trigger] run.report_view().node_reports@[j]).node == order[j],
            forall|j: int| 0 <= j < run.position() ==> ((#[trigger] run.report_view().node_reports@[j]).error.is_some()
                <==> run.failed_view().contains(order[j])),
            forall|x: NodeId| #[trigger] run.failed_view().contains(x) ==> order.subrange(0, run.position()).contains(x),
            forall|i: int, j: int| 0 <= j < i < run.position() && (#[trigger] run.report_view().node_reports@[j]).error.is_some()
                && graph.feeds(order[j], order[i]) ==> (#[trigger] run.report_view().node_reports@[i]).error.is_some(),
            forall|x: NodeId| #[trigger] state.state_of(x) == mem_of(*graph, state_mem(s0), run.report_view().node_reports@)(x),
            run.failed_view() == failed_of(run.report_view().node_reports@),
            run.report_view().computed@ == computed_of(run.report_view().node_reports@),
            run.report_view().cache_misses == run.report_view().computed@.len(),
            run.report_view().cache_hits == hits_of(run.report_view().node_reports@),
            run.report_view().dirty@ == dirty_of(*graph, state_mem(s0), run.report_view().node_reports@),
            run.report_view().errors@.len() == errors_of(run.report_view().node_reports@).len(),
            forall|k: int| 0 <= k < run.report_view().errors@.len() ==> same_error(#[trigger] run.report_view().errors@[k],
                errors_of(run.report_view().node_reports@)[k]),
            forall|j: int| 0 <= j < run.position() ==> #[trigger] report_follows(*graph, state_mem(s0), order, run.report_view().node_reports@, j),
            forall|j: int| 0 <= j < run.position() ==> #[trigger] compute_follows(compute, *graph, state_mem(s0), *run.report_view(), j),
            state.stats_view().hits == s0.stats_view().hits + run.report_view().cache_hits,
            state.stats_view().misses == s0.stats_view().misses + run.report_view().cache_misses,
        ensures
            run.position() == order.len(),
        decreases order.len() - run.position(),
    {
        let node_id = match run.next_node() {
            Some(n) => n,
            None => {
                break;
            },
        };
        let ghost pos = run.position();
        let ghost r1 = *run.report_view();
        let ghost f1 = run.failed_view();
        let ghost st0 = *state;
        assert(graph.has_node(order[pos]));
        let plan = match state.plan_node(graph, node_id, run.failed()) {
            Ok(p) => p,
            Err(e) => {
                return Err(e);
            },
        };
        let result = if plan.action == PlanAction::Compute {
            match graph.node(node_id) {
                Some(n) => compute(node_id, &n.params),
                None => Ok(()),
            }
        } else {
            Ok(())
        };
        assert(plan.action == PlanAction::Compute ==> call_ensures(compute, (node_id, &graph.node_at(node_id).params), result));
        let ghost ok = result is Ok;
        let ghost res = result;
        run.record(state, &plan, result);
        proof {
            let reps = r1.node_reports@;
            let reps2 = run.report_view().node_reports@;
            lemma_model_step(*graph, state_mem(s0), order, reps, reps2, st0, *state, plan, ok);
            let r2 = *run.report_view();
            assert(reps2.drop_last() == reps);
            assert(computed_of(reps2) == r2.computed@);
            assert(hits_of(reps2) == r2.cache_hits);
            assert(dirty_of(*graph, state_mem(s0), reps2) == r2.dirty@);
            assert forall|k: int| 0 <= k < r2.errors@.len() implies same_error(#[trigger] r2.errors@[k], errors_of(reps2)[k]) by {
                if k < r1.errors@.len() {
                    assert(r2.errors@[k] == r1.errors@[k]);
                    assert(errors_of(reps2)[k] == errors_of(reps)[k]);
                }
            }
            assert forall|j: int| 0 <= j < run.position() implies #[trigger] compute_follows(compute, *graph, state_mem(s0), r2, j) by {
                if j < pos {
                    assert(reps2.take(j) =~= reps.take(j));
                    assert(reps2[j] == reps[j]);
                    assert(compute_follows(compute, *graph, state_mem(s0), r1, j));
                } else {
                    assert(reps2.take(j) =~= reps);
                    assert(r2.ordered@[j] == node_id);
                    if plan.action == PlanAction::Compute {
                        assert(call_ensures(compute, (node_id, &graph.node_at(node_id).params), res));
                        match res {
                            Ok(u) => {
                                assert(res == Ok::<(), String>(()));
                                assert(call_ensures(compute, (node_id, &graph.node_at(node_id).params), Ok::<(), String>(())));
                            },
                            Err(m) => {
                                assert(r2.errors@.last() matches EvalError::Node { node, message } && message@ == m@);
                                assert(reps2[j].error matches Some(EvalError::Node { message, .. }) && message@ == m@);
                                match reps2[j].error {
                                    Some(EvalError::Node { message, .. }) => {
                                        assert(message@ == m@ && call_ensures(compute, (node_id, &graph.node_at(node_id).params), Err(m)));
                                    },
                                    _ => {},
                                }
                            },
                        }
                    }
                    assert(planned_action(*graph, mem_of(*graph, state_mem(s0), reps2.take(j)), failed_of(reps2.take(j)), node_id) == plan.action);
                    assert(compute_follows(compute, *graph, state_mem(s0), r2, j));
                }
            }
        }
        proof {
            broadcast use vstd::seq_lib::group_filter_ensures;
            let r2 = *run.report_view();
            assert forall|j: int| 0 <= j < run.position() implies (#[trigger] r2.node_reports@[j]).node == order[j] by {
                if j < pos {
                    assert(r2.node_reports@[j] == r1.node_reports@[j]);
                }
            }
            assert forall|j: int| 0 <= j < run.position() implies ((#[trigger] r2.node_reports@[j]).error.is_some()
                <==> run.failed_view().contains(order[j])) by {
                if j < pos {
                    assert(r2.node_reports@[j] == r1.node_reports@[j]);
                    assert(order[j] != node_id) by {
                        assert(order.no_duplicates());
                    }
                    if run.failed_view().contains(order[j]) && !f1.contains(order[j]) {
                        let k = choose|k: int| 0 <= k < run.failed_view().len() && run.failed_view()[k] == order[j];
                        assert(k == f1.len());
                    }
                    if f1.contains(order[j]) {
                        let k = choose|k: int| 0 <= k < f1.len() && f1[k] == order[j];
                        assert(run.failed_view()[k] == order[j]);
                    }
                } else {
                    if run.failed_view().contains(node_id) && !(r2.node_reports@[j].error.is_some()) {
                        assert(run.failed_view() == f1);
                        assert(order.subrange(0, pos).contains(node_id));
                        let k = choose|k: int| 0 <= k < pos && order.subrange(0, pos)[k] == node_id;
                        assert(order[k] == node_id);
                        assert(order.no_duplicates());
                    }
                    if r2.node_reports@[j].error.is_some() {
                        assert(run.failed_view().last() == node_id);
                    }
                }
            }
            assert forall|x: NodeId| #[trigger] run.failed_view().contains(x) implies order.subrange(0, run.position()).contains(x) by {
                if f1.contains(x) {
                    let k = choose|k: int| 0 <= k < pos && order.subrange(0, pos)[k] == x;
                    assert(order.subrange(0, run.position())[k] == x);
                } else {
                    assert(order.subrange(0, run.position())[pos] == node_id);
                    let k = choose|k: int| 0 <= k < run.failed_view().len() && run.failed_view()[k] == x;
                    assert(k == f1.len());
                }
            }
            assert forall|i: int, j: int| 0 <= j < i < run.position() && (#[trigger] r2.node_reports@[j]).error.is_some()
                && graph.feeds(order[j], order[i]) implies (#[trigger] r2.node_reports@[i]).error.is_some() by {
                if i < pos {
                    assert(r2.node_reports@[i] == r1.node_reports@[i]);
                    assert(r2.node_reports@[j] == r1.node_reports@[j]);
                } else {
                    assert(r2.node_reports@[j] == r1.node_reports@[j]);
                    assert(f1.contains(order[j]));
                    let x = order[j];
                    assert(graph.feeds(x, node_id));
                    assert(graph.upstream_along(graph.link_seq(), node_id).contains(x)) by {
                        lemma_upstream_along(graph, graph.link_seq(), node_id, x);
                    }
                    broadcast use vstd::seq_lib::to_multiset_contains;
                    assert(plan.upstream@.contains(x)) by {
                        assert(graph.upstream_along(graph.link_seq(), node_id).to_multiset().contains(x));
                    }
                    let k = choose|k: int| 0 <= k < plan.upstream@.len() && plan.upstream@[k] == x;
                    assert(plan.upstream@.filter(|id: NodeId| f1.contains(id)).contains(plan.upstream@[k]));
                    assert(plan.failed_upstream@.len() > 0);
                }
            }
        }
    }
    Ok(run.finish())
}

} // verus!
