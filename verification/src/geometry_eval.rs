//! Evaluation of a geometry graph: the incremental evaluation of `eval`, with each
//! node that must be computed again given the outputs of the nodes that feed it.

use vstd::prelude::*;
use crate::params::NodeParams;
use crate::graph::{Graph, GraphError, NodeId, PinId, dfs_visit};
use crate::text::{chars_of, string_from_chars};
use vstd::pervasive::arbitrary;
use crate::eval::{
    EvalState, EvalRun, EvalReport, EvalError, NodeEvalState, PlanAction, state_mem, mem_of, failed_of,
    computed_of, dirty_of, report_ok, report_follows, planned_action, lemma_model_step, lemma_feeder_not_failed, hits_of, errors_of, same_error,
};

verus! {

/// The character of a decimal digit.
pub open spec fn digit_char(d: nat) -> char {
    if d == 0 { '0' } else if d == 1 { '1' } else if d == 2 { '2' } else if d == 3 { '3' }
    else if d == 4 { '4' } else if d == 5 { '5' } else if d == 6 { '6' } else if d == 7 { '7' }
    else if d == 8 { '8' } else { '9' }
}

/// The decimal digits of `n`, most significant first.
pub open spec fn decimal(n: nat) -> Seq<char>
    decreases n,
{
    if n < 10 {
        seq![digit_char(n)]
    } else {
        decimal(n / 10).push(digit_char(n % 10))
    }
}

fn digit(d: u64) -> (r: char)
    requires
        d < 10,
    ensures
        r == digit_char(d as nat),
{
    if d == 0 { '0' } else if d == 1 { '1' } else if d == 2 { '2' } else if d == 3 { '3' }
    else if d == 4 { '4' } else if d == 5 { '5' } else if d == 6 { '6' } else if d == 7 { '7' }
    else if d == 8 { '8' } else { '9' }
}

/// The decimal digits of `n`.
pub fn decimal_chars(n: u64) -> (r: Vec<char>)
    ensures
        r@ == decimal(n as nat),
    decreases n,
{
    if n < 10 {
        vec![digit(n)]
    } else {
        let mut v = decimal_chars(n / 10);
        v.push(digit(n % 10));
        v
    }
}

/// Appends the characters of `s`.
fn append_str(v: &mut Vec<char>, s: &str)
    ensures
        final(v)@ == old(v)@ + s@,
{
    let cs = chars_of(s);
    let mut i: usize = 0;
    while i < cs.len()
        invariant
            0 <= i <= cs@.len(),
            cs@ == s@,
            v@ == old(v)@ + cs@.take(i as int),
        decreases cs@.len() - i,
    {
        v.push(cs[i]);
        assert(cs@.take(i + 1) =~= cs@.take(i as int).push(cs@[i as int]));
        i = i + 1;
    }
    assert(cs@.take(cs@.len() as int) =~= cs@);
}

/// Appends the given characters.
fn append_chars(v: &mut Vec<char>, s: &[char])
    ensures
        final(v)@ == old(v)@ + s@,
{
    let mut i: usize = 0;
    while i < s.len()
        invariant
            0 <= i <= s@.len(),
            v@ == old(v)@ + s@.take(i as int),
        decreases s@.len() - i,
    {
        v.push(s[i]);
        assert(s@.take(i + 1) =~= s@.take(i as int).push(s@[i as int]));
        i = i + 1;
    }
    assert(s@.take(s@.len() as int) =~= s@);
}

/// The message for a node whose name is no known node kind.
pub open spec fn unknown_kind_message(name: Seq<char>) -> Seq<char> {
    "unknown node type "@ + name
}

/// The message for an input whose feeder has no output.
pub open spec fn missing_upstream_message(u: NodeId) -> Seq<char> {
    "missing upstream output NodeId("@ + decimal(u.0 as nat) + ")"@
}

/// The message for an unconnected input of a node that needs all of them.
pub open spec fn missing_input_message(name: Seq<char>) -> Seq<char> {
    "missing input '"@ + name + "'"@
}

/// The message for a node with fewer connected inputs than it needs.
pub open spec fn too_few_message(kind: Seq<char>, min: nat) -> Seq<char> {
    kind + " requires at least "@ + decimal(min) + " input"@ + (if min == 1 { ""@ } else { "s"@ })
}

/// How a node kind takes its geometry inputs.
#[derive(Debug, Clone, Copy, PartialEq, Eq, Structural)]
pub enum InputPolicy {
    /// It takes none.
    NoInputs,
    /// Every input must be connected.
    RequireAll,
    /// At least this many inputs must be connected; the connected ones are passed on.
    RequireAtLeast(usize),
}

/// A node kind: the node name it is known by, and how it takes its inputs.
#[derive(Debug, Clone)]
pub struct NodeKindSpec {
    pub name: String,
    pub policy: InputPolicy,
}

/// The position of the first kind named `name`.
pub open spec fn first_kind(kinds: Seq<NodeKindSpec>, name: Seq<char>) -> Option<int>
    decreases kinds.len(),
{
    if kinds.len() == 0 {
        None
    } else {
        match first_kind(kinds.drop_last(), name) {
            Some(k) => Some(k),
            None => if kinds.last().name@ == name { Some(kinds.len() - 1) } else { None },
        }
    }
}

proof fn lemma_first_kind(kinds: Seq<NodeKindSpec>, name: Seq<char>)
    ensures
        match first_kind(kinds, name) {
            Some(k) => 0 <= k < kinds.len() && kinds[k].name@ == name
                && forall|j: int| 0 <= j < k ==> (#[trigger] kinds[j]).name@ != name,
            None => forall|j: int| 0 <= j < kinds.len() ==> (#[trigger] kinds[j]).name@ != name,
        },
    decreases kinds.len(),
{
    if kinds.len() > 0 {
        lemma_first_kind(kinds.drop_last(), name);
        assert forall|j: int| 0 <= j < kinds.len() - 1 implies kinds.drop_last()[j] == #[trigger] kinds[j] by {}
    }
}

/// The position of the kind named `name`, the first one where two share it.
pub fn find_kind(kinds: &[NodeKindSpec], name: &str) -> (r: Option<usize>)
    ensures
        match r {
            Some(k) => first_kind(kinds@, name@) == Some(k as int) && k < kinds@.len() && kinds@[k as int].name@ == name@,
            None => first_kind(kinds@, name@) is None,
        },
{
    proof { lemma_first_kind(kinds@, name@); }
    let mut i: usize = 0;
    while i < kinds.len()
        invariant
            0 <= i <= kinds@.len(),
            forall|j: int| 0 <= j < i ==> (#[trigger] kinds@[j]).name@ != name@,
        decreases kinds@.len() - i,
    {
        if crate::text::text_eq(kinds[i].name.as_str(), name) {
            proof { lemma_first_kind(kinds@, name@); }
            return Some(i);
        }
        i = i + 1;
    }
    proof { lemma_first_kind(kinds@, name@); }
    None
}


/// The evaluation state of a geometry graph: the incremental evaluation state, and
/// the output of each node that has one.
pub struct GeometryEvalState<G> {
    eval: EvalState,
    outputs: Vec<(NodeId, G)>,
}

/// The outcome of evaluating a geometry graph: the evaluation report, and the output
/// of the requested node where the evaluation succeeded.
pub struct GeometryEvalResult<G> {
    pub report: EvalReport,
    pub output: Option<G>,
}

impl<G> GeometryEvalState<G> {
    /// The stored outputs, each with its node.
    pub closed spec fn output_seq(&self) -> Seq<(NodeId, G)> {
        self.outputs@
    }

    /// The incremental evaluation state.
    pub closed spec fn eval_view(&self) -> EvalState {
        self.eval
    }

    /// The incremental evaluation state.
    pub fn eval_state(&self) -> (r: &EvalState)
        ensures
            *r == self.eval_view(),
    {
        &self.eval
    }

    /// Node `id` has an output.
    pub open spec fn has_output(&self, id: NodeId) -> bool {
        exists|i: int| 0 <= i < self.output_seq().len() && #[trigger] self.output_seq()[i].0 == id
    }

    /// The output of node `id`.
    pub open spec fn output_of(&self, id: NodeId) -> G {
        self.output_seq()[choose|i: int| 0 <= i < self.output_seq().len() && #[trigger] self.output_seq()[i].0 == id].1
    }

    /// The evaluation state is well formed and no node has two outputs.
    pub open spec fn wf(&self) -> bool {
        &&& self.eval_view().wf()
        &&& forall|i: int, j: int| 0 <= i < self.output_seq().len() && 0 <= j < self.output_seq().len() && i != j
            ==> (#[trigger] self.output_seq()[i]).0 != (#[trigger] self.output_seq()[j]).0
    }

    /// A state with nothing evaluated and no outputs.
    pub fn new() -> (r: Self)
        ensures
            r.wf(),
            r.eval_view().state_seq().len() == 0,
            r.eval_view().stats_view().hits == 0 && r.eval_view().stats_view().misses == 0,
            forall|id: NodeId| !r.has_output(id),
    {
        GeometryEvalState { eval: EvalState::new(), outputs: Vec::new() }
    }

    fn find_output(&self, id: NodeId) -> (r: Option<usize>)
        requires
            self.wf(),
        ensures
            match r {
                Some(i) => i < self.output_seq().len() && self.output_seq()[i as int].0 == id && self.has_output(id)
                    && self.output_of(id) == self.output_seq()[i as int].1,
                None => !self.has_output(id),
            },
    {
        let mut i: usize = 0;
        while i < self.outputs.len()
            invariant
                self.wf(),
                0 <= i <= self.outputs@.len(),
                forall|j: int| 0 <= j < i ==> self.outputs@[j].0 != id,
            decreases self.outputs@.len() - i,
        {
            if self.outputs[i].0.0 == id.0 {
                proof {
                    assert(self.output_seq()[i as int].0 == id);
                    let k = choose|k: int| 0 <= k < self.output_seq().len() && #[trigger] self.output_seq()[k].0 == id;
                    assert(k == i);
                }
                return Some(i);
            }
            i = i + 1;
        }
        None
    }

    /// The output of node `node_id`, if it has one.
    pub fn geometry_for_node(&self, node_id: NodeId) -> (r: Option<&G>)
        requires
            self.wf(),
        ensures
            match r {
                Some(g) => self.has_output(node_id) && *g == self.output_of(node_id),
                None => !self.has_output(node_id),
            },
    {
        match self.find_output(node_id) {
            Some(i) => Some(&self.outputs[i].1),
            None => None,
        }
    }

    /// Stores `g` as the output of `id`, replacing any output it had.
    fn set_output(&mut self, id: NodeId, g: G)
        requires
            old(self).wf(),
        ensures
            final(self).wf(),
            final(self).eval_view() == old(self).eval_view(),
            forall|x: NodeId| #[trigger] final(self).has_output(x) == (old(self).has_output(x) || x == id),
            final(self).output_of(id) == g,
            forall|x: NodeId| x != id && old(self).has_output(x) ==> #[trigger] final(self).output_of(x) == old(self).output_of(x),
    {
        let ghost s0 = self.output_seq();
        match self.find_output(id) {
            Some(i) => {
                self.outputs.set(i, (id, g));
                proof {
                    let s = self.output_seq();
                    assert forall|a: int| 0 <= a < s.len() implies (#[trigger] s[a]).0 == s0[a].0 by {}
                    assert forall|x: NodeId| #[trigger] self.has_output(x) == old(self).has_output(x) by {
                        if old(self).has_output(x) {
                            let k = choose|k: int| 0 <= k < s0.len() && #[trigger] s0[k].0 == x;
                            assert(s[k].0 == x);
                        }
                        if self.has_output(x) {
                            let k = choose|k: int| 0 <= k < s.len() && #[trigger] s[k].0 == x;
                            assert(s0[k].0 == x);
                        }
                    }
                    let k = choose|k: int| 0 <= k < s.len() && #[trigger] s[k].0 == id;
                    assert(s[i as int].0 == id);
                    assert(k == i);
                    assert forall|x: NodeId| x != id && old(self).has_output(x) implies #[trigger] self.output_of(x) == old(self).output_of(x) by {
                        let k = choose|k: int| 0 <= k < s.len() && #[trigger] s[k].0 == x;
                        let k0 = choose|k: int| 0 <= k < s0.len() && #[trigger] s0[k].0 == x;
                        assert(s[k0].0 == x);
                        assert(k == k0);
                    }
                }
            },
            None => {
                self.outputs.push((id, g));
                proof {
                    let s = self.output_seq();
                    let n = s0.len() as int;
                    assert forall|a: int| 0 <= a < n implies #[trigger] s[a] == s0[a] by {}
                    assert forall|a: int| 0 <= a < n implies (#[trigger] s0[a]).0 != id by {
                        if s0[a].0 == id {
                            assert(old(self).has_output(id));
                        }
                    }
                    assert forall|x: NodeId| #[trigger] self.has_output(x) == (old(self).has_output(x) || x == id) by {
                        if old(self).has_output(x) {
                            let k = choose|k: int| 0 <= k < s0.len() && #[trigger] s0[k].0 == x;
                            assert(s[k].0 == x);
                        }
                        if self.has_output(x) && x != id {
                            let k = choose|k: int| 0 <= k < s.len() && #[trigger] s[k].0 == x;
                            assert(s0[k].0 == x);
                        }
                        if x == id {
                            assert(s[n].0 == id);
                        }
                    }
                    let k = choose|k: int| 0 <= k < s.len() && #[trigger] s[k].0 == id;
                    assert(s[n].0 == id);
                    assert(k == n);
                    assert forall|x: NodeId| x != id && old(self).has_output(x) implies #[trigger] self.output_of(x) == old(self).output_of(x) by {
                        let k = choose|k: int| 0 <= k < s.len() && #[trigger] s[k].0 == x;
                        let k0 = choose|k: int| 0 <= k < s0.len() && #[trigger] s0[k].0 == x;
                        assert(s[k0].0 == x);
                        assert(k == k0);
                    }
                }
            },
        }
    }

    /// Drops the output of `id`, if it has one.
    fn remove_output(&mut self, id: NodeId)
        requires
            old(self).wf(),
        ensures
            final(self).wf(),
            final(self).eval_view() == old(self).eval_view(),
            forall|x: NodeId| #[trigger] final(self).has_output(x) == (old(self).has_output(x) && x != id),
            forall|x: NodeId| x != id && old(self).has_output(x) ==> #[trigger] final(self).output_of(x) == old(self).output_of(x),
    {
        let ghost s0 = self.output_seq();
        match self.find_output(id) {
            Some(i) => {
                let _ = self.outputs.remove(i);
                proof {
                    let s = self.output_seq();
                    assert(s == s0.remove(i as int));
                    assert forall|a: int| 0 <= a < s.len() implies #[trigger] s[a] == (if a < i { s0[a] } else { s0[a + 1] }) by {}
                    assert forall|a: int, b: int| 0 <= a < s.len() && 0 <= b < s.len() && a != b implies
                        (#[trigger] s[a]).0 != (#[trigger] s[b]).0 by {
                        let a0 = if a < i { a } else { a + 1 };
                        let b0 = if b < i { b } else { b + 1 };
                        assert(s[a] == s0[a0] && s[b] == s0[b0]);
                    }
                    assert forall|x: NodeId| #[trigger] self.has_output(x) == (old(self).has_output(x) && x != id) by {
                        if self.has_output(x) {
                            let k = choose|k: int| 0 <= k < s.len() && #[trigger] s[k].0 == x;
                            let k0 = if k < i { k } else { k + 1 };
                            assert(s0[k0].0 == x);
                            assert(k0 != i);
                        }
                        if old(self).has_output(x) && x != id {
                            let k = choose|k: int| 0 <= k < s0.len() && #[trigger] s0[k].0 == x;
                            assert(k != i);
                            let k1 = if k < i { k } else { k - 1 };
                            assert(s[k1].0 == x);
                        }
                    }
                    assert forall|x: NodeId| x != id && old(self).has_output(x) implies #[trigger] self.output_of(x) == old(self).output_of(x) by {
                        let k = choose|k: int| 0 <= k < s.len() && #[trigger] s[k].0 == x;
                        let k0 = choose|k: int| 0 <= k < s0.len() && #[trigger] s0[k].0 == x;
                        assert(k0 != i);
                        let k1 = if k0 < i { k0 } else { k0 - 1 };
                        assert(s[k1].0 == x);
                        assert(k == k1);
                    }
                }
            },
            None => {},
        }
    }
}


impl<G> Default for GeometryEvalState<G> {
    fn default() -> (r: Self)
        ensures
            r.wf(),
            r.eval_view().state_seq().len() == 0,
            r.eval_view().stats_view().hits == 0 && r.eval_view().stats_view().misses == 0,
            forall|id: NodeId| !r.has_output(id),
    {
        GeometryEvalState::new()
    }
}

/// The output pin that the link into input pin `p` starts from, if a link ends at `p`.
pub open spec fn link_source(graph: Graph, p: PinId) -> Option<PinId> {
    if exists|k: int| 0 <= k < graph.link_seq().len() && #[trigger] graph.link_seq()[k].to == p {
        Some(graph.link_seq()[choose|k: int| 0 <= k < graph.link_seq().len() && #[trigger] graph.link_seq()[k].to == p].from)
    } else {
        None
    }
}

/// The node that feeds input pin `p`, if it is connected.
pub open spec fn pin_feeder(graph: Graph, p: PinId) -> Option<NodeId> {
    match link_source(graph, p) {
        Some(f) => Some(graph.pin_at(f).node),
        None => None,
    }
}

/// The feeder of each of the given input pins.
pub open spec fn feeders(graph: Graph, pins: Seq<PinId>) -> Seq<Option<NodeId>> {
    pins.map_values(|p: PinId| pin_feeder(graph, p))
}

/// The first connected slot whose feeder has no output.
pub open spec fn first_unstored(fs: Seq<Option<NodeId>>, stored: spec_fn(NodeId) -> bool) -> Option<int>
    decreases fs.len(),
{
    if fs.len() == 0 {
        None
    } else {
        match first_unstored(fs.drop_last(), stored) {
            Some(j) => Some(j),
            None => match fs.last() {
                Some(u) => if !stored(u) { Some(fs.len() - 1) } else { None },
                None => None,
            },
        }
    }
}

/// The first unconnected slot.
pub open spec fn first_unlinked(fs: Seq<Option<NodeId>>) -> Option<int>
    decreases fs.len(),
{
    if fs.len() == 0 {
        None
    } else {
        match first_unlinked(fs.drop_last()) {
            Some(j) => Some(j),
            None => if fs.last() is None { Some(fs.len() - 1) } else { None },
        }
    }
}

/// The feeders of the connected slots, in order.
pub open spec fn linked_nodes(fs: Seq<Option<NodeId>>) -> Seq<NodeId>
    decreases fs.len(),
{
    if fs.len() == 0 {
        Seq::empty()
    } else {
        match fs.last() {
            Some(u) => linked_nodes(fs.drop_last()).push(u),
            None => linked_nodes(fs.drop_last()),
        }
    }
}

/// What gathering the inputs of node `n` gives, where `stored` tells which nodes have
/// an output: the message of the first problem met, or the position of its kind and
/// the nodes whose outputs it is given. The kind is looked up by the node's name; a
/// connected input whose feeder has no output fails; then the kind's policy decides.
pub open spec fn gather_outcome(graph: Graph, kinds: Seq<NodeKindSpec>, stored: spec_fn(NodeId) -> bool, n: NodeId) -> Result<(int, Seq<NodeId>), Seq<char>> {
    let node = graph.node_at(n);
    let fs = feeders(graph, node.inputs@);
    match first_kind(kinds, node.name@) {
        None => Err(unknown_kind_message(node.name@)),
        Some(k) => match first_unstored(fs, stored) {
            Some(j) => Err(missing_upstream_message(fs[j]->0)),
            None => match kinds[k].policy {
                InputPolicy::NoInputs => Ok((k, Seq::empty())),
                InputPolicy::RequireAll => match first_unlinked(fs) {
                    Some(j) => Err(missing_input_message(graph.pin_at(node.inputs@[j]).name@)),
                    None => Ok((k, linked_nodes(fs))),
                },
                InputPolicy::RequireAtLeast(min) => if linked_nodes(fs).len() < min {
                    Err(too_few_message(kinds[k].name@, min as nat))
                } else {
                    Ok((k, linked_nodes(fs)))
                },
            },
        },
    }
}

/// The output pin linked into input pin `p`, if any.
fn input_source(graph: &Graph, p: PinId) -> (r: Option<PinId>)
    requires
        graph.wf(),
    ensures
        r == link_source(*graph, p),
{
    let links = graph.links();
    let mut i: usize = 0;
    while i < links.len()
        invariant
            graph.wf(),
            links@ == graph.link_seq(),
            0 <= i <= links@.len(),
            forall|j: int| 0 <= j < i ==> links@[j].to != p,
        decreases links@.len() - i,
    {
        if links[i].to.0 == p.0 {
            proof {
                assert(graph.link_seq()[i as int].to == p);
                let k = choose|k: int| 0 <= k < graph.link_seq().len() && #[trigger] graph.link_seq()[k].to == p;
                if k != i {
                    assert(graph.link_seq()[k].to != graph.link_seq()[i as int].to);
                }
            }
            return Some(links[i].from);
        }
        i = i + 1;
    }
    None
}

/// Which nodes have an output in `state`.
pub open spec fn stored_in<G>(state: GeometryEvalState<G>) -> spec_fn(NodeId) -> bool {
    |u: NodeId| state.has_output(u)
}

/// A message made of `a` followed by `b`.
fn message2(a: &str, b: &[char]) -> (r: String)
    ensures
        r@ == a@ + b@,
{
    let mut v: Vec<char> = Vec::new();
    append_str(&mut v, a);
    append_chars(&mut v, b);
    string_from_chars(v.as_slice())
}

/// The characters of a message made of `a`, `b` and `c`.
fn message3(a: &str, b: &[char], c: &str) -> (r: String)
    ensures
        r@ == a@ + b@ + c@,
{
    let mut v: Vec<char> = Vec::new();
    append_str(&mut v, a);
    append_chars(&mut v, b);
    append_str(&mut v, c);
    string_from_chars(v.as_slice())
}

/// The inputs of node `node_id`: the position of its kind in `kinds`, and a copy of
/// the output of each node it is to be given, or the message of the first problem.
pub fn gather_inputs<G: Clone>(graph: &Graph, node_id: NodeId, state: &GeometryEvalState<G>, kinds: &[NodeKindSpec]) -> (r: Result<(usize, Vec<G>), String>)
    requires
        graph.wf(),
        graph.has_node(node_id),
        state.wf(),
    ensures
        match gather_outcome(*graph, kinds@, stored_in(*state), node_id) {
            Err(m) => r matches Err(e) && e@ == m,
            Ok((k, ns)) => r matches Ok((k2, ins)) && k2 == k && ins@.len() == ns.len()
                && (forall|j: int| 0 <= j < ns.len() ==> cloned(state.output_of(ns[j]), #[trigger] ins@[j]))
                && (forall|j: int| 0 <= j < ns.len() ==> state.has_output(#[trigger] ns[j])),
        },
{
    let ghost stored = stored_in(*state);
    let node = match graph.node(node_id) {
        Some(n) => n,
        None => {
            return Err(message2("missing node", &[]));
        },
    };
    let ghost fs = feeders(*graph, node.inputs@);
    let k = match find_kind(kinds, node.name.as_str()) {
        Some(k) => k,
        None => {
            let name = chars_of(node.name.as_str());
            return Err(message2("unknown node type ", name.as_slice()));
        },
    };
    let mut linked: Vec<G> = Vec::new();
    let mut unlinked: Option<usize> = None;
    let mut i: usize = 0;
    while i < node.inputs.len()
        invariant
            graph.wf(),
            state.wf(),
            *node == graph.node_at(node_id),
            graph.node_pins_ok(*node),
            fs == feeders(*graph, node.inputs@),
            stored == stored_in(*state),
            first_kind(kinds@, node.name@) == Some(k as int),
            0 <= i <= node.inputs@.len(),
            first_unstored(fs.take(i as int), stored) is None,
            unlinked == (match first_unlinked(fs.take(i as int)) { Some(j) => Some(j as usize), None => None }),
            linked@.len() == linked_nodes(fs.take(i as int)).len(),
            forall|j: int| 0 <= j < linked@.len() ==> cloned(state.output_of(linked_nodes(fs.take(i as int))[j]), #[trigger] linked@[j]),
            forall|j: int| 0 <= j < linked@.len() ==> state.has_output(#[trigger] linked_nodes(fs.take(i as int))[j]),
        decreases node.inputs@.len() - i,
    {
        let pin_id = node.inputs[i];
        let ghost prev = fs.take(i as int);
        assert(fs.take(i + 1).drop_last() =~= prev);
        assert(fs.take(i + 1).last() == fs[i as int]);
        assert(fs[i as int] == pin_feeder(*graph, pin_id));
        assert(node.inputs@.contains(pin_id));
        match input_source(graph, pin_id) {
            Some(from) => {
                let upstream = match graph.pin(from) {
                    Some(fp) => fp.node,
                    None => {
                        return Err(message2("missing upstream pin", &[]));
                    },
                };
                match state.geometry_for_node(upstream) {
                    Some(g) => {
                        linked.push(g.clone());
                        proof {
                            let ln = linked_nodes(fs.take(i + 1));
                            assert(ln == linked_nodes(prev).push(upstream));
                            assert forall|j: int| 0 <= j < linked@.len() implies cloned(state.output_of(ln[j]), #[trigger] linked@[j]) by {
                                if j < linked@.len() - 1 {
                                    assert(ln[j] == linked_nodes(prev)[j]);
                                }
                            }
                            assert forall|j: int| 0 <= j < linked@.len() implies state.has_output(#[trigger] ln[j]) by {
                                if j < linked@.len() - 1 {
                                    assert(ln[j] == linked_nodes(prev)[j]);
                                }
                            }
                        }
                    },
                    None => {
                        let digits = decimal_chars(upstream.0);
                        proof {
                            assert(!stored(upstream));
                            assert(fs[i as int] == Some(upstream));
                            assert(first_unstored(fs.take(i + 1), stored) == Some(i as int));
                            lemma_first_unstored_prefix(fs, stored, i as int + 1);
                            assert(first_unstored(fs, stored) == Some(i as int));
                            assert(first_kind(kinds@, graph.node_at(node_id).name@) == Some(k as int));
                            assert(gather_outcome(*graph, kinds@, stored, node_id) == Err::<(int, Seq<NodeId>), Seq<char>>(missing_upstream_message(upstream)));
                            assert(digits@ == decimal(upstream.0 as nat));
                        }
                        return Err(message3("missing upstream output NodeId(", digits.as_slice(), ")"));
                    },
                }
            },
            None => {
                if unlinked.is_none() {
                    unlinked = Some(i);
                }
            },
        }
        i = i + 1;
    }
    assert(fs.take(node.inputs@.len() as int) =~= fs);
    assert(first_unstored(fs, stored) is None);
    assert(linked@.len() == linked_nodes(fs).len());
    match kinds[k].policy {
        InputPolicy::NoInputs => Ok((k, Vec::new())),
        InputPolicy::RequireAll => match unlinked {
            Some(j) => {
                proof {
                    lemma_first_unlinked_bound(fs);
                }
                let pin_id = node.inputs[j];
                assert(node.inputs@[j as int] == pin_id);
                assert(node.inputs@.contains(pin_id));
                let name = match graph.pin(pin_id) {
                    Some(p) => chars_of(p.name.as_str()),
                    None => chars_of("in"),
                };
                Err(message3("missing input '", name.as_slice(), "'"))
            },
            None => Ok((k, linked)),
        },
        InputPolicy::RequireAtLeast(min) => {
            if linked.len() < min {
                let mut v = chars_of(kinds[k].name.as_str());
                append_str(&mut v, " requires at least ");
                let digits = decimal_chars(min as u64);
                assert(digits@ == decimal(min as nat));
                append_chars(&mut v, digits.as_slice());
                append_str(&mut v, " input");
                if min == 1 {
                    append_str(&mut v, "");
                } else {
                    append_str(&mut v, "s");
                }
                Err(string_from_chars(v.as_slice()))
            } else {
                Ok((k, linked))
            }
        },
    }
}

/// A linked slot's node is in `fs`, at a position whose slot names it.
proof fn lemma_linked_nodes_source(fs: Seq<Option<NodeId>>, t: int)
    requires
        0 <= t < linked_nodes(fs).len(),
    ensures
        exists|p: int| 0 <= p < fs.len() && fs[p] == Some(#[trigger] linked_nodes(fs)[t]),
    decreases fs.len(),
{
    let prev = fs.drop_last();
    if t < linked_nodes(prev).len() {
        lemma_linked_nodes_source(prev, t);
        let p = choose|p: int| 0 <= p < prev.len() && prev[p] == Some(#[trigger] linked_nodes(prev)[t]);
        match fs.last() {
            Some(u) => assert(linked_nodes(fs)[t] == linked_nodes(prev)[t]),
            None => {},
        }
        assert(fs[p] == prev[p]);
    } else {
        assert(fs.last() is Some);
        assert(fs[fs.len() - 1] == Some(linked_nodes(fs)[t]));
    }
}

/// Every node whose output an input of `n` is given feeds `n`.
pub proof fn lemma_linked_feeds(graph: Graph, n: NodeId, t: int)
    requires
        graph.wf(),
        graph.has_node(n),
        0 <= t < linked_nodes(feeders(graph, graph.node_at(n).inputs@)).len(),
    ensures
        graph.feeds(linked_nodes(feeders(graph, graph.node_at(n).inputs@))[t], n),
{
    let node = graph.node_at(n);
    let fs = feeders(graph, node.inputs@);
    let u = linked_nodes(fs)[t];
    lemma_linked_nodes_source(fs, t);
    let p = choose|p: int| 0 <= p < fs.len() && fs[p] == Some(#[trigger] linked_nodes(fs)[t]);
    let pin = node.inputs@[p];
    assert(fs[p] == pin_feeder(graph, pin));
    let k = choose|k: int| 0 <= k < graph.link_seq().len() && #[trigger] graph.link_seq()[k].to == pin;
    let l = graph.link_seq()[k];
    assert(graph.has_pin(l.from) && graph.has_pin(l.to));
    assert(graph.node_pins_ok(graph.node_seq()[graph.node_pos(n)]));
    assert(node.inputs@.contains(pin));
    assert(graph.link_joins(l, u, n));
}

/// Once the first connected slot without output is found in a prefix, it stays the
/// first one in every longer prefix.
proof fn lemma_first_unstored_prefix(fs: Seq<Option<NodeId>>, stored: spec_fn(NodeId) -> bool, n: int)
    requires
        0 <= n <= fs.len(),
        first_unstored(fs.take(n), stored) is Some,
    ensures
        first_unstored(fs, stored) == first_unstored(fs.take(n), stored),
    decreases fs.len() - n,
{
    if n < fs.len() {
        assert(fs.take(n + 1).drop_last() =~= fs.take(n));
        lemma_first_unstored_prefix(fs, stored, n + 1);
    } else {
        assert(fs.take(n) =~= fs);
    }
}

/// The first unconnected slot lies within the slots.
proof fn lemma_first_unlinked_bound(fs: Seq<Option<NodeId>>)
    ensures
        first_unlinked(fs) matches Some(j) ==> 0 <= j < fs.len() && fs[j] is None,
    decreases fs.len(),
{
    if fs.len() > 0 {
        lemma_first_unlinked_bound(fs.drop_last());
    }
}


/// The nodes with an output after the evaluations reported in `prev`: those that had
/// one before, and those computed since.
pub open spec fn stored_after(stored0: spec_fn(NodeId) -> bool, prev: Seq<crate::eval::EvalNodeReport>) -> spec_fn(NodeId) -> bool {
    |u: NodeId| stored0(u) || computed_of(prev).contains(u)
}

/// Each input handed over is a copy of the output of the node it comes from, and
/// `fin` holds that output.
pub open spec fn inputs_tie<G: Clone>(fin: GeometryEvalState<G>, ns: Seq<NodeId>, ins: Vec<G>) -> bool {
    &&& ins@.len() == ns.len()
    &&& forall|t: int| 0 <= t < ns.len() ==> fin.has_output(#[trigger] ns[t]) && cloned(fin.output_of(ns[t]), ins@[t])
}

/// Where the evaluation rules say to compute node `i` of the report: its inputs are
/// gathered from the outputs present at its turn; a problem there is its error; else
/// `compute_node` is called with the kind found and with copies of the outputs of the
/// nodes found (outputs that `fin` still holds), and its error, or its output (stored
/// in `fin` while the evaluation has not failed), is what is recorded.
pub open spec fn geometry_step_follows<G: Clone, C: FnMut(usize, &NodeParams, Vec<G>) -> Result<G, String>>(
    compute_node: C,
    graph: Graph,
    kinds: Seq<NodeKindSpec>,
    stored0: spec_fn(NodeId) -> bool,
    mem0: spec_fn(NodeId) -> NodeEvalState,
    report: EvalReport,
    fin: GeometryEvalState<G>,
    i: int,
) -> bool {
    let reps = report.node_reports@;
    let prev = reps.take(i);
    let n = report.ordered@[i];
    let params = graph.node_at(n).params;
    let action = planned_action(graph, mem_of(graph, mem0, prev), failed_of(prev), n);
    action == PlanAction::Compute ==> match gather_outcome(graph, kinds, stored_after(stored0, prev), n) {
        Err(m) => reps[i].error matches Some(EvalError::Node { message, .. }) && message@ == m,
        Ok((k, ns)) => match reps[i].error {
            None => exists|ins: Vec<G>, g: G| inputs_tie(fin, ns, ins)
                && #[trigger] call_ensures(compute_node, (k as usize, &params, ins), Ok(g))
                && (report.output_valid ==> fin.has_output(n) && fin.output_of(n) == g),
            Some(EvalError::Node { message, .. }) => exists|ins: Vec<G>, m: String| inputs_tie(fin, ns, ins) && m@ == message@
                && #[trigger] call_ensures(compute_node, (k as usize, &params, ins), Err(m)),
            Some(EvalError::Upstream { .. }) => false,
        },
    }
}

/// The nodes whose outputs node `i` of the report was to be given come before it and
/// have not failed.
spec fn feeders_clear(graph: Graph, kinds: Seq<NodeKindSpec>, stored0: spec_fn(NodeId) -> bool,
    mem0: spec_fn(NodeId) -> NodeEvalState, report: EvalReport, i: int) -> bool {
    let reps = report.node_reports@;
    let prev = reps.take(i);
    let n = report.ordered@[i];
    planned_action(graph, mem_of(graph, mem0, prev), failed_of(prev), n) == PlanAction::Compute ==>
        match gather_outcome(graph, kinds, stored_after(stored0, prev), n) {
            Ok((k, ns)) => forall|t: int| 0 <= t < ns.len() ==> report.ordered@.subrange(0, i).contains(#[trigger] ns[t])
                && !failed_of(reps).contains(ns[t]),
            Err(_) => true,
        }
}

/// Error `e` names node `x`: as the failed node, or as one of its failed feeders.
pub open spec fn error_names(e: EvalError, x: NodeId) -> bool {
    match e {
        EvalError::Node { node, .. } => node == x,
        EvalError::Upstream { node, upstream } => node == x || upstream@.contains(x),
    }
}

/// The nodes whose outputs an input gathering hands over feed the node.
proof fn lemma_gathered_feed(graph: Graph, kinds: Seq<NodeKindSpec>, stored: spec_fn(NodeId) -> bool, n: NodeId)
    requires
        graph.wf(),
        graph.has_node(n),
    ensures
        gather_outcome(graph, kinds, stored, n) matches Ok((k, ns)) ==> forall|t: int| 0 <= t < ns.len() ==> graph.feeds(#[trigger] ns[t], n),
{
    if gather_outcome(graph, kinds, stored, n) is Ok {
        let ns = gather_outcome(graph, kinds, stored, n)->Ok_0.1;
        assert forall|t: int| 0 <= t < ns.len() implies graph.feeds(#[trigger] ns[t], n) by {
            lemma_linked_feeds(graph, n, t);
        }
    }
}

/// A step that keeps, for the nodes `keep` admits, the outputs `a` held, still
/// follows the rules in `b` wherever it did in `a`, when the nodes it was given
/// outputs of are admitted.
proof fn lemma_step_follows_kept<G: Clone, C: FnMut(usize, &NodeParams, Vec<G>) -> Result<G, String>>(
    compute_node: C,
    graph: Graph,
    kinds: Seq<NodeKindSpec>,
    stored0: spec_fn(NodeId) -> bool,
    mem0: spec_fn(NodeId) -> NodeEvalState,
    r1: EvalReport,
    r2: EvalReport,
    a: GeometryEvalState<G>,
    b: GeometryEvalState<G>,
    j: int,
    keep: spec_fn(NodeId) -> bool,
)
    requires
        0 <= j < r1.node_reports@.len(),
        j < r2.node_reports@.len(),
        r2.ordered@ == r1.ordered@,
        r2.node_reports@.take(j) == r1.node_reports@.take(j),
        r2.node_reports@[j] == r1.node_reports@[j],
        geometry_step_follows(compute_node, graph, kinds, stored0, mem0, r1, a, j),
        feeders_clear(graph, kinds, stored0, mem0, r1, j),
        forall|x: NodeId| r1.ordered@.subrange(0, j).contains(x) && !failed_of(r1.node_reports@).contains(x) ==> #[trigger] keep(x),
        r2.output_valid ==> r1.output_valid && keep(r1.ordered@[j]),
        forall|x: NodeId| keep(x) && a.has_output(x) ==> #[trigger] b.has_output(x) && b.output_of(x) == a.output_of(x),
    ensures
        geometry_step_follows(compute_node, graph, kinds, stored0, mem0, r2, b, j),
{
    let reps = r1.node_reports@;
    let prev = reps.take(j);
    let n = r1.ordered@[j];
    let params = graph.node_at(n).params;
    let action = planned_action(graph, mem_of(graph, mem0, prev), failed_of(prev), n);
    if action == PlanAction::Compute {
        match gather_outcome(graph, kinds, stored_after(stored0, prev), n) {
            Ok((k, ns)) => {
                assert forall|t: int| 0 <= t < ns.len() implies keep(#[trigger] ns[t]) by {
                    assert(r1.ordered@.subrange(0, j).contains(ns[t]) && !failed_of(reps).contains(ns[t]));
                }
                match reps[j].error {
                    None => {
                        let (ins, g) = choose|ins: Vec<G>, g: G| inputs_tie(a, ns, ins)
                            && #[trigger] call_ensures(compute_node, (k as usize, &params, ins), Ok(g))
                            && (r1.output_valid ==> a.has_output(n) && a.output_of(n) == g);
                        assert forall|t: int| 0 <= t < ns.len() implies b.has_output(#[trigger] ns[t]) && cloned(b.output_of(ns[t]), ins@[t]) by {
                            assert(inputs_tie(a, ns, ins));
                            assert(a.has_output(ns[t]));
                            assert(cloned(a.output_of(ns[t]), ins@[t]));
                            assert(keep(ns[t]));
                            assert(b.has_output(ns[t]));
                            assert(b.output_of(ns[t]) == a.output_of(ns[t]));
                        }
                        assert(inputs_tie(b, ns, ins));
                        if r2.output_valid {
                            assert(keep(n) && a.has_output(n));
                        }
                        assert(call_ensures(compute_node, (k as usize, &params, ins), Ok(g)));
                    },
                    Some(EvalError::Node { message, .. }) => {
                        let (ins, m) = choose|ins: Vec<G>, m: String| inputs_tie(a, ns, ins) && m@ == message@
                            && #[trigger] call_ensures(compute_node, (k as usize, &params, ins), Err(m));
                        assert forall|t: int| 0 <= t < ns.len() implies b.has_output(#[trigger] ns[t]) && cloned(b.output_of(ns[t]), ins@[t]) by {
                            assert(inputs_tie(a, ns, ins));
                            assert(a.has_output(ns[t]));
                            assert(cloned(a.output_of(ns[t]), ins@[t]));
                            assert(keep(ns[t]));
                            assert(b.has_output(ns[t]));
                            assert(b.output_of(ns[t]) == a.output_of(ns[t]));
                        }
                        assert(inputs_tie(b, ns, ins));
                        assert(call_ensures(compute_node, (k as usize, &params, ins), Err(m)));
                    },
                    Some(_) => {},
                }
            },
            Err(_) => {},
        }
    }
}

/// Evaluates `output` and everything upstream of it. Each node that must be computed
/// again has its kind looked up in `kinds` by its name and its inputs gathered from the
/// stored outputs of the nodes that feed it; `compute_node` then computes its output,
/// which is stored. When any node fails, the failed nodes, the nodes they name as
/// failed feeders and `output` lose their outputs, and no output is returned.
#[verifier::rlimit(60)]
pub fn evaluate_geometry_graph_with<G: Clone, C>(
    graph: &Graph,
    output: NodeId,
    state: &mut GeometryEvalState<G>,
    kinds: &[NodeKindSpec],
    mut compute_node: C,
) -> (r: Result<GeometryEvalResult<G>, GraphError>)
    where C: FnMut(usize, &NodeParams, Vec<G>) -> Result<G, String>,
    requires
        graph.wf(),
        old(state).wf(),
        old(state).eval_view().stats_view().hits + graph.node_seq().len() < u64::MAX,
        old(state).eval_view().stats_view().misses + graph.node_seq().len() < u64::MAX,
        forall|k: usize, p: &NodeParams, ins: Vec<G>| call_requires(compute_node, (k, p, ins)),
    ensures
        final(state).wf(),
        !graph.has_node(output) ==> (r matches Err(GraphError::MissingNode(id)) && id == output),
        graph.has_node(output) ==> (r is Ok <==> !graph.has_cycle_upstream(output)),
        graph.has_node(output) ==> (r matches Err(e) ==> e matches GraphError::CycleDetected(p) && graph.is_cycle_from(output, p@)),
        r is Err ==> *final(state) == *old(state),
        r matches Ok(res) ==> {
            let report = res.report;
            let reps = report.node_reports@;
            let mem0 = state_mem(old(state).eval_view());
            let stored0 = stored_in(*old(state));
            &&& report.ordered@ == dfs_visit(*graph, graph.node_seq().len() as nat, output, Seq::empty())
            &&& report.ordered@.len() > 0
            &&& report.ordered@.last() == output
            &&& graph.ordered_ok(output, report.ordered@)
            &&& forall|a: NodeId| #[trigger] graph.reaches(output, a) ==> report.ordered@.contains(a)
            &&& report_ok(*graph, mem0, report)
            &&& forall|x: NodeId| #[trigger] final(state).eval_view().state_of(x) == mem_of(*graph, mem0, reps)(x)
            &&& final(state).eval_view().stats_view().hits == old(state).eval_view().stats_view().hits + report.cache_hits
            &&& final(state).eval_view().stats_view().misses == old(state).eval_view().stats_view().misses + report.cache_misses
            &&& forall|i: int| 0 <= i < report.ordered@.len() ==> #[trigger] geometry_step_follows(compute_node, *graph, kinds@, stored0,
                mem0, report, *final(state), i)
            &&& report.output_valid ==> forall|x: NodeId| #[trigger] final(state).has_output(x) == (old(state).has_output(x) || report.computed@.contains(x))
            &&& report.output_valid ==> forall|x: NodeId| !report.computed@.contains(x) && old(state).has_output(x)
                ==> #[trigger] final(state).output_of(x) == old(state).output_of(x)
            &&& report.output_valid ==> (match res.output {
                Some(g) => final(state).has_output(output) && cloned(final(state).output_of(output), g),
                None => !final(state).has_output(output),
            })
            &&& !report.output_valid ==> res.output.is_none() && !final(state).has_output(output)
            &&& !report.output_valid ==> forall|k: int| 0 <= k < report.errors@.len() ==> match #[trigger] report.errors@[k] {
                EvalError::Node { node, .. } => !final(state).has_output(node),
                EvalError::Upstream { node, upstream } => !final(state).has_output(node)
                    && forall|j: int| 0 <= j < upstream@.len() ==> !final(state).has_output(#[trigger] upstream@[j]),
            }
        },
{
    let ghost compute0 = compute_node;
    let ghost s0 = *state;
    let ghost e0 = state.eval;
    let mut run = EvalRun::start(graph, output)?;
    let ghost order = run.report_view().ordered@;
    let ghost mem0 = state_mem(e0);
    let ghost stored0 = stored_in(s0);
    proof {
        crate::graph::lemma_distinct_nodes_bound(graph, order);
    }
    loop
        invariant
            graph.wf(),
            state.wf(),
            run.wf(),
            forall|k: usize, p: &NodeParams, ins: Vec<G>| call_requires(compute_node, (k, p, ins)),
            compute_node == compute0,
            run.report_view().ordered@ == order,
            order == dfs_visit(*graph, graph.node_seq().len() as nat, output, Seq::empty()),
            order.len() > 0,
            order.last() == output,
            graph.ordered_ok(output, order),
            forall|a: NodeId| #[trigger] graph.reaches(output, a) ==> order.contains(a),
            order.len() <= graph.node_seq().len(),
            run.report_view().cache_hits + run.report_view().cache_misses + run.report_view().errors@.len() == run.position(),
            run.report_view().output_valid == (run.report_view().errors@.len() == 0),
            s0.eval_view().stats_view().hits + graph.node_seq().len() < u64::MAX,
            s0.eval_view().stats_view().misses + graph.node_seq().len() < u64::MAX,
            e0 == s0.eval_view(),
            mem0 == state_mem(e0),
            stored0 == stored_in(s0),
            forall|x: NodeId| #[trigger] state.eval_view().state_of(x) == mem_of(*graph, mem0, run.report_view().node_reports@)(x),
            run.failed_view() == failed_of(run.report_view().node_reports@),
            run.report_view().computed@ == computed_of(run.report_view().node_reports@),
            run.report_view().cache_misses == run.report_view().computed@.len(),
            run.report_view().cache_hits == hits_of(run.report_view().node_reports@),
            run.report_view().dirty@ == dirty_of(*graph, mem0, run.report_view().node_reports@),
            run.report_view().errors@.len() == errors_of(run.report_view().node_reports@).len(),
            forall|k: int| 0 <= k < run.report_view().errors@.len() ==> same_error(#[trigger] run.report_view().errors@[k],
                errors_of(run.report_view().node_reports@)[k]),
            forall|j: int| 0 <= j < run.position() ==> #[trigger] report_follows(*graph, mem0, order, run.report_view().node_reports@, j),
            state.eval_view().stats_view().hits == s0.eval_view().stats_view().hits + run.report_view().cache_hits,
            state.eval_view().stats_view().misses == s0.eval_view().stats_view().misses + run.report_view().cache_misses,
            forall|x: NodeId| #[trigger] state.has_output(x) == (s0.has_output(x) || run.report_view().computed@.contains(x)),
            forall|x: NodeId| !run.report_view().computed@.contains(x) && s0.has_output(x)
                ==> #[trigger] state.output_of(x) == s0.output_of(x),
            forall|x: NodeId| #[trigger] run.report_view().computed@.contains(x) ==> order.subrange(0, run.position()).contains(x),
            forall|j: int| 0 <= j < run.position() ==> #[trigger] geometry_step_follows(compute_node, *graph, kinds@, stored0, mem0,
                *run.report_view(), *state, j),
            forall|j: int| 0 <= j < run.position() ==> #[trigger] feeders_clear(*graph, kinds@, stored0, mem0, *run.report_view(), j),
            forall|k: int, x: NodeId| 0 <= k < run.report_view().errors@.len() && #[trigger] error_names(run.report_view().errors@[k], x)
                ==> failed_of(run.report_view().node_reports@).contains(x),
        ensures
            run.position() == order.len(),
        decreases order.len() - run.position(),
    {
        let node_id = match run.next_node() {
            Some(n) => n,
            None => {
                break;
            },
        };
        let ghost pos = run.position();
        let ghost r1 = *run.report_view();
        let ghost run_failed_before = run.failed_view();
        let ghost st0 = state.eval;
        let ghost g1 = *state;
        assert(graph.has_node(order[pos]));
        let plan = match state.eval.plan_node(graph, node_id, run.failed()) {
            Ok(p) => p,
            Err(e) => {
                return Err(e);
            },
        };
        let ghost g2 = *state;
        assert(g2.outputs@ == g1.outputs@);
        assert(state.wf()) by {
            assert(state.output_seq() == g1.output_seq());
        }
        assert forall|x: NodeId| #[trigger] g2.has_output(x) == g1.has_output(x)
            && (g1.has_output(x) ==> g2.output_of(x) == g1.output_of(x)) by {
            assert(g2.output_seq() == g1.output_seq());
        }
        assert(stored_in(g2) =~= stored_after(stored0, r1.node_reports@)) by {
            assert forall|u: NodeId| #[trigger] g2.has_output(u) == stored_after(stored0, r1.node_reports@)(u) by {
                assert(g2.output_seq() == g1.output_seq());
                assert(g2.has_output(u) == g1.has_output(u));
            }
        }
        let ghost mut gk: usize = 0;
        let ghost mut gins: Vec<G> = vstd::pervasive::arbitrary();
        let ghost mut gr: Result<G, String> = vstd::pervasive::arbitrary();
        let ghost mut called = false;
        let result = if plan.action == PlanAction::Compute {
            match gather_inputs(graph, node_id, state, kinds) {
                Ok((k, ins)) => {
                    proof {
                        gk = k;
                        gins = ins;
                        called = true;
                    }
                    match graph.node(node_id) {
                        Some(n) => {
                            let cr = compute_node(k, &n.params, ins);
                            proof {
                                gr = cr;
                            }
                            match cr {
                                Ok(g) => {
                                    state.set_output(node_id, g);
                                    Ok(())
                                },
                                Err(m) => Err(m),
                            }
                        },
                        None => Ok(()),
                    }
                },
                Err(m) => Err(m),
            }
        } else {
            Ok(())
        };
        let ghost g3 = *state;
        let ghost ok = result is Ok;
        let ghost res = result;
        let ghost computed_ok = plan.action == PlanAction::Compute && ok;
        proof {
            let gout = gather_outcome(*graph, kinds@, stored_after(stored0, r1.node_reports@), node_id);
            assert(called <==> (plan.action == PlanAction::Compute && gout is Ok));
            assert(called ==> call_ensures(compute_node, (gk, &graph.node_at(node_id).params, gins), gr));
            assert(called ==> (gout matches Ok((k, ns)) && gk == k && gins@.len() == ns.len()));
            if called {
                assert(gather_outcome(*graph, kinds@, stored_in(g2), node_id) == gout);
                let ns = gout->Ok_0.1;
                assert(forall|t: int| 0 <= t < ns.len() ==> g2.has_output(#[trigger] ns[t]));
                assert(forall|t: int| 0 <= t < ns.len() ==> cloned(g2.output_of(ns[t]), #[trigger] gins@[t]));
            }
            assert(plan.action == PlanAction::Compute && !called ==> (gout matches Err(m) && res matches Err(e) && e@ == m));
            assert(called ==> (gr is Ok <==> ok));
            assert(called && ok ==> gr == Ok::<G, String>(g3.output_of(node_id)));
            assert(called && !ok ==> (gr matches Err(e) && res == Err::<(), String>(e)));
            assert(!computed_ok ==> g3.outputs@ == g1.outputs@);
            assert forall|x: NodeId| #[trigger] g3.has_output(x) == (g1.has_output(x) || (computed_ok && x == node_id)) by {
                if !computed_ok {
                    assert(g3.output_seq() == g1.output_seq());
                }
            }
            assert forall|x: NodeId| x != node_id && g1.has_output(x) implies #[trigger] g3.output_of(x) == g1.output_of(x) by {
                if !computed_ok {
                    assert(g3.output_seq() == g1.output_seq());
                }
            }
            assert(g3.eval_view() == g2.eval_view());
        }
        run.record(&mut state.eval, &plan, result);
        proof {
            let reps = r1.node_reports@;
            let r2 = *run.report_view();
            let reps2 = r2.node_reports@;
            assert(state.outputs@ == g3.outputs@);
            assert(state.output_seq() == g3.output_seq());
            assert(state.wf());
            lemma_model_step(*graph, mem0, order, reps, reps2, st0, state.eval_view(), plan, ok);
            assert(reps2.drop_last() == reps);
            assert(computed_of(reps2) == r2.computed@);
            assert(hits_of(reps2) == r2.cache_hits);
            assert(dirty_of(*graph, mem0, reps2) == r2.dirty@);
            assert forall|k: int| 0 <= k < r2.errors@.len() implies same_error(#[trigger] r2.errors@[k], errors_of(reps2)[k]) by {
                if k < r1.errors@.len() {
                    assert(r2.errors@[k] == r1.errors@[k]);
                    assert(errors_of(reps2)[k] == errors_of(reps)[k]);
                }
            }
            assert(r2.computed@ == (if computed_ok { r1.computed@.push(node_id) } else { r1.computed@ }));
            assert forall|x: NodeId| #[trigger] state.has_output(x) == (s0.has_output(x) || r2.computed@.contains(x)) by {
                assert(state.has_output(x) == g3.has_output(x));
                if computed_ok && x == node_id {
                    assert(r2.computed@.last() == x);
                }
                if r1.computed@.contains(x) {
                    let t = choose|t: int| 0 <= t < r1.computed@.len() && r1.computed@[t] == x;
                    assert(r2.computed@[t] == x);
                }
                if r2.computed@.contains(x) && !r1.computed@.contains(x) {
                    let t = choose|t: int| 0 <= t < r2.computed@.len() && r2.computed@[t] == x;
                    assert(computed_ok && t == r1.computed@.len());
                }
            }
            assert(!order.subrange(0, pos).contains(node_id)) by {
                if order.subrange(0, pos).contains(node_id) {
                    let t = choose|t: int| 0 <= t < pos && order.subrange(0, pos)[t] == node_id;
                    assert(order[t] == order[pos]);
                    assert(order.no_duplicates());
                }
            }
            assert(!r1.computed@.contains(node_id));
            assert forall|x: NodeId| !r2.computed@.contains(x) && s0.has_output(x) implies #[trigger] state.output_of(x) == s0.output_of(x) by {
                assert(state.output_of(x) == g3.output_of(x));
                if r1.computed@.contains(x) {
                    let t = choose|t: int| 0 <= t < r1.computed@.len() && r1.computed@[t] == x;
                    assert(r2.computed@[t] == x);
                }
                assert(!r1.computed@.contains(x));
                assert(g1.has_output(x));
                assert(g1.output_of(x) == s0.output_of(x));
                if x != node_id {
                    assert(g3.output_of(x) == g1.output_of(x));
                } else {
                    if computed_ok {
                        assert(r2.computed@[r2.computed@.len() - 1] == node_id);
                    }
                    assert(!computed_ok);
                    assert(g3.output_seq() == g1.output_seq());
                    assert(g3.output_of(x) == g1.output_of(x));
                }
            }
            assert forall|x: NodeId| #[trigger] r2.computed@.contains(x) implies order.subrange(0, run.position()).contains(x) by {
                if r1.computed@.contains(x) {
                    let t = choose|t: int| 0 <= t < pos && order.subrange(0, pos)[t] == x;
                    assert(order.subrange(0, run.position())[t] == x);
                } else {
                    let t = choose|t: int| 0 <= t < r2.computed@.len() && r2.computed@[t] == x;
                    assert(t == r1.computed@.len());
                    assert(order.subrange(0, run.position())[pos] == node_id);
                }
            }
            let f1 = failed_of(reps);
            let f2 = failed_of(reps2);
            assert(f1 == run_failed_before);
            assert forall|x: NodeId| #[trigger] f2.contains(x) implies f1.contains(x) || x == node_id by {
                if f2.contains(x) && !f1.contains(x) {
                    let t = choose|t: int| 0 <= t < f2.len() && f2[t] == x;
                    assert(f2 == f1.push(node_id));
                    assert(t == f1.len());
                }
            }
            assert forall|x: NodeId| #[trigger] f1.contains(x) implies f2.contains(x) by {
                let t = choose|t: int| 0 <= t < f1.len() && f1[t] == x;
                if f2 != f1 {
                    assert(f2 == f1.push(node_id));
                }
                assert(f2[t] == x);
            }
            // the nodes whose outputs this node was given come before it and have not failed
            let gout = gather_outcome(*graph, kinds@, stored_after(stored0, reps), node_id);
            lemma_gathered_feed(*graph, kinds@, stored_after(stored0, reps), node_id);
            if plan.action == PlanAction::Compute && gout is Ok {
                let ns = gout->Ok_0.1;
                assert forall|t: int| 0 <= t < ns.len() implies order.subrange(0, pos).contains(#[trigger] ns[t])
                    && !f2.contains(ns[t]) && ns[t] != node_id by {
                    let u = ns[t];
                    assert(graph.feeds(u, order[pos]));
                    let q = choose|q: int| 0 <= q < pos && #[trigger] order[q] == u;
                    assert(order.subrange(0, pos)[q] == u);
                    assert(u != node_id) by {
                        assert(order.no_duplicates());
                    }
                    lemma_feeder_not_failed(plan, *graph, st0, node_id, f1, u);
                }
            }
            assert forall|k: int, x: NodeId| 0 <= k < r2.errors@.len() && #[trigger] error_names(r2.errors@[k], x) implies f2.contains(x) by {
                if k < r1.errors@.len() {
                    assert(r2.errors@[k] == r1.errors@[k]);
                    assert(f1.contains(x));
                } else {
                    assert(k == r1.errors@.len());
                    assert(f2 == f1.push(node_id));
                    assert(f2.last() == node_id);
                    if x != node_id {
                        assert(plan.action == PlanAction::UpstreamFailed);
                        assert(plan.failed_upstream@.contains(x));
                        broadcast use vstd::seq_lib::group_filter_ensures;
                        assert(f1.contains(x));
                    }
                }
            }
            assert forall|j: int| 0 <= j < run.position() implies #[trigger] feeders_clear(*graph, kinds@, stored0, mem0, r2, j) by {
                if j < pos {
                    assert(reps2.take(j) =~= reps.take(j));
                    assert(feeders_clear(*graph, kinds@, stored0, mem0, r1, j));
                    assert(!order.subrange(0, j).contains(node_id)) by {
                        if order.subrange(0, j).contains(node_id) {
                            let q = choose|q: int| 0 <= q < j && order.subrange(0, j)[q] == node_id;
                            assert(order[q] == order[pos]);
                            assert(order.no_duplicates());
                        }
                    }
                } else {
                    assert(reps2.take(j) =~= reps);
                    assert(r2.ordered@[j] == node_id);
                }
            }
            assert forall|j: int| 0 <= j < run.position() implies #[trigger] geometry_step_follows(compute_node, *graph, kinds@, stored0, mem0,
                r2, *state, j) by {
                if j < pos {
                    assert(reps2.take(j) =~= reps.take(j));
                    assert(reps2[j] == reps[j]);
                    let keep = |x: NodeId| x != node_id;
                    assert forall|x: NodeId| order.subrange(0, j).contains(x) && !failed_of(reps).contains(x) implies #[trigger] keep(x) by {
                        let q = choose|q: int| 0 <= q < j && order.subrange(0, j)[q] == x;
                        assert(order[q] == x);
                        assert(order.no_duplicates());
                    }
                    assert(order[j] != node_id) by {
                        assert(order.no_duplicates());
                    }
                    assert forall|x: NodeId| keep(x) && g1.has_output(x) implies #[trigger] state.has_output(x) && state.output_of(x) == g1.output_of(x) by {
                        assert(state.has_output(x) == g3.has_output(x));
                        assert(state.output_of(x) == g3.output_of(x));
                    }
                    lemma_step_follows_kept(compute_node, *graph, kinds@, stored0, mem0, r1, r2, g1, *state, j, keep);
                } else {
                    assert(reps2.take(j) =~= reps);
                    assert(r2.ordered@[j] == node_id);
                    assert(planned_action(*graph, mem_of(*graph, mem0, reps2.take(j)), failed_of(reps2.take(j)), node_id) == plan.action);
                    if plan.action == PlanAction::Compute {
                        if called {
                            let ns = gout->Ok_0.1;
                            assert forall|t: int| 0 <= t < ns.len() implies state.has_output(#[trigger] ns[t])
                                && cloned(state.output_of(ns[t]), gins@[t]) by {
                                let u = ns[t];
                                assert(u != node_id);
                                assert(g2.has_output(u));
                                assert(cloned(g2.output_of(u), gins@[t]));
                                assert(g1.has_output(u));
                                assert(g2.output_of(u) == g1.output_of(u));
                                assert(g3.output_of(u) == g1.output_of(u));
                                assert(state.has_output(u) == g3.has_output(u));
                                assert(state.output_of(u) == g3.output_of(u));
                            }
                            assert(inputs_tie(*state, ns, gins));
                            if ok {
                                assert(computed_ok);
                                assert(g3.has_output(node_id));
                                assert(state.has_output(node_id) == g3.has_output(node_id));
                                assert(state.has_output(node_id));
                                assert(state.output_of(node_id) == g3.output_of(node_id));
                                assert(call_ensures(compute_node, (gk, &graph.node_at(node_id).params, gins), Ok::<G, String>(state.output_of(node_id))));
                            } else {
                                match gr {
                                    Err(m) => {
                                        assert(r2.errors@.last() matches EvalError::Node { node, message } && message@ == m@);
                                        assert(reps2[j].error matches Some(EvalError::Node { message, .. }) && message@ == m@);
                                    },
                                    Ok(_) => {},
                                }
                            }
                        } else {
                            assert(r2.errors@.last() matches EvalError::Node { node, message } && message@ == res->Err_0@);
                        }
                    }
                }
            }
        }
    }
    let report = run.finish();
    if !report.output_valid {
        let ghost g4 = *state;
        let ghost failed = failed_of(report.node_reports@);
        let mut k: usize = 0;
        while k < report.errors.len()
            invariant
                state.wf(),
                state.eval_view() == g4.eval_view(),
                0 <= k <= report.errors@.len(),
                failed == failed_of(report.node_reports@),
                forall|k2: int, x: NodeId| 0 <= k2 < report.errors@.len() && #[trigger] error_names(report.errors@[k2], x)
                    ==> failed.contains(x),
                forall|x: NodeId| #[trigger] state.has_output(x) ==> g4.has_output(x),
                forall|x: NodeId| g4.has_output(x) && !failed.contains(x) ==> #[trigger] state.has_output(x)
                    && state.output_of(x) == g4.output_of(x),
                forall|k2: int| 0 <= k2 < k ==> match #[trigger] report.errors@[k2] {
                    EvalError::Node { node, .. } => !state.has_output(node),
                    EvalError::Upstream { node, upstream } => !state.has_output(node)
                        && forall|j: int| 0 <= j < upstream@.len() ==> !state.has_output(#[trigger] upstream@[j]),
                },
            decreases report.errors@.len() - k,
        {
            match &report.errors[k] {
                EvalError::Node { node, .. } => {
                    assert(error_names(report.errors@[k as int], *node));
                    state.remove_output(*node);
                },
                EvalError::Upstream { node, upstream } => {
                    assert(error_names(report.errors@[k as int], *node));
                    state.remove_output(*node);
                    let mut t: usize = 0;
                    while t < upstream.len()
                        invariant
                            state.wf(),
                            state.eval_view() == g4.eval_view(),
                            0 <= t <= upstream@.len(),
                            0 <= k < report.errors@.len(),
                            report.errors@[k as int] == (EvalError::Upstream { node: *node, upstream: *upstream }),
                            !state.has_output(*node),
                            forall|k2: int, x: NodeId| 0 <= k2 < report.errors@.len() && #[trigger] error_names(report.errors@[k2], x)
                                ==> failed.contains(x),
                            forall|x: NodeId| #[trigger] state.has_output(x) ==> g4.has_output(x),
                            forall|x: NodeId| g4.has_output(x) && !failed.contains(x) ==> #[trigger] state.has_output(x)
                                && state.output_of(x) == g4.output_of(x),
                            forall|j: int| 0 <= j < t ==> !state.has_output(#[trigger] upstream@[j]),
                            forall|k2: int| 0 <= k2 < k ==> match #[trigger] report.errors@[k2] {
                                EvalError::Node { node, .. } => !state.has_output(node),
                                EvalError::Upstream { node, upstream } => !state.has_output(node)
                                    && forall|j: int| 0 <= j < upstream@.len() ==> !state.has_output(#[trigger] upstream@[j]),
                            },
                        decreases upstream@.len() - t,
                    {
                        assert(upstream@.contains(upstream@[t as int]));
                        assert(error_names(report.errors@[k as int], upstream@[t as int]));
                        state.remove_output(upstream[t]);
                        t = t + 1;
                    }
                },
            }
            k = k + 1;
        }
        state.remove_output(output);
        proof {
            let order = report.ordered@;
            assert forall|i: int| 0 <= i < order.len() implies #[trigger] geometry_step_follows(compute_node, *graph, kinds@,
                stored0, mem0, report, *state, i) by {
                let keep = |x: NodeId| !failed.contains(x) && x != output;
                assert forall|x: NodeId| order.subrange(0, i).contains(x) && !failed_of(report.node_reports@).contains(x) implies #[trigger] keep(x) by {
                    let q = choose|q: int| 0 <= q < i && order.subrange(0, i)[q] == x;
                    assert(order[q] == x);
                    assert(order[order.len() - 1] == output);
                    assert(order.no_duplicates());
                }
                assert(feeders_clear(*graph, kinds@, stored0, mem0, report, i));
                lemma_step_follows_kept(compute_node, *graph, kinds@, stored0, mem0, report, report, g4, *state, i, keep);
            }
        }
        return Ok(GeometryEvalResult { report, output: None });
    }
    let out = match state.geometry_for_node(output) {
        Some(g) => Some(g.clone()),
        None => None,
    };
    Ok(GeometryEvalResult { report, output: out })
}

} // verus!
