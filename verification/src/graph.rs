//! The node graph: nodes with input and output pins, and links from output
//! pins to input pins.

use vstd::prelude::*;
use crate::params::{NodeParams, ParamValue, param_eq};
use crate::text::text_eq;

verus! {

/// Identifies a node of a graph.
#[derive(Debug, Clone, Copy, PartialEq, Eq, Hash, PartialOrd, Ord, Structural)]
pub struct NodeId(pub u64);

/// Identifies a pin of a graph.
#[derive(Debug, Clone, Copy, PartialEq, Eq, Hash, PartialOrd, Ord, Structural)]
pub struct PinId(pub u64);

/// Identifies a link of a graph.
#[derive(Debug, Clone, Copy, PartialEq, Eq, Hash, PartialOrd, Ord, Structural)]
pub struct LinkId(pub u64);

/// The kind of data that flows through a pin.
#[derive(Debug, Copy, Clone, PartialEq, Eq, Structural)]
pub enum PinType {
    Geometry,
    Mesh,
    Splats,
    Float,
    Int,
    Bool,
    Vec2,
    Vec3,
}

/// Whether a pin receives or emits data.
#[derive(Debug, Copy, Clone, PartialEq, Eq, Structural)]
pub enum PinKind {
    Input,
    Output,
}

/// The description of one pin of a node kind.
#[derive(Debug, Clone)]
pub struct PinDefinition {
    pub name: String,
    pub pin_type: PinType,
}

/// The description of a node kind: its name, category and pins.
#[derive(Debug, Clone)]
pub struct NodeDefinition {
    pub name: String,
    pub category: String,
    pub inputs: Vec<PinDefinition>,
    pub outputs: Vec<PinDefinition>,
}

/// A pin of a node in a graph.
#[derive(Debug, Clone)]
pub struct Pin {
    pub id: PinId,
    pub node: NodeId,
    pub name: String,
    pub kind: PinKind,
    pub pin_type: PinType,
}

/// A link from an output pin to an input pin.
#[derive(Debug, Clone, Copy)]
pub struct Link {
    pub id: LinkId,
    pub from: PinId,
    pub to: PinId,
}

/// Why a graph operation was refused.
#[derive(Debug, Clone)]
pub enum GraphError {
    MissingNode(NodeId),
    MissingPin(PinId),
    WrongPinDirection { from: PinId, to: PinId },
    InputAlreadyConnected { to: PinId },
    IncompatiblePinTypes { from: PinType, to: PinType },
    CycleDetected(Vec<NodeId>),
}

/// A node in a graph. `position` holds the bit patterns of the two `f32`
/// coordinates of the node in the editor.
#[derive(Debug)]
pub struct Node {
    pub id: NodeId,
    pub name: String,
    pub category: String,
    pub inputs: Vec<PinId>,
    pub outputs: Vec<PinId>,
    pub params: NodeParams,
    pub param_version: u64,
    pub display: bool,
    pub template: bool,
    pub position: Option<[u32; 2]>,
}

/// Whether data of type `from` may flow into a pin of type `to`.
pub open spec fn spec_pin_types_compatible(from: PinType, to: PinType) -> bool {
    from == to || (from == PinType::Geometry && to == PinType::Mesh) || (from == PinType::Geometry
        && to == PinType::Splats) || (from == PinType::Mesh && to == PinType::Geometry) || (from
        == PinType::Splats && to == PinType::Geometry)
}

/// Whether data of type `from` may flow into a pin of type `to`: equal types, or
/// geometry to and from meshes and splats.
pub fn pin_types_compatible(from: PinType, to: PinType) -> (r: bool)
    ensures
        r == spec_pin_types_compatible(from, to),
{
    if from == to {
        return true;
    }
    match (from, to) {
        (PinType::Geometry, PinType::Mesh) => true,
        (PinType::Geometry, PinType::Splats) => true,
        (PinType::Mesh, PinType::Geometry) => true,
        (PinType::Splats, PinType::Geometry) => true,
        _ => false,
    }
}

/// Node ids strictly increase along the sequence.
pub open spec fn node_ids_increasing(s: Seq<Node>) -> bool {
    forall|i: int, j: int| 0 <= i < j < s.len() ==> s[i].id.0 < s[j].id.0
}

/// Pin ids strictly increase along the sequence.
pub open spec fn pin_ids_increasing(s: Seq<Pin>) -> bool {
    forall|i: int, j: int| 0 <= i < j < s.len() ==> s[i].id.0 < s[j].id.0
}

/// Link ids strictly increase along the sequence.
pub open spec fn link_ids_increasing(s: Seq<Link>) -> bool {
    forall|i: int, j: int| 0 <= i < j < s.len() ==> s[i].id.0 < s[j].id.0
}

/// A graph. Nodes, pins and links are each kept in increasing order of their ids,
/// which is the order in which they are listed.
pub struct Graph {
    nodes: Vec<Node>,
    pins: Vec<Pin>,
    links: Vec<Link>,
    next_node_id: u64,
    next_pin_id: u64,
    next_link_id: u64,
}

impl Graph {
    /// The nodes, in increasing id order.
    pub closed spec fn node_seq(&self) -> Seq<Node> {
        self.nodes@
    }

    /// The pins, in increasing id order.
    pub closed spec fn pin_seq(&self) -> Seq<Pin> {
        self.pins@
    }

    /// The links, in increasing id order.
    pub closed spec fn link_seq(&self) -> Seq<Link> {
        self.links@
    }

    /// The ids that the next node, pin and link will get.
    pub closed spec fn next_ids(&self) -> (u64, u64, u64) {
        (self.next_node_id, self.next_pin_id, self.next_link_id)
    }

    pub open spec fn has_node(&self, id: NodeId) -> bool {
        exists|i: int| 0 <= i < self.node_seq().len() && #[trigger] self.node_seq()[i].id == id
    }

    pub open spec fn node_pos(&self, id: NodeId) -> int {
        choose|i: int| 0 <= i < self.node_seq().len() && #[trigger] self.node_seq()[i].id == id
    }

    /// The node with the given id (meaningful where `has_node(id)`).
    pub open spec fn node_at(&self, id: NodeId) -> Node {
        self.node_seq()[self.node_pos(id)]
    }

    pub open spec fn has_pin(&self, id: PinId) -> bool {
        exists|i: int| 0 <= i < self.pin_seq().len() && #[trigger] self.pin_seq()[i].id == id
    }

    pub open spec fn pin_pos(&self, id: PinId) -> int {
        choose|i: int| 0 <= i < self.pin_seq().len() && #[trigger] self.pin_seq()[i].id == id
    }

    /// The pin with the given id (meaningful where `has_pin(id)`).
    pub open spec fn pin_at(&self, id: PinId) -> Pin {
        self.pin_seq()[self.pin_pos(id)]
    }

    /// The graph is well formed: ids increase and stay below the next ids, every pin
    /// belongs to a node of the graph, every link joins two pins of the graph, and
    /// no input pin receives two links.
    pub open spec fn wf(&self) -> bool {
        &&& node_ids_increasing(self.node_seq())
        &&& pin_ids_increasing(self.pin_seq())
        &&& link_ids_increasing(self.link_seq())
        &&& forall|i: int| 0 <= i < self.node_seq().len() ==> #[trigger] self.node_seq()[i].id.0 < self.next_ids().0
        &&& forall|i: int| 0 <= i < self.pin_seq().len() ==> #[trigger] self.pin_seq()[i].id.0 < self.next_ids().1
        &&& forall|i: int| 0 <= i < self.link_seq().len() ==> #[trigger] self.link_seq()[i].id.0 < self.next_ids().2
        &&& forall|i: int| 0 <= i < self.pin_seq().len() ==> self.has_node(#[trigger] self.pin_seq()[i].node)
        &&& forall|i: int| 0 <= i < self.link_seq().len() ==> self.has_pin(#[trigger] self.link_seq()[i].from)
            && self.has_pin(self.link_seq()[i].to)
        &&& forall|i: int, j: int| 0 <= i < self.link_seq().len() && 0 <= j < self.link_seq().len() && i != j
            ==> #[trigger] self.link_seq()[i].to != #[trigger] self.link_seq()[j].to
        &&& forall|i: int| 0 <= i < self.pin_seq().len() ==> #[trigger] self.pin_listed(self.pin_seq()[i])
        &&& forall|i: int| 0 <= i < self.node_seq().len() ==> #[trigger] self.node_pins_ok(self.node_seq()[i])
        &&& forall|i: int| 0 <= i < self.node_seq().len() ==> (#[trigger] self.node_seq()[i]).params.values.wf()
    }

    /// Pin `p` is listed among the inputs or outputs of its node.
    pub open spec fn pin_listed(&self, p: Pin) -> bool {
        self.node_at(p.node).inputs@.contains(p.id) || self.node_at(p.node).outputs@.contains(p.id)
    }

    /// Every pin listed by node `n` is a pin of the graph that belongs to `n`.
    pub open spec fn node_pins_ok(&self, n: Node) -> bool {
        forall|q: PinId| #![trigger n.inputs@.contains(q)] #![trigger n.outputs@.contains(q)]
            (n.inputs@.contains(q) || n.outputs@.contains(q)) ==> self.has_pin(q) && self.pin_at(q).node == n.id
    }

    /// Link `l` runs from a pin of node `a` to a pin of node `b`.
    pub open spec fn link_joins(&self, l: Link, a: NodeId, b: NodeId) -> bool {
        self.has_pin(l.from) && self.has_pin(l.to) && self.pin_at(l.from).node == a && self.pin_at(
            l.to,
        ).node == b
    }

    /// Node `a` feeds node `b`: some link runs from an output of `a` to an input of `b`.
    pub open spec fn feeds(&self, a: NodeId, b: NodeId) -> bool {
        exists|k: int| 0 <= k < self.link_seq().len() && #[trigger] self.link_joins(self.link_seq()[k], a, b)
    }

    /// The nodes that feed `n` through the given links, one entry per link, in link order.
    pub open spec fn upstream_along(&self, links: Seq<Link>, n: NodeId) -> Seq<NodeId>
        decreases links.len(),
    {
        if links.len() == 0 {
            Seq::empty()
        } else {
            let rest = self.upstream_along(links.drop_last(), n);
            let l = links.last();
            if self.has_pin(l.to) && self.pin_at(l.to).node == n && self.has_pin(l.from) {
                rest.push(self.pin_at(l.from).node)
            } else {
                rest
            }
        }
    }

    /// `p` runs upstream: each element after the first feeds the one before it.
    pub open spec fn is_upstream_path(&self, p: Seq<NodeId>) -> bool {
        forall|k: int| 0 <= k < p.len() - 1 ==> #[trigger] self.feeds(p[k + 1], p[k])
    }

    /// Node `a` lies upstream of `root` (or is `root`).
    pub open spec fn reaches(&self, root: NodeId, a: NodeId) -> bool {
        exists|p: Seq<NodeId>| #[trigger] self.is_upstream_path(p) && p.len() >= 1 && p[0] == root && p.last() == a
    }

    /// Every node feeding an element of `order` occurs earlier in `order`.
    pub open spec fn upstream_first(&self, order: Seq<NodeId>) -> bool {
        forall|i: int, a: NodeId| 0 <= i < order.len() && #[trigger] self.feeds(a, order[i]) ==> exists|j: int|
            0 <= j < i && #[trigger] order[j] == a
    }

    /// `p` is an upstream path from `root` that returns to a node it passed before.
    pub open spec fn is_cycle_from(&self, root: NodeId, p: Seq<NodeId>) -> bool {
        &&& p.len() >= 2
        &&& p[0] == root
        &&& self.is_upstream_path(p)
        &&& exists|k: int| 0 <= k < p.len() - 1 && p[k] == p.last()
    }

    /// A cycle can be reached upstream of `root`.
    pub open spec fn has_cycle_upstream(&self, root: NodeId) -> bool {
        exists|p: Seq<NodeId>| #[trigger] self.is_cycle_from(root, p)
    }
}


/// The position of a node is the one place where its id occurs.
pub proof fn lemma_node_pos(g: &Graph, i: int)
    requires
        node_ids_increasing(g.node_seq()),
        0 <= i < g.node_seq().len(),
    ensures
        g.has_node(g.node_seq()[i].id),
        g.node_pos(g.node_seq()[i].id) == i,
        g.node_at(g.node_seq()[i].id) == g.node_seq()[i],
{
    let id = g.node_seq()[i].id;
    assert(g.node_seq()[i].id == id);
    let j = g.node_pos(id);
    assert(g.node_seq()[j].id == id);
    if j < i {
        assert(g.node_seq()[j].id.0 < g.node_seq()[i].id.0);
    } else if i < j {
        assert(g.node_seq()[i].id.0 < g.node_seq()[j].id.0);
    }
}

/// The position of a pin is the one place where its id occurs.
pub proof fn lemma_pin_pos(g: &Graph, i: int)
    requires
        pin_ids_increasing(g.pin_seq()),
        0 <= i < g.pin_seq().len(),
    ensures
        g.has_pin(g.pin_seq()[i].id),
        g.pin_pos(g.pin_seq()[i].id) == i,
        g.pin_at(g.pin_seq()[i].id) == g.pin_seq()[i],
{
    let id = g.pin_seq()[i].id;
    assert(g.pin_seq()[i].id == id);
    let j = g.pin_pos(id);
    assert(g.pin_seq()[j].id == id);
    if j < i {
        assert(g.pin_seq()[j].id.0 < g.pin_seq()[i].id.0);
    } else if i < j {
        assert(g.pin_seq()[i].id.0 < g.pin_seq()[j].id.0);
    }
}

/// The nodes listed by `upstream_along` are exactly those joined to `n` by one of the links.
pub proof fn lemma_upstream_along(g: &Graph, links: Seq<Link>, n: NodeId, a: NodeId)
    ensures
        g.upstream_along(links, n).contains(a) <==> exists|k: int| 0 <= k < links.len() && #[trigger] g.link_joins(links[k], a, n),
    decreases links.len(),
{
    if links.len() > 0 {
        let rest = links.drop_last();
        lemma_upstream_along(g, rest, n, a);
        let l = links.last();
        if g.upstream_along(links, n).contains(a) {
            if g.upstream_along(rest, n).contains(a) {
                let k = choose|k: int| 0 <= k < rest.len() && #[trigger] g.link_joins(rest[k], a, n);
                assert(links[k] == rest[k]);
            } else {
                let s = g.upstream_along(links, n);
                let i = choose|i: int| 0 <= i < s.len() && s[i] == a;
                assert(g.link_joins(links[links.len() - 1], a, n));
            }
        }
        if exists|k: int| 0 <= k < links.len() && #[trigger] g.link_joins(links[k], a, n) {
            let k = choose|k: int| 0 <= k < links.len() && #[trigger] g.link_joins(links[k], a, n);
            if k < links.len() - 1 {
                assert(rest[k] == links[k]);
                assert(g.link_joins(rest[k], a, n));
                let s = g.upstream_along(rest, n);
                let i = choose|i: int| 0 <= i < s.len() && s[i] == a;
                assert(g.upstream_along(links, n)[i] == a);
            } else {
                let s = g.upstream_along(links, n);
                assert(s.last() == a);
            }
        }
    }
}

impl Default for Graph {
    fn default() -> (r: Self)
        ensures
            r.wf(),
            r.node_seq().len() == 0,
            r.pin_seq().len() == 0,
            r.link_seq().len() == 0,
            r.next_ids() == (1u64, 1u64, 1u64),
    {
        Graph {
            nodes: Vec::new(),
            pins: Vec::new(),
            links: Vec::new(),
            next_node_id: 1,
            next_pin_id: 1,
            next_link_id: 1,
        }
    }
}

impl Graph {
    fn find_node(&self, id: NodeId) -> (r: Option<usize>)
        requires
            self.wf(),
        ensures
            match r {
                Some(i) => i < self.node_seq().len() && self.node_seq()[i as int].id == id
                    && self.has_node(id) && self.node_pos(id) == i,
                None => !self.has_node(id),
            },
    {
        let mut i: usize = 0;
        while i < self.nodes.len()
            invariant
                self.wf(),
                0 <= i <= self.nodes@.len(),
                forall|j: int| 0 <= j < i ==> self.nodes@[j].id != id,
            decreases self.nodes@.len() - i,
        {
            if self.nodes[i].id.0 == id.0 {
                proof { lemma_node_pos(self, i as int); }
                return Some(i);
            }
            i = i + 1;
        }
        None
    }

    fn find_pin(&self, id: PinId) -> (r: Option<usize>)
        requires
            self.wf(),
        ensures
            match r {
                Some(i) => i < self.pin_seq().len() && self.pin_seq()[i as int].id == id
                    && self.has_pin(id) && self.pin_pos(id) == i,
                None => !self.has_pin(id),
            },
    {
        let mut i: usize = 0;
        while i < self.pins.len()
            invariant
                self.wf(),
                0 <= i <= self.pins@.len(),
                forall|j: int| 0 <= j < i ==> self.pins@[j].id != id,
            decreases self.pins@.len() - i,
        {
            if self.pins[i].id.0 == id.0 {
                proof { lemma_pin_pos(self, i as int); }
                return Some(i);
            }
            i = i + 1;
        }
        None
    }

    /// All nodes, in increasing id order.
    pub fn nodes(&self) -> (r: &[Node])
        ensures
            r@ == self.node_seq(),
    {
        self.nodes.as_slice()
    }

    /// All links, in increasing id order.
    pub fn links(&self) -> (r: &[Link])
        ensures
            r@ == self.link_seq(),
    {
        self.links.as_slice()
    }

    /// All pins, in increasing id order.
    pub fn pins(&self) -> (r: &[Pin])
        ensures
            r@ == self.pin_seq(),
    {
        self.pins.as_slice()
    }

    /// The node with the given id.
    pub fn node(&self, id: NodeId) -> (r: Option<&Node>)
        requires
            self.wf(),
        ensures
            match r {
                Some(n) => self.has_node(id) && *n == self.node_at(id),
                None => !self.has_node(id),
            },
    {
        match self.find_node(id) {
            Some(i) => Some(&self.nodes[i]),
            None => None,
        }
    }

    /// The pin with the given id.
    pub fn pin(&self, id: PinId) -> (r: Option<&Pin>)
        requires
            self.wf(),
        ensures
            match r {
                Some(p) => self.has_pin(id) && *p == self.pin_at(id),
                None => !self.has_pin(id),
            },
    {
        match self.find_pin(id) {
            Some(i) => Some(&self.pins[i]),
            None => None,
        }
    }

    fn node_for_pin(&self, pin_id: PinId) -> (r: Option<NodeId>)
        requires
            self.wf(),
        ensures
            match r {
                Some(n) => self.has_pin(pin_id) && n == self.pin_at(pin_id).node,
                None => !self.has_pin(pin_id),
            },
    {
        match self.find_pin(pin_id) {
            Some(i) => Some(self.pins[i].node),
            None => None,
        }
    }

    /// The nodes that feed `node_id`: for each link, in link order, that ends at an
    /// input of `node_id`, the node of its source pin.
    pub fn upstream_nodes(&self, node_id: NodeId) -> (r: Vec<NodeId>)
        requires
            self.wf(),
        ensures
            r@ == self.upstream_along(self.link_seq(), node_id),
            forall|a: NodeId| r@.contains(a) <==> self.feeds(a, node_id),
            forall|k: int| 0 <= k < r@.len() ==> self.has_node(#[trigger] r@[k]),
    {
        let mut upstream: Vec<NodeId> = Vec::new();
        let mut i: usize = 0;
        while i < self.links.len()
            invariant
                self.wf(),
                0 <= i <= self.links@.len(),
                upstream@ == self.upstream_along(self.links@.take(i as int), node_id),
            decreases self.links@.len() - i,
        {
            let link = self.links[i];
            assert(self.links@.take(i + 1).drop_last() =~= self.links@.take(i as int));
            match self.node_for_pin(link.to) {
                None => {},
                Some(to_node) => {
                    if to_node.0 == node_id.0 {
                        match self.node_for_pin(link.from) {
                            Some(from_node) => {
                                upstream.push(from_node);
                            },
                            None => {},
                        }
                    }
                },
            }
            i = i + 1;
        }
        assert(self.links@.take(self.links@.len() as int) =~= self.links@);
        proof {
            assert forall|a: NodeId| upstream@.contains(a) <==> self.feeds(a, node_id) by {
                lemma_upstream_along(self, self.link_seq(), node_id, a);
            }
            assert forall|k: int| 0 <= k < upstream@.len() implies self.has_node(#[trigger] upstream@[k]) by {
                let a = upstream@[k];
                assert(upstream@.contains(a));
                lemma_upstream_along(self, self.link_seq(), node_id, a);
                let m = choose|m: int| 0 <= m < self.link_seq().len() && #[trigger] self.link_joins(self.link_seq()[m], a, node_id);
                let from = self.link_seq()[m].from;
                let pi = self.pin_pos(from);
                assert(self.pin_seq()[pi].id == from);
                assert(self.has_node(self.pin_seq()[pi].node));
            }
        }
        upstream
    }
}


/// Whether `id` occurs in `v`.
pub fn ids_contain(v: &[NodeId], id: NodeId) -> (r: bool)
    ensures
        r == v@.contains(id),
{
    let mut i: usize = 0;
    while i < v.len()
        invariant
            0 <= i <= v@.len(),
            forall|j: int| 0 <= j < i ==> v@[j] != id,
        decreases v@.len() - i,
    {
        if v[i].0 == id.0 {
            return true;
        }
        i = i + 1;
    }
    false
}

/// A copy of a list of node ids.
pub fn copy_ids(v: &[NodeId]) -> (r: Vec<NodeId>)
    ensures
        r@ == v@,
{
    let mut out: Vec<NodeId> = Vec::new();
    let mut i: usize = 0;
    while i < v.len()
        invariant
            0 <= i <= v@.len(),
            out@ == v@.take(i as int),
        decreases v@.len() - i,
    {
        out.push(v[i]);
        assert(v@.take(i as int).push(v@[i as int]) =~= v@.take(i + 1));
        i = i + 1;
    }
    assert(v@.take(v@.len() as int) =~= v@);
    out
}

impl Graph {
    /// What holds of the finished part of a depth-first walk upstream of `root`:
    /// distinct nodes of the graph, each reachable from `root`, each after its feeders.
    pub open spec fn ordered_ok(&self, root: NodeId, ordered: Seq<NodeId>) -> bool {
        &&& ordered.no_duplicates()
        &&& forall|i: int| 0 <= i < ordered.len() ==> self.has_node(#[trigger] ordered[i])
        &&& self.upstream_first(ordered)
        &&& forall|i: int| 0 <= i < ordered.len() ==> self.reaches(root, #[trigger] ordered[i])
    }

    /// What holds of the path of a depth-first walk from `root` that is about to enter `node`.
    pub open spec fn stack_ok(&self, root: NodeId, stack: Seq<NodeId>, node: NodeId) -> bool {
        &&& stack.no_duplicates()
        &&& forall|i: int| 0 <= i < stack.len() ==> self.has_node(#[trigger] stack[i])
        &&& self.is_upstream_path(stack)
        &&& stack.len() == 0 ==> node == root
        &&& stack.len() > 0 ==> stack[0] == root && self.feeds(node, stack.last())
    }
}

/// A list of distinct nodes of the graph is no longer than the list of all nodes.
pub proof fn lemma_distinct_nodes_bound(g: &Graph, s: Seq<NodeId>)
    requires
        g.wf(),
        s.no_duplicates(),
        forall|i: int| 0 <= i < s.len() ==> g.has_node(#[trigger] s[i]),
    ensures
        s.len() <= g.node_seq().len(),
{
    let ids = g.node_seq().map_values(|n: Node| n.id);
    assert forall|x: NodeId| s.to_set().contains(x) implies ids.to_set().contains(x) by {
        let i = choose|i: int| 0 <= i < s.len() && s[i] == x;
        assert(g.has_node(s[i]));
        let j = choose|j: int| 0 <= j < g.node_seq().len() && #[trigger] g.node_seq()[j].id == x;
        assert(ids[j] == x);
    }
    s.unique_seq_to_set();
    ids.lemma_cardinality_of_set();
    vstd::seq_lib::seq_to_set_is_finite(ids);
    vstd::set_lib::lemma_len_subset(s.to_set(), ids.to_set());
}

/// Every node reachable upstream of `root` lies in an order that holds `root` and
/// lists the feeders of each of its elements.
proof fn lemma_reachable_in_order(g: &Graph, root: NodeId, order: Seq<NodeId>, p: Seq<NodeId>, k: int)
    requires
        order.contains(root),
        g.upstream_first(order),
        g.is_upstream_path(p),
        p.len() >= 1,
        p[0] == root,
        0 <= k < p.len(),
    ensures
        order.contains(p[k]),
    decreases k,
{
    if k > 0 {
        lemma_reachable_in_order(g, root, order, p, k - 1);
        let k1 = k - 1;
        assert(g.feeds(p[k1 + 1], p[k1]));
        let i = choose|i: int| 0 <= i < order.len() && order[i] == p[k - 1];
        assert(g.feeds(p[k], order[i]));
        let j = choose|j: int| 0 <= j < i && #[trigger] order[j] == p[k];
        assert(order[j] == p[k]);
    }
}

/// Along an upstream path whose nodes all lie in a feeders-first order, positions in
/// that order strictly decrease.
proof fn lemma_order_positions_decrease(g: &Graph, order: Seq<NodeId>, p: Seq<NodeId>, k: int, m: int)
    requires
        order.no_duplicates(),
        g.upstream_first(order),
        g.is_upstream_path(p),
        forall|i: int| 0 <= i < p.len() ==> order.contains(#[trigger] p[i]),
        0 <= k < m < p.len(),
    ensures
        order.index_of(p[m]) < order.index_of(p[k]),
    decreases m - k,
{
    let a = p[m];
    let b = p[m - 1];
    assert(order.contains(a));
    assert(order.contains(b));
    let ib = order.index_of(b);
    let ia = order.index_of(a);
    assert(order[ib] == b);
    let m1 = m - 1;
    assert(g.feeds(p[m1 + 1], p[m1]));
    assert(g.feeds(a, order[ib]));
    let j = choose|j: int| 0 <= j < ib && #[trigger] order[j] == a;
    assert(order[ia] == a);
    assert(ia == j);
    if m - 1 > k {
        lemma_order_positions_decrease(g, order, p, k, m - 1);
    }
}

/// An order that holds `root` and every node reachable upstream of it, each after its
/// feeders and none twice, leaves no cycle reachable upstream of `root`.
proof fn lemma_order_excludes_cycle(g: &Graph, root: NodeId, order: Seq<NodeId>)
    requires
        order.contains(root),
        order.no_duplicates(),
        g.upstream_first(order),
    ensures
        !g.has_cycle_upstream(root),
{
    if g.has_cycle_upstream(root) {
        let p = choose|p: Seq<NodeId>| #[trigger] g.is_cycle_from(root, p);
        let k = choose|k: int| 0 <= k < p.len() - 1 && p[k] == p.last();
        assert forall|i: int| 0 <= i < p.len() implies order.contains(#[trigger] p[i]) by {
            lemma_reachable_in_order(g, root, order, p, i);
        }
        lemma_order_positions_decrease(g, order, p, k, p.len() - 1);
    }
}

/// The depth-first walk upstream from `node` that `Graph::topo_sort_from` makes,
/// given the nodes already placed (`done`): a placed node is skipped; otherwise the
/// nodes feeding it are walked in link order, and it is placed after them. `fuel`
/// bounds the depth of the walk.
pub open spec fn dfs_visit(g: Graph, fuel: nat, node: NodeId, done: Seq<NodeId>) -> Seq<NodeId>
    decreases fuel, 0nat,
{
    if done.contains(node) || fuel == 0 {
        done
    } else {
        dfs_each(g, (fuel - 1) as nat, g.upstream_along(g.link_seq(), node), done).push(node)
    }
}

/// The walks from each of `nodes` in turn, starting with the nodes already placed.
pub open spec fn dfs_each(g: Graph, fuel: nat, nodes: Seq<NodeId>, done: Seq<NodeId>) -> Seq<NodeId>
    decreases fuel, nodes.len() + 1,
{
    if nodes.len() == 0 {
        done
    } else {
        dfs_visit(g, fuel, nodes.last(), dfs_each(g, fuel, nodes.drop_last(), done))
    }
}

impl Graph {
    fn visit_node(
        &self,
        node_id: NodeId,
        ordered: &mut Vec<NodeId>,
        stack: &mut Vec<NodeId>,
        Ghost(root): Ghost<NodeId>,
    ) -> (r: Result<(), GraphError>)
        requires
            self.wf(),
            self.has_node(node_id),
            self.stack_ok(root, old(stack)@, node_id),
            self.ordered_ok(root, old(ordered)@),
            forall|i: int| 0 <= i < old(stack)@.len() ==> !old(ordered)@.contains(#[trigger] old(stack)@[i]),
        ensures
            match r {
                Ok(()) => {
                    &&& final(stack)@ == old(stack)@
                    &&& final(ordered)@.len() >= old(ordered)@.len()
                    &&& final(ordered)@.take(old(ordered)@.len() as int) == old(ordered)@
                    &&& final(ordered)@.contains(node_id)
                    &&& !old(ordered)@.contains(node_id) ==> final(ordered)@.last() == node_id
                    &&& self.ordered_ok(root, final(ordered)@)
                    &&& forall|i: int| 0 <= i < old(stack)@.len() ==> !final(ordered)@.contains(#[trigger] old(stack)@[i])
                    &&& final(ordered)@ == dfs_visit(*self, (self.node_seq().len() - old(stack)@.len()) as nat, node_id, old(ordered)@)
                },
                Err(GraphError::CycleDetected(p)) => self.is_cycle_from(root, p@),
                Err(_) => false,
            },
        decreases self.node_seq().len() - old(stack)@.len(),
    {
        let ghost stack0 = stack@;
        let ghost ordered0 = ordered@;
        if ids_contain(ordered.as_slice(), node_id) {
            return Ok(());
        }
        if ids_contain(stack.as_slice(), node_id) {
            stack.push(node_id);
            let path = copy_ids(stack.as_slice());
            proof {
                let p = path@;
                assert(p == stack0.push(node_id));
                let k = choose|k: int| 0 <= k < stack0.len() && stack0[k] == node_id;
                assert(p[k] == p.last());
                assert forall|m: int| 0 <= m < p.len() - 1 implies #[trigger] self.feeds(p[m + 1], p[m]) by {
                    if m < stack0.len() - 1 {
                        assert(self.feeds(stack0[m + 1], stack0[m]));
                    }
                }
            }
            return Err(GraphError::CycleDetected(path));
        }
        stack.push(node_id);
        let ghost stack1 = stack@;
        proof {
            assert(stack1 == stack0.push(node_id));
            assert forall|m: int| 0 <= m < stack1.len() - 1 implies #[trigger] self.feeds(stack1[m + 1], stack1[m]) by {
                if m < stack0.len() - 1 {
                    assert(self.feeds(stack0[m + 1], stack0[m]));
                }
            }
            assert forall|i: int, j: int| 0 <= i < stack1.len() && 0 <= j < stack1.len() && i != j
                implies stack1[i] != stack1[j] by {
                if i < stack0.len() && j < stack0.len() {
                    assert(stack0[i] != stack0[j]);
                } else if i < stack0.len() {
                    assert(stack0.contains(stack0[i]));
                } else if j < stack0.len() {
                    assert(stack0.contains(stack0[j]));
                }
            }
            lemma_distinct_nodes_bound(self, stack1);
            assert(self.reaches(root, node_id)) by {
                assert(self.is_upstream_path(stack1));
            }
        }
        let upstream = self.upstream_nodes(node_id);
        let mut k: usize = 0;
        while k < upstream.len()
            invariant
                self.wf(),
                self.has_node(node_id),
                stack0 == old(stack)@,
                stack@ == stack1,
                stack1 == stack0.push(node_id),
                stack1.no_duplicates(),
                forall|i: int| 0 <= i < stack1.len() ==> self.has_node(#[trigger] stack1[i]),
                self.is_upstream_path(stack1),
                stack1[0] == root,
                stack1.len() <= self.node_seq().len(),
                self.reaches(root, node_id),
                self.ordered_ok(root, ordered@),
                ordered@.len() >= ordered0.len(),
                ordered@.take(ordered0.len() as int) == ordered0,
                forall|i: int| 0 <= i < stack1.len() ==> !ordered@.contains(#[trigger] stack1[i]),
                forall|j: int| 0 <= j < k ==> ordered@.contains(#[trigger] upstream@[j]),
                0 <= k <= upstream@.len(),
                forall|a: NodeId| upstream@.contains(a) <==> self.feeds(a, node_id),
                forall|j: int| 0 <= j < upstream@.len() ==> self.has_node(#[trigger] upstream@[j]),
                upstream@ == self.upstream_along(self.link_seq(), node_id),
                ordered@ == dfs_each(*self, (self.node_seq().len() - stack1.len()) as nat, upstream@.take(k as int), ordered0),
            decreases upstream@.len() - k,
        {
            let ghost before = ordered@;
            let up = upstream[k];
            assert(upstream@.contains(up));
            let r = self.visit_node(up, ordered, stack, Ghost(root));
            match r {
                Ok(()) => {},
                Err(e) => {
                    return Err(e);
                },
            }
            proof {
                assert(upstream@.take(k + 1).drop_last() =~= upstream@.take(k as int));
                assert(upstream@.take(k + 1).last() == up);
                assert forall|j: int| 0 <= j < k + 1 implies ordered@.contains(#[trigger] upstream@[j]) by {
                    if j < k {
                        let x = upstream@[j];
                        assert(before.contains(x));
                        let t = choose|t: int| 0 <= t < before.len() && before[t] == x;
                        assert(ordered@.take(before.len() as int)[t] == x);
                        assert(ordered@[t] == x);
                    }
                }
                assert(ordered@.take(ordered0.len() as int) =~= ordered0) by {
                    assert(ordered@.take(before.len() as int) == before);
                    assert forall|t: int| 0 <= t < ordered0.len() implies ordered@[t] == ordered0[t] by {
                        assert(before.take(ordered0.len() as int)[t] == ordered0[t]);
                        assert(ordered@.take(before.len() as int)[t] == before[t]);
                    }
                }
            }
            k = k + 1;
        }
        stack.pop();
        let ghost ordered2 = ordered@;
        ordered.push(node_id);
        proof {
            let o = ordered@;
            assert(upstream@.take(upstream@.len() as int) =~= upstream@);
            assert(!ordered0.contains(node_id));
            assert(stack@ =~= stack0);
            assert(!ordered2.contains(node_id)) by {
                assert(stack1[stack1.len() - 1] == node_id);
            }
            assert(o == ordered2.push(node_id));
            assert forall|i: int, j: int| 0 <= i < o.len() && 0 <= j < o.len() && i != j implies o[i] != o[j] by {
                if i < ordered2.len() && j < ordered2.len() {
                    assert(ordered2[i] != ordered2[j]);
                } else if i < ordered2.len() {
                    assert(ordered2.contains(ordered2[i]));
                } else if j < ordered2.len() {
                    assert(ordered2.contains(ordered2[j]));
                }
            }
            assert forall|i: int, a: NodeId| 0 <= i < o.len() && #[trigger] self.feeds(a, o[i]) implies exists|j: int|
                0 <= j < i && #[trigger] o[j] == a by {
                if i < ordered2.len() {
                    assert(self.feeds(a, ordered2[i]));
                    let j = choose|j: int| 0 <= j < i && #[trigger] ordered2[j] == a;
                    assert(o[j] == a);
                } else {
                    assert(upstream@.contains(a));
                    let u = choose|u: int| 0 <= u < upstream@.len() && upstream@[u] == a;
                    assert(ordered2.contains(upstream@[u]));
                    let j = choose|j: int| 0 <= j < ordered2.len() && ordered2[j] == a;
                    assert(o[j] == a);
                }
            }
            assert forall|i: int| 0 <= i < o.len() implies self.reaches(root, #[trigger] o[i]) by {
                if i < ordered2.len() {
                    assert(self.reaches(root, ordered2[i]));
                }
            }
            assert forall|i: int| 0 <= i < o.len() implies self.has_node(#[trigger] o[i]) by {
                if i < ordered2.len() {
                    assert(self.has_node(ordered2[i]));
                }
            }
            assert forall|i: int| 0 <= i < stack0.len() implies !o.contains(#[trigger] stack0[i]) by {
                assert(stack1[i] == stack0[i]);
                assert(!ordered2.contains(stack1[i]));
                assert(stack0[i] != node_id);
            }
            assert(o.take(ordered0.len() as int) =~= ordered0) by {
                assert forall|t: int| 0 <= t < ordered0.len() implies o[t] == ordered0[t] by {
                    assert(ordered2.take(ordered0.len() as int)[t] == ordered0[t]);
                }
            }
            assert(o.contains(node_id)) by {
                assert(o[o.len() - 1] == node_id);
            }
        }
        Ok(())
    }

    /// Orders `output` and every node upstream of it so that each node comes after
    /// the nodes that feed it, by a depth-first walk along the links in link order.
    /// Fails with `MissingNode` when `output` is not in the graph, and with
    /// `CycleDetected` and the path of the walk when a cycle lies upstream of `output`.
    pub fn topo_sort_from(&self, output: NodeId) -> (r: Result<Vec<NodeId>, GraphError>)
        requires
            self.wf(),
        ensures
            !self.has_node(output) ==> (r matches Err(GraphError::MissingNode(id)) && id == output),
            self.has_node(output) ==> match r {
                Ok(order) => {
                    &&& order@ == dfs_visit(*self, self.node_seq().len() as nat, output, Seq::empty())
                    &&& order@.len() > 0
                    &&& order@.last() == output
                    &&& self.ordered_ok(output, order@)
                    &&& forall|a: NodeId| #[trigger] self.reaches(output, a) ==> order@.contains(a)
                },
                Err(GraphError::CycleDetected(p)) => self.is_cycle_from(output, p@),
                Err(_) => false,
            },
            self.has_node(output) ==> (r is Ok <==> !self.has_cycle_upstream(output)),
    {
        if self.find_node(output).is_none() {
            return Err(GraphError::MissingNode(output));
        }
        let mut ordered: Vec<NodeId> = Vec::new();
        let mut stack: Vec<NodeId> = Vec::new();
        proof {
            assert(ordered@.no_duplicates());
            assert(stack@.no_duplicates());
        }
        let r = self.visit_node(output, &mut ordered, &mut stack, Ghost(output));
        match r {
            Ok(()) => {
                proof {
                    assert forall|a: NodeId| #[trigger] self.reaches(output, a) implies ordered@.contains(a) by {
                        let p = choose|p: Seq<NodeId>| #[trigger] self.is_upstream_path(p) && p.len() >= 1 && p[0] == output && p.last() == a;
                        lemma_reachable_in_order(self, output, ordered@, p, p.len() - 1);
                    }
                    lemma_order_excludes_cycle(self, output, ordered@);
                }
                Ok(ordered)
            },
            Err(e) => Err(e),
        }
    }
}


/// The ids `start`, `start + 1`, ... of `count` consecutive pins.
pub open spec fn pin_id_run(start: int, count: int) -> Seq<PinId> {
    Seq::new(count as nat, |i: int| PinId((start + i) as u64))
}

/// Pin `p` is the pin made from definition `d` for node `node`, with id `id` and kind `kind`.
pub open spec fn pin_from_def(p: Pin, d: PinDefinition, id: u64, node: NodeId, kind: PinKind) -> bool {
    p.id == PinId(id) && p.node == node && p.name@ == d.name@ && p.kind == kind && p.pin_type == d.pin_type
}

impl Graph {
    /// Whether the id counters leave room for one more node with `pin_count` pins.
    pub open spec fn spec_has_id_room(&self, pin_count: int) -> bool {
        self.next_ids().0 < u64::MAX && self.next_ids().1 + pin_count <= u64::MAX
    }

    /// Whether the id counters leave room for one more node with `pin_count` pins.
    pub fn has_id_room(&self, pin_count: usize) -> (r: bool)
        ensures
            r == self.spec_has_id_room(pin_count as int),
    {
        self.next_node_id < u64::MAX && pin_count as u64 <= u64::MAX - self.next_pin_id
    }

    /// Whether the link id counter leaves room for one more link.
    pub fn has_link_id_room(&self) -> (r: bool)
        ensures
            r == (self.next_ids().2 < u64::MAX),
    {
        self.next_link_id < u64::MAX
    }

    /// Adds a node made from `def`: it gets the next node id, and each of its input
    /// pins and then each of its output pins gets the next pin id.
    pub fn add_node(&mut self, def: NodeDefinition) -> (r: NodeId)
        requires
            old(self).wf(),
            old(self).spec_has_id_room((def.inputs@.len() + def.outputs@.len()) as int),
        ensures
            final(self).wf(),
            r == NodeId(old(self).next_ids().0),
            !old(self).has_node(r),
            final(self).next_ids() == (
                (old(self).next_ids().0 + 1) as u64,
                (old(self).next_ids().1 + def.inputs@.len() + def.outputs@.len()) as u64,
                old(self).next_ids().2,
            ),
            final(self).node_seq().len() == old(self).node_seq().len() + 1,
            final(self).node_seq().drop_last() == old(self).node_seq(),
            ({
                let n = final(self).node_seq().last();
                let p0 = old(self).next_ids().1 as int;
                &&& n.id == r
                &&& n.name@ == def.name@
                &&& n.category@ == def.category@
                &&& n.inputs@ == pin_id_run(p0, def.inputs@.len() as int)
                &&& n.outputs@ == pin_id_run(p0 + def.inputs@.len(), def.outputs@.len() as int)
                &&& n.params.values.wf()
                &&& n.params.values@ == Map::<Seq<char>, ParamValue>::empty()
                &&& n.param_version == 0
                &&& !n.display
                &&& !n.template
                &&& n.position.is_none()
            }),
            final(self).pin_seq().len() == old(self).pin_seq().len() + def.inputs@.len() + def.outputs@.len(),
            final(self).pin_seq().take(old(self).pin_seq().len() as int) == old(self).pin_seq(),
            forall|i: int| 0 <= i < def.inputs@.len() ==> pin_from_def(
                #[trigger] final(self).pin_seq()[old(self).pin_seq().len() + i],
                def.inputs@[i],
                (old(self).next_ids().1 + i) as u64,
                r,
                PinKind::Input,
            ),
            forall|i: int| 0 <= i < def.outputs@.len() ==> pin_from_def(
                #[trigger] final(self).pin_seq()[old(self).pin_seq().len() + def.inputs@.len() + i],
                def.outputs@[i],
                (old(self).next_ids().1 + def.inputs@.len() + i) as u64,
                r,
                PinKind::Output,
            ),
            final(self).link_seq() == old(self).link_seq(),
            final(self).has_node(r),
            forall|x: NodeId| old(self).has_node(x) ==> final(self).has_node(x) && final(self).node_at(x) == old(self).node_at(x),
            forall|x: PinId| old(self).has_pin(x) ==> final(self).has_pin(x) && final(self).pin_at(x) == old(self).pin_at(x),
    {
        let ghost g0 = *self;
        let node_id = NodeId(self.next_node_id);
        self.next_node_id = self.next_node_id + 1;
        let ghost p0 = self.next_pin_id as int;
        let ghost n0 = self.pins@.len();
        let mut input_ids: Vec<PinId> = Vec::new();
        let mut i: usize = 0;
        while i < def.inputs.len()
            invariant
                0 <= i <= def.inputs@.len(),
                g0.spec_has_id_room((def.inputs@.len() + def.outputs@.len()) as int),
                self.nodes@ == g0.nodes@,
                self.links@ == g0.links@,
                self.next_node_id == g0.next_node_id + 1,
                self.next_link_id == g0.next_link_id,
                p0 == g0.next_pin_id,
                n0 == g0.pins@.len(),
                self.next_pin_id == p0 + i,
                self.pins@.len() == n0 + i,
                self.pins@.take(n0 as int) == g0.pins@,
                forall|j: int| 0 <= j < i ==> pin_from_def(#[trigger] self.pins@[n0 + j], def.inputs@[j], (p0 + j) as u64, node_id, PinKind::Input),
                input_ids@ == pin_id_run(p0, i as int),
            decreases def.inputs@.len() - i,
        {
            let pin_id = PinId(self.next_pin_id);
            self.next_pin_id = self.next_pin_id + 1;
            let d = &def.inputs[i];
            self.pins.push(Pin { id: pin_id, node: node_id, name: d.name.clone(), kind: PinKind::Input, pin_type: d.pin_type });
            input_ids.push(pin_id);
            proof {
                assert(input_ids@ =~= pin_id_run(p0, i + 1));
                assert(self.pins@.take(n0 as int) =~= g0.pins@) by {
                    assert forall|t: int| 0 <= t < n0 implies self.pins@[t] == g0.pins@[t] by {
                        assert(self.pins@.drop_last().take(n0 as int)[t] == g0.pins@[t]);
                    }
                }
                assert forall|j: int| 0 <= j < i + 1 implies pin_from_def(#[trigger] self.pins@[n0 + j], def.inputs@[j], (p0 + j) as u64, node_id, PinKind::Input) by {
                    if j < i {
                        assert(self.pins@[n0 + j] == self.pins@.drop_last()[n0 + j]);
                    }
                }
            }
            i = i + 1;
        }
        let ghost ni = def.inputs@.len();
        let mut output_ids: Vec<PinId> = Vec::new();
        let mut i: usize = 0;
        while i < def.outputs.len()
            invariant
                0 <= i <= def.outputs@.len(),
                ni == def.inputs@.len(),
                g0.spec_has_id_room((def.inputs@.len() + def.outputs@.len()) as int),
                self.nodes@ == g0.nodes@,
                self.links@ == g0.links@,
                self.next_node_id == g0.next_node_id + 1,
                self.next_link_id == g0.next_link_id,
                p0 == g0.next_pin_id,
                n0 == g0.pins@.len(),
                self.next_pin_id == p0 + ni + i,
                self.pins@.len() == n0 + ni + i,
                self.pins@.take(n0 as int) == g0.pins@,
                forall|j: int| 0 <= j < ni ==> pin_from_def(#[trigger] self.pins@[n0 + j], def.inputs@[j], (p0 + j) as u64, node_id, PinKind::Input),
                forall|j: int| 0 <= j < i ==> pin_from_def(#[trigger] self.pins@[n0 + ni + j], def.outputs@[j], (p0 + ni + j) as u64, node_id, PinKind::Output),
                output_ids@ == pin_id_run(p0 + ni, i as int),
            decreases def.outputs@.len() - i,
        {
            let pin_id = PinId(self.next_pin_id);
            self.next_pin_id = self.next_pin_id + 1;
            let d = &def.outputs[i];
            self.pins.push(Pin { id: pin_id, node: node_id, name: d.name.clone(), kind: PinKind::Output, pin_type: d.pin_type });
            output_ids.push(pin_id);
            proof {
                assert(output_ids@ =~= pin_id_run(p0 + ni, i + 1));
                assert(self.pins@.take(n0 as int) =~= g0.pins@) by {
                    assert forall|t: int| 0 <= t < n0 implies self.pins@[t] == g0.pins@[t] by {
                        assert(self.pins@.drop_last().take(n0 as int)[t] == g0.pins@[t]);
                    }
                }
                assert forall|j: int| 0 <= j < ni implies pin_from_def(#[trigger] self.pins@[n0 + j], def.inputs@[j], (p0 + j) as u64, node_id, PinKind::Input) by {
                    assert(self.pins@[n0 + j] == self.pins@.drop_last()[n0 + j]);
                }
                assert forall|j: int| 0 <= j < i + 1 implies pin_from_def(#[trigger] self.pins@[n0 + ni + j], def.outputs@[j], (p0 + ni + j) as u64, node_id, PinKind::Output) by {
                    if j < i {
                        assert(self.pins@[n0 + ni + j] == self.pins@.drop_last()[n0 + ni + j]);
                    }
                }
            }
            i = i + 1;
        }
        let node = Node {
            id: node_id,
            name: def.name,
            category: def.category,
            inputs: input_ids,
            outputs: output_ids,
            params: NodeParams::new(),
            param_version: 0,
            display: false,
            template: false,
            position: None,
        };
        self.nodes.push(node);
        proof {
            assert(self.nodes@.drop_last() =~= g0.nodes@);
            assert forall|j: int| 0 <= j < self.pins@.len() - n0 implies (#[trigger] self.pins@[n0 + j]).id == PinId((g0.next_pin_id + j) as u64)
                && self.pins@[n0 + j].node == node_id by {
                if j < ni {
                    assert(pin_from_def(self.pins@[n0 + j], def.inputs@[j], (p0 + j) as u64, node_id, PinKind::Input));
                } else {
                    let k = j - ni;
                    assert(pin_from_def(self.pins@[n0 + ni + k], def.outputs@[k], (p0 + ni + k) as u64, node_id, PinKind::Output));
                    assert(n0 + ni + k == n0 + j);
                }
            }
            self.lemma_add_node_wf(g0, node_id, n0 as int, ni as int);
        }
        node_id
    }

    proof fn lemma_add_node_wf(&self, g0: Graph, node_id: NodeId, n0: int, ni: int)
        requires
            g0.wf(),
            node_id.0 == g0.next_node_id,
            self.next_node_id == g0.next_node_id + 1,
            self.next_link_id == g0.next_link_id,
            self.links@ == g0.links@,
            self.nodes@.drop_last() == g0.nodes@,
            self.nodes@.len() == g0.nodes@.len() + 1,
            self.nodes@.last().id == node_id,
            self.nodes@.last().params.values.wf(),
            n0 == g0.pins@.len(),
            self.pins@.take(n0) == g0.pins@,
            self.pins@.len() == self.next_pin_id - g0.next_pin_id + n0,
            self.next_pin_id >= g0.next_pin_id,
            self.nodes@.last().inputs@ == pin_id_run(g0.next_pin_id as int, ni),
            self.nodes@.last().outputs@ == pin_id_run(g0.next_pin_id + ni, self.next_pin_id - g0.next_pin_id - ni),
            0 <= ni <= self.next_pin_id - g0.next_pin_id,
            forall|j: int| 0 <= j < self.pins@.len() - n0 ==> (#[trigger] self.pins@[n0 + j]).id == PinId((g0.next_pin_id + j) as u64)
                && self.pins@[n0 + j].node == node_id,
        ensures
            self.wf(),
            !g0.has_node(node_id),
            self.has_node(node_id),
            forall|x: NodeId| g0.has_node(x) ==> self.has_node(x) && self.node_at(x) == g0.node_at(x),
            forall|x: PinId| g0.has_pin(x) ==> self.has_pin(x) && self.pin_at(x) == g0.pin_at(x),
    {
        let n_old = g0.nodes@.len() as int;
        assert forall|i: int| 0 <= i < n_old implies self.nodes@[i] == g0.nodes@[i] by {
            assert(self.nodes@.drop_last()[i] == g0.nodes@[i]);
        }
        assert forall|i: int| 0 <= i < n0 implies self.pins@[i] == g0.pins@[i] by {
            assert(self.pins@.take(n0)[i] == g0.pins@[i]);
        }
        assert(node_ids_increasing(self.node_seq())) by {
            assert forall|i: int, j: int| 0 <= i < j < self.nodes@.len() implies self.nodes@[i].id.0 < self.nodes@[j].id.0 by {
                if j == n_old {
                    assert(g0.node_seq()[i].id.0 < g0.next_ids().0);
                } else {
                    assert(g0.node_seq()[i].id.0 < g0.node_seq()[j].id.0);
                }
            }
        }
        assert(pin_ids_increasing(self.pin_seq())) by {
            assert forall|i: int, j: int| 0 <= i < j < self.pins@.len() implies self.pins@[i].id.0 < self.pins@[j].id.0 by {
                if j >= n0 {
                    if i >= n0 {
                        assert(self.pins@[n0 + (i - n0)].id.0 == g0.next_pin_id + (i - n0));
                        assert(self.pins@[n0 + (j - n0)].id.0 == g0.next_pin_id + (j - n0));
                    } else {
                        assert(g0.pin_seq()[i].id.0 < g0.next_ids().1);
                        assert(self.pins@[n0 + (j - n0)].id.0 == g0.next_pin_id + (j - n0));
                    }
                } else {
                    assert(g0.pin_seq()[i].id.0 < g0.pin_seq()[j].id.0);
                }
            }
        }
        lemma_node_pos(self, n_old);
        assert(!g0.has_node(node_id)) by {
            if g0.has_node(node_id) {
                let i = choose|i: int| 0 <= i < g0.node_seq().len() && #[trigger] g0.node_seq()[i].id == node_id;
                assert(g0.node_seq()[i].id.0 < g0.next_ids().0);
            }
        }
        assert forall|x: NodeId| g0.has_node(x) implies self.has_node(x) && self.node_at(x) == g0.node_at(x) by {
            let i = choose|i: int| 0 <= i < g0.node_seq().len() && #[trigger] g0.node_seq()[i].id == x;
            lemma_node_pos(&g0, i);
            lemma_node_pos(self, i);
        }
        assert forall|x: PinId| g0.has_pin(x) implies self.has_pin(x) && self.pin_at(x) == g0.pin_at(x) by {
            let i = choose|i: int| 0 <= i < g0.pin_seq().len() && #[trigger] g0.pin_seq()[i].id == x;
            lemma_pin_pos(&g0, i);
            lemma_pin_pos(self, i);
        }
        assert forall|i: int| 0 <= i < self.node_seq().len() implies #[trigger] self.node_seq()[i].id.0 < self.next_ids().0 by {
            if i < n_old {
                assert(g0.node_seq()[i].id.0 < g0.next_ids().0);
            }
        }
        assert forall|i: int| 0 <= i < self.pin_seq().len() implies #[trigger] self.pin_seq()[i].id.0 < self.next_ids().1 by {
            if i < n0 {
                assert(g0.pin_seq()[i].id.0 < g0.next_ids().1);
            } else {
                assert(self.pins@[n0 + (i - n0)].id.0 == g0.next_pin_id + (i - n0));
            }
        }
        assert forall|i: int| 0 <= i < self.link_seq().len() implies #[trigger] self.link_seq()[i].id.0 < self.next_ids().2 by {
            assert(g0.link_seq()[i].id.0 < g0.next_ids().2);
        }
        assert forall|i: int| 0 <= i < self.pin_seq().len() implies self.has_node(#[trigger] self.pin_seq()[i].node) by {
            if i < n0 {
                assert(g0.has_node(g0.pin_seq()[i].node));
            } else {
                assert(self.pins@[n0 + (i - n0)].node == node_id);
            }
        }
        assert forall|i: int| 0 <= i < self.link_seq().len() implies self.has_pin(#[trigger] self.link_seq()[i].from)
            && self.has_pin(self.link_seq()[i].to) by {
            assert(g0.has_pin(g0.link_seq()[i].from));
            assert(g0.has_pin(g0.link_seq()[i].to));
        }
        assert forall|i: int, j: int| 0 <= i < self.link_seq().len() && 0 <= j < self.link_seq().len() && i != j
            implies #[trigger] self.link_seq()[i].to != #[trigger] self.link_seq()[j].to by {
            assert(g0.link_seq()[i].to != g0.link_seq()[j].to);
        }
        let nn = self.nodes@.last();
        assert(self.node_at(node_id) == nn);
        assert forall|i: int| 0 <= i < self.node_seq().len() implies (#[trigger] self.node_seq()[i]).params.values.wf() by {
            if i < n_old {
                assert(g0.node_seq()[i].params.values.wf());
            }
        }
        assert forall|i: int| 0 <= i < self.pin_seq().len() implies #[trigger] self.pin_listed(self.pin_seq()[i]) by {
            let p = self.pin_seq()[i];
            if i < n0 {
                assert(g0.pin_listed(g0.pin_seq()[i]));
                assert(g0.has_node(p.node));
            } else {
                let j = i - n0;
                assert(self.pins@[n0 + j].id == PinId((g0.next_pin_id + j) as u64));
                if j < ni {
                    assert(nn.inputs@[j] == p.id);
                } else {
                    assert(nn.outputs@[j - ni] == p.id);
                }
            }
        }
        assert forall|i: int| 0 <= i < self.node_seq().len() implies #[trigger] self.node_pins_ok(self.node_seq()[i]) by {
            let n = self.node_seq()[i];
            if i < n_old {
                assert(g0.node_pins_ok(g0.node_seq()[i]));
                assert forall|q: PinId| (n.inputs@.contains(q) || n.outputs@.contains(q)) implies self.has_pin(q)
                    && self.pin_at(q).node == n.id by {
                    assert(g0.has_pin(q));
                }
            } else {
                assert forall|q: PinId| (n.inputs@.contains(q) || n.outputs@.contains(q)) implies self.has_pin(q)
                    && self.pin_at(q).node == n.id by {
                    let j: int = if n.inputs@.contains(q) {
                        choose|j: int| 0 <= j < n.inputs@.len() && n.inputs@[j] == q
                    } else {
                        let k = choose|k: int| 0 <= k < n.outputs@.len() && n.outputs@[k] == q;
                        k + ni
                    };
                    assert(self.pins@[n0 + j].id == q);
                    lemma_pin_pos(self, n0 + j);
                }
            }
        }
    }
}


/// Nodes `a` and `b` agree in everything but the display and template flags,
/// the parameters, the parameter version, the position and the name.
pub open spec fn same_node_shape(a: Node, b: Node) -> bool {
    a.id == b.id && a.inputs@ == b.inputs@ && a.outputs@ == b.outputs@
}

/// Nodes `a` and `b` agree in every field but `display`.
pub open spec fn same_but_display(a: Node, b: Node) -> bool {
    &&& same_node_shape(a, b)
    &&& a.name@ == b.name@ && a.category@ == b.category@
    &&& a.params == b.params && a.param_version == b.param_version
    &&& a.template == b.template && a.position == b.position
}

/// Nodes `a` and `b` agree in every field but `template`.
pub open spec fn same_but_template(a: Node, b: Node) -> bool {
    &&& same_node_shape(a, b)
    &&& a.name@ == b.name@ && a.category@ == b.category@
    &&& a.params == b.params && a.param_version == b.param_version
    &&& a.display == b.display && a.position == b.position
}

/// Nodes `a` and `b` agree in every field but the parameters and their version.
pub open spec fn same_but_params(a: Node, b: Node) -> bool {
    &&& same_node_shape(a, b)
    &&& a.name@ == b.name@ && a.category@ == b.category@
    &&& a.display == b.display && a.template == b.template && a.position == b.position
}

/// Nodes `a` and `b` agree in every field but `position`.
pub open spec fn same_but_position(a: Node, b: Node) -> bool {
    &&& same_node_shape(a, b)
    &&& a.name@ == b.name@ && a.category@ == b.category@
    &&& a.params == b.params && a.param_version == b.param_version
    &&& a.display == b.display && a.template == b.template
}

/// Nodes `a` and `b` agree in every field but `name`.
pub open spec fn same_but_name(a: Node, b: Node) -> bool {
    &&& same_node_shape(a, b)
    &&& a.category@ == b.category@
    &&& a.params == b.params && a.param_version == b.param_version
    &&& a.display == b.display && a.template == b.template && a.position == b.position
}

/// A node with no pins and empty fields, used to hold a slot while a node is edited.
fn placeholder_node() -> (r: Node)
    ensures
        r.id == NodeId(0),
        r.name@.len() == 0,
        r.category@.len() == 0,
        r.inputs@.len() == 0,
        r.outputs@.len() == 0,
        r.params.values.wf(),
        r.params.values@ == Map::<Seq<char>, ParamValue>::empty(),
        r.param_version == 0,
        !r.display,
        !r.template,
        r.position.is_none(),
{
    Node {
        id: NodeId(0),
        name: String::new(),
        category: String::new(),
        inputs: Vec::new(),
        outputs: Vec::new(),
        params: NodeParams::new(),
        param_version: 0,
        display: false,
        template: false,
        position: None,
    }
}

impl Graph {
    /// Two graphs with the same pins, links and id counters, and nodes that agree in
    /// id and pin lists position by position, are well formed together and agree
    /// on which nodes exist, on the pins and on which nodes feed which.
    pub proof fn lemma_same_shape(&self, g0: &Graph)
        requires
            g0.wf(),
            self.pin_seq() == g0.pin_seq(),
            self.link_seq() == g0.link_seq(),
            self.next_ids() == g0.next_ids(),
            self.node_seq().len() == g0.node_seq().len(),
            forall|i: int| 0 <= i < self.node_seq().len() ==> same_node_shape(#[trigger] self.node_seq()[i], g0.node_seq()[i]),
            forall|i: int| 0 <= i < self.node_seq().len() ==> (#[trigger] self.node_seq()[i]).params.values.wf(),
        ensures
            self.wf(),
            forall|x: NodeId| self.has_node(x) == g0.has_node(x),
            forall|x: NodeId| #[trigger] self.has_node(x) ==> self.node_pos(x) == g0.node_pos(x)
                && same_node_shape(self.node_at(x), g0.node_at(x)),
            forall|a: NodeId, b: NodeId| self.feeds(a, b) == g0.feeds(a, b),
    {
        assert forall|i: int| 0 <= i < self.node_seq().len() implies self.node_seq()[i].id == g0.node_seq()[i].id by {
            assert(same_node_shape(self.node_seq()[i], g0.node_seq()[i]));
        }
        assert forall|x: NodeId| self.has_node(x) == g0.has_node(x) by {
            if self.has_node(x) {
                let i = choose|i: int| 0 <= i < self.node_seq().len() && #[trigger] self.node_seq()[i].id == x;
                assert(g0.node_seq()[i].id == x);
            }
            if g0.has_node(x) {
                let i = choose|i: int| 0 <= i < g0.node_seq().len() && #[trigger] g0.node_seq()[i].id == x;
                assert(self.node_seq()[i].id == x);
            }
        }
        assert(node_ids_increasing(self.node_seq()));
        assert forall|x: NodeId| #[trigger] self.has_node(x) implies self.node_pos(x) == g0.node_pos(x)
            && same_node_shape(self.node_at(x), g0.node_at(x)) by {
            let i = choose|i: int| 0 <= i < self.node_seq().len() && #[trigger] self.node_seq()[i].id == x;
            lemma_node_pos(self, i);
            lemma_node_pos(g0, i);
        }
        assert forall|i: int| 0 <= i < self.node_seq().len() implies #[trigger] self.node_seq()[i].id.0 < self.next_ids().0 by {
            assert(g0.node_seq()[i].id.0 < g0.next_ids().0);
        }
        assert forall|i: int| 0 <= i < self.pin_seq().len() implies self.has_node(#[trigger] self.pin_seq()[i].node) by {
            assert(g0.has_node(g0.pin_seq()[i].node));
        }
        assert forall|i: int| 0 <= i < self.pin_seq().len() implies #[trigger] self.pin_listed(self.pin_seq()[i]) by {
            assert(g0.pin_listed(g0.pin_seq()[i]));
            assert(g0.has_node(g0.pin_seq()[i].node));
        }
        assert forall|i: int| 0 <= i < self.node_seq().len() implies #[trigger] self.node_pins_ok(self.node_seq()[i]) by {
            assert(g0.node_pins_ok(g0.node_seq()[i]));
        }
        assert forall|x: PinId| self.has_pin(x) == g0.has_pin(x) && self.pin_at(x) == g0.pin_at(x) by {}
        assert forall|l: Link, a: NodeId, b: NodeId| self.link_joins(l, a, b) == g0.link_joins(l, a, b) by {}
        assert forall|a: NodeId, b: NodeId| self.feeds(a, b) == g0.feeds(a, b) by {
            if self.feeds(a, b) {
                let k = choose|k: int| 0 <= k < self.link_seq().len() && #[trigger] self.link_joins(self.link_seq()[k], a, b);
                assert(g0.link_joins(g0.link_seq()[k], a, b));
            }
            if g0.feeds(a, b) {
                let k = choose|k: int| 0 <= k < g0.link_seq().len() && #[trigger] g0.link_joins(g0.link_seq()[k], a, b);
                assert(self.link_joins(self.link_seq()[k], a, b));
            }
        }
    }

    /// Takes the node at position `i` out, leaving a placeholder in its slot.
    fn take_node(&mut self, i: usize) -> (r: Node)
        requires
            i < old(self).node_seq().len(),
        ensures
            r == old(self).node_seq()[i as int],
            final(self).node_seq() == old(self).node_seq().update(i as int, final(self).node_seq()[i as int]),
            final(self).pin_seq() == old(self).pin_seq(),
            final(self).link_seq() == old(self).link_seq(),
            final(self).next_ids() == old(self).next_ids(),
    {
        let mut tmp = placeholder_node();
        self.nodes.set_and_swap(i, &mut tmp);
        tmp
    }

    /// Puts a node back into slot `i`.
    fn put_node(&mut self, i: usize, n: Node)
        requires
            i < old(self).node_seq().len(),
        ensures
            final(self).node_seq() == old(self).node_seq().update(i as int, n),
            final(self).pin_seq() == old(self).pin_seq(),
            final(self).link_seq() == old(self).link_seq(),
            final(self).next_ids() == old(self).next_ids(),
    {
        self.nodes.set(i, n);
    }

    /// The first node, in id order, whose display flag is set.
    pub fn display_node(&self) -> (r: Option<NodeId>)
        ensures
            match r {
                Some(id) => exists|i: int| 0 <= i < self.node_seq().len() && #[trigger] self.node_seq()[i].id == id
                    && self.node_seq()[i].display && forall|j: int| 0 <= j < i ==> !(#[trigger] self.node_seq()[j]).display,
                None => forall|i: int| 0 <= i < self.node_seq().len() ==> !(#[trigger] self.node_seq()[i]).display,
            },
    {
        let mut i: usize = 0;
        while i < self.nodes.len()
            invariant
                0 <= i <= self.nodes@.len(),
                forall|j: int| 0 <= j < i ==> !(#[trigger] self.nodes@[j]).display,
            decreases self.nodes@.len() - i,
        {
            if self.nodes[i].display {
                let id = self.nodes[i].id;
                assert(self.node_seq()[i as int].id == id);
                return Some(id);
            }
            i = i + 1;
        }
        None
    }

    /// The ids of the nodes whose template flag is set, in id order.
    pub fn template_nodes(&self) -> (r: Vec<NodeId>)
        ensures
            r@ == self.node_seq().filter(|n: Node| n.template).map_values(|n: Node| n.id),
    {
        let mut out: Vec<NodeId> = Vec::new();
        let mut i: usize = 0;
        while i < self.nodes.len()
            invariant
                0 <= i <= self.nodes@.len(),
                out@ == self.nodes@.take(i as int).filter(|n: Node| n.template).map_values(|n: Node| n.id),
            decreases self.nodes@.len() - i,
        {
            proof {
                reveal_with_fuel(Seq::<Node>::filter, 1);
                assert(self.nodes@.take(i + 1).drop_last() =~= self.nodes@.take(i as int));
            }
            if self.nodes[i].template {
                out.push(self.nodes[i].id);
                proof {
                    let f = self.nodes@.take(i as int).filter(|n: Node| n.template);
                    assert(self.nodes@.take(i + 1).filter(|n: Node| n.template) == f.push(self.nodes@[i as int]));
                    assert(out@ =~= f.push(self.nodes@[i as int]).map_values(|n: Node| n.id));
                }
            } else {
                proof {
                    assert(self.nodes@.take(i + 1).filter(|n: Node| n.template) == self.nodes@.take(i as int).filter(|n: Node| n.template));
                }
            }
            i = i + 1;
        }
        assert(self.nodes@.take(self.nodes@.len() as int) =~= self.nodes@);
        out
    }

    /// Makes `node_id` the one displayed node, or clears the display flag of every
    /// node when `node_id` is `None`. Fails when the node is missing.
    pub fn set_display_node(&mut self, node_id: Option<NodeId>) -> (r: Result<(), GraphError>)
        requires
            old(self).wf(),
        ensures
            final(self).wf(),
            match node_id {
                Some(id) if !old(self).has_node(id) => (r matches Err(GraphError::MissingNode(e)) && e == id)
                    && *final(self) == *old(self),
                _ => r is Ok && final(self).node_seq().len() == old(self).node_seq().len()
                    && final(self).pin_seq() == old(self).pin_seq()
                    && final(self).link_seq() == old(self).link_seq()
                    && final(self).next_ids() == old(self).next_ids()
                    && forall|i: int| 0 <= i < final(self).node_seq().len() ==> {
                        &&& same_but_display(#[trigger] final(self).node_seq()[i], old(self).node_seq()[i])
                        &&& final(self).node_seq()[i].display == (node_id == Some(old(self).node_seq()[i].id))
                    },
            },
    {
        if let Some(id) = node_id {
            if self.find_node(id).is_none() {
                return Err(GraphError::MissingNode(id));
            }
        }
        let ghost g0 = *self;
        let mut i: usize = 0;
        while i < self.nodes.len()
            invariant
                g0.wf(),
                0 <= i <= self.nodes@.len(),
                self.nodes@.len() == g0.nodes@.len(),
                self.pins@ == g0.pins@,
                self.links@ == g0.links@,
                self.next_ids() == g0.next_ids(),
                forall|j: int| 0 <= j < i ==> same_but_display(#[trigger] self.nodes@[j], g0.nodes@[j])
                    && self.nodes@[j].display == (node_id == Some(g0.nodes@[j].id)),
                forall|j: int| i <= j < self.nodes@.len() ==> #[trigger] self.nodes@[j] == g0.nodes@[j],
            decreases self.nodes@.len() - i,
        {
            let mut n = self.take_node(i);
            n.display = match node_id {
                Some(id) => n.id.0 == id.0,
                None => false,
            };
            self.put_node(i, n);
            i = i + 1;
        }
        proof {
            assert forall|j: int| 0 <= j < self.node_seq().len() implies same_node_shape(#[trigger] self.node_seq()[j], g0.node_seq()[j]) by {
                assert(same_but_display(self.nodes@[j], g0.nodes@[j]));
            }
            assert forall|j: int| 0 <= j < self.node_seq().len() implies (#[trigger] self.node_seq()[j]).params.values.wf() by {
                assert(same_but_display(self.nodes@[j], g0.nodes@[j]));
                assert(g0.node_seq()[j].params.values.wf());
            }
            self.lemma_same_shape(&g0);
        }
        Ok(())
    }

    /// Clears the display flag when `node_id` is the displayed node, and otherwise
    /// makes it the one displayed node. Fails when the node is missing.
    pub fn toggle_display_node(&mut self, node_id: NodeId) -> (r: Result<(), GraphError>)
        requires
            old(self).wf(),
        ensures
            final(self).wf(),
            !old(self).has_node(node_id) ==> (r matches Err(GraphError::MissingNode(e)) && e == node_id)
                && *final(self) == *old(self),
            old(self).has_node(node_id) ==> r is Ok && final(self).node_seq().len() == old(self).node_seq().len()
                && final(self).pin_seq() == old(self).pin_seq()
                && final(self).link_seq() == old(self).link_seq()
                && final(self).next_ids() == old(self).next_ids()
                && forall|i: int| 0 <= i < final(self).node_seq().len() ==> {
                    &&& same_but_display(#[trigger] final(self).node_seq()[i], old(self).node_seq()[i])
                    &&& final(self).node_seq()[i].display == (!old(self).node_at(node_id).display
                        && old(self).node_seq()[i].id == node_id)
                },
    {
        let display = match self.find_node(node_id) {
            Some(i) => self.nodes[i].display,
            None => {
                return Err(GraphError::MissingNode(node_id));
            },
        };
        if display {
            self.set_display_node(None)
        } else {
            self.set_display_node(Some(node_id))
        }
    }

    /// Sets the template flag of a node. Fails when the node is missing.
    pub fn set_template_node(&mut self, node_id: NodeId, enabled: bool) -> (r: Result<(), GraphError>)
        requires
            old(self).wf(),
        ensures
            final(self).wf(),
            !old(self).has_node(node_id) ==> (r matches Err(GraphError::MissingNode(e)) && e == node_id)
                && *final(self) == *old(self),
            old(self).has_node(node_id) ==> r is Ok && final(self).node_seq() == old(self).node_seq().update(
                old(self).node_pos(node_id),
                final(self).node_at(node_id),
            ) && same_but_template(final(self).node_at(node_id), old(self).node_at(node_id))
                && final(self).node_at(node_id).template == enabled
                && final(self).pin_seq() == old(self).pin_seq()
                && final(self).link_seq() == old(self).link_seq()
                && final(self).next_ids() == old(self).next_ids(),
    {
        let i = match self.find_node(node_id) {
            Some(i) => i,
            None => {
                return Err(GraphError::MissingNode(node_id));
            },
        };
        let ghost g0 = *self;
        let mut n = self.take_node(i);
        n.template = enabled;
        self.put_node(i, n);
        proof {
            assert(self.node_seq() =~= g0.node_seq().update(i as int, self.node_seq()[i as int]));
            self.lemma_one_node_changed(&g0, i as int);
        }
        Ok(())
    }

    /// Flips the template flag of a node. Fails when the node is missing.
    pub fn toggle_template_node(&mut self, node_id: NodeId) -> (r: Result<(), GraphError>)
        requires
            old(self).wf(),
        ensures
            final(self).wf(),
            !old(self).has_node(node_id) ==> (r matches Err(GraphError::MissingNode(e)) && e == node_id)
                && *final(self) == *old(self),
            old(self).has_node(node_id) ==> r is Ok && final(self).node_seq() == old(self).node_seq().update(
                old(self).node_pos(node_id),
                final(self).node_at(node_id),
            ) && same_but_template(final(self).node_at(node_id), old(self).node_at(node_id))
                && final(self).node_at(node_id).template == !old(self).node_at(node_id).template
                && final(self).pin_seq() == old(self).pin_seq()
                && final(self).link_seq() == old(self).link_seq()
                && final(self).next_ids() == old(self).next_ids(),
    {
        let i = match self.find_node(node_id) {
            Some(i) => i,
            None => {
                return Err(GraphError::MissingNode(node_id));
            },
        };
        let ghost g0 = *self;
        let mut n = self.take_node(i);
        n.template = !n.template;
        self.put_node(i, n);
        proof {
            assert(self.node_seq() =~= g0.node_seq().update(i as int, self.node_seq()[i as int]));
            self.lemma_one_node_changed(&g0, i as int);
        }
        Ok(())
    }

    /// After the node at position `i` was replaced by one of the same shape, the graph
    /// is still well formed and the node is found at the same place.
    proof fn lemma_one_node_changed(&self, g0: &Graph, i: int)
        requires
            g0.wf(),
            0 <= i < g0.node_seq().len(),
            self.node_seq() == g0.node_seq().update(i, self.node_seq()[i]),
            same_node_shape(self.node_seq()[i], g0.node_seq()[i]),
            self.node_seq()[i].params.values.wf(),
            self.pin_seq() == g0.pin_seq(),
            self.link_seq() == g0.link_seq(),
            self.next_ids() == g0.next_ids(),
        ensures
            self.wf(),
            g0.node_pos(g0.node_seq()[i].id) == i,
            self.node_at(g0.node_seq()[i].id) == self.node_seq()[i],
            self.node_seq() == g0.node_seq().update(g0.node_pos(g0.node_seq()[i].id), self.node_at(g0.node_seq()[i].id)),
            forall|x: NodeId| self.has_node(x) == g0.has_node(x),
    {
        assert forall|j: int| 0 <= j < self.node_seq().len() implies same_node_shape(#[trigger] self.node_seq()[j], g0.node_seq()[j]) by {
            if j != i {
                assert(self.node_seq()[j] == g0.node_seq()[j]);
            }
        }
        assert forall|j: int| 0 <= j < self.node_seq().len() implies (#[trigger] self.node_seq()[j]).params.values.wf() by {
            if j != i {
                assert(self.node_seq()[j] == g0.node_seq()[j]);
                assert(g0.node_seq()[j].params.values.wf());
            }
        }
        self.lemma_same_shape(g0);
        lemma_node_pos(g0, i);
        lemma_node_pos(self, i);
    }

    /// Sets a parameter of a node. When the stored value differs from `value` (or
    /// there is none), stores it and advances the node's parameter version, wrapping
    /// at the top of the range. Fails when the node is missing.
    pub fn set_param(&mut self, node_id: NodeId, key: String, value: ParamValue) -> (r: Result<(), GraphError>)
        requires
            old(self).wf(),
        ensures
            final(self).wf(),
            !old(self).has_node(node_id) ==> (r matches Err(GraphError::MissingNode(e)) && e == node_id)
                && *final(self) == *old(self),
            old(self).has_node(node_id) ==> r is Ok && ({
                let before = old(self).node_at(node_id);
                let after = final(self).node_at(node_id);
                let changed = !(before.params.values@.contains_key(key@) && param_eq(before.params.values@[key@], value));
                &&& final(self).node_seq() == old(self).node_seq().update(old(self).node_pos(node_id), after)
                &&& same_but_params(after, before)
                &&& after.params.values.wf()
                &&& changed ==> after.params.values@ == before.params.values@.insert(key@, value)
                    && after.param_version == (if before.param_version == u64::MAX { 0 } else { (before.param_version + 1) as u64 })
                &&& !changed ==> after.params.values@ == before.params.values@ && after.param_version == before.param_version
                &&& final(self).pin_seq() == old(self).pin_seq()
                &&& final(self).link_seq() == old(self).link_seq()
                &&& final(self).next_ids() == old(self).next_ids()
            }),
    {
        let i = match self.find_node(node_id) {
            Some(i) => i,
            None => {
                return Err(GraphError::MissingNode(node_id));
            },
        };
        let ghost g0 = *self;
        let mut n = self.take_node(i);
        assert(n.params.values.wf()) by {
            assert(g0.node_seq()[i as int].params.values.wf());
        }
        let changed = n.params.store(key, value);
        if changed {
            n.param_version = n.param_version.wrapping_add(1);
        }
        self.put_node(i, n);
        proof {
            assert(self.node_seq() =~= g0.node_seq().update(i as int, self.node_seq()[i as int]));
            self.lemma_one_node_changed(&g0, i as int);
        }
        Ok(())
    }

    /// The stored position of a node (the bit patterns of its two coordinates), if any.
    pub fn node_position(&self, node_id: NodeId) -> (r: Option<[u32; 2]>)
        requires
            self.wf(),
        ensures
            r == (if self.has_node(node_id) { self.node_at(node_id).position } else { None }),
    {
        match self.find_node(node_id) {
            Some(i) => self.nodes[i].position,
            None => None,
        }
    }

    /// Stores the position of a node. Fails when the node is missing.
    pub fn set_node_position(&mut self, node_id: NodeId, position: [u32; 2]) -> (r: Result<(), GraphError>)
        requires
            old(self).wf(),
        ensures
            final(self).wf(),
            !old(self).has_node(node_id) ==> (r matches Err(GraphError::MissingNode(e)) && e == node_id)
                && *final(self) == *old(self),
            old(self).has_node(node_id) ==> r is Ok && final(self).node_seq() == old(self).node_seq().update(
                old(self).node_pos(node_id),
                final(self).node_at(node_id),
            ) && same_but_position(final(self).node_at(node_id), old(self).node_at(node_id))
                && final(self).node_at(node_id).position == Some(position)
                && final(self).pin_seq() == old(self).pin_seq()
                && final(self).link_seq() == old(self).link_seq()
                && final(self).next_ids() == old(self).next_ids(),
    {
        let i = match self.find_node(node_id) {
            Some(i) => i,
            None => {
                return Err(GraphError::MissingNode(node_id));
            },
        };
        let ghost g0 = *self;
        let mut n = self.take_node(i);
        n.position = Some(position);
        self.put_node(i, n);
        proof {
            assert(self.node_seq() =~= g0.node_seq().update(i as int, self.node_seq()[i as int]));
            self.lemma_one_node_changed(&g0, i as int);
        }
        Ok(())
    }

    /// Renames every node named `from` to `to`; returns how many were renamed.
    pub fn rename_nodes(&mut self, from: &str, to: &str) -> (r: usize)
        requires
            old(self).wf(),
        ensures
            final(self).wf(),
            final(self).node_seq().len() == old(self).node_seq().len(),
            final(self).pin_seq() == old(self).pin_seq(),
            final(self).link_seq() == old(self).link_seq(),
            final(self).next_ids() == old(self).next_ids(),
            forall|i: int| 0 <= i < final(self).node_seq().len() ==> {
                &&& same_but_name(#[trigger] final(self).node_seq()[i], old(self).node_seq()[i])
                &&& final(self).node_seq()[i].name@ == (if old(self).node_seq()[i].name@ == from@ { to@ } else {
                    old(self).node_seq()[i].name@
                })
            },
            r == old(self).node_seq().filter(|n: Node| n.name@ == from@).len(),
    {
        let ghost g0 = *self;
        let mut renamed: usize = 0;
        let mut i: usize = 0;
        while i < self.nodes.len()
            invariant
                g0.wf(),
                0 <= i <= self.nodes@.len(),
                self.nodes@.len() == g0.nodes@.len(),
                self.pins@ == g0.pins@,
                self.links@ == g0.links@,
                self.next_ids() == g0.next_ids(),
                forall|j: int| 0 <= j < i ==> same_but_name(#[trigger] self.nodes@[j], g0.nodes@[j])
                    && self.nodes@[j].name@ == (if g0.nodes@[j].name@ == from@ { to@ } else { g0.nodes@[j].name@ }),
                forall|j: int| i <= j < self.nodes@.len() ==> #[trigger] self.nodes@[j] == g0.nodes@[j],
                renamed == g0.nodes@.take(i as int).filter(|n: Node| n.name@ == from@).len(),
                renamed <= i,
            decreases self.nodes@.len() - i,
        {
            proof {
                reveal_with_fuel(Seq::<Node>::filter, 1);
                assert(g0.nodes@.take(i + 1).drop_last() =~= g0.nodes@.take(i as int));
            }
            if text_eq(self.nodes[i].name.as_str(), from) {
                let mut n = self.take_node(i);
                n.name = crate::text::owned(to);
                self.put_node(i, n);
                renamed = renamed + 1;
            }
            i = i + 1;
        }
        proof {
            assert(g0.nodes@.take(g0.nodes@.len() as int) =~= g0.nodes@);
            assert forall|j: int| 0 <= j < self.node_seq().len() implies same_node_shape(#[trigger] self.node_seq()[j], g0.node_seq()[j]) by {
                assert(same_but_name(self.nodes@[j], g0.nodes@[j]));
            }
            assert forall|j: int| 0 <= j < self.node_seq().len() implies (#[trigger] self.node_seq()[j]).params.values.wf() by {
                assert(same_but_name(self.nodes@[j], g0.nodes@[j]));
                assert(g0.node_seq()[j].params.values.wf());
            }
            self.lemma_same_shape(&g0);
        }
        renamed
    }
}


/// A filtered list of links keeps the links' id order, and holds only links of the list.
proof fn lemma_filter_links(s: Seq<Link>, pred: spec_fn(Link) -> bool)
    requires
        link_ids_increasing(s),
    ensures
        link_ids_increasing(s.filter(pred)),
        forall|i: int| 0 <= i < s.filter(pred).len() ==> s.contains(#[trigger] s.filter(pred)[i]),
        forall|i: int| 0 <= i < s.filter(pred).len() ==> pred(#[trigger] s.filter(pred)[i]),
        forall|i: int| 0 <= i < s.len() && pred(s[i]) ==> #[trigger] s.filter(pred).contains(s[i]),
    decreases s.len(),
{
    broadcast use vstd::seq_lib::group_filter_ensures;
    reveal_with_fuel(Seq::<Link>::filter, 1);
    if s.len() > 0 {
        let d = s.drop_last();
        lemma_filter_links(d, pred);
        let f = d.filter(pred);
        assert forall|i: int| 0 <= i < s.filter(pred).len() implies s.contains(#[trigger] s.filter(pred)[i]) by {
            if i < f.len() {
                assert(s.filter(pred)[i] == f[i]);
                let j = choose|j: int| 0 <= j < d.len() && d[j] == f[i];
                assert(s[j] == f[i]);
            } else {
                assert(s[s.len() - 1] == s.filter(pred)[i]);
            }
        }
        assert forall|i: int, j: int| 0 <= i < j < s.filter(pred).len() implies
            s.filter(pred)[i].id.0 < s.filter(pred)[j].id.0 by {
            if j < f.len() {
                assert(s.filter(pred)[i] == f[i]);
                assert(s.filter(pred)[j] == f[j]);
            } else {
                assert(s.filter(pred)[i] == f[i]);
                let k = choose|k: int| 0 <= k < d.len() && d[k] == f[i];
                assert(s[k] == f[i]);
            }
        }
    }
}

/// A filtered list of pins keeps the pins' id order, and holds only pins of the list.
proof fn lemma_filter_pins(s: Seq<Pin>, pred: spec_fn(Pin) -> bool)
    requires
        pin_ids_increasing(s),
    ensures
        pin_ids_increasing(s.filter(pred)),
        forall|i: int| 0 <= i < s.filter(pred).len() ==> s.contains(#[trigger] s.filter(pred)[i]),
        forall|i: int| 0 <= i < s.filter(pred).len() ==> pred(#[trigger] s.filter(pred)[i]),
        forall|i: int| 0 <= i < s.len() && pred(s[i]) ==> #[trigger] s.filter(pred).contains(s[i]),
    decreases s.len(),
{
    broadcast use vstd::seq_lib::group_filter_ensures;
    reveal_with_fuel(Seq::<Pin>::filter, 1);
    if s.len() > 0 {
        let d = s.drop_last();
        lemma_filter_pins(d, pred);
        let f = d.filter(pred);
        assert forall|i: int| 0 <= i < s.filter(pred).len() implies s.contains(#[trigger] s.filter(pred)[i]) by {
            if i < f.len() {
                assert(s.filter(pred)[i] == f[i]);
                let j = choose|j: int| 0 <= j < d.len() && d[j] == f[i];
                assert(s[j] == f[i]);
            } else {
                assert(s[s.len() - 1] == s.filter(pred)[i]);
            }
        }
        assert forall|i: int, j: int| 0 <= i < j < s.filter(pred).len() implies
            s.filter(pred)[i].id.0 < s.filter(pred)[j].id.0 by {
            if j < f.len() {
                assert(s.filter(pred)[i] == f[i]);
                assert(s.filter(pred)[j] == f[j]);
            } else {
                assert(s.filter(pred)[i] == f[i]);
                let k = choose|k: int| 0 <= k < d.len() && d[k] == f[i];
                assert(s[k] == f[i]);
            }
        }
    }
}

/// Whether `id` occurs in `v`.
pub fn pin_ids_contain(v: &[PinId], id: PinId) -> (r: bool)
    ensures
        r == v@.contains(id),
{
    let mut i: usize = 0;
    while i < v.len()
        invariant
            0 <= i <= v@.len(),
            forall|j: int| 0 <= j < i ==> v@[j] != id,
        decreases v@.len() - i,
    {
        if v[i].0 == id.0 {
            return true;
        }
        i = i + 1;
    }
    false
}

impl Graph {
    /// After the links changed and nothing else did, the graph is well formed when the
    /// new links are in id order, below the link counter, join pins of the graph, and
    /// give no input two links.
    proof fn lemma_links_changed(&self, g0: &Graph)
        requires
            g0.wf(),
            self.node_seq() == g0.node_seq(),
            self.pin_seq() == g0.pin_seq(),
            self.next_ids().0 == g0.next_ids().0,
            self.next_ids().1 == g0.next_ids().1,
            link_ids_increasing(self.link_seq()),
            forall|i: int| 0 <= i < self.link_seq().len() ==> #[trigger] self.link_seq()[i].id.0 < self.next_ids().2,
            forall|i: int| 0 <= i < self.link_seq().len() ==> self.has_pin(#[trigger] self.link_seq()[i].from)
                && self.has_pin(self.link_seq()[i].to),
            forall|i: int, j: int| 0 <= i < self.link_seq().len() && 0 <= j < self.link_seq().len() && i != j
                ==> #[trigger] self.link_seq()[i].to != #[trigger] self.link_seq()[j].to,
        ensures
            self.wf(),
    {
        assert forall|i: int| 0 <= i < self.node_seq().len() implies #[trigger] self.node_seq()[i].id.0 < self.next_ids().0 by {
            assert(g0.node_seq()[i].id.0 < g0.next_ids().0);
        }
        assert forall|i: int| 0 <= i < self.pin_seq().len() implies #[trigger] self.pin_seq()[i].id.0 < self.next_ids().1 by {
            assert(g0.pin_seq()[i].id.0 < g0.next_ids().1);
        }
        assert forall|i: int| 0 <= i < self.pin_seq().len() implies self.has_node(#[trigger] self.pin_seq()[i].node) by {
            assert(g0.has_node(g0.pin_seq()[i].node));
        }
        assert forall|i: int| 0 <= i < self.pin_seq().len() implies #[trigger] self.pin_listed(self.pin_seq()[i]) by {
            assert(g0.pin_listed(g0.pin_seq()[i]));
        }
        assert forall|i: int| 0 <= i < self.node_seq().len() implies #[trigger] self.node_pins_ok(self.node_seq()[i]) by {
            assert(g0.node_pins_ok(g0.node_seq()[i]));
        }
        assert forall|i: int| 0 <= i < self.node_seq().len() implies (#[trigger] self.node_seq()[i]).params.values.wf() by {
            assert(g0.node_seq()[i].params.values.wf());
        }
    }

    /// Whether some link ends at `to`.
    fn input_connected(&self, to: PinId) -> (r: bool)
        ensures
            r == exists|k: int| 0 <= k < self.link_seq().len() && #[trigger] self.link_seq()[k].to == to,
    {
        let mut i: usize = 0;
        while i < self.links.len()
            invariant
                0 <= i <= self.links@.len(),
                forall|k: int| 0 <= k < i ==> self.links@[k].to != to,
            decreases self.links@.len() - i,
        {
            if self.links[i].to.0 == to.0 {
                assert(self.link_seq()[i as int].to == to);
                return true;
            }
            i = i + 1;
        }
        false
    }

    /// Links output pin `from` to input pin `to`. Fails when a pin is missing, when
    /// `from` is not an output or `to` not an input, when `to` already receives a
    /// link, or when the pin types are not compatible (checked in that order).
    pub fn add_link(&mut self, from: PinId, to: PinId) -> (r: Result<LinkId, GraphError>)
        requires
            old(self).wf(),
            old(self).next_ids().2 < u64::MAX,
        ensures
            final(self).wf(),
            !old(self).has_pin(from) ==> (r matches Err(GraphError::MissingPin(p)) && p == from),
            old(self).has_pin(from) && !old(self).has_pin(to) ==> (r matches Err(GraphError::MissingPin(p)) && p == to),
            old(self).has_pin(from) && old(self).has_pin(to) ==> ({
                let pf = old(self).pin_at(from);
                let pt = old(self).pin_at(to);
                let connected = exists|k: int| 0 <= k < old(self).link_seq().len() && #[trigger] old(self).link_seq()[k].to == to;
                if pf.kind != PinKind::Output || pt.kind != PinKind::Input {
                    r matches Err(GraphError::WrongPinDirection { from: f, to: t }) && f == from && t == to
                } else if connected {
                    r matches Err(GraphError::InputAlreadyConnected { to: t }) && t == to
                } else if !spec_pin_types_compatible(pf.pin_type, pt.pin_type) {
                    r matches Err(GraphError::IncompatiblePinTypes { from: a, to: b }) && a == pf.pin_type && b == pt.pin_type
                } else {
                    &&& r == Ok::<LinkId, GraphError>(LinkId(old(self).next_ids().2))
                    &&& final(self).link_seq() == old(self).link_seq().push(Link { id: LinkId(old(self).next_ids().2), from, to })
                    &&& final(self).node_seq() == old(self).node_seq()
                    &&& final(self).pin_seq() == old(self).pin_seq()
                    &&& final(self).next_ids() == (old(self).next_ids().0, old(self).next_ids().1, (old(self).next_ids().2 + 1) as u64)
                }
            }),
            r is Err ==> *final(self) == *old(self),
    {
        let fi = match self.find_pin(from) {
            Some(i) => i,
            None => {
                return Err(GraphError::MissingPin(from));
            },
        };
        let ti = match self.find_pin(to) {
            Some(i) => i,
            None => {
                return Err(GraphError::MissingPin(to));
            },
        };
        let from_kind = self.pins[fi].kind;
        let to_kind = self.pins[ti].kind;
        let from_type = self.pins[fi].pin_type;
        let to_type = self.pins[ti].pin_type;
        if from_kind != PinKind::Output || to_kind != PinKind::Input {
            return Err(GraphError::WrongPinDirection { from, to });
        }
        if self.input_connected(to) {
            return Err(GraphError::InputAlreadyConnected { to });
        }
        if !pin_types_compatible(from_type, to_type) {
            return Err(GraphError::IncompatiblePinTypes { from: from_type, to: to_type });
        }
        let ghost g0 = *self;
        let link_id = LinkId(self.next_link_id);
        self.next_link_id = self.next_link_id + 1;
        self.links.push(Link { id: link_id, from, to });
        proof {
            let n = g0.link_seq().len() as int;
            assert forall|i: int| 0 <= i < n implies self.link_seq()[i] == g0.link_seq()[i] by {}
            assert forall|i: int, j: int| 0 <= i < j < self.link_seq().len() implies self.link_seq()[i].id.0 < self.link_seq()[j].id.0 by {
                if j == n {
                    assert(g0.link_seq()[i].id.0 < g0.next_ids().2);
                } else {
                    assert(g0.link_seq()[i].id.0 < g0.link_seq()[j].id.0);
                }
            }
            assert forall|i: int| 0 <= i < self.link_seq().len() implies #[trigger] self.link_seq()[i].id.0 < self.next_ids().2 by {
                if i < n {
                    assert(g0.link_seq()[i].id.0 < g0.next_ids().2);
                }
            }
            assert forall|i: int| 0 <= i < self.link_seq().len() implies self.has_pin(#[trigger] self.link_seq()[i].from)
                && self.has_pin(self.link_seq()[i].to) by {
                if i < n {
                    assert(g0.has_pin(g0.link_seq()[i].from));
                    assert(g0.has_pin(g0.link_seq()[i].to));
                }
            }
            assert forall|i: int, j: int| 0 <= i < self.link_seq().len() && 0 <= j < self.link_seq().len() && i != j
                implies #[trigger] self.link_seq()[i].to != #[trigger] self.link_seq()[j].to by {
                if i < n && j < n {
                    assert(g0.link_seq()[i].to != g0.link_seq()[j].to);
                } else if i < n {
                    assert(g0.link_seq()[i].to != to);
                } else if j < n {
                    assert(g0.link_seq()[j].to != to);
                }
            }
            self.lemma_links_changed(&g0);
        }
        Ok(link_id)
    }

    /// The links that pass `keep`, in order. 
    fn links_avoiding(&self, gone: &[PinId]) -> (r: Vec<Link>)
        ensures
            r@ == self.link_seq().filter(|l: Link| !gone@.contains(l.from) && !gone@.contains(l.to)),
    {
        let ghost pred = |l: Link| !gone@.contains(l.from) && !gone@.contains(l.to);
        let mut out: Vec<Link> = Vec::new();
        let mut i: usize = 0;
        while i < self.links.len()
            invariant
                0 <= i <= self.links@.len(),
                pred == (|l: Link| !gone@.contains(l.from) && !gone@.contains(l.to)),
                out@ == self.links@.take(i as int).filter(pred),
            decreases self.links@.len() - i,
        {
            proof {
                reveal_with_fuel(Seq::<Link>::filter, 1);
                assert(self.links@.take(i + 1).drop_last() =~= self.links@.take(i as int));
            }
            let l = self.links[i];
            if !pin_ids_contain(gone, l.from) && !pin_ids_contain(gone, l.to) {
                out.push(l);
            }
            i = i + 1;
        }
        assert(self.links@.take(self.links@.len() as int) =~= self.links@);
        out
    }

    /// Removes every link that starts or ends at `pin_id`; returns how many were removed.
    pub fn remove_links_for_pin(&mut self, pin_id: PinId) -> (r: usize)
        requires
            old(self).wf(),
        ensures
            final(self).wf(),
            final(self).link_seq() == old(self).link_seq().filter(|l: Link| l.from != pin_id && l.to != pin_id),
            r == old(self).link_seq().len() - final(self).link_seq().len(),
            final(self).node_seq() == old(self).node_seq(),
            final(self).pin_seq() == old(self).pin_seq(),
            final(self).next_ids() == old(self).next_ids(),
    {
        let ghost g0 = *self;
        let before = self.links.len();
        let gone = vec![pin_id];
        let kept = self.links_avoiding(gone.as_slice());
        proof {
            assert(gone@ == seq![pin_id]);
            assert((|l: Link| !gone@.contains(l.from) && !gone@.contains(l.to)) =~= (|l: Link| l.from != pin_id && l.to != pin_id)) by {
                assert forall|x: PinId| gone@.contains(x) <==> x == pin_id by {
                    if x == pin_id { assert(gone@[0] == x); }
                }
            }
        }
        self.links = kept;
        proof { self.lemma_links_filtered(&g0, |l: Link| l.from != pin_id && l.to != pin_id); }
        before - self.links.len()
    }

    proof fn lemma_links_filtered(&self, g0: &Graph, pred: spec_fn(Link) -> bool)
        requires
            g0.wf(),
            self.node_seq() == g0.node_seq(),
            self.pin_seq() == g0.pin_seq(),
            self.next_ids() == g0.next_ids(),
            self.link_seq() == g0.link_seq().filter(pred),
        ensures
            self.wf(),
            self.link_seq().len() <= g0.link_seq().len(),
    {
        broadcast use vstd::seq_lib::group_filter_ensures;
        lemma_filter_links(g0.link_seq(), pred);
        let s = g0.link_seq();
        assert forall|i: int| 0 <= i < self.link_seq().len() implies #[trigger] self.link_seq()[i].id.0 < self.next_ids().2
            && self.has_pin(self.link_seq()[i].from) && self.has_pin(self.link_seq()[i].to) by {
            assert(s.contains(self.link_seq()[i]));
            let k = choose|k: int| 0 <= k < s.len() && s[k] == self.link_seq()[i];
            assert(g0.link_seq()[k].id.0 < g0.next_ids().2);
            assert(g0.has_pin(g0.link_seq()[k].from));
        }
        assert forall|i: int, j: int| 0 <= i < self.link_seq().len() && 0 <= j < self.link_seq().len() && i != j
            implies #[trigger] self.link_seq()[i].to != #[trigger] self.link_seq()[j].to by {
            assert(s.contains(self.link_seq()[i]));
            assert(s.contains(self.link_seq()[j]));
            let a = choose|k: int| 0 <= k < s.len() && s[k] == self.link_seq()[i];
            let b = choose|k: int| 0 <= k < s.len() && s[k] == self.link_seq()[j];
            if a == b {
                if i < j {
                    assert(self.link_seq()[i].id.0 < self.link_seq()[j].id.0);
                } else {
                    assert(self.link_seq()[j].id.0 < self.link_seq()[i].id.0);
                }
            } else {
                assert(s[a].to != s[b].to);
            }
        }
        self.lemma_links_changed(g0);
    }

    /// Removes the link with the given id; says whether there was one.
    pub fn remove_link(&mut self, link_id: LinkId) -> (r: bool)
        requires
            old(self).wf(),
        ensures
            final(self).wf(),
            r == exists|k: int| 0 <= k < old(self).link_seq().len() && #[trigger] old(self).link_seq()[k].id == link_id,
            final(self).link_seq() == old(self).link_seq().filter(|l: Link| l.id != link_id),
            final(self).node_seq() == old(self).node_seq(),
            final(self).pin_seq() == old(self).pin_seq(),
            final(self).next_ids() == old(self).next_ids(),
    {
        let ghost g0 = *self;
        let mut i: usize = 0;
        while i < self.links.len()
            invariant
                *self == g0,
                g0 == *old(self),
                g0.wf(),
                0 <= i <= self.links@.len(),
                forall|k: int| 0 <= k < i ==> self.links@[k].id != link_id,
            decreases self.links@.len() - i,
        {
            if self.links[i].id.0 == link_id.0 {
                proof {
                    assert forall|k: int| 0 <= k < g0.link_seq().len() && k != i implies (#[trigger] g0.link_seq()[k]).id != link_id by {
                        if k < i {
                            assert(g0.link_seq()[k].id.0 < g0.link_seq()[i as int].id.0);
                        } else {
                            assert(g0.link_seq()[i as int].id.0 < g0.link_seq()[k].id.0);
                        }
                    }
                }
                self.links.remove(i);
                proof {
                    self.lemma_remove_one_link(&g0, i as int, |l: Link| l.id != link_id);
                    assert(g0.link_seq()[i as int].id == link_id);
                }
                return true;
            }
            i = i + 1;
        }
        proof {
            broadcast use vstd::seq_lib::group_filter_ensures;
            lemma_filter_links(g0.link_seq(), |l: Link| l.id != link_id);
            self.lemma_filter_keeps_all(|l: Link| l.id != link_id);
        }
        false
    }

    /// A filter that every link passes leaves the links as they are.
    proof fn lemma_filter_keeps_all(&self, pred: spec_fn(Link) -> bool)
        requires
            forall|k: int| 0 <= k < self.link_seq().len() ==> pred(#[trigger] self.link_seq()[k]),
        ensures
            self.link_seq().filter(pred) == self.link_seq(),
    {
        lemma_filter_all(self.link_seq(), pred);
    }

    proof fn lemma_remove_one_link(&self, g0: &Graph, i: int, pred: spec_fn(Link) -> bool)
        requires
            g0.wf(),
            0 <= i < g0.link_seq().len(),
            !pred(g0.link_seq()[i]),
            forall|k: int| 0 <= k < g0.link_seq().len() && k != i ==> pred(#[trigger] g0.link_seq()[k]),
            self.link_seq() == g0.link_seq().remove(i),
            self.node_seq() == g0.node_seq(),
            self.pin_seq() == g0.pin_seq(),
            self.next_ids() == g0.next_ids(),
        ensures
            self.wf(),
            self.link_seq() == g0.link_seq().filter(pred),
    {
        let s = g0.link_seq();
        lemma_filter_all(s.take(i), pred);
        lemma_filter_all(s.skip(i + 1), pred);
        assert(s =~= s.take(i) + seq![s[i]] + s.skip(i + 1));
        Seq::<Link>::filter_distributes_over_add(s.take(i) + seq![s[i]], s.skip(i + 1), pred);
        Seq::<Link>::filter_distributes_over_add(s.take(i), seq![s[i]], pred);
        reveal_with_fuel(Seq::<Link>::filter, 2);
        assert(seq![s[i]].filter(pred) =~= Seq::<Link>::empty());
        assert(self.link_seq() =~= s.take(i) + s.skip(i + 1));
        self.lemma_links_filtered(g0, pred);
    }

    /// Removes the first link, in id order, from `from` to `to`; says whether there was one.
    pub fn remove_link_between(&mut self, from: PinId, to: PinId) -> (r: bool)
        requires
            old(self).wf(),
        ensures
            final(self).wf(),
            r == exists|k: int| 0 <= k < old(self).link_seq().len() && #[trigger] old(self).link_seq()[k].from == from
                && old(self).link_seq()[k].to == to,
            final(self).link_seq() == old(self).link_seq().filter(|l: Link| !(l.from == from && l.to == to)),
            final(self).node_seq() == old(self).node_seq(),
            final(self).pin_seq() == old(self).pin_seq(),
            final(self).next_ids() == old(self).next_ids(),
    {
        let ghost g0 = *self;
        let ghost pred = |l: Link| !(l.from == from && l.to == to);
        let mut i: usize = 0;
        while i < self.links.len()
            invariant
                *self == g0,
                g0 == *old(self),
                g0.wf(),
                pred == (|l: Link| !(l.from == from && l.to == to)),
                0 <= i <= self.links@.len(),
                forall|k: int| 0 <= k < i ==> !(self.links@[k].from == from && self.links@[k].to == to),
            decreases self.links@.len() - i,
        {
            if self.links[i].from.0 == from.0 && self.links[i].to.0 == to.0 {
                proof {
                    assert forall|k: int| 0 <= k < g0.link_seq().len() && k != i implies pred(#[trigger] g0.link_seq()[k]) by {
                        assert(g0.link_seq()[k].to != g0.link_seq()[i as int].to);
                    }
                    assert(!pred(g0.link_seq()[i as int]));
                }
                self.links.remove(i);
                proof {
                    self.lemma_remove_one_link(&g0, i as int, pred);
                    assert(g0.link_seq()[i as int].from == from);
                }
                return true;
            }
            i = i + 1;
        }
        proof {
            self.lemma_filter_keeps_all(pred);
        }
        false
    }

    /// Turns every `Mesh` and `Splats` pin into a `Geometry` pin; says whether any changed.
    pub fn migrate_geometry_pins(&mut self) -> (r: bool)
        requires
            old(self).wf(),
        ensures
            final(self).wf(),
            r == exists|k: int| 0 <= k < old(self).pin_seq().len() && (#[trigger] old(self).pin_seq()[k].pin_type == PinType::Mesh
                || old(self).pin_seq()[k].pin_type == PinType::Splats),
            final(self).pin_seq().len() == old(self).pin_seq().len(),
            forall|k: int| 0 <= k < final(self).pin_seq().len() ==> {
                let p = #[trigger] final(self).pin_seq()[k];
                let q = old(self).pin_seq()[k];
                &&& p.id == q.id && p.node == q.node && p.name == q.name && p.kind == q.kind
                &&& p.pin_type == (if q.pin_type == PinType::Mesh || q.pin_type == PinType::Splats {
                    PinType::Geometry
                } else {
                    q.pin_type
                })
            },
            final(self).node_seq() == old(self).node_seq(),
            final(self).link_seq() == old(self).link_seq(),
            final(self).next_ids() == old(self).next_ids(),
    {
        let ghost g0 = *self;
        let mut changed = false;
        let mut i: usize = 0;
        while i < self.pins.len()
            invariant
                0 <= i <= self.pins@.len(),
                self.pins@.len() == g0.pins@.len(),
                self.nodes@ == g0.nodes@,
                self.links@ == g0.links@,
                self.next_ids() == g0.next_ids(),
                forall|k: int| i <= k < self.pins@.len() ==> #[trigger] self.pins@[k] == g0.pins@[k],
                forall|k: int| 0 <= k < i ==> {
                    let p = #[trigger] self.pins@[k];
                    let q = g0.pins@[k];
                    &&& p.id == q.id && p.node == q.node && p.name == q.name && p.kind == q.kind
                    &&& p.pin_type == (if q.pin_type == PinType::Mesh || q.pin_type == PinType::Splats {
                        PinType::Geometry
                    } else {
                        q.pin_type
                    })
                },
                changed == exists|k: int| 0 <= k < i && (#[trigger] g0.pins@[k].pin_type == PinType::Mesh
                    || g0.pins@[k].pin_type == PinType::Splats),
            decreases self.pins@.len() - i,
        {
            let t = self.pins[i].pin_type;
            if t == PinType::Mesh || t == PinType::Splats {
                let mut tmp = Pin { id: PinId(0), node: NodeId(0), name: String::new(), kind: PinKind::Input, pin_type: PinType::Geometry };
                self.pins.set_and_swap(i, &mut tmp);
                tmp.pin_type = PinType::Geometry;
                self.pins.set_and_swap(i, &mut tmp);
                changed = true;
            }
            proof {
                if t == PinType::Mesh || t == PinType::Splats {
                    assert(g0.pins@[i as int].pin_type == t);
                }
            }
            i = i + 1;
        }
        proof {
            assert forall|x: PinId| self.has_pin(x) == g0.has_pin(x) by {
                if self.has_pin(x) {
                    let k = choose|k: int| 0 <= k < self.pin_seq().len() && #[trigger] self.pin_seq()[k].id == x;
                    assert(g0.pin_seq()[k].id == x);
                }
                if g0.has_pin(x) {
                    let k = choose|k: int| 0 <= k < g0.pin_seq().len() && #[trigger] g0.pin_seq()[k].id == x;
                    assert(self.pin_seq()[k].id == x);
                }
            }
            assert(pin_ids_increasing(self.pin_seq()));
            assert forall|x: PinId| #[trigger] self.has_pin(x) implies self.pin_at(x).node == g0.pin_at(x).node
                && self.pin_at(x).id == g0.pin_at(x).id by {
                let k = choose|k: int| 0 <= k < self.pin_seq().len() && #[trigger] self.pin_seq()[k].id == x;
                lemma_pin_pos(self, k);
                lemma_pin_pos(&g0, k);
            }
            assert forall|i: int| 0 <= i < self.pin_seq().len() implies #[trigger] self.pin_seq()[i].id.0 < self.next_ids().1 by {
                assert(g0.pin_seq()[i].id.0 < g0.next_ids().1);
            }
            assert forall|i: int| 0 <= i < self.pin_seq().len() implies self.has_node(#[trigger] self.pin_seq()[i].node) by {
                assert(g0.has_node(g0.pin_seq()[i].node));
            }
            assert forall|i: int| 0 <= i < self.link_seq().len() implies self.has_pin(#[trigger] self.link_seq()[i].from)
                && self.has_pin(self.link_seq()[i].to) by {
                assert(g0.has_pin(g0.link_seq()[i].from));
                assert(g0.has_pin(g0.link_seq()[i].to));
            }
            assert forall|i: int| 0 <= i < self.pin_seq().len() implies #[trigger] self.pin_listed(self.pin_seq()[i]) by {
                assert(g0.pin_listed(g0.pin_seq()[i]));
            }
            assert forall|i: int| 0 <= i < self.node_seq().len() implies #[trigger] self.node_pins_ok(self.node_seq()[i]) by {
                let n = self.node_seq()[i];
                assert(g0.node_pins_ok(g0.node_seq()[i]));
                assert forall|q: PinId| (n.inputs@.contains(q) || n.outputs@.contains(q)) implies self.has_pin(q)
                    && self.pin_at(q).node == n.id by {
                    assert(g0.has_pin(q));
                }
            }
            assert forall|i: int| 0 <= i < self.node_seq().len() implies #[trigger] self.node_seq()[i].id.0 < self.next_ids().0 by {
                assert(g0.node_seq()[i].id.0 < g0.next_ids().0);
            }
            assert forall|i: int| 0 <= i < self.link_seq().len() implies #[trigger] self.link_seq()[i].id.0 < self.next_ids().2 by {
                assert(g0.link_seq()[i].id.0 < g0.next_ids().2);
            }
            assert forall|i: int| 0 <= i < self.node_seq().len() implies (#[trigger] self.node_seq()[i]).params.values.wf() by {
                assert(g0.node_seq()[i].params.values.wf());
            }
        }
        changed
    }
}

/// A filter that every element passes leaves the sequence as it is.
proof fn lemma_filter_all<A>(s: Seq<A>, pred: spec_fn(A) -> bool)
    requires
        forall|k: int| 0 <= k < s.len() ==> pred(#[trigger] s[k]),
    ensures
        s.filter(pred) == s,
    decreases s.len(),
{
    reveal(Seq::filter);
    if s.len() > 0 {
        lemma_filter_all(s.drop_last(), pred);
        assert(s.drop_last().push(s.last()) =~= s);
    }
}


impl Graph {
    /// Removes a node, its pins and every link that starts or ends at one of its
    /// pins; says whether the node was there.
    pub fn remove_node(&mut self, node_id: NodeId) -> (r: bool)
        requires
            old(self).wf(),
        ensures
            final(self).wf(),
            r == old(self).has_node(node_id),
            !r ==> *final(self) == *old(self),
            r ==> ({
                let gone = old(self).node_at(node_id).inputs@ + old(self).node_at(node_id).outputs@;
                &&& final(self).node_seq() == old(self).node_seq().remove(old(self).node_pos(node_id))
                &&& final(self).pin_seq() == old(self).pin_seq().filter(|p: Pin| !gone.contains(p.id))
                &&& final(self).link_seq() == old(self).link_seq().filter(
                    |l: Link| !gone.contains(l.from) && !gone.contains(l.to),
                )
                &&& final(self).next_ids() == old(self).next_ids()
            }),
            forall|x: NodeId| final(self).has_node(x) == (old(self).has_node(x) && x != node_id),
            forall|a: NodeId, b: NodeId| final(self).feeds(a, b) == (old(self).feeds(a, b) && a != node_id && b != node_id),
    {
        let idx = match self.find_node(node_id) {
            Some(i) => i,
            None => {
                return false;
            },
        };
        let ghost g0 = *self;
        let node = self.nodes.remove(idx);
        let mut gone: Vec<PinId> = Vec::new();
        let mut i: usize = 0;
        while i < node.inputs.len()
            invariant
                0 <= i <= node.inputs@.len(),
                gone@ == node.inputs@.take(i as int),
            decreases node.inputs@.len() - i,
        {
            gone.push(node.inputs[i]);
            assert(node.inputs@.take(i as int).push(node.inputs@[i as int]) =~= node.inputs@.take(i + 1));
            i = i + 1;
        }
        assert(node.inputs@.take(node.inputs@.len() as int) =~= node.inputs@);
        let mut i: usize = 0;
        while i < node.outputs.len()
            invariant
                0 <= i <= node.outputs@.len(),
                gone@ == node.inputs@ + node.outputs@.take(i as int),
            decreases node.outputs@.len() - i,
        {
            gone.push(node.outputs[i]);
            assert((node.inputs@ + node.outputs@.take(i as int)).push(node.outputs@[i as int]) =~= node.inputs@
                + node.outputs@.take(i + 1));
            i = i + 1;
        }
        assert(node.outputs@.take(node.outputs@.len() as int) =~= node.outputs@);
        let ghost pred = |p: Pin| !gone@.contains(p.id);
        let kept_links = self.links_avoiding(gone.as_slice());
        self.links = kept_links;
        let ghost nodes1 = self.nodes@;
        let ghost links1 = self.links@;
        let mut old_pins: Vec<Pin> = Vec::new();
        std::mem::swap(&mut old_pins, &mut self.pins);
        for p in it: old_pins.into_iter()
            invariant
                it.seq() == g0.pins@,
                self.nodes@ == nodes1,
                self.links@ == links1,
                self.next_ids() == g0.next_ids(),
                pred == (|p: Pin| !gone@.contains(p.id)),
                self.pins@ == it.seq().take(it.index() as int).filter(pred),
        {
            proof {
                reveal_with_fuel(Seq::<Pin>::filter, 1);
                assert(it.seq().take(it.index() + 1).drop_last() =~= it.seq().take(it.index() as int));
            }
            if !pin_ids_contain(gone.as_slice(), p.id) {
                self.pins.push(p);
            }
        }
        proof {
            assert(g0.pins@.take(g0.pins@.len() as int) =~= g0.pins@);
            lemma_node_pos(&g0, idx as int);
            assert(gone@ == g0.node_at(node_id).inputs@ + g0.node_at(node_id).outputs@);
            self.lemma_remove_node_wf(&g0, node_id, idx as int, gone@);
        }
        true
    }
}


impl Graph {
    #[verifier::spinoff_prover]
    #[verifier::rlimit(40)]
    proof fn lemma_remove_node_wf(&self, g0: &Graph, node_id: NodeId, idx: int, gone: Seq<PinId>)
        requires
            g0.wf(),
            0 <= idx < g0.node_seq().len(),
            g0.node_seq()[idx].id == node_id,
            gone == g0.node_seq()[idx].inputs@ + g0.node_seq()[idx].outputs@,
            self.node_seq() == g0.node_seq().remove(idx),
            self.pin_seq() == g0.pin_seq().filter(|p: Pin| !gone.contains(p.id)),
            self.link_seq() == g0.link_seq().filter(|l: Link| !gone.contains(l.from) && !gone.contains(l.to)),
            self.next_ids() == g0.next_ids(),
        ensures
            self.wf(),
            forall|x: NodeId| self.has_node(x) == (g0.has_node(x) && x != node_id),
            forall|a: NodeId, b: NodeId| self.feeds(a, b) == (g0.feeds(a, b) && a != node_id && b != node_id),
    {
        broadcast use vstd::seq_lib::group_filter_ensures;
        let ppred = |p: Pin| !gone.contains(p.id);
        let lpred = |l: Link| !gone.contains(l.from) && !gone.contains(l.to);
        lemma_filter_pins(g0.pin_seq(), ppred);
        lemma_filter_links(g0.link_seq(), lpred);
        lemma_node_pos(g0, idx);
        let removed = g0.node_seq()[idx];
        assert(g0.node_pins_ok(removed));
        // nodes
        assert forall|i: int| 0 <= i < self.node_seq().len() implies #[trigger] self.node_seq()[i]
            == g0.node_seq()[if i < idx { i } else { i + 1 }] by {}
        assert(node_ids_increasing(self.node_seq())) by {
            assert forall|i: int, j: int| 0 <= i < j < self.node_seq().len() implies self.node_seq()[i].id.0
                < self.node_seq()[j].id.0 by {
                let i2 = if i < idx { i } else { i + 1 };
                let j2 = if j < idx { j } else { j + 1 };
                assert(self.node_seq()[i] == g0.node_seq()[i2]);
                assert(self.node_seq()[j] == g0.node_seq()[j2]);
            }
        }
        assert forall|x: NodeId| self.has_node(x) == (g0.has_node(x) && x != node_id) by {
            if self.has_node(x) {
                let i = choose|i: int| 0 <= i < self.node_seq().len() && #[trigger] self.node_seq()[i].id == x;
                let i2 = if i < idx { i } else { i + 1 };
                assert(self.node_seq()[i] == g0.node_seq()[i2]);
                assert(g0.node_seq()[i2].id == x);
                if x == node_id {
                    if i2 < idx {
                        assert(g0.node_seq()[i2].id.0 < g0.node_seq()[idx].id.0);
                    } else {
                        assert(g0.node_seq()[idx].id.0 < g0.node_seq()[i2].id.0);
                    }
                }
            }
            if g0.has_node(x) && x != node_id {
                let i = choose|i: int| 0 <= i < g0.node_seq().len() && #[trigger] g0.node_seq()[i].id == x;
                assert(i != idx);
                let i2 = if i < idx { i } else { i - 1 };
                assert(self.node_seq()[i2] == g0.node_seq()[i]);
                assert(self.node_seq()[i2].id == x);
            }
        }
        assert forall|x: NodeId| #[trigger] self.has_node(x) implies self.node_at(x) == g0.node_at(x) by {
            let i = choose|i: int| 0 <= i < self.node_seq().len() && #[trigger] self.node_seq()[i].id == x;
            let i2 = if i < idx { i } else { i + 1 };
            assert(self.node_seq()[i] == g0.node_seq()[i2]);
            lemma_node_pos(self, i);
            lemma_node_pos(g0, i2);
        }
        // pins
        let ps = g0.pin_seq();
        assert forall|x: PinId| self.has_pin(x) == (g0.has_pin(x) && !gone.contains(x)) by {
            if self.has_pin(x) {
                let i = choose|i: int| 0 <= i < self.pin_seq().len() && #[trigger] self.pin_seq()[i].id == x;
                assert(ps.contains(self.pin_seq()[i]));
                let k = choose|k: int| 0 <= k < ps.len() && ps[k] == self.pin_seq()[i];
                assert(g0.pin_seq()[k].id == x);
                assert(ppred(self.pin_seq()[i]));
            }
            if g0.has_pin(x) && !gone.contains(x) {
                let k = choose|k: int| 0 <= k < ps.len() && #[trigger] ps[k].id == x;
                assert(ppred(ps[k]));
                assert(self.pin_seq().contains(ps[k]));
                let i = choose|i: int| 0 <= i < self.pin_seq().len() && self.pin_seq()[i] == ps[k];
                assert(self.pin_seq()[i].id == x);
            }
        }
        assert forall|x: PinId| #[trigger] self.has_pin(x) implies self.pin_at(x) == g0.pin_at(x) by {
            let i = choose|i: int| 0 <= i < self.pin_seq().len() && #[trigger] self.pin_seq()[i].id == x;
            assert(ps.contains(self.pin_seq()[i]));
            let k = choose|k: int| 0 <= k < ps.len() && ps[k] == self.pin_seq()[i];
            lemma_pin_pos(self, i);
            lemma_pin_pos(g0, k);
        }
        assert forall|i: int| 0 <= i < self.pin_seq().len() implies #[trigger] self.pin_seq()[i].id.0 < self.next_ids().1
            && self.has_node(self.pin_seq()[i].node) && self.pin_listed(self.pin_seq()[i]) by {
            let p = self.pin_seq()[i];
            assert(ps.contains(p));
            let k = choose|k: int| 0 <= k < ps.len() && ps[k] == p;
            assert(g0.pin_seq()[k].id.0 < g0.next_ids().1);
            assert(g0.has_node(g0.pin_seq()[k].node));
            assert(g0.pin_listed(g0.pin_seq()[k]));
            assert(ppred(p));
            if p.node == node_id {
                assert(g0.node_at(node_id) == removed);
                if removed.inputs@.contains(p.id) {
                    let t = choose|t: int| 0 <= t < removed.inputs@.len() && removed.inputs@[t] == p.id;
                    assert(gone[t] == p.id);
                } else {
                    let t = choose|t: int| 0 <= t < removed.outputs@.len() && removed.outputs@[t] == p.id;
                    assert(gone[removed.inputs@.len() + t] == p.id);
                }
            }
            assert(self.has_node(p.node));
        }
        // nodes' pin lists
        assert forall|i: int| 0 <= i < self.node_seq().len() implies #[trigger] self.node_pins_ok(self.node_seq()[i])
            && self.node_seq()[i].id.0 < self.next_ids().0 && self.node_seq()[i].params.values.wf() by {
            let i2 = if i < idx { i } else { i + 1 };
            let n = g0.node_seq()[i2];
            assert(self.node_seq()[i] == n);
            assert(g0.node_pins_ok(n));
            assert(g0.node_seq()[i2].id.0 < g0.next_ids().0);
            assert(g0.node_seq()[i2].params.values.wf());
            assert(n.id != node_id) by {
                if i2 < idx {
                    assert(g0.node_seq()[i2].id.0 < g0.node_seq()[idx].id.0);
                } else {
                    assert(g0.node_seq()[idx].id.0 < g0.node_seq()[i2].id.0);
                }
            }
            assert forall|q: PinId| (n.inputs@.contains(q) || n.outputs@.contains(q)) implies self.has_pin(q)
                && self.pin_at(q).node == n.id by {
                assert(g0.has_pin(q) && g0.pin_at(q).node == n.id);
                if gone.contains(q) {
                    let t = choose|t: int| 0 <= t < gone.len() && gone[t] == q;
                    if t < removed.inputs@.len() {
                        assert(removed.inputs@[t] == q);
                        assert(removed.inputs@.contains(q));
                    } else {
                        assert(removed.outputs@[t - removed.inputs@.len()] == q);
                        assert(removed.outputs@.contains(q));
                    }
                }
            }
        }
        // links
        let ls = g0.link_seq();
        assert forall|i: int| 0 <= i < self.link_seq().len() implies #[trigger] self.link_seq()[i].id.0 < self.next_ids().2
            && self.has_pin(self.link_seq()[i].from) && self.has_pin(self.link_seq()[i].to) by {
            let l = self.link_seq()[i];
            assert(ls.contains(l));
            let k = choose|k: int| 0 <= k < ls.len() && ls[k] == l;
            assert(g0.link_seq()[k].id.0 < g0.next_ids().2);
            assert(g0.has_pin(g0.link_seq()[k].from));
            assert(g0.has_pin(g0.link_seq()[k].to));
            assert(lpred(l));
        }
        assert forall|i: int, j: int| 0 <= i < self.link_seq().len() && 0 <= j < self.link_seq().len() && i != j
            implies #[trigger] self.link_seq()[i].to != #[trigger] self.link_seq()[j].to by {
            assert(ls.contains(self.link_seq()[i]));
            assert(ls.contains(self.link_seq()[j]));
            let a = choose|k: int| 0 <= k < ls.len() && ls[k] == self.link_seq()[i];
            let b = choose|k: int| 0 <= k < ls.len() && ls[k] == self.link_seq()[j];
            if a == b {
                if i < j {
                    assert(self.link_seq()[i].id.0 < self.link_seq()[j].id.0);
                } else {
                    assert(self.link_seq()[j].id.0 < self.link_seq()[i].id.0);
                }
            } else {
                assert(ls[a].to != ls[b].to);
            }
        }
        assert(self.wf());
        // feeds
        assert forall|a: NodeId, b: NodeId| self.feeds(a, b) == (g0.feeds(a, b) && a != node_id && b != node_id) by {
            if self.feeds(a, b) {
                let k = choose|k: int| 0 <= k < self.link_seq().len() && #[trigger] self.link_joins(self.link_seq()[k], a, b);
                let l = self.link_seq()[k];
                assert(ls.contains(l));
                let m = choose|m: int| 0 <= m < ls.len() && ls[m] == l;
                assert(g0.link_joins(ls[m], a, b));
                assert(self.has_node(a) && self.has_node(b)) by {
                    let fi = self.pin_pos(l.from);
                    let ti = self.pin_pos(l.to);
                    assert(self.pin_seq()[fi].id == l.from);
                    assert(self.pin_seq()[ti].id == l.to);
                }
            }
            if g0.feeds(a, b) && a != node_id && b != node_id {
                let m = choose|m: int| 0 <= m < ls.len() && #[trigger] g0.link_joins(ls[m], a, b);
                let l = ls[m];
                assert(!gone.contains(l.from)) by {
                    if gone.contains(l.from) {
                        let t = choose|t: int| 0 <= t < gone.len() && gone[t] == l.from;
                        if t < removed.inputs@.len() {
                            assert(removed.inputs@[t] == l.from);
                            assert(removed.inputs@.contains(l.from));
                        } else {
                            assert(removed.outputs@[t - removed.inputs@.len()] == l.from);
                            assert(removed.outputs@.contains(l.from));
                        }
                    }
                }
                assert(!gone.contains(l.to)) by {
                    if gone.contains(l.to) {
                        let t = choose|t: int| 0 <= t < gone.len() && gone[t] == l.to;
                        if t < removed.inputs@.len() {
                            assert(removed.inputs@[t] == l.to);
                            assert(removed.inputs@.contains(l.to));
                        } else {
                            assert(removed.outputs@[t - removed.inputs@.len()] == l.to);
                            assert(removed.outputs@.contains(l.to));
                        }
                    }
                }
                assert(lpred(l));
                assert(self.link_seq().contains(l));
                let k = choose|k: int| 0 <= k < self.link_seq().len() && self.link_seq()[k] == l;
                assert(self.link_joins(self.link_seq()[k], a, b));
            }
        }
    }
}

} // verus!
