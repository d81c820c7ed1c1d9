//! Dependency graph: nodes (files, modules, interfaces, entities) and the
//! dependency edges between them, with cycle detection, topological
//! ordering and levels.
//!
//! An edge `from -> to` says that `from` depends on `to`.

use vstd::prelude::*;
use crate::text::str_eq;

verus! {

/// A node in the dependency graph.
#[derive(Debug)]
pub struct DepNode {
    /// Unique identifier.
    pub id: String,
    /// Human-readable name.
    pub name: String,
    /// Node type.
    pub node_type: DepNodeType,
}

/// Type of dependency node.
#[derive(Debug, Clone, Copy, PartialEq, Eq, Hash)]
pub enum DepNodeType {
    File,
    Module,
    Interface,
    Entity,
}

/// An edge representing a dependency of `from` on `to`.
#[derive(Debug)]
pub struct DepEdge {
    pub from: String,
    pub to: String,
    pub kind: DepEdgeKind,
}

/// Kind of dependency edge.
#[derive(Debug, Clone, Copy, PartialEq, Eq)]
pub enum DepEdgeKind {
    Import,
    Extends,
    Implements,
    Uses,
    References,
}

impl Clone for DepNode {
    fn clone(&self) -> (r: Self)
        ensures
            r == *self,
    {
        DepNode { id: self.id.clone(), name: self.name.clone(), node_type: self.node_type }
    }
}

impl Clone for DepEdge {
    fn clone(&self) -> (r: Self)
        ensures
            r == *self,
    {
        DepEdge { from: self.from.clone(), to: self.to.clone(), kind: self.kind }
    }
}

/// Dependency graph with cycle detection.
///
/// Nodes keep their insertion order, and so do edges; each node id occurs
/// once.
#[derive(Debug)]
pub struct DependencyGraph {
    nodes: Vec<DepNode>,
    edges: Vec<DepEdge>,
    /// `links[k]` holds the node positions of `edges[k]`'s endpoints.
    links: Vec<(usize, usize)>,
}

/// The id of every node, in insertion order.
pub open spec fn node_ids(nodes: Seq<DepNode>) -> Seq<Seq<char>> {
    nodes.map_values(|n: DepNode| n.id@)
}

impl DependencyGraph {
    /// The nodes, in insertion order.
    pub closed spec fn node_seq(&self) -> Seq<DepNode> {
        self.nodes@
    }

    /// The edges, in insertion order.
    pub closed spec fn edge_seq(&self) -> Seq<DepEdge> {
        self.edges@
    }

    /// The graph's internal bookkeeping is consistent: node ids are distinct
    /// and every edge joins two nodes of the graph.
    pub closed spec fn wf(&self) -> bool {
        &&& node_ids(self.nodes@).no_duplicates()
        &&& self.links@.len() == self.edges@.len()
        &&& forall|k: int| 0 <= k < self.links@.len() ==> {
            &&& (#[trigger] self.links@[k]).0 < self.nodes@.len()
            &&& self.links@[k].1 < self.nodes@.len()
            &&& self.edges@[k].from@ == self.nodes@[self.links@[k].0 as int].id@
            &&& self.edges@[k].to@ == self.nodes@[self.links@[k].1 as int].id@
        }
    }

    /// The ids of the nodes.
    pub open spec fn ids(&self) -> Seq<Seq<char>> {
        node_ids(self.node_seq())
    }

    /// There is an edge from `a` to `b`.
    pub open spec fn has_edge(&self, a: Seq<char>, b: Seq<char>) -> bool {
        exists|k: int| 0 <= k < self.edge_seq().len()
            && (#[trigger] self.edge_seq()[k]).from@ == a && self.edge_seq()[k].to@ == b
    }

    /// `c` is a cycle: a non-empty walk along edges that returns to its start.
    pub open spec fn is_cycle(&self, c: Seq<Seq<char>>) -> bool {
        &&& c.len() > 0
        &&& forall|i: int| 0 <= i < c.len() - 1 ==> self.has_edge(#[trigger] c[i], c[i + 1])
        &&& self.has_edge(c.last(), c[0])
    }

    pub open spec fn has_cycle(&self) -> bool {
        exists|c: Seq<Seq<char>>| self.is_cycle(c)
    }

    /// `o` lists every node id exactly once, and every edge's source comes
    /// before its target.
    pub open spec fn is_topo_order(&self, o: Seq<Seq<char>>) -> bool {
        &&& o.no_duplicates()
        &&& forall|i: int| 0 <= i < o.len() ==> self.ids().contains(#[trigger] o[i])
        &&& forall|j: int| 0 <= j < self.ids().len() ==> o.contains(#[trigger] self.ids()[j])
        &&& forall|i: int, j: int| 0 <= i < o.len() && 0 <= j < o.len()
            && self.has_edge(#[trigger] o[i], #[trigger] o[j]) ==> i < j
    }

    /// The node whose id is `id` (meaningful when there is one).
    pub open spec fn node_with_id(&self, id: Seq<char>) -> DepNode {
        self.node_seq()[self.ids().index_of(id)]
    }

    /// The targets of the edges leaving `id`, in edge order.
    pub open spec fn upstream_of(&self, id: Seq<char>, n: int) -> Seq<DepNode>
        decreases n,
    {
        if n <= 0 {
            Seq::empty()
        } else {
            let rest = self.upstream_of(id, n - 1);
            let e = self.edge_seq()[n - 1];
            if e.from@ == id { rest.push(self.node_with_id(e.to@)) } else { rest }
        }
    }

    /// The sources of the edges entering `id`, in edge order.
    pub open spec fn downstream_of(&self, id: Seq<char>, n: int) -> Seq<DepNode>
        decreases n,
    {
        if n <= 0 {
            Seq::empty()
        } else {
            let rest = self.downstream_of(id, n - 1);
            let e = self.edge_seq()[n - 1];
            if e.to@ == id { rest.push(self.node_with_id(e.from@)) } else { rest }
        }
    }
}

/// Position of the node with id `id`, if any.
fn find_node(nodes: &Vec<DepNode>, id: &str) -> (r: Option<usize>)
    ensures
        match r {
            Some(i) => i < nodes@.len() && nodes@[i as int].id@ == id@,
            None => !node_ids(nodes@).contains(id@),
        },
{
    let mut i: usize = 0;
    while i < nodes.len()
        invariant
            i <= nodes.len(),
            forall|j: int| 0 <= j < i ==> nodes@[j].id@ != id@,
        decreases nodes.len() - i,
    {
        if str_eq(nodes[i].id.as_str(), id) {
            return Some(i);
        }
        i = i + 1;
    }
    proof {
        if node_ids(nodes@).contains(id@) {
            let k = choose|k: int| 0 <= k < node_ids(nodes@).len() && node_ids(nodes@)[k] == id@;
            assert(nodes@[k].id@ == id@);
        }
    }
    None
}

/// How many of the nodes have the id `x`.
pub open spec fn id_count(s: Seq<DepNode>, x: Seq<char>) -> nat
    decreases s.len(),
{
    if s.len() == 0 {
        0
    } else {
        id_count(s.drop_last(), x) + if s.last().id@ == x { 1nat } else { 0nat }
    }
}

/// A call that builds a graph, by what it is given: `(true, id, _)` adds a
/// node with that id, `(false, from, to)` an edge between two ids.
pub type GraphCall = (bool, Seq<char>, Seq<char>);

/// What one call does to a graph, as `add_node` and `add_edge` state it: a
/// node with a new id is appended and one with a known id ignored; an edge
/// between two nodes is appended and any other ignored.
pub open spec fn call_step(g: DependencyGraph, c: GraphCall, g2: DependencyGraph) -> bool {
    if c.0 {
        &&& g2.edge_seq() == g.edge_seq()
        &&& g.ids().contains(c.1) ==> g2.node_seq() == g.node_seq()
        &&& !g.ids().contains(c.1) ==> g2.node_seq().len() == g.node_seq().len() + 1 && g2.ids() == g.ids().push(c.1)
    } else {
        &&& g2.node_seq() == g.node_seq()
        &&& (g.ids().contains(c.1) && g.ids().contains(c.2)) ==> g2.edge_seq().len() == g.edge_seq().len() + 1
        &&& !(g.ids().contains(c.1) && g.ids().contains(c.2)) ==> g2.edge_seq() == g.edge_seq()
    }
}

/// The distinct node ids of some calls, in the order first given.
pub open spec fn ids_after(calls: Seq<GraphCall>) -> Seq<Seq<char>>
    decreases calls.len(),
{
    if calls.len() == 0 {
        Seq::empty()
    } else {
        let p = ids_after(calls.drop_last());
        let c = calls.last();
        if c.0 && !p.contains(c.1) { p.push(c.1) } else { p }
    }
}

/// The number of edge calls whose two ids were both node ids by then.
pub open spec fn edges_added(calls: Seq<GraphCall>) -> nat
    decreases calls.len(),
{
    if calls.len() == 0 {
        0
    } else {
        let p = ids_after(calls.drop_last());
        let c = calls.last();
        edges_added(calls.drop_last()) + if !c.0 && p.contains(c.1) && p.contains(c.2) { 1nat } else { 0nat }
    }
}

/// Over any sequence of calls from an empty graph, the graph's node ids are
/// the distinct ids given to `add_node`, in the order first given (so the
/// node count is their number), and its edge count is the number of
/// `add_edge` calls whose two ends were nodes at the time.
pub proof fn lemma_counts_over_calls(gs: Seq<DependencyGraph>, calls: Seq<GraphCall>)
    requires
        gs.len() == calls.len() + 1,
        gs[0].node_seq().len() == 0,
        gs[0].edge_seq().len() == 0,
        forall|i: int| 0 <= i < calls.len() ==> call_step(#[trigger] gs[i], calls[i], gs[i + 1]),
    ensures
        gs.last().ids() == ids_after(calls),
        gs.last().node_seq().len() == ids_after(calls).len(),
        gs.last().edge_seq().len() == edges_added(calls),
    decreases calls.len(),
{
    if calls.len() == 0 {
        assert(gs.last() == gs[0]);
        assert(gs[0].ids() =~= Seq::<Seq<char>>::empty());
    } else {
        let n = calls.len() - 1;
        let gp = gs.drop_last();
        let cp = calls.drop_last();
        assert forall|i: int| 0 <= i < cp.len() implies call_step(#[trigger] gp[i], cp[i], gp[i + 1]) by {
            assert(gp[i] == gs[i] && gp[i + 1] == gs[i + 1] && cp[i] == calls[i]);
        }
        lemma_counts_over_calls(gp, cp);
        assert(gp.last() == gs[n]);
        assert(gs.last() == gs[n + 1]);
        assert(call_step(gs[n], calls[n], gs[n + 1]));
        assert(calls.last() == calls[n]);
        assert(gs[n].ids().len() == gs[n].node_seq().len());
        assert(gs[n + 1].ids().len() == gs[n + 1].node_seq().len());
    }
}

proof fn lemma_index_of_distinct(ids: Seq<Seq<char>>, i: int)
    requires
        ids.no_duplicates(),
        0 <= i < ids.len(),
    ensures
        ids.index_of(ids[i]) == i,
{
    ids.index_of_first_ensures(ids[i]);
    let j = ids.index_of(ids[i]);
    assert(ids.contains(ids[i]));
}

impl DependencyGraph {
    /// Create an empty dependency graph.
    pub fn new() -> (g: Self)
        ensures
            g.wf(),
            g.node_seq().len() == 0,
            g.edge_seq().len() == 0,
    {
        DependencyGraph { nodes: Vec::new(), edges: Vec::new(), links: Vec::new() }
    }

    /// Add a node; a node whose id is already present is ignored (the first
    /// one stays).
    pub fn add_node(&mut self, node: DepNode)
        requires
            old(self).wf(),
        ensures
            final(self).wf(),
            final(self).edge_seq() == old(self).edge_seq(),
            old(self).ids().contains(node.id@) ==> final(self).node_seq() == old(self).node_seq(),
            !old(self).ids().contains(node.id@) ==> final(self).node_seq() == old(self).node_seq().push(node),
            !old(self).ids().contains(node.id@) ==> final(self).upstream_of(node.id@, final(self).edge_seq().len() as int)
                == Seq::<DepNode>::empty(),
            !old(self).ids().contains(node.id@) ==> final(self).downstream_of(node.id@, final(self).edge_seq().len() as int)
                == Seq::<DepNode>::empty(),
    {
        match find_node(&self.nodes, node.id.as_str()) {
            Some(i) => {
                assert(old(self).ids()[i as int] == node.id@);
            },
            None => {
                let ghost old_ids = node_ids(self.nodes@);
                self.nodes.push(node);
                assert(node_ids(self.nodes@) == old_ids.push(node.id@));
                assert forall|k: int| 0 <= k < self.links@.len() implies {
                    &&& (#[trigger] self.links@[k]).0 < self.nodes@.len()
                    &&& self.links@[k].1 < self.nodes@.len()
                    &&& self.edges@[k].from@ == self.nodes@[self.links@[k].0 as int].id@
                    &&& self.edges@[k].to@ == self.nodes@[self.links@[k].1 as int].id@
                } by {
                    assert(old(self).links@[k].0 < old(self).nodes@.len());
                }
                proof {
                    assert forall|k: int| 0 <= k < self.edge_seq().len() implies (#[trigger] self.edge_seq()[k]).from@
                        != node.id@ && self.edge_seq()[k].to@ != node.id@ by {
                        old(self).lemma_edges_join_nodes(k);
                    }
                    self.lemma_stranger_isolated(node.id@, self.edges@.len() as int);
                }
            },
        }
    }

    /// Add a dependency edge; ignored unless both endpoints are nodes.
    pub fn add_edge(&mut self, from: &str, to: &str, kind: DepEdgeKind)
        requires
            old(self).wf(),
        ensures
            final(self).wf(),
            final(self).node_seq() == old(self).node_seq(),
            (old(self).ids().contains(from@) && old(self).ids().contains(to@)) ==> {
                &&& final(self).edge_seq().len() == old(self).edge_seq().len() + 1
                &&& final(self).edge_seq().drop_last() == old(self).edge_seq()
                &&& final(self).edge_seq().last().from@ == from@
                &&& final(self).edge_seq().last().to@ == to@
                &&& final(self).edge_seq().last().kind == kind
            },
            !(old(self).ids().contains(from@) && old(self).ids().contains(to@))
                ==> final(self).edge_seq() == old(self).edge_seq(),
    {
        let fi = find_node(&self.nodes, from);
        let ti = find_node(&self.nodes, to);
        match (fi, ti) {
            (Some(a), Some(b)) => {
                assert(old(self).ids()[a as int] == from@);
                assert(old(self).ids()[b as int] == to@);
                self.edges.push(DepEdge { from: from.to_owned(), to: to.to_owned(), kind });
                self.links.push((a, b));
                assert(self.edges@.drop_last() == old(self).edges@);
                assert forall|k: int| 0 <= k < self.links@.len() implies {
                    &&& (#[trigger] self.links@[k]).0 < self.nodes@.len()
                    &&& self.links@[k].1 < self.nodes@.len()
                    &&& self.edges@[k].from@ == self.nodes@[self.links@[k].0 as int].id@
                    &&& self.edges@[k].to@ == self.nodes@[self.links@[k].1 as int].id@
                } by {
                    if k < old(self).links@.len() {
                        assert(old(self).links@[k].0 < old(self).nodes@.len());
                    }
                }
            },
            _ => {
                proof {
                    if old(self).ids().contains(from@) && old(self).ids().contains(to@) {
                        assert(fi is Some && ti is Some);
                    }
                }
            },
        }
    }

    /// Number of nodes.
    pub fn node_count(&self) -> (r: usize)
        ensures
            r == self.node_seq().len(),
    {
        self.nodes.len()
    }

    /// Number of edges.
    pub fn edge_count(&self) -> (r: usize)
        ensures
            r == self.edge_seq().len(),
    {
        self.edges.len()
    }

    /// What `node_id` depends on: the target of each edge leaving it, in
    /// edge order.
    pub fn upstream(&self, node_id: &str) -> (r: Vec<DepNode>)
        requires
            self.wf(),
        ensures
            r@ == self.upstream_of(node_id@, self.edge_seq().len() as int),
    {
        let mut r: Vec<DepNode> = Vec::new();
        let mut k: usize = 0;
        while k < self.edges.len()
            invariant
                self.wf(),
                k <= self.edges@.len(),
                r@ == self.upstream_of(node_id@, k as int),
            decreases self.edges@.len() - k,
        {
            if str_eq(self.edges[k].from.as_str(), node_id) {
                let t = self.links[k].1;
                proof {
                    assert(self.links@[k as int].1 < self.nodes@.len());
                    lemma_index_of_distinct(self.ids(), t as int);
                }
                r.push(self.nodes[t].clone());
            }
            k = k + 1;
        }
        r
    }

    /// What depends on `node_id`: the source of each edge entering it, in
    /// edge order.
    pub fn downstream(&self, node_id: &str) -> (r: Vec<DepNode>)
        requires
            self.wf(),
        ensures
            r@ == self.downstream_of(node_id@, self.edge_seq().len() as int),
    {
        let mut r: Vec<DepNode> = Vec::new();
        let mut k: usize = 0;
        while k < self.edges.len()
            invariant
                self.wf(),
                k <= self.edges@.len(),
                r@ == self.downstream_of(node_id@, k as int),
            decreases self.edges@.len() - k,
        {
            if str_eq(self.edges[k].to.as_str(), node_id) {
                let s = self.links[k].0;
                proof {
                    assert(self.links@[k as int].0 < self.nodes@.len());
                    lemma_index_of_distinct(self.ids(), s as int);
                }
                r.push(self.nodes[s].clone());
            }
            k = k + 1;
        }
        r
    }
}


// ---------------------------------------------------------------------
// Index-level view used by the traversals.
// ---------------------------------------------------------------------

impl DependencyGraph {
    closed spec fn n(&self) -> int {
        self.nodes@.len() as int
    }

    /// There is an edge from node position `a` to node position `b`.
    closed spec fn arc(&self, a: int, b: int) -> bool {
        exists|k: int| 0 <= k < self.links@.len() && (#[trigger] self.links@[k]).0 == a && self.links@[k].1 == b
    }

    proof fn lemma_link(&self, k: int)
        requires
            self.wf(),
            0 <= k < self.links@.len(),
        ensures
            self.links@[k].0 < self.n(),
            self.links@[k].1 < self.n(),
            self.has_edge(self.ids()[self.links@[k].0 as int], self.ids()[self.links@[k].1 as int]),
            self.arc(self.links@[k].0 as int, self.links@[k].1 as int),
    {
        assert(self.links@[k].0 < self.nodes@.len());
        assert(self.edge_seq()[k].from@ == self.ids()[self.links@[k].0 as int]);
    }

    /// An edge between ids is an arc between their positions.
    proof fn lemma_edge_arc(&self, x: Seq<char>, y: Seq<char>)
        requires
            self.wf(),
            self.has_edge(x, y),
        ensures
            self.ids().contains(x),
            self.ids().contains(y),
            self.arc(self.ids().index_of(x), self.ids().index_of(y)),
    {
        let k = choose|k: int| 0 <= k < self.edge_seq().len()
            && (#[trigger] self.edge_seq()[k]).from@ == x && self.edge_seq()[k].to@ == y;
        assert(self.links@[k].0 < self.nodes@.len());
        let a = self.links@[k].0 as int;
        let b = self.links@[k].1 as int;
        assert(self.ids()[a] == x);
        assert(self.ids()[b] == y);
        lemma_index_of_distinct(self.ids(), a);
        lemma_index_of_distinct(self.ids(), b);
    }

    /// An arc between positions is an edge between their ids.
    proof fn lemma_arc_edge(&self, a: int, b: int)
        requires
            self.wf(),
            self.arc(a, b),
        ensures
            0 <= a < self.n(),
            0 <= b < self.n(),
            self.has_edge(self.ids()[a], self.ids()[b]),
    {
        let k = choose|k: int| 0 <= k < self.links@.len() && (#[trigger] self.links@[k]).0 == a && self.links@[k].1 == b;
        self.lemma_link(k);
    }

    /// Every edge joins two nodes of the graph.
    pub proof fn lemma_edges_join_nodes(&self, k: int)
        requires
            self.wf(),
            0 <= k < self.edge_seq().len(),
        ensures
            self.ids().contains(self.edge_seq()[k].from@),
            self.ids().contains(self.edge_seq()[k].to@),
    {
        self.lemma_link(k);
        assert(self.ids()[self.links@[k].0 as int] == self.edge_seq()[k].from@);
        assert(self.ids()[self.links@[k].1 as int] == self.edge_seq()[k].to@);
    }

    /// The number of edges from `a` to `b` among the first `n`.
    pub open spec fn edges_between(&self, a: Seq<char>, b: Seq<char>, n: int) -> nat
        decreases n,
    {
        if n <= 0 {
            0
        } else {
            let e = self.edge_seq()[n - 1];
            self.edges_between(a, b, n - 1) + if e.from@ == a && e.to@ == b { 1nat } else { 0nat }
        }
    }

    /// Each upstream or downstream entry is the node of the edge's end.
    proof fn lemma_node_with_id(&self, x: Seq<char>)
        requires
            self.wf(),
            self.ids().contains(x),
        ensures
            self.node_with_id(x).id@ == x,
    {
        let i = self.ids().index_of(x);
        assert(self.ids()[i] == x);
    }

    /// Counted along the first `n` edges: `b` occurs upstream of `a` as many
    /// times as there are edges from `a` to `b`, and `a` downstream of `b`
    /// as many times too.
    proof fn lemma_counts_prefix(&self, a: Seq<char>, b: Seq<char>, n: int)
        requires
            self.wf(),
            0 <= n <= self.edge_seq().len(),
        ensures
            id_count(self.upstream_of(a, n), b) == self.edges_between(a, b, n),
            id_count(self.downstream_of(b, n), a) == self.edges_between(a, b, n),
        decreases n,
    {
        if n > 0 {
            self.lemma_counts_prefix(a, b, n - 1);
            self.lemma_edges_join_nodes(n - 1);
            let e = self.edge_seq()[n - 1];
            self.lemma_node_with_id(e.to@);
            self.lemma_node_with_id(e.from@);
            let up = self.upstream_of(a, n - 1);
            let down = self.downstream_of(b, n - 1);
            let xu = self.node_with_id(e.to@);
            let xd = self.node_with_id(e.from@);
            assert(up.push(xu).drop_last() =~= up);
            assert(down.push(xd).drop_last() =~= down);
            assert(id_count(up.push(xu), b) == id_count(up, b) + if xu.id@ == b { 1nat } else { 0nat });
            assert(id_count(down.push(xd), a) == id_count(down, a) + if xd.id@ == a { 1nat } else { 0nat });
        }
    }

    /// Whatever the calls that built the graph, `b` occurs among the nodes
    /// upstream of `a` exactly as often as `a` occurs among the nodes
    /// downstream of `b`: once per edge from `a` to `b`.
    pub proof fn lemma_upstream_downstream_count(&self, a: Seq<char>, b: Seq<char>)
        requires
            self.wf(),
        ensures
            id_count(self.upstream_of(a, self.edge_seq().len() as int), b) == self.edges_between(
                a,
                b,
                self.edge_seq().len() as int,
            ),
            id_count(self.upstream_of(a, self.edge_seq().len() as int), b) == id_count(
                self.downstream_of(b, self.edge_seq().len() as int),
                a,
            ),
    {
        self.lemma_counts_prefix(a, b, self.edge_seq().len() as int);
    }

    /// An id that no edge touches has nothing upstream or downstream.
    proof fn lemma_stranger_isolated(&self, id: Seq<char>, n: int)
        requires
            forall|k: int| 0 <= k < self.edge_seq().len() ==> (#[trigger] self.edge_seq()[k]).from@ != id
                && self.edge_seq()[k].to@ != id,
            n <= self.edge_seq().len(),
        ensures
            self.upstream_of(id, n) == Seq::<DepNode>::empty(),
            self.downstream_of(id, n) == Seq::<DepNode>::empty(),
        decreases n,
    {
        if n > 0 {
            self.lemma_stranger_isolated(id, n - 1);
        }
    }

    /// A topological order rules out every cycle.
    pub proof fn lemma_topo_order_excludes_cycle(&self, o: Seq<Seq<char>>, c: Seq<Seq<char>>)
        requires
            self.wf(),
            self.is_topo_order(o),
        ensures
            !self.is_cycle(c),
    {
        if self.is_cycle(c) {
            // positions in `o` strictly increase along the cycle
            assert forall|i: int| 0 <= i < c.len() implies o.contains(#[trigger] c[i]) by {
                if i < c.len() - 1 {
                    self.lemma_edge_arc(c[i], c[i + 1]);
                } else {
                    self.lemma_edge_arc(c.last(), c[0]);
                }
                let j = self.ids().index_of(c[i]);
                assert(o.contains(self.ids()[j]));
            }
            self.lemma_positions_increase(o, c, c.len() - 1);
            let p0 = o.index_of(c[0]);
            let pl = o.index_of(c.last());
            o.index_of_first_ensures(c[0]);
            o.index_of_first_ensures(c.last());
            assert(self.has_edge(o[pl], o[p0]));
        }
    }

    proof fn lemma_positions_increase(&self, o: Seq<Seq<char>>, c: Seq<Seq<char>>, i: int)
        requires
            self.is_topo_order(o),
            c.len() > 0,
            0 <= i < c.len(),
            forall|i: int| 0 <= i < c.len() - 1 ==> self.has_edge(#[trigger] c[i], c[i + 1]),
            forall|j: int| 0 <= j < c.len() ==> o.contains(#[trigger] c[j]),
        ensures
            o.index_of(c[i]) >= o.index_of(c[0]) + i,
        decreases i,
    {
        if i > 0 {
            self.lemma_positions_increase(o, c, i - 1);
            assert(o.contains(c[i - 1]));
            assert(o.contains(c[i]));
            o.index_of_first_ensures(c[i - 1]);
            o.index_of_first_ensures(c[i]);
            let a = o.index_of(c[i - 1]);
            let b = o.index_of(c[i]);
            assert(self.has_edge(c[i - 1], c[i]));
            assert(self.has_edge(o[a], o[b]));
        }
    }
}

/// Number of `false` entries.
spec fn count_unvisited(v: Seq<bool>) -> nat
    decreases v.len(),
{
    if v.len() == 0 {
        0
    } else {
        count_unvisited(v.drop_last()) + if v.last() { 0nat } else { 1nat }
    }
}

proof fn lemma_count_unvisited_mono(a: Seq<bool>, b: Seq<bool>, u: int)
    requires
        a.len() == b.len(),
        forall|i: int| 0 <= i < a.len() && a[i] ==> b[i],
    ensures
        count_unvisited(b) <= count_unvisited(a),
        0 <= u < a.len() && !a[u] && b[u] ==> count_unvisited(b) < count_unvisited(a),
    decreases a.len(),
{
    if a.len() > 0 {
        lemma_count_unvisited_mono(a.drop_last(), b.drop_last(), u);
    }
}


/// Position `x` occurs on `path`.
spec fn on_path(path: Seq<usize>, x: int) -> bool {
    exists|i: int| 0 <= i < path.len() && path[i] as int == x
}

/// The ids of a reported cycle.
pub open spec fn cycle_view(c: Vec<String>) -> Seq<Seq<char>> {
    c@.map_values(|s: String| s@)
}

impl DependencyGraph {
    /// Every edge leaving a finished node leads to a node finished before it.
    closed spec fn finished_closed(&self, post: Seq<int>) -> bool {
        forall|k: int, i: int| #![trigger self.links@[k], post[i]]
            0 <= k < self.links@.len() && 0 <= i < post.len() && post[i] == self.links@[k].0 as int
            ==> exists|j: int| #![trigger post[j]] 0 <= j < i && post[j] == self.links@[k].1 as int
    }

    #[verifier::opaque]
    closed spec fn search_ok(
        &self,
        visited: Seq<bool>,
        in_stack: Seq<bool>,
        path: Seq<usize>,
        post: Seq<int>,
        cycles: Seq<Vec<String>>,
    ) -> bool {
        &&& visited.len() == self.n()
        &&& in_stack.len() == self.n()
        &&& path.no_duplicates()
        &&& forall|i: int| 0 <= i < path.len() ==> (#[trigger] path[i] as int) < self.n()
        &&& forall|x: int| 0 <= x < self.n() ==> (#[trigger] in_stack[x] <==> on_path(path, x))
        &&& forall|i: int| 0 <= i < path.len() - 1 ==> self.arc(#[trigger] path[i] as int, path[i + 1] as int)
        &&& post.no_duplicates()
        &&& forall|i: int| 0 <= i < post.len() ==> 0 <= #[trigger] post[i] < self.n()
        &&& forall|x: int| 0 <= x < self.n() ==> (#[trigger] visited[x] <==> (in_stack[x] || post.contains(x)))
        &&& forall|x: int| 0 <= x < self.n() && #[trigger] in_stack[x] ==> !post.contains(x)
        &&& forall|c: int| 0 <= c < cycles.len() ==> self.is_cycle(cycle_view(#[trigger] cycles[c]))
        &&& cycles.len() == 0 ==> self.finished_closed(post)
    }

    /// The ids along `path[start..]`, a cycle closed by an edge from the
    /// path's last node back to `path[start]`.
    fn cycle_from_path(&self, path: &Vec<usize>, start: usize, Ghost(k): Ghost<int>) -> (c: Vec<String>)
        requires
            self.wf(),
            start < path@.len(),
            forall|i: int| 0 <= i < path@.len() ==> (#[trigger] path@[i] as int) < self.n(),
            forall|i: int| 0 <= i < path@.len() - 1 ==> self.arc(#[trigger] path@[i] as int, path@[i + 1] as int),
            0 <= k < self.links@.len(),
            self.links@[k].0 == path@.last(),
            self.links@[k].1 == path@[start as int],
        ensures
            self.is_cycle(cycle_view(c)),
    {
        let mut c: Vec<String> = Vec::new();
        let mut i: usize = start;
        while i < path.len()
            invariant
                self.wf(),
                start <= i <= path@.len(),
                forall|j: int| 0 <= j < path@.len() ==> (#[trigger] path@[j] as int) < self.n(),
                c@.len() == i - start,
                forall|j: int| 0 <= j < c@.len() ==> (#[trigger] c@[j])@ == self.ids()[path@[start + j] as int],
            decreases path@.len() - i,
        {
            let x = path[i];
            assert((path@[i as int] as int) < self.n());
            c.push(self.nodes[x].id.clone());
            i = i + 1;
        }
        proof {
        let cv = cycle_view(c);
        assert forall|j: int| 0 <= j < cv.len() - 1 implies self.has_edge(#[trigger] cv[j], cv[j + 1]) by {
            assert(self.arc(path@[start + j] as int, path@[start + j + 1] as int));
            self.lemma_arc_edge(path@[start + j] as int, path@[start + j + 1] as int);
        }
        self.lemma_link(k);
        assert(cv.last() == self.ids()[path@.last() as int]);
        }
        c
    }

    proof fn lemma_search_facts(
        &self,
        visited: Seq<bool>,
        in_stack: Seq<bool>,
        path: Seq<usize>,
        post: Seq<int>,
        cycles: Seq<Vec<String>>,
    )
        requires
            self.search_ok(visited, in_stack, path, post, cycles),
        ensures
            visited.len() == self.n(),
            in_stack.len() == self.n(),
            forall|x: int| 0 <= x < self.n() && #[trigger] visited[x] && !in_stack[x] ==> post.contains(x),
            forall|x: int| 0 <= x < self.n() && #[trigger] in_stack[x] ==> on_path(path, x) && !post.contains(x),
            forall|x: int| 0 <= x < self.n() && !(#[trigger] visited[x]) ==> !in_stack[x] && !post.contains(x),
            forall|i: int| 0 <= i < path.len() ==> (#[trigger] path[i] as int) < self.n(),
            forall|i: int| 0 <= i < path.len() - 1 ==> self.arc(#[trigger] path[i] as int, path[i + 1] as int),
            forall|c: int| 0 <= c < cycles.len() ==> self.is_cycle(cycle_view(#[trigger] cycles[c])),
            cycles.len() == 0 ==> self.finished_closed(post),
            post.no_duplicates(),
            forall|i: int| 0 <= i < post.len() ==> 0 <= #[trigger] post[i] < self.n(),
            path.len() == 0 ==> forall|x: int| 0 <= x < self.n() ==> !#[trigger] in_stack[x],
    {
        reveal(DependencyGraph::search_ok);
        if path.len() == 0 {
            assert forall|x: int| 0 <= x < self.n() implies !#[trigger] in_stack[x] by {
                assert(!on_path(path, x));
            }
        }
    }

    proof fn lemma_search_enter(
        &self,
        visited: Seq<bool>,
        in_stack: Seq<bool>,
        path: Seq<usize>,
        post: Seq<int>,
        cycles: Seq<Vec<String>>,
        u: usize,
    )
        requires
            self.search_ok(visited, in_stack, path, post, cycles),
            u < self.n(),
            !visited[u as int],
            path.len() > 0 ==> self.arc(path.last() as int, u as int),
        ensures
            !in_stack[u as int],
            !post.contains(u as int),
            self.search_ok(visited.update(u as int, true), in_stack.update(u as int, true), path.push(u), post, cycles),
    {
        reveal(DependencyGraph::search_ok);
        let s2 = in_stack.update(u as int, true);
        let p2 = path.push(u);
        let v2 = visited.update(u as int, true);
        assert forall|x: int| 0 <= x < self.n() implies (#[trigger] s2[x] <==> on_path(p2, x)) by {
            if x == u as int {
                assert(p2[p2.len() - 1] == u);
            } else {
                if on_path(path, x) {
                    let j = choose|j: int| 0 <= j < path.len() && path[j] as int == x;
                    assert(p2[j] == path[j]);
                }
                if on_path(p2, x) {
                    let j = choose|j: int| 0 <= j < p2.len() && p2[j] as int == x;
                    assert(j != p2.len() - 1);
                    assert(path[j] == p2[j]);
                }
            }
        }
        assert forall|i: int| 0 <= i < p2.len() - 1 implies self.arc(#[trigger] p2[i] as int, p2[i + 1] as int) by {
            if i < path.len() - 1 {
                assert(p2[i] == path[i] && p2[i + 1] == path[i + 1]);
            } else {
                assert(path.last() == p2[i]);
            }
        }
        assert forall|i: int, j: int| 0 <= i < p2.len() && 0 <= j < p2.len() && i != j implies p2[i] != p2[j] by {
            if i < path.len() && j < path.len() {
                assert(p2[i] == path[i] && p2[j] == path[j]);
            } else if i < path.len() {
                assert(path.contains(p2[i]));
                assert(in_stack[p2[i] as int]);
            } else {
                assert(path.contains(p2[j]));
                assert(in_stack[p2[j] as int]);
            }
        }
        assert forall|i: int| 0 <= i < p2.len() implies (#[trigger] p2[i] as int) < self.n() by {
            if i < path.len() { assert(p2[i] == path[i]); }
        }
    }

    proof fn lemma_search_cycle(
        &self,
        visited: Seq<bool>,
        in_stack: Seq<bool>,
        path: Seq<usize>,
        post: Seq<int>,
        cycles: Seq<Vec<String>>,
        c: Vec<String>,
    )
        requires
            self.search_ok(visited, in_stack, path, post, cycles),
            self.is_cycle(cycle_view(c)),
        ensures
            self.search_ok(visited, in_stack, path, post, cycles.push(c)),
    {
        reveal(DependencyGraph::search_ok);
        let c2 = cycles.push(c);
        assert forall|ci: int| 0 <= ci < c2.len() implies self.is_cycle(cycle_view(#[trigger] c2[ci])) by {
            if ci < cycles.len() {
                assert(c2[ci] == cycles[ci]);
            }
        }
    }

    proof fn lemma_search_exit(
        &self,
        visited: Seq<bool>,
        in_stack: Seq<bool>,
        path: Seq<usize>,
        post: Seq<int>,
        cycles: Seq<Vec<String>>,
        u: usize,
        s0: Seq<bool>,
        p0: Seq<usize>,
    )
        requires
            self.wf(),
            self.search_ok(visited, in_stack, path, post, cycles),
            u < self.n(),
            path == p0.push(u),
            in_stack == s0.update(u as int, true),
            s0.len() == self.n(),
            !s0[u as int],
            visited[u as int],
            cycles.len() == 0 ==> forall|j: int| 0 <= j < self.links@.len() && (#[trigger] self.links@[j]).0 == u
                ==> post.contains(self.links@[j].1 as int),
        ensures
            self.search_ok(visited, s0, p0, post.push(u as int), cycles),
    {
        reveal(DependencyGraph::search_ok);
        let fin = post.push(u as int);
        assert(in_stack[u as int]);
        assert(!post.contains(u as int));
        assert forall|x: int| 0 <= x < self.n() implies (#[trigger] s0[x] <==> on_path(p0, x)) by {
            assert(in_stack[x] <==> on_path(path, x));
            if x != u as int {
                assert(s0[x] == in_stack[x]);
                if on_path(p0, x) {
                    let j = choose|j: int| 0 <= j < p0.len() && p0[j] as int == x;
                    assert(path[j] == p0[j]);
                }
                if on_path(path, x) {
                    let j = choose|j: int| 0 <= j < path.len() && path[j] as int == x;
                    assert(j != path.len() - 1);
                    assert(p0[j] == path[j]);
                }
            } else {
                if on_path(p0, x) {
                    let j = choose|j: int| 0 <= j < p0.len() && p0[j] as int == x;
                    assert(path[j] == p0[j]);
                    assert(path[path.len() - 1] == u);
                }
            }
        }
        assert forall|i: int| 0 <= i < p0.len() - 1 implies self.arc(#[trigger] p0[i] as int, p0[i + 1] as int) by {
            assert(p0[i] == path[i] && p0[i + 1] == path[i + 1]);
        }
        assert(p0.no_duplicates()) by {
            assert forall|i: int, j: int| 0 <= i < p0.len() && 0 <= j < p0.len() && i != j implies p0[i] != p0[j] by {
                assert(p0[i] == path[i] && p0[j] == path[j]);
            }
        }
        assert forall|i: int| 0 <= i < p0.len() implies (#[trigger] p0[i] as int) < self.n() by {
            assert(p0[i] == path[i]);
        }
        assert forall|x: int| 0 <= x < self.n() implies (#[trigger] visited[x] <==> (s0[x] || fin.contains(x))) by {
            if x == u as int {
                assert(fin[fin.len() - 1] == u as int);
            } else {
                assert(s0[x] == in_stack[x]);
                if post.contains(x) {
                    let m = choose|m: int| 0 <= m < post.len() && post[m] == x;
                    assert(fin[m] == x);
                }
                if fin.contains(x) {
                    let m = choose|m: int| 0 <= m < fin.len() && fin[m] == x;
                    assert(post[m] == x);
                }
            }
        }
        assert forall|x: int| 0 <= x < self.n() && #[trigger] s0[x] implies !fin.contains(x) by {
            assert(in_stack[x]);
            if fin.contains(x) {
                let m = choose|m: int| 0 <= m < fin.len() && fin[m] == x;
                assert(post[m] == x);
            }
        }
        assert forall|i: int| 0 <= i < fin.len() implies 0 <= #[trigger] fin[i] < self.n() by {
            if i < post.len() { assert(fin[i] == post[i]); }
        }
        if cycles.len() == 0 {
            assert forall|kk: int, i: int| #![trigger self.links@[kk], fin[i]]
                0 <= kk < self.links@.len() && 0 <= i < fin.len() && fin[i] == self.links@[kk].0 as int
                implies exists|j: int| #![trigger fin[j]] 0 <= j < i && fin[j] == self.links@[kk].1 as int by {
                if i < post.len() {
                    assert(post[i] == fin[i]);
                    let j = choose|j: int| 0 <= j < i && post[j] == self.links@[kk].1 as int;
                    assert(fin[j] == post[j]);
                } else {
                    assert(self.links@[kk].0 == u);
                    assert(post.contains(self.links@[kk].1 as int));
                    let j = choose|j: int| 0 <= j < post.len() && post[j] == self.links@[kk].1 as int;
                    assert(fin[j] == post[j]);
                }
            }
        }
    }

    fn dfs_cycle(
        &self,
        u: usize,
        visited: &mut Vec<bool>,
        in_stack: &mut Vec<bool>,
        path: &mut Vec<usize>,
        cycles: &mut Vec<Vec<String>>,
        Ghost(post): Ghost<Seq<int>>,
    ) -> (r: Ghost<Seq<int>>)
        requires
            self.wf(),
            self.search_ok(old(visited)@, old(in_stack)@, old(path)@, post, old(cycles)@),
            u < self.n(),
            !old(visited)@[u as int],
            old(path)@.len() > 0 ==> self.arc(old(path)@.last() as int, u as int),
        ensures
            self.search_ok(final(visited)@, final(in_stack)@, final(path)@, r@, final(cycles)@),
            final(visited)@[u as int],
            final(visited)@.len() == old(visited)@.len(),
            forall|x: int| 0 <= x < old(visited)@.len() && old(visited)@[x] ==> #[trigger] final(visited)@[x],
            final(in_stack)@ == old(in_stack)@,
            final(path)@ == old(path)@,
            r@.len() >= post.len(),
            r@.take(post.len() as int) == post,
            r@.contains(u as int),
            final(cycles)@.len() >= old(cycles)@.len(),
        decreases count_unvisited(old(visited)@),
    {
        let ghost v0 = visited@;
        let ghost s0 = in_stack@;
        let ghost p0 = path@;
        proof {
            self.lemma_search_facts(v0, s0, p0, post, cycles@);
            self.lemma_search_enter(v0, s0, p0, post, cycles@, u);
        }
        visited.set(u, true);
        in_stack.set(u, true);
        path.push(u);
        proof {
            lemma_count_unvisited_mono(v0, visited@, u as int);
        }
        let ghost mut cur: Seq<int> = post;
        let mut k: usize = 0;
        while k < self.links.len()
            invariant
                self.wf(),
                u < self.n(),
                self.search_ok(visited@, in_stack@, path@, cur, cycles@),
                path@ == p0.push(u),
                in_stack@ == s0.update(u as int, true),
                s0.len() == self.n(),
                !s0[u as int],
                v0 == old(visited)@,
                visited@.len() == v0.len(),
                visited@[u as int],
                forall|x: int| 0 <= x < v0.len() && v0[x] ==> #[trigger] visited@[x],
                count_unvisited(visited@) < count_unvisited(v0),
                cur.len() >= post.len(),
                cur.take(post.len() as int) == post,
                cycles@.len() >= old(cycles)@.len(),
                k <= self.links@.len(),
                cycles@.len() == 0 ==> forall|j: int| 0 <= j < k && (#[trigger] self.links@[j]).0 == u
                    ==> cur.contains(self.links@[j].1 as int),
            decreases self.links@.len() - k,
        {
            let (a, b) = self.links[k];
            proof {
                self.lemma_link(k as int);
                self.lemma_search_facts(visited@, in_stack@, path@, cur, cycles@);
            }
            if a == u {
                if !visited[b] {
                    let ghost before = cur;
                    let ghost vb = visited@;
                    assert(path@.last() == u);
                    let ghost cb = cycles@.len();
                    let Ghost(next) = self.dfs_cycle(b, visited, in_stack, path, cycles, Ghost(cur));
                    proof {
                        cur = next;
                        lemma_count_unvisited_mono(vb, visited@, -1);
                        self.lemma_prefix_extend(post, before, cur, k as int, u, cb, cycles@.len());
                    }
                } else if in_stack[b] {
                    let mut start: usize = 0;
                    while start < path.len() && path[start] != b
                        invariant
                            start <= path@.len(),
                            forall|j: int| 0 <= j < start ==> path@[j] != b,
                        decreases path@.len() - start,
                    {
                        start = start + 1;
                    }
                    proof {
                        assert(on_path(path@, b as int));
                        if start == path.len() {
                            let j = choose|j: int| 0 <= j < path@.len() && path@[j] as int == b as int;
                            assert(path@[j] != b);
                        }
                    }
                    let c = self.cycle_from_path(path, start, Ghost(k as int));
                    proof {
                        self.lemma_search_cycle(visited@, in_stack@, path@, cur, cycles@, c);
                    }
                    cycles.push(c);
                } else {
                    assert(cur.contains(b as int));
                }
            }
            k = k + 1;
        }
        proof {
            self.lemma_search_exit(visited@, in_stack@, path@, cur, cycles@, u, s0, p0);
        }
        path.pop();
        in_stack.set(u, false);
        let ghost fin = cur.push(u as int);
        proof {
            assert(in_stack@ =~= s0);
            assert(path@ =~= p0);
            assert(fin.take(post.len() as int) =~= post) by {
                assert forall|i: int| 0 <= i < post.len() implies fin[i] == post[i] by {
                    assert(cur.take(post.len() as int)[i] == post[i]);
                }
            }
            assert(fin[fin.len() - 1] == u as int);
        }
        Ghost(fin)
    }

    proof fn lemma_prefix_extend(&self, post: Seq<int>, before: Seq<int>, cur: Seq<int>, k: int, u: usize, cb: nat, cn: nat)
        requires
            cn >= cb,
            before.len() >= post.len(),
            before.take(post.len() as int) == post,
            cur.len() >= before.len(),
            cur.take(before.len() as int) == before,
            0 <= k < self.links@.len(),
            cb == 0 ==> forall|j: int| 0 <= j < k && (#[trigger] self.links@[j]).0 == u ==> before.contains(self.links@[j].1 as int),
            self.links@[k].0 == u ==> cur.contains(self.links@[k].1 as int),
        ensures
            cur.len() >= post.len(),
            cur.take(post.len() as int) == post,
            cn == 0 ==> forall|j: int| 0 <= j < k + 1 && (#[trigger] self.links@[j]).0 == u ==> cur.contains(self.links@[j].1 as int),
    {
        assert(cur.take(post.len() as int) =~= post) by {
            assert forall|i: int| 0 <= i < post.len() implies cur[i] == post[i] by {
                assert(cur.take(before.len() as int)[i] == before[i]);
                assert(before.take(post.len() as int)[i] == post[i]);
            }
        }
        assert forall|j: int| cn == 0 && 0 <= j < k + 1 && (#[trigger] self.links@[j]).0 == u implies cur.contains(self.links@[j].1 as int) by {
            if j < k {
                let t = self.links@[j].1 as int;
                let m = choose|m: int| 0 <= m < before.len() && before[m] == t;
                assert(cur.take(before.len() as int)[m] == t);
                assert(cur[m] == t);
            }
        }
    }
}


impl DependencyGraph {
    /// The ids of the positions in `post`, last first.
    closed spec fn reversed_ids(&self, post: Seq<int>) -> Seq<Seq<char>> {
        Seq::new(post.len(), |i: int| self.ids()[post[post.len() - 1 - i]])
    }

    proof fn lemma_post_order_topo(&self, post: Seq<int>)
        requires
            self.wf(),
            post.no_duplicates(),
            forall|i: int| 0 <= i < post.len() ==> 0 <= #[trigger] post[i] < self.n(),
            forall|x: int| 0 <= x < self.n() ==> post.contains(x),
            self.finished_closed(post),
        ensures
            self.is_topo_order(self.reversed_ids(post)),
    {
        let o = self.reversed_ids(post);
        let ids = self.ids();
        let l = post.len();
        assert forall|i: int, j: int| 0 <= i < o.len() && 0 <= j < o.len() && i != j implies o[i] != o[j] by {
            assert(ids.no_duplicates());
            let a = post[l - 1 - i];
            let b = post[l - 1 - j];
            assert(o[i] == ids[a] && o[j] == ids[b]);
            assert(a != b);
        }
        assert forall|i: int| 0 <= i < o.len() implies ids.contains(#[trigger] o[i]) by {
            let a = post[l - 1 - i];
            assert(0 <= a < self.n());
            assert(ids[a] == o[i]);
        }
        assert forall|j: int| 0 <= j < ids.len() implies o.contains(#[trigger] ids[j]) by {
            assert(post.contains(j));
            let m = choose|m: int| 0 <= m < post.len() && post[m] == j;
            assert(o[l - 1 - m] == ids[j]);
        }
        assert forall|i: int, j: int| 0 <= i < o.len() && 0 <= j < o.len()
            && self.has_edge(#[trigger] o[i], #[trigger] o[j]) implies i < j by {
            let a = post[l - 1 - i];
            let b = post[l - 1 - j];
            assert(0 <= a < self.n() && 0 <= b < self.n());
            lemma_index_of_distinct(ids, a);
            lemma_index_of_distinct(ids, b);
            self.lemma_edge_arc(o[i], o[j]);
            assert(self.arc(a, b));
            let k = choose|k: int| 0 <= k < self.links@.len() && (#[trigger] self.links@[k]).0 == a && self.links@[k].1 == b;
            assert(post[l - 1 - i] == self.links@[k].0 as int);
            let jj = choose|jj: int| 0 <= jj < l - 1 - i && #[trigger] post[jj] == self.links@[k].1 as int;
            assert(post[jj] == post[l - 1 - j]);
        }
    }

    /// Find all cycles by depth-first search from every node in insertion
    /// order. Each reported cycle lists the node ids along it; the list is
    /// empty exactly when the graph has no cycle.
    pub fn detect_cycles(&self) -> (r: Vec<Vec<String>>)
        requires
            self.wf(),
        ensures
            forall|c: int| 0 <= c < r@.len() ==> self.is_cycle(cycle_view(#[trigger] r@[c])),
            r@.len() == 0 <==> !self.has_cycle(),
            r@.len() == 0 ==> exists|o: Seq<Seq<char>>| self.is_topo_order(o),
    {
        let n = self.nodes.len();
        let mut visited: Vec<bool> = vec![false; n];
        let mut in_stack: Vec<bool> = vec![false; n];
        let mut path: Vec<usize> = Vec::new();
        let mut cycles: Vec<Vec<String>> = Vec::new();
        let ghost mut post: Seq<int> = Seq::empty();
        proof {
            reveal(DependencyGraph::search_ok);
            assert forall|x: int| 0 <= x < self.n() implies (#[trigger] in_stack@[x] <==> on_path(path@, x)) by {}
        }
        let mut i: usize = 0;
        while i < n
            invariant
                self.wf(),
                n == self.n(),
                i <= n,
                path@.len() == 0,
                self.search_ok(visited@, in_stack@, path@, post, cycles@),
                forall|j: int| 0 <= j < i ==> #[trigger] visited@[j],
            decreases n - i,
        {
            proof { self.lemma_search_facts(visited@, in_stack@, path@, post, cycles@); }
            if !visited[i] {
                let ghost vb = visited@;
                let Ghost(next) = self.dfs_cycle(i, &mut visited, &mut in_stack, &mut path, &mut cycles, Ghost(post));
                proof {
                    post = next;
                    assert forall|j: int| 0 <= j < i + 1 implies #[trigger] visited@[j] by {
                        if j < i { assert(vb[j]); }
                    }
                }
            }
            i = i + 1;
        }
        proof {
            self.lemma_search_facts(visited@, in_stack@, path@, post, cycles@);
            if cycles@.len() == 0 {
                assert forall|x: int| 0 <= x < self.n() implies post.contains(x) by {
                    assert(visited@[x]);
                    assert(!in_stack@[x]);
                }
                self.lemma_post_order_topo(post);
                let o = self.reversed_ids(post);
                assert forall|c: Seq<Seq<char>>| !self.is_cycle(c) by {
                    self.lemma_topo_order_excludes_cycle(o, c);
                }
            } else {
                assert(self.is_cycle(cycle_view(cycles@[0])));
            }
        }
        cycles
    }
}


/// Positions in `q`, as integers.
spec fn as_ints(q: Seq<usize>) -> Seq<int> {
    q.map_values(|v: usize| v as int)
}

/// A duplicate-free sequence of positions below `n` has at most `n`
/// entries, and with exactly `n` it holds every position.
proof fn lemma_distinct_cover(q: Seq<usize>, n: int)
    requires
        q.no_duplicates(),
        0 <= n,
        forall|i: int| 0 <= i < q.len() ==> (#[trigger] q[i] as int) < n,
    ensures
        q.len() <= n,
        q.len() == n ==> forall|x: int| 0 <= x < n ==> #[trigger] on_path(q, x),
        (forall|x: int| 0 <= x < n ==> #[trigger] on_path(q, x)) ==> q.len() == n,
{
    let qi = as_ints(q);
    assert(qi.no_duplicates()) by {
        assert forall|i: int, j: int| 0 <= i < qi.len() && 0 <= j < qi.len() && i != j implies qi[i] != qi[j] by {
            assert(q[i] != q[j]);
        }
    }
    qi.unique_seq_to_set();
    let s = qi.to_set();
    let r = vstd::set_lib::set_int_range(0, n);
    vstd::set_lib::lemma_int_range(0, n);
    assert(s.subset_of(r)) by {
        assert forall|v: int| s.contains(v) implies r.contains(v) by {
            let i = choose|i: int| 0 <= i < qi.len() && qi[i] == v;
            assert(q[i] as int == v);
        }
    }
    vstd::set_lib::lemma_len_subset(s, r);
    if forall|x: int| 0 <= x < n ==> #[trigger] on_path(q, x) {
        assert(r.subset_of(s)) by {
            assert forall|v: int| r.contains(v) implies s.contains(v) by {
                assert(on_path(q, v));
                let i = choose|i: int| 0 <= i < q.len() && q[i] as int == v;
                assert(qi[i] == v);
            }
        }
        vstd::set_lib::lemma_len_subset(r, s);
    }
    if q.len() == n {
        vstd::set_lib::lemma_subset_equality(s, r);
        assert forall|x: int| 0 <= x < n implies #[trigger] on_path(q, x) by {
            assert(r.contains(x));
            assert(s.contains(x));
            let i = choose|i: int| 0 <= i < qi.len() && qi[i] == x;
            assert(q[i] as int == x);
        }
    }
}

/// Edges `k < m` into `x` that are still counted: their source is not yet
/// done, or it is `u` and the edge comes at or after `j`.
spec fn pending(links: Seq<(usize, usize)>, m: int, x: int, done: Seq<usize>, u: int, j: int) -> nat
    decreases m,
{
    if m <= 0 {
        0
    } else {
        let e = links[m - 1];
        pending(links, m - 1, x, done, u, j) + if e.1 as int == x
            && (!on_path(done, e.0 as int) || (e.0 as int == u && m - 1 >= j)) { 1nat } else { 0nat }
    }
}

proof fn lemma_pending_start(links: Seq<(usize, usize)>, m: int, x: int, done: Seq<usize>, u: usize)
    requires
        !on_path(done, u as int),
        m <= links.len(),
    ensures
        pending(links, m, x, done.push(u), u as int, 0) == pending(links, m, x, done, -1, m),
    decreases m,
{
    if m > 0 {
        lemma_pending_start(links, m - 1, x, done, u);
        lemma_pending_split_j(links, m - 1, x, done, -1, m - 1, m);
        let e = links[m - 1];
        let d2 = done.push(u);
        if on_path(d2, e.0 as int) && e.0 != u {
            let i = choose|i: int| 0 <= i < d2.len() && d2[i] as int == e.0 as int;
            assert(i < done.len());
            assert(done[i] == d2[i]);
        }
        if on_path(done, e.0 as int) {
            let i = choose|i: int| 0 <= i < done.len() && done[i] as int == e.0 as int;
            assert(d2[i] == done[i]);
        }
    }
}

/// When `j >= m`, which `j` (and `u`) does not matter.
proof fn lemma_pending_split_j(links: Seq<(usize, usize)>, m: int, x: int, done: Seq<usize>, u: int, j1: int, j2: int)
    requires
        j1 >= m,
        j2 >= m,
    ensures
        pending(links, m, x, done, u, j1) == pending(links, m, x, done, -1, j2),
    decreases m,
{
    if m > 0 {
        lemma_pending_split_j(links, m - 1, x, done, u, j1, j2);
    }
}

/// Moving past edge `j` of `u` (with `u` done) uncounts it.
proof fn lemma_pending_step(links: Seq<(usize, usize)>, m: int, x: int, done: Seq<usize>, u: int, j: int)
    requires
        0 <= j < links.len(),
        m <= links.len(),
        on_path(done, u),
    ensures
        pending(links, m, x, done, u, j + 1) + (if j < m && links[j].0 as int == u && links[j].1 as int == x { 1nat } else { 0nat })
            == pending(links, m, x, done, u, j),
    decreases m,
{
    if m > 0 {
        lemma_pending_step(links, m - 1, x, done, u, j);
    }
}

/// Nothing pending for `x` means every edge into `x` comes from a done
/// node (and, for `u`, from an edge before `j`).
proof fn lemma_pending_zero(links: Seq<(usize, usize)>, m: int, x: int, done: Seq<usize>, u: int, j: int)
    requires
        pending(links, m, x, done, u, j) == 0,
        m <= links.len(),
    ensures
        forall|k: int| 0 <= k < m && (#[trigger] links[k]).1 as int == x
            ==> on_path(done, links[k].0 as int) && !(links[k].0 as int == u && k >= j),
    decreases m,
{
    if m > 0 {
        lemma_pending_zero(links, m - 1, x, done, u, j);
    }
}

/// Something pending for `x` means some edge into `x` has a source that
/// is not done.
proof fn lemma_pending_pos(links: Seq<(usize, usize)>, m: int, x: int, done: Seq<usize>)
    requires
        pending(links, m, x, done, -1, m) > 0,
        m <= links.len(),
    ensures
        exists|k: int| 0 <= k < m && (#[trigger] links[k]).1 as int == x && !on_path(done, links[k].0 as int),
    decreases m,
{
    if m > 0 {
        let e = links[m - 1];
        if e.1 as int == x && !on_path(done, e.0 as int) {
            assert(links[m - 1].1 as int == x);
        } else {
            lemma_pending_split_j(links, m - 1, x, done, -1, m, m - 1);
            lemma_pending_pos(links, m - 1, x, done);
            let k = choose|k: int| 0 <= k < m - 1 && (#[trigger] links[k]).1 as int == x && !on_path(done, links[k].0 as int);
            assert(links[k].1 as int == x);
        }
    }
}

proof fn lemma_pending_bound(links: Seq<(usize, usize)>, m: int, x: int, done: Seq<usize>, u: int, j: int)
    requires
        0 <= m,
    ensures
        pending(links, m, x, done, u, j) <= m,
    decreases m,
{
    if m > 0 {
        lemma_pending_bound(links, m - 1, x, done, u, j);
    }
}


impl DependencyGraph {
    /// No node outside `q` can start a topological order: each has an edge
    /// from another node outside `q`, placed earlier in the order.
    proof fn lemma_descent(&self, o: Seq<Seq<char>>, q: Seq<usize>, x: int)
        requires
            self.wf(),
            0 <= x < self.n(),
            !on_path(q, x),
            forall|y: int| 0 <= y < self.n() && !on_path(q, y) ==> exists|k: int|
                0 <= k < self.links@.len() && (#[trigger] self.links@[k]).1 as int == y && !on_path(q, self.links@[k].0 as int),
        ensures
            !self.is_topo_order(o),
        decreases o.index_of(self.ids()[x]),
    {
        if self.is_topo_order(o) {
            let k = choose|k: int| 0 <= k < self.links@.len() && (#[trigger] self.links@[k]).1 as int == x
                && !on_path(q, self.links@[k].0 as int);
            self.lemma_link(k);
            let y = self.links@[k].0 as int;
            let ids = self.ids();
            assert(o.contains(ids[x]));
            assert(o.contains(ids[y]));
            o.index_of_first_ensures(ids[x]);
            o.index_of_first_ensures(ids[y]);
            let px = o.index_of(ids[x]);
            let py = o.index_of(ids[y]);
            assert(self.has_edge(o[py], o[px]));
            self.lemma_descent(o, q, y);
        }
    }

    /// Kahn's algorithm on node positions.
    fn kahn(&self) -> (q: Vec<usize>)
        requires
            self.wf(),
        ensures
            q@.no_duplicates(),
            forall|i: int| 0 <= i < q@.len() ==> (#[trigger] q@[i] as int) < self.n(),
            forall|p: int, k: int| #![trigger q@[p], self.links@[k]] 0 <= p < q@.len() && 0 <= k < self.links@.len()
                && self.links@[k].1 == q@[p] ==> exists|i: int| #![trigger q@[i]] 0 <= i < p && q@[i] == self.links@[k].0,
            q@.len() < self.n() ==> forall|o: Seq<Seq<char>>| !self.is_topo_order(o),
    {
        let n = self.nodes.len();
        let m = self.links.len();
        let ghost links = self.links@;
        let ghost empty = Seq::<usize>::empty();
        let mut indeg: Vec<usize> = vec![0; n];
        let mut k: usize = 0;
        while k < m
            invariant
                self.wf(),
                n == self.n(),
                m == links.len(),
                links == self.links@,
                empty == Seq::<usize>::empty(),
                k <= m,
                indeg@.len() == n,
                forall|x: int| 0 <= x < n ==> #[trigger] indeg@[x] == pending(links, k as int, x, empty, -1, k as int),
            decreases m - k,
        {
            let t = self.links[k].1;
            proof {
                self.lemma_link(k as int);
                assert forall|x: int| 0 <= x < n implies #[trigger] pending(links, k as int, x, empty, -1, k + 1) == pending(links, k as int, x, empty, -1, k as int) by {
                    lemma_pending_split_j(links, k as int, x, empty, -1, k + 1, k as int);
                }
                lemma_pending_bound(links, k as int, t as int, empty, -1, k as int);
                assert(!on_path(empty, links[k as int].0 as int));
            }
            let ghost before = indeg@;
            indeg.set(t, indeg[t] + 1);
            proof {
                assert forall|x: int| 0 <= x < n implies #[trigger] indeg@[x] == pending(links, k + 1, x, empty, -1, k + 1) by {
                    lemma_pending_split_j(links, k as int, x, empty, -1, k + 1, k as int);
                    assert(pending(links, k + 1, x, empty, -1, k + 1) == pending(links, k as int, x, empty, -1, k + 1)
                        + if links[k as int].1 as int == x { 1nat } else { 0nat });
                    if x != t as int {
                        assert(indeg@[x] == before[x]);
                    }
                }
            }
            k = k + 1;
        }
        let mut q: Vec<usize> = Vec::new();
        let mut x: usize = 0;
        while x < n
            invariant
                self.wf(),
                n == self.n(),
                m == links.len(),
                links == self.links@,
                empty == Seq::<usize>::empty(),
                x <= n,
                indeg@.len() == n,
                forall|y: int| 0 <= y < n ==> #[trigger] indeg@[y] == pending(links, m as int, y, empty, -1, m as int),
                q@.no_duplicates(),
                forall|i: int| 0 <= i < q@.len() ==> (#[trigger] q@[i] as int) < x,
                forall|y: int| 0 <= y < n ==> (#[trigger] on_path(q@, y) <==> (y < x && indeg@[y] == 0)),
            decreases n - x,
        {
            if indeg[x] == 0 {
                let ghost q0 = q@;
                q.push(x);
                proof {
                    assert forall|y: int| 0 <= y < n implies (#[trigger] on_path(q@, y) <==> (y < x + 1 && indeg@[y] == 0)) by {
                        if on_path(q0, y) {
                            let i = choose|i: int| 0 <= i < q0.len() && q0[i] as int == y;
                            assert(q@[i] == q0[i]);
                        }
                        if on_path(q@, y) && y != x as int {
                            let i = choose|i: int| 0 <= i < q@.len() && q@[i] as int == y;
                            assert(i < q0.len());
                            assert(q0[i] == q@[i]);
                        }
                        if y == x as int {
                            assert(q@[q0.len() as int] == x);
                        }
                    }
                }
            } else {
                proof {
                    assert forall|y: int| 0 <= y < n implies (#[trigger] on_path(q@, y) <==> (y < x + 1 && indeg@[y] == 0)) by {
                        if on_path(q@, y) {
                            let i = choose|i: int| 0 <= i < q@.len() && q@[i] as int == y;
                            assert((q@[i] as int) < x);
                        }
                    }
                }
            }
            x = x + 1;
        }
        proof {
            assert forall|p: int, kk: int| #![trigger q@[p], self.links@[kk]] 0 <= p < q@.len() && 0 <= kk < self.links@.len()
                && self.links@[kk].1 == q@[p] implies exists|i: int| #![trigger q@[i]] 0 <= i < p && q@[i] == self.links@[kk].0 by {
                let y = q@[p] as int;
                assert(on_path(q@, y));
                lemma_pending_zero(links, m as int, y, empty, -1, m as int);
                assert(!on_path(empty, links[kk].0 as int));
            }
        }
        let mut head: usize = 0;
        assert(q@.take(0) =~= empty);
        while head < q.len()
            invariant
                self.wf(),
                n == self.n(),
                m == links.len(),
                links == self.links@,
                head <= q@.len(),
                indeg@.len() == n,
                q@.no_duplicates(),
                forall|i: int| 0 <= i < q@.len() ==> (#[trigger] q@[i] as int) < n,
                forall|y: int| 0 <= y < n ==> #[trigger] indeg@[y] == pending(links, m as int, y, q@.take(head as int), -1, m as int),
                forall|y: int| 0 <= y < n ==> (#[trigger] on_path(q@, y) <==> indeg@[y] == 0),
                forall|p: int, kk: int| #![trigger q@[p], self.links@[kk]] 0 <= p < q@.len() && 0 <= kk < self.links@.len()
                    && self.links@[kk].1 == q@[p] ==> exists|i: int| #![trigger q@[i]] 0 <= i < p && q@[i] == self.links@[kk].0,
            decreases n - head,
        {
            proof { lemma_distinct_cover(q@, n as int); }
            let u = q[head];
            let ghost before = q@.take(head as int);
            proof {
                assert(!on_path(before, u as int)) by {
                    if on_path(before, u as int) {
                        let i = choose|i: int| 0 <= i < before.len() && before[i] as int == u as int;
                        assert(q@[i] == q@[head as int]);
                    }
                }
                assert(q@.take(head + 1) == before.push(u));
                assert forall|y: int| 0 <= y < n implies pending(links, m as int, y, before.push(u), u as int, 0)
                    == #[trigger] indeg@[y] by {
                    lemma_pending_start(links, m as int, y, before, u);
                }
            }
            head = head + 1;
            let ghost done = q@.take(head as int);
            let mut j: usize = 0;
            while j < m
                invariant
                    self.wf(),
                    n == self.n(),
                    m == links.len(),
                    links == self.links@,
                    0 < head <= q@.len(),
                    u == q@[head - 1],
                    done == q@.take(head as int),
                    j <= m,
                    indeg@.len() == n,
                    q@.no_duplicates(),
                    forall|i: int| 0 <= i < q@.len() ==> (#[trigger] q@[i] as int) < n,
                    forall|y: int| 0 <= y < n ==> #[trigger] indeg@[y] == pending(links, m as int, y, done, u as int, j as int),
                    forall|y: int| 0 <= y < n ==> (#[trigger] on_path(q@, y) <==> indeg@[y] == 0),
                    forall|p: int, kk: int| #![trigger q@[p], self.links@[kk]] 0 <= p < q@.len() && 0 <= kk < self.links@.len()
                        && self.links@[kk].1 == q@[p] ==> exists|i: int| #![trigger q@[i]] 0 <= i < p && q@[i] == self.links@[kk].0,
                decreases m - j,
            {
                proof {
                    self.lemma_link(j as int);
                    assert(on_path(done, u as int)) by {
                        assert(done[head - 1] == u);
                    }
                    assert forall|y: int| 0 <= y < n implies
                        #[trigger] pending(links, m as int, y, done, u as int, j + 1) + (if links[j as int].0 as int == u as int && links[j as int].1 as int == y { 1nat } else { 0nat })
                        == pending(links, m as int, y, done, u as int, j as int) by {
                        lemma_pending_step(links, m as int, y, done, u as int, j as int);
                    }
                }
                let (a, t) = self.links[j];
                if a == u {
                    proof { lemma_pending_step(links, m as int, t as int, done, u as int, j as int); }
                    assert(indeg@[t as int] >= 1);
                    indeg.set(t, indeg[t] - 1);
                    if indeg[t] == 0 {
                        let ghost q0 = q@;
                        proof {
                            assert(!on_path(q0, t as int));
                            lemma_pending_zero(links, m as int, t as int, done, u as int, j + 1);
                        }
                        q.push(t);
                        proof {
                            assert(q@.take(head as int) == done);
                            assert forall|y: int| 0 <= y < n implies (#[trigger] on_path(q@, y) <==> indeg@[y] == 0) by {
                                if on_path(q0, y) {
                                    let i = choose|i: int| 0 <= i < q0.len() && q0[i] as int == y;
                                    assert(q@[i] == q0[i]);
                                }
                                if on_path(q@, y) && y != t as int {
                                    let i = choose|i: int| 0 <= i < q@.len() && q@[i] as int == y;
                                    assert(i < q0.len());
                                    assert(q0[i] == q@[i]);
                                }
                                if y == t as int {
                                    assert(q@[q0.len() as int] == t);
                                }
                            }
                            assert(q@.no_duplicates()) by {
                                assert forall|i1: int, i2: int| 0 <= i1 < q@.len() && 0 <= i2 < q@.len() && i1 != i2 implies q@[i1] != q@[i2] by {
                                    if i1 < q0.len() && i2 < q0.len() {
                                        assert(q@[i1] == q0[i1] && q@[i2] == q0[i2]);
                                    } else if i1 < q0.len() {
                                        assert(q@[i1] == q0[i1]);
                                        assert(on_path(q0, q0[i1] as int));
                                    } else {
                                        assert(q@[i2] == q0[i2]);
                                        assert(on_path(q0, q0[i2] as int));
                                    }
                                }
                            }
                            assert forall|p: int, kk: int| #![trigger q@[p], self.links@[kk]] 0 <= p < q@.len() && 0 <= kk < self.links@.len()
                                && self.links@[kk].1 == q@[p] implies exists|i: int| #![trigger q@[i]] 0 <= i < p && q@[i] == self.links@[kk].0 by {
                                if p < q0.len() {
                                    assert(q@[p] == q0[p]);
                                    let i = choose|i: int| #![trigger q0[i]] 0 <= i < p && q0[i] == self.links@[kk].0;
                                    assert(q@[i] == q0[i]);
                                } else {
                                    assert(links[kk].1 as int == t as int);
                                    assert(on_path(done, links[kk].0 as int));
                                    let i = choose|i: int| 0 <= i < done.len() && done[i] as int == links[kk].0 as int;
                                    assert(q@[i] == done[i]);
                                }
                            }
                        }
                    }
                }
                j = j + 1;
            }
            proof {
                assert forall|y: int| 0 <= y < n implies #[trigger] indeg@[y] == pending(links, m as int, y, q@.take(head as int), -1, m as int) by {
                    lemma_pending_split_j(links, m as int, y, done, u as int, m as int, m as int);
                }
            }
        }
        proof {
            assert(q@.take(q@.len() as int) == q@);
            lemma_distinct_cover(q@, n as int);
            if q@.len() < n {
                let x = choose|x: int| 0 <= x < n && !#[trigger] on_path(q@, x);
                assert forall|y: int| 0 <= y < self.n() && !on_path(q@, y) implies exists|k: int|
                    0 <= k < self.links@.len() && (#[trigger] self.links@[k]).1 as int == y && !on_path(q@, self.links@[k].0 as int) by {
                    lemma_pending_pos(links, m as int, y, q@);
                }
                assert forall|o: Seq<Seq<char>>| !self.is_topo_order(o) by {
                    self.lemma_descent(o, q@, x);
                }
            }
        }
        q
    }
}


impl DependencyGraph {
    /// The levels reported for the nodes: one entry per node in node
    /// order; every node's level exceeds that of each node it depends on,
    /// and is either 0 or one more than the level of one of them.
    pub open spec fn is_level_assignment(&self, r: Seq<(String, usize)>) -> bool {
        self.is_level_assignment_of(self.ids(), r)
    }

    /// The levels reported for the nodes `ids`: one entry per id, in that
    /// order; every node's level exceeds that of each node among `ids` it
    /// depends on, and is either 0 or one more than the level of one of
    /// them.
    pub open spec fn is_level_assignment_of(&self, ids: Seq<Seq<char>>, r: Seq<(String, usize)>) -> bool {
        &&& r.len() == ids.len()
        &&& forall|i: int| 0 <= i < r.len() ==> (#[trigger] r[i]).0@ == ids[i]
        &&& forall|i: int, j: int| 0 <= i < r.len() && 0 <= j < r.len()
            && self.has_edge(ids[i], ids[j]) ==> (#[trigger] r[i]).1 >= (#[trigger] r[j]).1 + 1
        &&& forall|i: int| 0 <= i < r.len() ==> (#[trigger] r[i]).1 == 0
            || exists|j: int| 0 <= j < r.len() && self.has_edge(ids[i], ids[j]) && r[i].1 == (#[trigger] r[j]).1 + 1
    }

    /// A node without dependencies.
    pub open spec fn is_root(&self, id: Seq<char>) -> bool {
        self.ids().contains(id) && !exists|b: Seq<char>| #[trigger] self.has_edge(id, b)
    }

    /// `id` is reached from a root in at most `k` steps, each step going to
    /// a node that depends on the one before.
    pub open spec fn reached_within(&self, id: Seq<char>, k: nat) -> bool
        decreases k,
    {
        self.is_root(id) || (k > 0 && exists|b: Seq<char>|
            #[trigger] self.has_edge(id, b) && self.reached_within(b, (k - 1) as nat))
    }

    /// `id` is reached from a root by following dependents.
    pub open spec fn reached(&self, id: Seq<char>) -> bool {
        exists|k: nat| #[trigger] self.reached_within(id, k)
    }

    /// The node ids reached from a root, in node order.
    pub open spec fn reached_ids(&self) -> Seq<Seq<char>> {
        self.ids().filter(|x: Seq<char>| self.reached(x))
    }

    /// A cycle all of whose nodes are reached from a root. (A cycle with
    /// one node reached has them all reached, each depending on the next.)
    pub open spec fn has_reached_cycle(&self) -> bool {
        exists|c: Seq<Seq<char>>| #[trigger] self.is_cycle(c) && forall|i: int| 0 <= i < c.len() ==> self.reached(#[trigger] c[i])
    }

    /// Node positions in a topological order, when there is no cycle.
    fn topo_positions(&self) -> (r: Option<Vec<usize>>)
        requires
            self.wf(),
        ensures
            r is Some <==> !self.has_cycle(),
            r matches Some(q) ==> {
                &&& q@.len() == self.n()
                &&& q@.no_duplicates()
                &&& forall|i: int| 0 <= i < q@.len() ==> (#[trigger] q@[i] as int) < self.n()
                &&& forall|x: int| 0 <= x < self.n() ==> #[trigger] on_path(q@, x)
                &&& forall|i: int, j: int| 0 <= i < q@.len() && 0 <= j < q@.len()
                    && self.arc(#[trigger] q@[i] as int, #[trigger] q@[j] as int) ==> i < j
            },
    {
        let cycles = self.detect_cycles();
        if cycles.len() > 0 {
            return None;
        }
        let q = self.kahn();
        if q.len() == self.nodes.len() {
            proof {
                lemma_distinct_cover(q@, self.n());
                assert forall|i: int, j: int| 0 <= i < q@.len() && 0 <= j < q@.len()
                    && self.arc(#[trigger] q@[i] as int, #[trigger] q@[j] as int) implies i < j by {
                    let k = choose|k: int| 0 <= k < self.links@.len() && (#[trigger] self.links@[k]).0 == q@[i] as int
                        && self.links@[k].1 == q@[j] as int;
                    let ii = choose|ii: int| #![trigger q@[ii]] 0 <= ii < j && q@[ii] == self.links@[k].0;
                    assert(q@[ii] == q@[i]);
                }
            }
            Some(q)
        } else {
            proof {
                lemma_distinct_cover(q@, self.n());
                let o = choose|o: Seq<Seq<char>>| self.is_topo_order(o);
                assert(!self.is_topo_order(o));
            }
            None
        }
    }

    /// A topological ordering of the node ids (every edge's source before
    /// its target), or `None` when the graph has a cycle.
    pub fn topological_sort(&self) -> (r: Option<Vec<String>>)
        requires
            self.wf(),
        ensures
            r is Some <==> !self.has_cycle(),
            r matches Some(o) ==> self.is_topo_order(cycle_view(o)),
    {
        match self.topo_positions() {
            None => None,
            Some(q) => {
                let mut out: Vec<String> = Vec::new();
                let mut i: usize = 0;
                while i < q.len()
                    invariant
                        self.wf(),
                        i <= q@.len(),
                        q@.len() == self.n(),
                        forall|t: int| 0 <= t < q@.len() ==> (#[trigger] q@[t] as int) < self.n(),
                        out@.len() == i,
                        forall|t: int| 0 <= t < i ==> (#[trigger] out@[t])@ == self.ids()[q@[t] as int],
                    decreases q@.len() - i,
                {
                    let x = q[i];
                    assert((q@[i as int] as int) < self.n());
                    out.push(self.nodes[x].id.clone());
                    i = i + 1;
                }
                proof {
                    let o = cycle_view(out);
                    let ids = self.ids();
                    assert forall|a: int, b: int| 0 <= a < o.len() && 0 <= b < o.len() && a != b implies o[a] != o[b] by {
                        assert(o[a] == ids[q@[a] as int]);
                        assert(o[b] == ids[q@[b] as int]);
                        assert(q@[a] != q@[b]);
                        assert(ids.no_duplicates());
                    }
                    assert forall|a: int| 0 <= a < o.len() implies ids.contains(#[trigger] o[a]) by {
                        assert(o[a] == ids[q@[a] as int]);
                    }
                    assert forall|j: int| 0 <= j < ids.len() implies o.contains(#[trigger] ids[j]) by {
                        assert(on_path(q@, j));
                        let t = choose|t: int| 0 <= t < q@.len() && q@[t] as int == j;
                        assert(o[t] == ids[j]);
                    }
                    assert forall|a: int, b: int| 0 <= a < o.len() && 0 <= b < o.len()
                        && self.has_edge(#[trigger] o[a], #[trigger] o[b]) implies a < b by {
                        assert(o[a] == ids[q@[a] as int]);
                        assert(o[b] == ids[q@[b] as int]);
                        self.lemma_edge_arc(o[a], o[b]);
                        lemma_index_of_distinct(ids, q@[a] as int);
                        lemma_index_of_distinct(ids, q@[b] as int);
                        assert(self.arc(q@[a] as int, q@[b] as int));
                    }
                }
                Some(out)
            },
        }
    }
}


impl DependencyGraph {
    /// Level of every node of an acyclic graph: 0 for a node without
    /// dependencies, otherwise one more than the highest level among the
    /// nodes it depends on. Listed in node order.
    fn dag_levels(&self) -> (r: Vec<(String, usize)>)
        requires
            self.wf(),
            !self.has_cycle(),
        ensures
            self.is_level_assignment(r@),
    {
        let q = match self.topo_positions() {
            Some(q) => q,
            None => {
                return Vec::new();
            },
        };
        let n = self.nodes.len();
        let m = self.links.len();
        let mut level: Vec<usize> = vec![0; n];
        let mut p: usize = n;
        while p > 0
            invariant
                self.wf(),
                n == self.n(),
                m == self.links@.len(),
                q@.len() == n,
                q@.no_duplicates(),
                forall|i: int| 0 <= i < q@.len() ==> (#[trigger] q@[i] as int) < n,
                forall|x: int| 0 <= x < n ==> #[trigger] on_path(q@, x),
                forall|i: int, j: int| 0 <= i < q@.len() && 0 <= j < q@.len()
                    && self.arc(#[trigger] q@[i] as int, #[trigger] q@[j] as int) ==> i < j,
                p <= n,
                level@.len() == n,
                forall|t: int| p <= t < n ==> (#[trigger] level@[q@[t] as int]) <= n - 1 - t,
                forall|t: int, k: int| #![trigger level@[q@[t] as int], self.links@[k]]
                    p <= t < n && 0 <= k < m && self.links@[k].0 == q@[t]
                    ==> level@[q@[t] as int] >= level@[self.links@[k].1 as int] + 1,
                forall|t: int| p <= t < n ==> (#[trigger] level@[q@[t] as int]) == 0
                    || exists|k: int| 0 <= k < m && (#[trigger] self.links@[k]).0 == q@[t]
                        && level@[q@[t] as int] == level@[self.links@[k].1 as int] + 1,
            decreases p,
        {
            p = p - 1;
            let x = q[p];
            let mut best: usize = 0;
            let mut k: usize = 0;
            while k < m
                invariant
                    self.wf(),
                    n == self.n(),
                    m == self.links@.len(),
                    q@.len() == n,
                    q@.no_duplicates(),
                    forall|i: int| 0 <= i < q@.len() ==> (#[trigger] q@[i] as int) < n,
                    forall|x: int| 0 <= x < n ==> #[trigger] on_path(q@, x),
                    forall|i: int, j: int| 0 <= i < q@.len() && 0 <= j < q@.len()
                        && self.arc(#[trigger] q@[i] as int, #[trigger] q@[j] as int) ==> i < j,
                    p < n,
                    x == q@[p as int],
                    level@.len() == n,
                    forall|t: int| p < t < n ==> (#[trigger] level@[q@[t] as int]) <= n - 1 - t,
                    k <= m,
                    best <= n - 1 - p,
                    forall|kk: int| 0 <= kk < k && (#[trigger] self.links@[kk]).0 == x
                        ==> best >= level@[self.links@[kk].1 as int] + 1,
                    best == 0 || exists|kk: int| 0 <= kk < k && (#[trigger] self.links@[kk]).0 == x
                        && best == level@[self.links@[kk].1 as int] + 1,
                decreases m - k,
            {
                let (a, y) = self.links[k];
                if a == x {
                    proof {
                        self.lemma_link(k as int);
                        assert(on_path(q@, y as int));
                        let t = choose|t: int| 0 <= t < q@.len() && q@[t] as int == y as int;
                        assert(self.arc(q@[p as int] as int, q@[t] as int));
                        assert(level@[q@[t] as int] <= n - 1 - t);
                    }
                    let cand = level[y] + 1;
                    if cand > best {
                        best = cand;
                    }
                }
                k = k + 1;
            }
            let ghost before = level@;
            level.set(x, best);
            proof {
                assert forall|t: int| p < t < n implies q@[t] != x by {
                    assert(q@[t] != q@[p as int]);
                }
                assert forall|t: int| p <= t < n implies (#[trigger] level@[q@[t] as int]) <= n - 1 - t by {
                    if t > p { assert(level@[q@[t] as int] == before[q@[t] as int]); }
                }
                assert forall|t: int, kk: int| #![trigger level@[q@[t] as int], self.links@[kk]]
                    p <= t < n && 0 <= kk < m && self.links@[kk].0 == q@[t]
                    implies level@[q@[t] as int] >= level@[self.links@[kk].1 as int] + 1 by {
                    self.lemma_link(kk);
                    let y = self.links@[kk].1 as int;
                    assert(on_path(q@, y));
                    let ty = choose|ty: int| 0 <= ty < q@.len() && q@[ty] as int == y;
                    assert(self.arc(q@[t] as int, q@[ty] as int));
                    assert(ty > t);
                    assert(q@[ty] != x);
                    if t > p {
                        assert(level@[q@[t] as int] == before[q@[t] as int]);
                        assert(before[q@[t] as int] >= before[self.links@[kk].1 as int] + 1);
                    }
                }
                assert forall|t: int| p <= t < n implies (#[trigger] level@[q@[t] as int]) == 0
                    || exists|kk: int| 0 <= kk < m && (#[trigger] self.links@[kk]).0 == q@[t]
                        && level@[q@[t] as int] == level@[self.links@[kk].1 as int] + 1 by {
                    if level@[q@[t] as int] != 0 {
                        if t > p {
                            assert(level@[q@[t] as int] == before[q@[t] as int]);
                            let kk = choose|kk: int| 0 <= kk < m && (#[trigger] self.links@[kk]).0 == q@[t]
                                && before[q@[t] as int] == before[self.links@[kk].1 as int] + 1;
                            self.lemma_link(kk);
                            let y = self.links@[kk].1 as int;
                            assert(on_path(q@, y));
                            let ty = choose|ty: int| 0 <= ty < q@.len() && q@[ty] as int == y;
                            assert(self.arc(q@[t] as int, q@[ty] as int));
                            assert(q@[ty] != x);
                            assert(level@[y] == before[y]);
                        } else {
                            let kk = choose|kk: int| 0 <= kk < m && (#[trigger] self.links@[kk]).0 == x
                                && best == before[self.links@[kk].1 as int] + 1;
                            self.lemma_link(kk);
                            let y = self.links@[kk].1 as int;
                            assert(on_path(q@, y));
                            let ty = choose|ty: int| 0 <= ty < q@.len() && q@[ty] as int == y;
                            assert(self.arc(q@[t] as int, q@[ty] as int));
                            assert(q@[ty] != x);
                            assert(level@[y] == before[y]);
                        }
                    }
                }
            }
        }
        let mut r: Vec<(String, usize)> = Vec::new();
        let mut i: usize = 0;
        while i < n
            invariant
                self.wf(),
                n == self.n(),
                level@.len() == n,
                i <= n,
                r@.len() == i,
                forall|t: int| 0 <= t < i ==> (#[trigger] r@[t]).0@ == self.ids()[t] && r@[t].1 == level@[t],
            decreases n - i,
        {
            r.push((self.nodes[i].id.clone(), level[i]));
            i = i + 1;
        }
        proof {
            let ids = self.ids();
            assert forall|a: int, b: int| 0 <= a < r@.len() && 0 <= b < r@.len()
                && self.has_edge(ids[a], ids[b]) implies (#[trigger] r@[a]).1 >= (#[trigger] r@[b]).1 + 1 by {
                self.lemma_edge_arc(ids[a], ids[b]);
                lemma_index_of_distinct(ids, a);
                lemma_index_of_distinct(ids, b);
                let k = choose|k: int| 0 <= k < self.links@.len() && (#[trigger] self.links@[k]).0 == a && self.links@[k].1 == b;
                assert(on_path(q@, a));
                let t = choose|t: int| 0 <= t < q@.len() && q@[t] as int == a;
                assert(level@[q@[t] as int] >= level@[self.links@[k].1 as int] + 1);
            }
            assert forall|a: int| 0 <= a < r@.len() implies (#[trigger] r@[a]).1 == 0
                || exists|b: int| 0 <= b < r@.len() && self.has_edge(ids[a], ids[b]) && r@[a].1 == (#[trigger] r@[b]).1 + 1 by {
                assert(on_path(q@, a));
                let t = choose|t: int| 0 <= t < q@.len() && q@[t] as int == a;
                if level@[a] != 0 {
                    assert(level@[q@[t] as int] != 0);
                    let k = choose|k: int| 0 <= k < m && (#[trigger] self.links@[k]).0 == q@[t]
                        && level@[q@[t] as int] == level@[self.links@[k].1 as int] + 1;
                    self.lemma_link(k);
                    let b = self.links@[k].1 as int;
                    assert(self.has_edge(ids[a], ids[b]));
                    assert(r@[a].1 == r@[b].1 + 1);
                }
            }
        }
        r
    }
}

impl DependencyGraph {
    /// Whether node position `x` has no outgoing link.
    fn no_outgoing(&self, x: usize) -> (r: bool)
        requires
            self.wf(),
            x < self.n(),
        ensures
            r == self.is_root(self.ids()[x as int]),
    {
        let mut k: usize = 0;
        while k < self.links.len()
            invariant
                self.wf(),
                x < self.n(),
                k <= self.links@.len(),
                forall|kk: int| 0 <= kk < k ==> (#[trigger] self.links@[kk]).0 != x,
            decreases self.links@.len() - k,
        {
            if self.links[k].0 == x {
                proof {
                    self.lemma_link(k as int);
                    assert(self.has_edge(self.ids()[x as int], self.ids()[self.links@[k as int].1 as int]));
                }
                return false;
            }
            k = k + 1;
        }
        proof {
            assert(self.ids().contains(self.ids()[x as int]));
            if exists|b: Seq<char>| #[trigger] self.has_edge(self.ids()[x as int], b) {
                let b = choose|b: Seq<char>| #[trigger] self.has_edge(self.ids()[x as int], b);
                self.lemma_edge_arc(self.ids()[x as int], b);
                lemma_index_of_distinct(self.ids(), x as int);
                let kk = choose|kk: int| 0 <= kk < self.links@.len() && (#[trigger] self.links@[kk]).0 == self.ids().index_of(
                    self.ids()[x as int],
                ) && self.links@[kk].1 == self.ids().index_of(b);
                assert(self.links@[kk].0 == x);
            }
        }
        true
    }

    /// Which node positions are reached from a root by following
    /// dependents.
    fn reached_marks(&self) -> (marks: Vec<bool>)
        requires
            self.wf(),
        ensures
            marks@.len() == self.n(),
            forall|x: int| 0 <= x < self.n() ==> (#[trigger] marks@[x] <==> self.reached(self.ids()[x])),
    {
        let n = self.nodes.len();
        let mut marks: Vec<bool> = Vec::new();
        let mut i: usize = 0;
        while i < n
            invariant
                self.wf(),
                n == self.n(),
                i <= n,
                marks@.len() == i,
                forall|x: int| 0 <= x < i ==> (#[trigger] marks@[x] <==> self.is_root(self.ids()[x])),
            decreases n - i,
        {
            let r = self.no_outgoing(i);
            marks.push(r);
            i = i + 1;
        }
        proof {
            assert forall|x: int| 0 <= x < n && #[trigger] marks@[x] implies self.reached(self.ids()[x]) by {
                assert(self.reached_within(self.ids()[x], 0));
            }
        }
        let m = self.links.len();
        loop
            invariant
                self.wf(),
                n == self.n(),
                m == self.links@.len(),
                marks@.len() == n,
                forall|x: int| 0 <= x < n && #[trigger] marks@[x] ==> self.reached(self.ids()[x]),
                forall|x: int| 0 <= x < n && self.is_root(self.ids()[x]) ==> #[trigger] marks@[x],
            decreases count_unmarked(marks@, n as int),
        {
            let ghost before = marks@;
            let mut changed = false;
            let mut k: usize = 0;
            while k < m
                invariant
                    self.wf(),
                    n == self.n(),
                    m == self.links@.len(),
                    marks@.len() == n,
                    k <= m,
                    forall|x: int| 0 <= x < n && #[trigger] marks@[x] ==> self.reached(self.ids()[x]),
                    forall|x: int| 0 <= x < n && before[x] ==> #[trigger] marks@[x],
                    before.len() == n,
                    !changed ==> marks@ == before,
                    changed ==> count_unmarked(marks@, n as int) < count_unmarked(before, n as int),
                    !changed ==> forall|kk: int| 0 <= kk < k && #[trigger] marks@[self.links@[kk].1 as int]
                        ==> marks@[self.links@[kk].0 as int],
                decreases m - k,
            {
                let (a, b) = self.links[k];
                proof {
                    self.lemma_link(k as int);
                }
                if marks[b] && !marks[a] {
                    let ghost prev = marks@;
                    marks.set(a, true);
                    proof {
                        let ia = self.ids()[a as int];
                        let ib = self.ids()[b as int];
                        assert(self.reached(ib));
                        let kb = choose|kb: nat| #[trigger] self.reached_within(ib, kb);
                        assert(self.has_edge(ia, ib));
                        assert(self.reached_within(ia, kb + 1));
                        lemma_unmarked_set(prev, n as int, a as int);
                        lemma_unmarked_mono(before, prev, n as int);
                    }
                    changed = true;
                }
                k = k + 1;
            }
            if !changed {
                proof {
                    assert forall|x: int| 0 <= x < n implies (#[trigger] marks@[x] <==> self.reached(self.ids()[x])) by {
                        if self.reached(self.ids()[x]) {
                            let kx = choose|kx: nat| #[trigger] self.reached_within(self.ids()[x], kx);
                            self.lemma_marked_when_reached(marks@, kx, x);
                        }
                    }
                }
                return marks;
            }
        }
    }

    /// At a fixpoint of the marking, every node reached within `k` steps is
    /// marked.
    proof fn lemma_marked_when_reached(&self, marks: Seq<bool>, k: nat, x: int)
        requires
            self.wf(),
            marks.len() == self.n(),
            0 <= x < self.n(),
            self.reached_within(self.ids()[x], k),
            forall|y: int| 0 <= y < self.n() && self.is_root(self.ids()[y]) ==> #[trigger] marks[y],
            forall|kk: int| 0 <= kk < self.links@.len() && #[trigger] marks[self.links@[kk].1 as int]
                ==> marks[self.links@[kk].0 as int],
        ensures
            marks[x],
        decreases k,
    {
        let ix = self.ids()[x];
        if !self.is_root(ix) {
            let b = choose|b: Seq<char>| #[trigger] self.has_edge(ix, b) && self.reached_within(b, (k - 1) as nat);
            self.lemma_edge_arc(ix, b);
            lemma_index_of_distinct(self.ids(), x);
            let y = self.ids().index_of(b);
            self.ids().index_of_first_ensures(b);
            assert(0 <= y < self.n() && self.ids()[y] == b) by {
                assert(self.ids().contains(b));
            }
            self.lemma_marked_when_reached(marks, (k - 1) as nat, y);
            let kk = choose|kk: int| 0 <= kk < self.links@.len() && (#[trigger] self.links@[kk]).0 == self.ids().index_of(ix)
                && self.links@[kk].1 == y;
            assert(marks[self.links@[kk].1 as int]);
        }
    }

    /// The level of every node reached from a node without dependencies by
    /// following dependents, listed in node order: 0 for a node without
    /// dependencies, otherwise one more than the highest level among the
    /// reached nodes it depends on. Nodes not so reached get no level. The
    /// graph must have no cycle among reached nodes: on such a cycle the
    /// levels would grow without end.
    pub fn levels(&self) -> (r: Vec<(String, usize)>)
        requires
            self.wf(),
            !self.has_reached_cycle(),
        ensures
            self.is_level_assignment_of(self.reached_ids(), r@),
    {
        let marks = self.reached_marks();
        let ghost pred = |x: Seq<char>| self.reached(x);
        let ghost ids = self.ids();
        let mut g = DependencyGraph::new();
        let mut i: usize = 0;
        while i < self.nodes.len()
            invariant
                self.wf(),
                g.wf(),
                ids == self.ids(),
                pred == (|x: Seq<char>| self.reached(x)),
                marks@.len() == self.n(),
                forall|x: int| 0 <= x < self.n() ==> (#[trigger] marks@[x] <==> self.reached(self.ids()[x])),
                i <= self.n(),
                g.ids() == ids.take(i as int).filter(pred),
                g.edge_seq().len() == 0,
            decreases self.n() - i,
        {
            proof {
                assert(ids.take(i + 1).drop_last() == ids.take(i as int));
                assert(ids.take(i + 1).last() == ids[i as int]);
                reveal_with_fuel(Seq::filter, 1);
            }
            if marks[i] {
                let node = DepNode {
                    id: self.nodes[i].id.clone(),
                    name: self.nodes[i].name.clone(),
                    node_type: self.nodes[i].node_type,
                };
                proof {
                    assert(node.id@ == ids[i as int]);
                    if g.ids().contains(node.id@) {
                        ids.take(i as int).lemma_filter_contains_rev(pred, node.id@);
                        let t = choose|t: int| 0 <= t < i && ids.take(i as int)[t] == node.id@;
                        assert(ids[t] == ids[i as int]);
                        assert(node_ids(self.nodes@).no_duplicates());
                    }
                }
                g.add_node(node);
                proof {
                    assert(g.ids() =~= ids.take(i as int).filter(pred).push(ids[i as int]));
                }
            }
            i = i + 1;
        }
        proof {
            assert(ids.take(ids.len() as int) == ids);
        }
        let ghost gids = g.ids();
        assert(gids == self.reached_ids());
        let mut k: usize = 0;
        while k < self.edges.len()
            invariant
                self.wf(),
                g.wf(),
                g.ids() == gids,
                gids == self.reached_ids(),
                k <= self.edge_seq().len(),
                forall|a: Seq<char>, b: Seq<char>| #[trigger] g.has_edge(a, b) <==> self.edge_before(k as int, a, b)
                    && gids.contains(a) && gids.contains(b),
            decreases self.edge_seq().len() - k,
        {
            let ghost ge = g.edge_seq();
            let ghost gold = g;
            g.add_edge(self.edges[k].from.as_str(), self.edges[k].to.as_str(), self.edges[k].kind);
            proof {
                let e = self.edge_seq()[k as int];
                assert forall|a: Seq<char>, b: Seq<char>| #[trigger] g.has_edge(a, b) <==> self.edge_before(k + 1, a, b)
                    && gids.contains(a) && gids.contains(b) by {
                    let added = gids.contains(e.from@) && gids.contains(e.to@);
                    assert(gold.has_edge(a, b) <==> self.edge_before(k as int, a, b) && gids.contains(a) && gids.contains(b));
                    if added {
                        assert(g.edge_seq().len() == ge.len() + 1);
                        assert forall|j: int| 0 <= j < ge.len() implies g.edge_seq()[j] == ge[j] by {
                            assert(g.edge_seq().drop_last()[j] == ge[j]);
                        }
                        let l = ge.len() as int;
                        assert(g.edge_seq()[l] == g.edge_seq().last());
                        if g.has_edge(a, b) {
                            let j = choose|j: int| 0 <= j < g.edge_seq().len() && (#[trigger] g.edge_seq()[j]).from@ == a
                                && g.edge_seq()[j].to@ == b;
                            if j < l {
                                assert(gold.edge_seq()[j] == g.edge_seq()[j]);
                                assert(gold.has_edge(a, b));
                            } else {
                                assert(self.edge_seq()[k as int].from@ == a && self.edge_seq()[k as int].to@ == b);
                            }
                        }
                        if self.edge_before(k + 1, a, b) && gids.contains(a) && gids.contains(b) {
                            if self.edge_before(k as int, a, b) {
                                assert(gold.has_edge(a, b));
                                let j = choose|j: int| 0 <= j < gold.edge_seq().len() && (#[trigger] gold.edge_seq()[j]).from@
                                    == a && gold.edge_seq()[j].to@ == b;
                                assert(g.edge_seq()[j] == ge[j]);
                            } else {
                                let kk = choose|kk: int| 0 <= kk < k + 1 && (#[trigger] self.edge_seq()[kk]).from@ == a
                                    && self.edge_seq()[kk].to@ == b;
                                assert(kk == k);
                                assert(g.edge_seq()[l].from@ == a && g.edge_seq()[l].to@ == b);
                            }
                        }
                    } else {
                        assert(g.edge_seq() == ge);
                        if self.edge_before(k + 1, a, b) && gids.contains(a) && gids.contains(b) {
                            let kk = choose|kk: int| 0 <= kk < k + 1 && (#[trigger] self.edge_seq()[kk]).from@ == a
                                && self.edge_seq()[kk].to@ == b;
                            if kk == k {
                                assert(false);
                            } else {
                                assert(self.edge_before(k as int, a, b));
                            }
                        }
                        if self.edge_before(k + 1, a, b) {
                            if !self.edge_before(k as int, a, b) {
                                let kk = choose|kk: int| 0 <= kk < k + 1 && (#[trigger] self.edge_seq()[kk]).from@ == a
                                    && self.edge_seq()[kk].to@ == b;
                                assert(kk == k);
                            }
                        }
                    }
                }
            }
            k = k + 1;
        }
        proof {
            self.lemma_reached_ids_members();
            assert forall|a: Seq<char>, b: Seq<char>| #[trigger] g.has_edge(a, b) <==> (self.has_edge(a, b)
                && gids.contains(a) && gids.contains(b)) by {}
            if g.has_cycle() {
                let c = choose|c: Seq<Seq<char>>| g.is_cycle(c);
                assert forall|i: int| 0 <= i < c.len() - 1 implies self.has_edge(#[trigger] c[i], c[i + 1]) by {
                    assert(g.has_edge(c[i], c[i + 1]));
                }
                assert(g.has_edge(c.last(), c[0]));
                assert forall|i: int| 0 <= i < c.len() implies self.reached(#[trigger] c[i]) by {
                    if i < c.len() - 1 {
                        assert(g.has_edge(c[i], c[i + 1]));
                    } else {
                        assert(c[i] == c.last());
                    }
                }
                assert(self.is_cycle(c));
            }
        }
        let r = g.dag_levels();
        proof {
            assert forall|i: int, j: int| 0 <= i < r@.len() && 0 <= j < r@.len() && self.has_edge(gids[i], gids[j])
                implies g.has_edge(gids[i], gids[j]) by {
                assert(gids.contains(gids[i]) && gids.contains(gids[j]));
            }
            assert forall|i: int, j: int| 0 <= i < r@.len() && 0 <= j < r@.len() && g.has_edge(gids[i], gids[j])
                implies self.has_edge(gids[i], gids[j]) by {}
        }
        r
    }

    /// One of the first `k` edges goes from `a` to `b`.
    pub open spec fn edge_before(&self, k: int, a: Seq<char>, b: Seq<char>) -> bool {
        exists|kk: int| 0 <= kk < k && (#[trigger] self.edge_seq()[kk]).from@ == a && self.edge_seq()[kk].to@ == b
    }

    /// The reached ids are the ids reached from a root.
    proof fn lemma_reached_ids_members(&self)
        ensures
            forall|x: Seq<char>| #[trigger] self.reached_ids().contains(x) <==> (self.ids().contains(x) && self.reached(x)),
    {
        let pred = |x: Seq<char>| self.reached(x);
        assert forall|x: Seq<char>| #[trigger] self.reached_ids().contains(x) <==> (self.ids().contains(x)
            && self.reached(x)) by {
            if self.reached_ids().contains(x) {
                self.ids().lemma_filter_contains_rev(pred, x);
                let j = choose|j: int| 0 <= j < self.reached_ids().len() && self.reached_ids()[j] == x;
                self.ids().lemma_filter_pred(pred, j);
            }
            if self.ids().contains(x) && self.reached(x) {
                let t = choose|t: int| 0 <= t < self.ids().len() && self.ids()[t] == x;
                self.ids().lemma_filter_contains(pred, t);
            }
        }
    }
}

/// How many of the first `n` marks are unset.
pub open spec fn count_unmarked(marks: Seq<bool>, n: int) -> nat
    decreases n,
{
    if n <= 0 {
        0
    } else {
        count_unmarked(marks, n - 1) + if marks[n - 1] { 0nat } else { 1nat }
    }
}

proof fn lemma_unmarked_set(m: Seq<bool>, n: int, a: int)
    requires
        0 <= a < n <= m.len(),
        !m[a],
    ensures
        count_unmarked(m.update(a, true), n) < count_unmarked(m, n),
        forall|b: int| 0 <= b <= n ==> #[trigger] count_unmarked(m.update(a, true), b) <= count_unmarked(m, b),
    decreases n,
{
    assert forall|b: int| 0 <= b <= n implies #[trigger] count_unmarked(m.update(a, true), b) <= count_unmarked(m, b) by {
        lemma_unmarked_le(m, a, b);
    }
    if n - 1 > a {
        lemma_unmarked_set(m, n - 1, a);
    } else {
        lemma_unmarked_le(m, a, n - 1);
    }
}

proof fn lemma_unmarked_le(m: Seq<bool>, a: int, b: int)
    requires
        0 <= a < m.len(),
        b <= m.len(),
    ensures
        count_unmarked(m.update(a, true), b) <= count_unmarked(m, b),
    decreases b,
{
    if b > 0 {
        lemma_unmarked_le(m, a, b - 1);
    }
}

proof fn lemma_unmarked_mono(before: Seq<bool>, now: Seq<bool>, n: int)
    requires
        before.len() == now.len(),
        n <= now.len(),
        forall|x: int| 0 <= x < now.len() && before[x] ==> #[trigger] now[x],
    ensures
        count_unmarked(now, n) <= count_unmarked(before, n),
    decreases n,
{
    if n > 0 {
        lemma_unmarked_mono(before, now, n - 1);
    }
}

} // verus!
