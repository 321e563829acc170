//! The resolved dependency graph: its nodes, kept acyclic by a `daggy` DAG
//! that holds the edges.
use vstd::prelude::*;
use daggy::{NodeIndex, Walker};
use crate::cache::{BuckalNode, SnapshotEntry};
use crate::collections::strings_view;
use crate::text::str_eq;

verus! {

/// The edges of a graph of `daggy`, over node positions. The graph is held
/// in a struct of this crate because Verus refuses a declaration of
/// `daggy::Dag`, whose index parameter is bound by an outside trait.
#[verifier::external_body]
pub struct DagStore {
    dag: daggy::Dag<(), (), u32>,
}

/// The edges of `d`, in the order in which they were added.
pub uninterp spec fn dag_edges(d: DagStore) -> Seq<(nat, nat)>;

/// Whether `p` is a path along `edges`.
pub open spec fn is_path(edges: Seq<(nat, nat)>, p: Seq<nat>) -> bool {
    p.len() >= 1 && forall|k: int| 0 <= k < p.len() - 1 ==> edges.contains((#[trigger] p[k], p[k + 1]))
}

/// Whether a path along `edges` leads from `x` to `y`; every node reaches itself.
pub open spec fn reaches(edges: Seq<(nat, nat)>, x: nat, y: nat) -> bool {
    exists|p: Seq<nat>| #[trigger] is_path(edges, p) && p[0] == x && p.last() == y
}

proof fn lemma_reaches_push(edges: Seq<(nat, nat)>, e: (nat, nat), x: nat, y: nat)
    requires
        reaches(edges, x, y),
    ensures
        reaches(edges.push(e), x, y),
{
    let p = choose|p: Seq<nat>| #[trigger] is_path(edges, p) && p[0] == x && p.last() == y;
    assert forall|k: int| 0 <= k < p.len() - 1 implies edges.push(e).contains((#[trigger] p[k], p[k + 1])) by {
        let q = choose|q: int| 0 <= q < edges.len() && edges[q] == (p[k], p[k + 1]);
        assert(edges.push(e)[q] == edges[q]);
    }
    assert(is_path(edges.push(e), p));
}

/// The number of nodes of `d`.
pub uninterp spec fn dag_size(d: DagStore) -> nat;

/// The largest number of nodes, and of edges, that a graph indexed by `u32` holds.
pub const DAG_LIMIT: usize = 4294967294;

/// Relies on `daggy::Dag::new`: an empty graph.
#[verifier::external_body]
fn dag_new() -> (r: DagStore)
    ensures
        dag_size(r) == 0,
        dag_edges(r) == Seq::<(nat, nat)>::empty(),
{
    DagStore { dag: daggy::Dag::new() }
}

/// Relies on `daggy::Dag::add_node`: the new node takes the next position.
#[verifier::external_body]
fn dag_add_node(d: &mut DagStore) -> (i: u32)
    requires
        dag_size(*old(d)) < DAG_LIMIT,
    ensures
        i == dag_size(*old(d)),
        dag_size(*final(d)) == dag_size(*old(d)) + 1,
        dag_edges(*final(d)) == dag_edges(*old(d)),
{
    d.dag.add_node(()).index() as u32
}

/// Relies on `daggy::Dag::add_edge`: the edge from `a` to `b` is added
/// exactly when `b` does not reach `a` already (so a self edge is refused),
/// and otherwise the graph is left as it was.
#[verifier::external_body]
fn dag_add_edge(d: &mut DagStore, a: u32, b: u32) -> (added: bool)
    requires
        a < dag_size(*old(d)),
        b < dag_size(*old(d)),
        dag_edges(*old(d)).len() < DAG_LIMIT,
    ensures
        dag_size(*final(d)) == dag_size(*old(d)),
        added ==> dag_edges(*final(d)) == dag_edges(*old(d)).push((a as nat, b as nat)),
        !added ==> dag_edges(*final(d)) == dag_edges(*old(d)),
        added == !reaches(dag_edges(*old(d)), b as nat, a as nat),
{
    d.dag.add_edge(NodeIndex::new(a as usize), NodeIndex::new(b as usize), ()).is_ok()
}

/// Relies on `daggy::Dag::parents`: the sources of the edges into `i`.
#[verifier::external_body]
fn dag_parents(d: &DagStore, i: u32) -> (r: Vec<u32>)
    requires
        i < dag_size(*d),
    ensures
        forall|x: u32| r@.contains(x) <==> dag_edges(*d).contains((x as nat, i as nat)),
{
    d.dag.parents(NodeIndex::new(i as usize)).iter(&d.dag).map(|(_, n)| n.index() as u32).collect()
}

/// Relies on `daggy::Dag::children`: the targets of the edges out of `i`.
#[verifier::external_body]
fn dag_children(d: &DagStore, i: u32) -> (r: Vec<u32>)
    requires
        i < dag_size(*d),
    ensures
        forall|x: u32| r@.contains(x) <==> dag_edges(*d).contains((i as nat, x as nat)),
{
    d.dag.children(NodeIndex::new(i as usize)).iter(&d.dag).map(|(_, n)| n.index() as u32).collect()
}

/// The resolved graph: the nodes, in the order in which they were given, and
/// the dependency edges between their positions.
pub struct BuckalResolve {
    pub dag: DagStore,
    pub nodes: Vec<BuckalNode>,
}

/// Whether node `b` is among the declared dependencies of node `a`.
pub open spec fn declares(a: BuckalNode, b: BuckalNode) -> bool {
    strings_view(a.dep_ids@).contains(b.package_id@)
}

/// Whether edge `e` joins a node of `nodes` to one of its declared dependencies.
pub open spec fn edge_ok(nodes: Seq<BuckalNode>, e: (nat, nat)) -> bool {
    e.0 < nodes.len() && e.1 < nodes.len() && declares(nodes[e.0 as int], nodes[e.1 as int])
}

/// The number of dependencies that the first `n` nodes declare.
pub open spec fn declared_count(nodes: Seq<BuckalNode>, n: int) -> int
    decreases n,
{
    if n <= 0 {
        0
    } else {
        declared_count(nodes, n - 1) + nodes[n - 1].dep_ids@.len()
    }
}

proof fn lemma_declared_count_monotone(nodes: Seq<BuckalNode>, m: int, n: int)
    requires
        0 <= m <= n <= nodes.len(),
    ensures
        declared_count(nodes, m) <= declared_count(nodes, n),
    decreases n - m,
{
    if m < n {
        lemma_declared_count_monotone(nodes, m, n - 1);
    }
}

impl BuckalResolve {
    /// Every edge joins a node to one of its declared dependencies.
    pub open spec fn wf(&self) -> bool {
        &&& dag_size(self.dag) == self.nodes@.len()
        &&& self.nodes@.len() < DAG_LIMIT
        &&& forall|k: int|
            0 <= k < dag_edges(self.dag).len() ==> edge_ok(self.nodes@, #[trigger] dag_edges(self.dag)[k])
    }

    /// Whether the graph has an edge from position `a` to position `b`.
    pub open spec fn has_edge(&self, a: int, b: int) -> bool {
        dag_edges(self.dag).contains((a as nat, b as nat))
    }

    /// Whether `a` depends on `b` through an edge, or `b` reaches `a` so that
    /// such an edge would close a cycle.
    pub open spec fn linked(&self, a: int, b: int) -> bool {
        self.has_edge(a, b) || reaches(dag_edges(self.dag), b as nat, a as nat)
    }

    /// Builds the graph of `nodes`: an edge from each node to each of its
    /// declared dependencies that is among `nodes`, unless it would close a
    /// cycle. `None` where there are more nodes or edges than the graph can
    /// index.
    pub fn from_nodes(nodes: Vec<BuckalNode>) -> (r: Option<BuckalResolve>)
        ensures
            nodes@.len() < DAG_LIMIT && declared_count(nodes@, nodes@.len() as int) < DAG_LIMIT ==> r is Some,
            r matches Some(g) ==> g.wf() && g.nodes@ == nodes@,
            r matches Some(g) ==> forall|a: int, b: int|
                0 <= a < nodes@.len() && 0 <= b < nodes@.len() && declares(nodes@[a], nodes@[b])
                    && is_first_with_id(nodes@, b) ==> #[trigger] g.linked(a, b),
    {
        if nodes.len() >= DAG_LIMIT {
            return None;
        }
        let mut dag = dag_new();
        let mut i: usize = 0;
        while i < nodes.len()
            invariant
                i <= nodes@.len() < DAG_LIMIT,
                dag_size(dag) == i,
                dag_edges(dag).len() == 0,
            decreases nodes.len() - i,
        {
            dag_add_node(&mut dag);
            i = i + 1;
        }
        let ghost orig = nodes@;
        let mut g = BuckalResolve { dag, nodes };
        let ghost ns = g.nodes@;
        proof {
            assert(ns == orig);
        }
        let mut a: usize = 0;
        while a < g.nodes.len()
            invariant
                g.wf(),
                g.nodes@ == ns,
                ns == orig,
                orig == nodes@,
                a <= ns.len(),
                dag_edges(g.dag).len() <= declared_count(ns, a as int),
                forall|x: int, k: int, b: int|
                    0 <= x < a && 0 <= k < ns[x].dep_ids@.len() && 0 <= b < ns.len() && is_first_with_id(ns, b)
                        && ns[b].package_id@ == (#[trigger] ns[x].dep_ids@[k])@ ==> #[trigger] g.linked(x, b),
            decreases ns.len() - a,
        {
            let mut k: usize = 0;
            let ghost base = dag_edges(g.dag).len();
            while k < g.nodes[a].dep_ids.len()
                invariant
                    g.wf(),
                    g.nodes@ == ns,
                    ns == orig,
                    orig == nodes@,
                    a < ns.len(),
                    k <= ns[a as int].dep_ids@.len(),
                    base <= declared_count(ns, a as int),
                    dag_edges(g.dag).len() <= base + k,
                    forall|x: int, kk: int, b: int|
                        0 <= x <= a && 0 <= kk < ns[x].dep_ids@.len() && (x < a || kk < k) && 0 <= b < ns.len()
                            && is_first_with_id(ns, b) && ns[b].package_id@ == (#[trigger] ns[x].dep_ids@[kk])@
                            ==> #[trigger] g.linked(x, b),
                decreases ns[a as int].dep_ids@.len() - k,
            {
                if dag_edges_len(&g.dag) >= DAG_LIMIT {
                    proof {
                        lemma_declared_count_monotone(ns, a + 1, ns.len() as int);
                        assert(dag_edges(g.dag).len() < base + ns[a as int].dep_ids@.len());
                        assert(declared_count(ns, a + 1) == declared_count(ns, a as int) + ns[a as int].dep_ids@.len());
                    }
                    return None;
                }
                let ghost before_all = g.dag;
                let target = find_node(&g.nodes, g.nodes[a].dep_ids[k].as_str());
                if let Some(b) = target {
                    let ghost before = g.dag;
                    proof {
                        assert(strings_view(ns[a as int].dep_ids@)[k as int] == ns[b as int].package_id@);
                    }
                    let added = dag_add_edge(&mut g.dag, a as u32, b as u32);
                    proof {
                        assert(strings_view(ns[a as int].dep_ids@).contains(ns[b as int].package_id@));
                        assert(declares(ns[a as int], ns[b as int]));
                        assert forall|q: int| 0 <= q < dag_edges(g.dag).len() implies edge_ok(ns, #[trigger] dag_edges(g.dag)[q]) by {
                            if q < dag_edges(before).len() {
                                assert(dag_edges(g.dag)[q] == dag_edges(before)[q]);
                            } else {
                                assert(dag_edges(g.dag)[q] == (a as nat, b as nat));
                            }
                        }
                    }
                }
                proof {
                    let old_g = BuckalResolve { dag: before_all, nodes: g.nodes };
                    assert forall|x: int, kk: int, c: int|
                        0 <= x <= a && 0 <= kk < ns[x].dep_ids@.len() && (x < a || kk < k + 1) && 0 <= c < ns.len()
                            && is_first_with_id(ns, c) && ns[c].package_id@ == (#[trigger] ns[x].dep_ids@[kk])@
                            implies #[trigger] g.linked(x, c) by {
                        if x < a || kk < k {
                            assert(old_g.linked(x, c));
                            if dag_edges(g.dag) != dag_edges(before_all) {
                                let e = (a as nat, target->Some_0 as nat);
                                assert(dag_edges(g.dag) == dag_edges(before_all).push(e));
                                if old_g.has_edge(x, c) {
                                    let q = choose|q: int| 0 <= q < dag_edges(before_all).len() && dag_edges(before_all)[q] == (x as nat, c as nat);
                                    assert(dag_edges(g.dag)[q] == (x as nat, c as nat));
                                } else {
                                    lemma_reaches_push(dag_edges(before_all), e, c as nat, x as nat);
                                }
                            }
                        } else {
                            assert(x == a && kk == k);
                            if let Some(b) = target {
                                if c != b {
                                    if c < b {
                                        assert(ns[c].package_id@ != ns[b as int].package_id@);
                                    } else {
                                        assert(ns[b as int].package_id@ != ns[c].package_id@);
                                    }
                                }
                                assert(c == b);
                                if dag_edges(g.dag) != dag_edges(before_all) {
                                    assert(dag_edges(g.dag).last() == (a as nat, b as nat));
                                    assert(g.has_edge(a as int, b as int));
                                }
                            } else {
                                assert(ns[c].package_id@ != ns[a as int].dep_ids@[k as int]@);
                            }
                        }
                    }
                }
                k = k + 1;
            }
            proof {
                assert(declared_count(ns, a + 1) == declared_count(ns, a as int) + ns[a as int].dep_ids@.len());
            }
            a = a + 1;
        }
        proof {
            assert forall|x: int, b: int|
                0 <= x < ns.len() && 0 <= b < ns.len() && declares(ns[x], ns[b]) && is_first_with_id(ns, b)
                    implies #[trigger] g.linked(x, b) by {
                let kk = choose|kk: int| 0 <= kk < strings_view(ns[x].dep_ids@).len() && strings_view(ns[x].dep_ids@)[kk] == ns[b].package_id@;
                assert(ns[b].package_id@ == ns[x].dep_ids@[kk]@);
            }
        }
        Some(g)
    }

    /// The node with identifier `id`, if any.
    pub fn get_node(&self, id: &str) -> (r: Option<&BuckalNode>)
        ensures
            match r {
                Some(n) => exists|i: int| 0 <= i < self.nodes@.len() && self.nodes@[i] == *n && n.package_id@ == id@,
                None => forall|i: int| 0 <= i < self.nodes@.len() ==> (#[trigger] self.nodes@[i]).package_id@ != id@,
            },
    {
        match find_node(&self.nodes, id) {
            Some(i) => Some(&self.nodes[i]),
            None => None,
        }
    }

    /// The nodes that depend on the node with identifier `id`, through an
    /// edge of the graph; none where there is no such node.
    pub fn dependents(&self, id: &str) -> (r: Vec<&BuckalNode>)
        requires
            self.wf(),
        ensures
            forall|i: int| 0 <= i < self.nodes@.len() && (#[trigger] self.nodes@[i]).package_id@ == id@
                && is_first_with_id(self.nodes@, i) ==> forall|k: int|
                0 <= k < r@.len() ==> #[trigger] self.points_to_neighbor(r@, k, i, true),
            forall|i: int, p: int| 0 <= i < self.nodes@.len() && is_first_with_id(self.nodes@, i) && (#[trigger] self.nodes@[i]).package_id@ == id@
                && 0 <= p < self.nodes@.len() && #[trigger] self.has_edge(p, i) ==> listed(r@, self.nodes@[p]),
            (forall|i: int| 0 <= i < self.nodes@.len() ==> (#[trigger] self.nodes@[i]).package_id@ != id@) ==> r@.len() == 0,
    {
        let i = match find_node(&self.nodes, id) {
            Some(i) => i,
            None => {
                return Vec::new();
            },
        };
        let parents = dag_parents(&self.dag, i as u32);
        proof {
            assert forall|j: int| 0 <= j < self.nodes@.len() && (#[trigger] self.nodes@[j]).package_id@ == id@ && is_first_with_id(self.nodes@, j) implies j == i by {
                if j < i {
                    assert(self.nodes@[j].package_id@ != self.nodes@[i as int].package_id@);
                } else if j > i {
                    assert(self.nodes@[i as int].package_id@ != self.nodes@[j].package_id@);
                }
            }
        }
        let r = self.nodes_at(&parents, i, true);
        proof {
            assert forall|p: int| 0 <= p < self.nodes@.len() && #[trigger] self.adjacent(i as int, p, true) implies listed(r@, self.nodes@[p]) by {}
            assert forall|p: int| 0 <= p < self.nodes@.len() && (self.has_edge(p, i as int)) implies listed(r@, self.nodes@[p]) by {
                assert(self.adjacent(i as int, p, true));
            }
        }
        r
    }

    /// The nodes that the node with identifier `id` depends on, through an
    /// edge of the graph; none where there is no such node.
    pub fn dependencies(&self, id: &str) -> (r: Vec<&BuckalNode>)
        requires
            self.wf(),
        ensures
            forall|i: int| 0 <= i < self.nodes@.len() && (#[trigger] self.nodes@[i]).package_id@ == id@
                && is_first_with_id(self.nodes@, i) ==> forall|k: int|
                0 <= k < r@.len() ==> #[trigger] self.points_to_neighbor(r@, k, i, false),
            forall|i: int, c: int| 0 <= i < self.nodes@.len() && is_first_with_id(self.nodes@, i) && (#[trigger] self.nodes@[i]).package_id@ == id@
                && 0 <= c < self.nodes@.len() && #[trigger] self.has_edge(i, c) ==> listed(r@, self.nodes@[c]),
            (forall|i: int| 0 <= i < self.nodes@.len() ==> (#[trigger] self.nodes@[i]).package_id@ != id@) ==> r@.len() == 0,
    {
        let i = match find_node(&self.nodes, id) {
            Some(i) => i,
            None => {
                return Vec::new();
            },
        };
        let children = dag_children(&self.dag, i as u32);
        proof {
            assert forall|j: int| 0 <= j < self.nodes@.len() && (#[trigger] self.nodes@[j]).package_id@ == id@ && is_first_with_id(self.nodes@, j) implies j == i by {
                if j < i {
                    assert(self.nodes@[j].package_id@ != self.nodes@[i as int].package_id@);
                } else if j > i {
                    assert(self.nodes@[i as int].package_id@ != self.nodes@[j].package_id@);
                }
            }
        }
        let r = self.nodes_at(&children, i, false);
        proof {
            assert forall|p: int| 0 <= p < self.nodes@.len() && #[trigger] self.adjacent(i as int, p, false) implies listed(r@, self.nodes@[p]) by {}
            assert forall|p: int| 0 <= p < self.nodes@.len() && (self.has_edge(i as int, p)) implies listed(r@, self.nodes@[p]) by {
                assert(self.adjacent(i as int, p, false));
            }
        }
        r
    }

    /// Whether `p` is a neighbour of `i`: a parent where `incoming` is set,
    /// else a child.
    pub open spec fn adjacent(&self, i: int, p: int, incoming: bool) -> bool {
        if incoming {
            self.has_edge(p, i)
        } else {
            self.has_edge(i, p)
        }
    }

    /// Whether the `k`-th reference of `r` points to a neighbour of `i`.
    pub open spec fn points_to_neighbor(&self, r: Seq<&BuckalNode>, k: int, i: int, incoming: bool) -> bool {
        exists|p: int| 0 <= p < self.nodes@.len() && self.adjacent(i, p, incoming) && r_at(r, k) == self.nodes@[p]
    }

    /// The nodes at the positions `ps`, which are the neighbours of `i`: its
    /// parents where `incoming` is set, else its children.
    fn nodes_at(&self, ps: &Vec<u32>, i: usize, incoming: bool) -> (r: Vec<&BuckalNode>)
        requires
            self.wf(),
            i < self.nodes@.len(),
            incoming ==> forall|x: u32| ps@.contains(x) <==> dag_edges(self.dag).contains((x as nat, i as nat)),
            !incoming ==> forall|x: u32| ps@.contains(x) <==> dag_edges(self.dag).contains((i as nat, x as nat)),
        ensures
            forall|k: int| 0 <= k < r@.len() ==> #[trigger] self.points_to_neighbor(r@, k, i as int, incoming),
            forall|p: int| 0 <= p < self.nodes@.len() && #[trigger] self.adjacent(i as int, p, incoming) ==> listed(r@, self.nodes@[p]),
    {
        let mut r: Vec<&BuckalNode> = Vec::new();
        let mut k: usize = 0;
        while k < ps.len()
            invariant
                self.wf(),
                i < self.nodes@.len(),
                k <= ps@.len(),
                r@.len() == k,
                incoming ==> forall|x: u32| ps@.contains(x) <==> dag_edges(self.dag).contains((x as nat, i as nat)),
                !incoming ==> forall|x: u32| ps@.contains(x) <==> dag_edges(self.dag).contains((i as nat, x as nat)),
                forall|q: int| 0 <= q < k ==> #[trigger] ps@[q] < self.nodes@.len(),
                forall|q: int| 0 <= q < k ==> r_at(r@, q) == self.nodes@[ps@[q] as int],
            decreases ps@.len() - k,
        {
            let p = ps[k];
            proof {
                assert(ps@[k as int] == p);
                assert(ps@.contains(p));
                let e = if incoming { (p as nat, i as nat) } else { (i as nat, p as nat) };
                assert(dag_edges(self.dag).contains(e));
                let q = choose|q: int| 0 <= q < dag_edges(self.dag).len() && dag_edges(self.dag)[q] == e;
                assert(edge_ok(self.nodes@, dag_edges(self.dag)[q]));
                assert(p < self.nodes@.len());
            }
            let ghost old_r = r@;
            let node_ref = &self.nodes[p as usize];
            assert(*node_ref == self.nodes@[p as int]);
            r.push(node_ref);
            proof {
                assert(r@[k as int] == node_ref);
                assert(*r@[k as int] == self.nodes@[p as int]);
                assert forall|q: int| 0 <= q < k + 1 implies r_at(r@, q) == self.nodes@[ps@[q] as int] by {
                    if q < k {
                        assert(r@[q] == old_r[q]);
                        assert(r_at(old_r, q) == self.nodes@[ps@[q] as int]);
                    } else {
                        assert(ps@[q] == p);
                    }
                }
            }
            k = k + 1;
        }
        proof {
            assert forall|q: int| 0 <= q < r@.len() implies #[trigger] self.points_to_neighbor(r@, q, i as int, incoming) by {
                let p = ps@[q];
                assert(ps@.contains(p));
                assert(self.adjacent(i as int, p as int, incoming));
                assert(r_at(r@, q) == self.nodes@[p as int]);
            }
            assert forall|p: int| 0 <= p < self.nodes@.len() && #[trigger] self.adjacent(i as int, p, incoming) implies listed(r@, self.nodes@[p]) by {
                let x = p as u32;
                assert(x as nat == p);
                assert(ps@.contains(x));
                let q = choose|q: int| 0 <= q < ps@.len() && ps@[q] == x;
                assert(r_at(r@, q) == self.nodes@[p]);
            }
        }
        r
    }

    /// The first node named `name`, of version `version` where one is given.
    pub fn find_by_name(&self, name: &str, version: Option<&str>) -> (r: Option<&BuckalNode>)
        ensures
            match r {
                Some(n) => exists|i: int| 0 <= i < self.nodes@.len() && self.nodes@[i] == *n && named(*n, name@, version),
                None => forall|i: int| 0 <= i < self.nodes@.len() ==> !named(#[trigger] self.nodes@[i], name@, version),
            },
    {
        let mut i: usize = 0;
        while i < self.nodes.len()
            invariant
                i <= self.nodes@.len(),
                forall|k: int| 0 <= k < i ==> !named(#[trigger] self.nodes@[k], name@, version),
            decreases self.nodes.len() - i,
        {
            let n = &self.nodes[i];
            let version_ok = match version {
                Some(v) => str_eq(n.version.as_str(), v),
                None => true,
            };
            if str_eq(n.name.as_str(), name) && version_ok {
                return Some(n);
            }
            i = i + 1;
        }
        None
    }

    /// All nodes, in the order in which they were given.
    pub fn nodes(&self) -> (r: &Vec<BuckalNode>)
        ensures
            r@ == self.nodes@,
    {
        &self.nodes
    }

    /// The snapshot of the graph: each node's identifier and fingerprint.
    pub fn snapshot(&self) -> (r: Vec<SnapshotEntry>)
        requires
            forall|i: int| 0 <= i < self.nodes@.len() ==> (#[trigger] self.nodes@[i]).encodable(),
        ensures
            r@.len() == self.nodes@.len(),
            forall|i: int| 0 <= i < r@.len() ==> (#[trigger] r@[i]).id@ == self.nodes@[i].package_id@
                && r@[i].fingerprint@ == crate::cache::blake3_digest(self.nodes@[i].encoding()),
    {
        let mut r: Vec<SnapshotEntry> = Vec::new();
        let mut i: usize = 0;
        while i < self.nodes.len()
            invariant
                i <= self.nodes@.len(),
                r@.len() == i,
                forall|k: int| 0 <= k < self.nodes@.len() ==> (#[trigger] self.nodes@[k]).encodable(),
                forall|k: int| 0 <= k < i ==> (#[trigger] r@[k]).id@ == self.nodes@[k].package_id@
                    && r@[k].fingerprint@ == crate::cache::blake3_digest(self.nodes@[k].encoding()),
            decreases self.nodes.len() - i,
        {
            let n = &self.nodes[i];
            r.push(SnapshotEntry { id: n.package_id.clone(), fingerprint: n.fingerprint() });
            i = i + 1;
        }
        r
    }
}

/// Whether one of the references of `r` points to `n`.
pub open spec fn listed(r: Seq<&BuckalNode>, n: BuckalNode) -> bool {
    exists|k: int| 0 <= k < r.len() && r_at(r, k) == n
}

/// The node that the `q`-th reference of `r` points to.
pub open spec fn r_at(r: Seq<&BuckalNode>, q: int) -> BuckalNode {
    *r[q]
}

/// Whether node `n` is named `name`, and has version `version` where one is given.
pub open spec fn named(n: BuckalNode, name: Seq<char>, version: Option<&str>) -> bool {
    n.name@ == name && match version {
        Some(v) => n.version@ == v@,
        None => true,
    }
}

/// Whether no node before position `i` has the identifier of the node at `i`.
pub open spec fn is_first_with_id(nodes: Seq<BuckalNode>, i: int) -> bool {
    forall|k: int| 0 <= k < i ==> (#[trigger] nodes[k]).package_id@ != nodes[i].package_id@
}

/// The position of the first node with identifier `id`.
fn find_node(nodes: &Vec<BuckalNode>, id: &str) -> (r: Option<usize>)
    ensures
        match r {
            Some(i) => i < nodes@.len() && nodes@[i as int].package_id@ == id@ && is_first_with_id(nodes@, i as int),
            None => forall|k: int| 0 <= k < nodes@.len() ==> (#[trigger] nodes@[k]).package_id@ != id@,
        },
{
    let mut i: usize = 0;
    while i < nodes.len()
        invariant
            i <= nodes@.len(),
            forall|k: int| 0 <= k < i ==> (#[trigger] nodes@[k]).package_id@ != id@,
        decreases nodes.len() - i,
    {
        if str_eq(nodes[i].package_id.as_str(), id) {
            return Some(i);
        }
        i = i + 1;
    }
    None
}

/// Relies on `daggy::Dag::edge_count`: the number of edges of `d`.
#[verifier::external_body]
fn dag_edges_len(d: &DagStore) -> (r: usize)
    ensures
        r == dag_edges(*d).len(),
{
    d.dag.edge_count()
}

} // verus!
