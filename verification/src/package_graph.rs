//! Directed graphs of named packages, held by `petgraph`.

use petgraph::graph::{DiGraph, NodeIndex};
use petgraph::visit::{Dfs, Reversed, Walker};
use vstd::prelude::*;

verus! {

/// `petgraph::graph::Graph`, carried as an opaque value.
#[verifier::external_type_specification]
#[verifier::external_body]
#[verifier::reject_recursive_types(N)]
#[verifier::reject_recursive_types(E)]
#[verifier::reject_recursive_types(Ty)]
#[verifier::reject_recursive_types(Ix)]
pub struct ExGraph<N, E, Ty, Ix>(petgraph::graph::Graph<N, E, Ty, Ix>);

/// `petgraph::Directed`, the marker of a directed graph.
#[verifier::external_type_specification]
#[verifier::external_body]
pub struct ExDirected(petgraph::Directed);

/// The node weights of a graph, by node index.
pub uninterp spec fn graph_names(g: DiGraph<String, ()>) -> Seq<Seq<char>>;

/// The edges of a graph as pairs of source and target index, by edge index.
pub uninterp spec fn graph_edges(g: DiGraph<String, ()>) -> Seq<(int, int)>;

/// The members of `v` as integers.
pub open spec fn as_ints(v: Seq<usize>) -> Seq<int> {
    Seq::new(v.len(), |i: int| v[i] as int)
}

/// Member `k` of `path` has an edge to the next one.
pub open spec fn has_step(edges: Seq<(int, int)>, path: Seq<int>, k: int) -> bool {
    edges.contains((path[k], path[k + 1]))
}

/// Each member of `path` has an edge to the next one.
pub open spec fn is_walk(edges: Seq<(int, int)>, path: Seq<int>) -> bool {
    forall|k: int| 0 <= k < path.len() - 1 ==> #[trigger] has_step(edges, path, k)
}

/// A walk of any length, also of none, leads from `a` to `b`.
pub open spec fn reaches(edges: Seq<(int, int)>, a: int, b: int) -> bool {
    exists|path: Seq<int>|
        path.len() > 0 && path[0] == a && path.last() == b && #[trigger] is_walk(edges, path)
}

/// A walk over at least one edge leads from `a` back to `a`.
pub open spec fn on_cycle(edges: Seq<(int, int)>, a: int) -> bool {
    exists|path: Seq<int>|
        path.len() > 1 && path[0] == a && path.last() == a && #[trigger] is_walk(edges, path)
}

/// Every edge joins two of the first `n` nodes.
pub open spec fn edges_inside(edges: Seq<(int, int)>, n: nat) -> bool {
    forall|k: int|
        0 <= k < edges.len() ==> 0 <= (#[trigger] edges[k]).0 < n && 0 <= edges[k].1 < n
}

/// `order` holds each of the first `n` nodes once.
pub open spec fn is_ordering(order: Seq<int>, n: nat) -> bool {
    &&& order.len() == n
    &&& forall|k: int| 0 <= k < order.len() ==> 0 <= #[trigger] order[k] < n
    &&& forall|i: int, j: int|
        0 <= i < j < order.len() ==> #[trigger] order[i] != #[trigger] order[j]
    &&& forall|x: int| 0 <= x < n ==> #[trigger] order.contains(x)
}

/// The source of every edge stands before its target.
pub open spec fn sources_first(order: Seq<int>, edges: Seq<(int, int)>) -> bool {
    forall|i: int, j: int|
        0 <= i < order.len() && 0 <= j < order.len() && edges.contains(
            (#[trigger] order[i], #[trigger] order[j]),
        ) ==> i < j
}

/// The targets of the edges that leave `a`, each as often as an edge leads to it.
pub open spec fn targets_from(edges: Seq<(int, int)>, a: int) -> Seq<int>
    decreases edges.len(),
{
    if edges.len() == 0 {
        Seq::empty()
    } else {
        let rest = targets_from(edges.drop_last(), a);
        if edges.last().0 == a {
            seq![edges.last().1] + rest
        } else {
            rest
        }
    }
}

/// How many of the first `i` nodes are kept: the index that node `i` gets when it is kept.
pub open spec fn kept_before(keep: Seq<bool>, i: int) -> int
    decreases i,
{
    if i <= 0 {
        0
    } else if keep[i - 1] {
        kept_before(keep, i - 1) + 1
    } else {
        kept_before(keep, i - 1)
    }
}

/// The names of the kept nodes among the first `n`, in their order.
pub open spec fn kept_names(names: Seq<Seq<char>>, keep: Seq<bool>, n: int) -> Seq<Seq<char>>
    decreases n,
{
    if n <= 0 {
        Seq::empty()
    } else if keep[n - 1] {
        kept_names(names, keep, n - 1).push(names[n - 1])
    } else {
        kept_names(names, keep, n - 1)
    }
}

/// The edges between kept nodes, in their order, over the indices the nodes get.
pub open spec fn kept_edges(edges: Seq<(int, int)>, keep: Seq<bool>) -> Seq<(int, int)>
    decreases edges.len(),
{
    if edges.len() == 0 {
        Seq::empty()
    } else {
        let rest = kept_edges(edges.drop_last(), keep);
        let (a, b) = edges.last();
        if keep[a] && keep[b] {
            rest.push((kept_before(keep, a), kept_before(keep, b)))
        } else {
            rest
        }
    }
}

/// `petgraph::Graph::new`: a graph without nodes and edges.
#[verifier::external_body]
pub(crate) fn new_graph() -> (g: DiGraph<String, ()>)
    ensures
        graph_names(g) == Seq::<Seq<char>>::empty(),
        graph_edges(g) == Seq::<(int, int)>::empty(),
{
    DiGraph::new()
}

/// `petgraph::Graph::add_node`: appends a node and returns its index.
#[verifier::external_body]
pub(crate) fn add_node(g: &mut DiGraph<String, ()>, name: String) -> (i: usize)
    requires
        graph_names(*old(g)).len() < u32::MAX,
    ensures
        i == graph_names(*old(g)).len(),
        graph_names(*final(g)) == graph_names(*old(g)).push(name@),
        graph_edges(*final(g)) == graph_edges(*old(g)),
{
    g.add_node(name).index()
}

/// `petgraph::Graph::add_edge`: appends an edge between two nodes of the graph, also where
/// there is one already.
#[verifier::external_body]
pub(crate) fn add_edge(g: &mut DiGraph<String, ()>, source: usize, target: usize)
    requires
        source < graph_names(*old(g)).len(),
        target < graph_names(*old(g)).len(),
        graph_edges(*old(g)).len() < u32::MAX,
    ensures
        graph_names(*final(g)) == graph_names(*old(g)),
        graph_edges(*final(g)) == graph_edges(*old(g)).push((source as int, target as int)),
{
    g.add_edge(NodeIndex::new(source), NodeIndex::new(target), ());
}

/// `petgraph::Graph::node_count`.
#[verifier::external_body]
pub(crate) fn node_count(g: &DiGraph<String, ()>) -> (n: usize)
    ensures
        n == graph_names(*g).len(),
{
    g.node_count()
}

/// `petgraph::Graph::node_weight`: the name of a node of the graph.
#[verifier::external_body]
pub(crate) fn node_name(g: &DiGraph<String, ()>, i: usize) -> (name: Option<String>)
    requires
        i < graph_names(*g).len(),
    ensures
        name is Some,
        name->0@ == graph_names(*g)[i as int],
{
    g.node_weight(NodeIndex::new(i)).cloned()
}

/// `petgraph::Graph::neighbors`: the targets of the edges that leave a node of the graph, each as
/// often as an edge leads to it; each is a node of the graph. Their order, which rests on how the
/// graph came about, is not stated.
#[verifier::external_body]
pub(crate) fn neighbors(g: &DiGraph<String, ()>, i: usize) -> (r: Vec<usize>)
    requires
        i < graph_names(*g).len(),
    ensures
        as_ints(r@).to_multiset() == targets_from(graph_edges(*g), i as int).to_multiset(),
        forall|k: int| 0 <= k < r@.len() ==> (#[trigger] r@[k]) < graph_names(*g).len(),
{
    g.neighbors(NodeIndex::new(i)).map(|n| n.index()).collect()
}

/// `petgraph::visit::Dfs` over the graph: the nodes that can be reached from `start`, each
/// once. Their order is not stated.
#[verifier::external_body]
pub(crate) fn reachable_from(g: &DiGraph<String, ()>, start: usize) -> (r: Vec<usize>)
    requires
        start < graph_names(*g).len(),
    ensures
        r@.no_duplicates(),
        forall|k: int| 0 <= k < r@.len() ==> (#[trigger] r@[k]) < graph_names(*g).len(),
        forall|b: usize| #[trigger]
            r@.contains(b) <==> reaches(graph_edges(*g), start as int, b as int),
{
    Dfs::new(g, NodeIndex::new(start)).iter(g).map(|n| n.index()).collect()
}

/// `petgraph::visit::Dfs` over `petgraph::visit::Reversed`: the nodes from which `goal` can
/// be reached, each once. Their order is not stated.
#[verifier::external_body]
pub(crate) fn reaching(g: &DiGraph<String, ()>, goal: usize) -> (r: Vec<usize>)
    requires
        goal < graph_names(*g).len(),
    ensures
        r@.no_duplicates(),
        forall|k: int| 0 <= k < r@.len() ==> (#[trigger] r@[k]) < graph_names(*g).len(),
        forall|a: usize| #[trigger]
            r@.contains(a) <==> reaches(graph_edges(*g), a as int, goal as int),
{
    Dfs::new(Reversed(g), NodeIndex::new(goal)).iter(Reversed(g)).map(|n| n.index()).collect()
}

/// The name of node `i`, where it is to be kept.
pub fn kept_name(keep: &Vec<bool>, i: usize, name: &String) -> (r: Option<String>)
    ensures
        r is Some <==> i < keep@.len() && keep@[i as int],
        r is Some ==> r->0@ == name@,
{
    if i < keep.len() && keep[i] {
        Some(name.clone())
    } else {
        None
    }
}

/// The weight of an edge, which is kept with its ends.
pub fn kept_weight(weight: &()) -> (r: Option<()>)
    ensures
        r == Some(*weight),
{
    Some(*weight)
}

/// `petgraph::Graph::filter_map`: the kept nodes in their order, and the edges between them
/// in theirs.
#[verifier::external_body]
pub(crate) fn keep_nodes(g: &DiGraph<String, ()>, keep: &Vec<bool>) -> (r: DiGraph<String, ()>)
    requires
        keep@.len() == graph_names(*g).len(),
    ensures
        graph_names(r) == kept_names(graph_names(*g), keep@, keep@.len() as int),
        graph_edges(r) == kept_edges(graph_edges(*g), keep@),
{
    g.filter_map(|i, name| kept_name(keep, i.index(), name), |_, weight| kept_weight(weight))
}

/// `petgraph::algo::toposort`: every node once, the source of each edge before its target; or a
/// node on a cycle. Which of several such orders it is, which rests on how the graph came about,
/// is not stated.
#[verifier::external_body]
pub(crate) fn toposort(g: &DiGraph<String, ()>) -> (r: Result<Vec<usize>, usize>)
    ensures
        match r {
            Ok(order) => {
                &&& is_ordering(as_ints(order@), graph_names(*g).len())
                &&& sources_first(as_ints(order@), graph_edges(*g))
            },
            Err(node) => node < graph_names(*g).len() && on_cycle(graph_edges(*g), node as int),
        },
{
    match petgraph::algo::toposort(g, None) {
        Ok(order) => Ok(order.into_iter().map(|n| n.index()).collect()),
        Err(cycle) => Err(cycle.node_id().index()),
    }
}

proof fn lemma_walk_climbs(
    order: Seq<int>,
    n: nat,
    edges: Seq<(int, int)>,
    path: Seq<int>,
    k: int,
)
    requires
        is_ordering(order, n),
        sources_first(order, edges),
        edges_inside(edges, n),
        is_walk(edges, path),
        0 <= k < path.len(),
        path.len() > 1,
    ensures
        0 <= path[k] < n,
        order.index_of(path[k]) >= order.index_of(path[0]) + k,
    decreases k,
{
    let m = if k == 0 {
        0
    } else {
        k - 1
    };
    assert(has_step(edges, path, m));
    let e = choose|e: int| 0 <= e < edges.len() && edges[e] == (path[m], path[m + 1]);
    assert(0 <= edges[e].0 < n && 0 <= edges[e].1 < n);
    if k > 0 {
        lemma_walk_climbs(order, n, edges, path, k - 1);
        assert(order.contains(path[k - 1]) && order.contains(path[k]));
        let i = order.index_of(path[k - 1]);
        let j = order.index_of(path[k]);
        assert(edges.contains((order[i], order[j])));
    }
}

/// A graph whose nodes can be listed with every source before its targets has no cycle.
pub proof fn law_ordered_graph_has_no_cycle(order: Seq<int>, n: nat, edges: Seq<(int, int)>)
    requires
        is_ordering(order, n),
        sources_first(order, edges),
        edges_inside(edges, n),
    ensures
        forall|a: int| !on_cycle(edges, a),
{
    assert forall|a: int| !on_cycle(edges, a) by {
        if on_cycle(edges, a) {
            let path = choose|path: Seq<int>|
                path.len() > 1 && path[0] == a && path.last() == a && #[trigger] is_walk(
                    edges,
                    path,
                );
            lemma_walk_climbs(order, n, edges, path, path.len() - 1);
        }
    }
}

/// A kept node is found under its name at its new index.
pub proof fn lemma_kept_index(names: Seq<Seq<char>>, keep: Seq<bool>, i: int, n: int)
    requires
        0 <= i < n,
        keep[i],
    ensures
        0 <= kept_before(keep, i) < kept_names(names, keep, n).len(),
        kept_names(names, keep, n)[kept_before(keep, i)] == names[i],
    decreases n,
{
    lemma_kept_count(names, keep, n - 1);
    if i < n - 1 {
        lemma_kept_index(names, keep, i, n - 1);
    }
}

proof fn lemma_kept_count(names: Seq<Seq<char>>, keep: Seq<bool>, n: int)
    requires
        0 <= n,
    ensures
        kept_names(names, keep, n).len() == kept_before(keep, n),
        kept_before(keep, n) >= 0,
    decreases n,
{
    if n > 0 {
        lemma_kept_count(names, keep, n - 1);
    }
}

/// Every index among the kept nodes is that of some kept node.
pub proof fn lemma_kept_origin(names: Seq<Seq<char>>, keep: Seq<bool>, x: int, n: int) -> (i: int)
    requires
        0 <= x < kept_names(names, keep, n).len(),
    ensures
        0 <= i < n,
        keep[i],
        kept_before(keep, i) == x,
    decreases n,
{
    if n <= 0 {
        0
    } else {
        lemma_kept_count(names, keep, n - 1);
        if keep[n - 1] && kept_before(keep, n - 1) == x {
            n - 1
        } else {
            lemma_kept_origin(names, keep, x, n - 1)
        }
    }
}

/// An edge between kept nodes is kept.
pub proof fn lemma_kept_edge(edges: Seq<(int, int)>, keep: Seq<bool>, a: int, b: int)
    requires
        edges.contains((a, b)),
        keep[a],
        keep[b],
    ensures
        kept_edges(edges, keep).contains((kept_before(keep, a), kept_before(keep, b))),
    decreases edges.len(),
{
    let link = (kept_before(keep, a), kept_before(keep, b));
    let all = kept_edges(edges, keep);
    let rest = kept_edges(edges.drop_last(), keep);
    if edges.last() == (a, b) {
        assert(all.last() == link);
    } else {
        let e = choose|e: int| 0 <= e < edges.len() && edges[e] == (a, b);
        assert(edges.drop_last()[e] == (a, b));
        lemma_kept_edge(edges.drop_last(), keep, a, b);
        let f = choose|f: int| 0 <= f < rest.len() && rest[f] == link;
        assert(all[f] == link);
    }
}

/// The kept edges join kept nodes.
pub proof fn lemma_kept_edges_inside(
    names: Seq<Seq<char>>,
    edges: Seq<(int, int)>,
    keep: Seq<bool>,
)
    requires
        edges_inside(edges, names.len()),
        keep.len() == names.len(),
    ensures
        edges_inside(
            kept_edges(edges, keep),
            kept_names(names, keep, keep.len() as int).len(),
        ),
    decreases edges.len(),
{
    if edges.len() > 0 {
        let before = edges.drop_last();
        assert forall|k: int| 0 <= k < before.len() implies 0 <= (#[trigger] before[k]).0
            < names.len() && 0 <= before[k].1 < names.len() by {
            assert(before[k] == edges[k]);
        }
        lemma_kept_edges_inside(names, before, keep);
        let (a, b) = edges.last();
        assert(0 <= edges[edges.len() - 1].0 < names.len());
        if keep[a] && keep[b] {
            lemma_kept_index(names, keep, a, keep.len() as int);
            lemma_kept_index(names, keep, b, keep.len() as int);
        }
    }
}

} // verus!
