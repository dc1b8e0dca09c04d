//! Layers of a task graph: the tasks without prerequisites first, then the
//! tasks whose prerequisites all lie in earlier layers, and so on. Tasks of
//! one layer can run side by side.

use vstd::prelude::*;
use std::collections::hash_map::RandomState;
use petgraph::graphmap::GraphMap;
use petgraph::Directed;

verus! {

#[verifier::external_type_specification]
#[verifier::external_body]
#[verifier::reject_recursive_types(N)]
#[verifier::reject_recursive_types(E)]
#[verifier::reject_recursive_types(Ty)]
#[verifier::reject_recursive_types(S)]
pub struct ExGraphMap<N, E, Ty, S: std::hash::BuildHasher>(GraphMap<N, E, Ty, S>);

#[verifier::external_type_specification]
#[verifier::external_body]
pub struct ExDirected(Directed);

/// A directed graph of tasks, each task named by a number.
pub type TaskGraph = GraphMap<u64, (), Directed, RandomState>;

/// The nodes of the graph, in the order the graph keeps them.
pub uninterp spec fn graph_nodes(g: GraphMap<u64, (), Directed, RandomState>) -> Seq<u64>;

/// The edges of the graph, as (source, target) pairs.
pub uninterp spec fn graph_edges(g: GraphMap<u64, (), Directed, RandomState>) -> Set<(u64, u64)>;

/// Calls `GraphMap::nodes` and collects the nodes. Claimed: they are the
/// graph's nodes in its order, without repetition, and every endpoint of an
/// edge is among them.
#[verifier::external_body]
fn nodes_of(g: &TaskGraph) -> (r: Vec<u64>)
    ensures
        r@ == graph_nodes(*g),
        r@.no_duplicates(),
        forall|a: u64, b: u64| #[trigger] graph_edges(*g).contains((a, b)) ==> r@.contains(a) && r@.contains(b),
{
    g.nodes().collect()
}

/// Calls `GraphMap::neighbors_directed` with `Outgoing` and collects the
/// result. Claimed: the targets of the edges leaving `n`, each once.
#[verifier::external_body]
fn successors(g: &TaskGraph, n: u64) -> (r: Vec<u64>)
    ensures
        r@.no_duplicates(),
        forall|m: u64| r@.contains(m) <==> #[trigger] graph_edges(*g).contains((n, m)),
{
    g.neighbors_directed(n, petgraph::Direction::Outgoing).collect()
}


/// The graph has no cycle: some ranking of the nodes grows along every edge.
pub open spec fn acyclic(edges: Set<(u64, u64)>) -> bool {
    exists|rank: spec_fn(u64) -> nat| #[trigger] ranks_edges(edges, rank)
}

/// `rank` grows along every edge.
pub open spec fn ranks_edges(edges: Set<(u64, u64)>, rank: spec_fn(u64) -> nat) -> bool {
    forall|a: u64, b: u64| #[trigger] edges.contains((a, b)) ==> rank(a) < rank(b)
}

/// `layers` is the layering of the graph with nodes `nodes` and edges
/// `edges`: every node lies in exactly one layer and no layer is empty; an
/// edge always leads to a later layer; every node past the first layer has
/// a prerequisite in the layer just before its own; and the nodes of a
/// layer come in the order of `nodes`.
pub open spec fn is_layering(nodes: Seq<u64>, edges: Set<(u64, u64)>, layers: Seq<Seq<u64>>) -> bool {
    &&& forall|k: int| 0 <= k < layers.len() ==> #[trigger] layers[k].len() > 0
    &&& forall|v: u64| nodes.contains(v) <==> exists|k: int| 0 <= k < layers.len() && #[trigger] layers[k].contains(v)
    &&& forall|k1: int, k2: int, v: u64|
        0 <= k1 < layers.len() && 0 <= k2 < layers.len() && #[trigger] layers[k1].contains(v)
            && #[trigger] layers[k2].contains(v) ==> k1 == k2
    &&& forall|k1: int, k2: int, a: u64, b: u64|
        0 <= k1 < layers.len() && 0 <= k2 < layers.len() && #[trigger] edges.contains((a, b))
            && #[trigger] layers[k1].contains(a) && #[trigger] layers[k2].contains(b) ==> k1 < k2
    &&& forall|k: int, v: u64| 0 < k < layers.len() && #[trigger] layers[k].contains(v) ==>
        exists|a: u64| #[trigger] edges.contains((a, v)) && layers[k - 1].contains(a)
    &&& forall|k: int| 0 <= k < layers.len() ==> ordered_like(nodes, #[trigger] layers[k])
}

/// The position of `v` in `ns`.
pub open spec fn index_in(ns: Seq<u64>, v: u64) -> int {
    choose|p: int| 0 <= p < ns.len() && ns[p] == v
}

/// The elements of `s` occur in `ns` in the same order.
pub open spec fn ordered_like(ns: Seq<u64>, s: Seq<u64>) -> bool {
    forall|x: int, y: int| 0 <= x < y < s.len() ==> index_in(ns, #[trigger] s[x]) < index_in(ns, #[trigger] s[y])
}

proof fn lemma_index_in(ns: Seq<u64>, p: int)
    requires
        ns.no_duplicates(),
        0 <= p < ns.len(),
    ensures
        index_in(ns, ns[p]) == p,
{
    let q = index_in(ns, ns[p]);
    assert(0 <= q < ns.len() && ns[q] == ns[p]);
}

/// The number of nodes before `upto` that are still remaining and lead to node `t`.
pub open spec fn remaining_preds(ns: Seq<u64>, edges: Set<(u64, u64)>, rem: Seq<bool>, t: int, upto: int) -> nat
    decreases upto,
{
    if upto <= 0 {
        0
    } else {
        remaining_preds(ns, edges, rem, t, upto - 1)
            + if rem[upto - 1] && edges.contains((ns[upto - 1], ns[t])) { 1nat } else { 0nat }
    }
}

/// The nodes before `upto` placed in layer `k`, in order.
pub open spec fn members(ns: Seq<u64>, lay: Map<int, int>, k: int, upto: int) -> Seq<u64>
    decreases upto,
{
    if upto <= 0 {
        Seq::empty()
    } else {
        let before = members(ns, lay, k, upto - 1);
        if lay.contains_key(upto - 1) && lay[upto - 1] == k { before.push(ns[upto - 1]) } else { before }
    }
}

proof fn lemma_remaining_preds_zero(ns: Seq<u64>, edges: Set<(u64, u64)>, rem: Seq<bool>, t: int, upto: int)
    requires
        0 <= upto <= rem.len(),
        upto <= ns.len(),
    ensures
        remaining_preds(ns, edges, rem, t, upto) == 0 <==>
            forall|j: int| 0 <= j < upto ==> !(rem[j] && #[trigger] edges.contains((ns[j], ns[t]))),
    decreases upto,
{
    if upto > 0 {
        lemma_remaining_preds_zero(ns, edges, rem, t, upto - 1);
    }
}

/// Clearing one remaining flag lowers the count of a node exactly where the
/// cleared node leads to it.
proof fn lemma_remaining_preds_clear(ns: Seq<u64>, edges: Set<(u64, u64)>, rem: Seq<bool>, z: int, t: int, upto: int)
    requires
        0 <= z < rem.len(),
        0 <= upto <= rem.len(),
    ensures
        remaining_preds(ns, edges, rem.update(z, false), t, upto) + (if z < upto && rem[z] && edges.contains((ns[z], ns[t])) { 1nat } else { 0nat })
            == remaining_preds(ns, edges, rem, t, upto),
    decreases upto,
{
    if upto > 0 {
        lemma_remaining_preds_clear(ns, edges, rem, z, t, upto - 1);
    }
}

proof fn lemma_members(ns: Seq<u64>, lay: Map<int, int>, k: int, upto: int)
    requires
        0 <= upto <= ns.len(),
        ns.no_duplicates(),
    ensures
        forall|v: u64| members(ns, lay, k, upto).contains(v) <==>
            exists|i: int| 0 <= i < upto && ns[i] == v && lay.contains_key(i) && lay[i] == k,
        ordered_like(ns, members(ns, lay, k, upto)),
        forall|x: int| 0 <= x < members(ns, lay, k, upto).len() ==>
            exists|p: int| 0 <= p < upto && ns[p] == #[trigger] members(ns, lay, k, upto)[x],
        members(ns, lay, k, upto).no_duplicates(),
    decreases upto,
{
    if upto > 0 {
        lemma_members(ns, lay, k, upto - 1);
        let before = members(ns, lay, k, upto - 1);
        let m = members(ns, lay, k, upto);
        if lay.contains_key(upto - 1) && lay[upto - 1] == k {
            assert(m == before.push(ns[upto - 1]));
            assert forall|v: u64| m.contains(v) <==>
                exists|i: int| 0 <= i < upto && ns[i] == v && lay.contains_key(i) && lay[i] == k by {
                if m.contains(v) {
                    let x = choose|x: int| 0 <= x < m.len() && m[x] == v;
                    if x < before.len() {
                        assert(before[x] == v);
                        assert(before.contains(v));
                    }
                }
                if exists|i: int| 0 <= i < upto && ns[i] == v && lay.contains_key(i) && lay[i] == k {
                    let i = choose|i: int| 0 <= i < upto && ns[i] == v && lay.contains_key(i) && lay[i] == k;
                    if i < upto - 1 {
                        assert(before.contains(v));
                        let x = choose|x: int| 0 <= x < before.len() && before[x] == v;
                        assert(m[x] == v);
                    } else {
                        assert(m[m.len() - 1] == v);
                    }
                }
            }
            assert forall|x: int, y: int| 0 <= x < y < m.len() implies
                index_in(ns, #[trigger] m[x]) < index_in(ns, #[trigger] m[y]) by {
                assert(m[x] == before[x]);
                let p = choose|p: int| 0 <= p < upto - 1 && ns[p] == #[trigger] before[x];
                lemma_index_in(ns, p);
                if y < before.len() {
                    assert(m[y] == before[y]);
                } else {
                    assert(ns[upto - 1] == m[y]);
                    lemma_index_in(ns, upto - 1);
                }
            }

            assert forall|x: int| 0 <= x < m.len() implies exists|p: int| 0 <= p < upto && ns[p] == #[trigger] m[x] by {
                if x < before.len() {
                    assert(m[x] == before[x]);
                    let p = choose|p: int| 0 <= p < upto - 1 && ns[p] == #[trigger] before[x];
                } else {
                    assert(ns[upto - 1] == m[x]);
                }
            }
            assert forall|x: int, y: int| #![trigger m[x], m[y]] 0 <= x < y < m.len() implies m[x] != m[y] by {
                if y < before.len() {
                    assert(m[x] == before[x] && m[y] == before[y]);
                } else {
                    assert(m[x] == before[x]);
                    let p = choose|p: int| 0 <= p < upto - 1 && ns[p] == #[trigger] before[x];
                    assert(ns[p] != ns[upto - 1]);
                }
            }
        } else {
            assert(m == before);
            assert forall|v: u64| m.contains(v) <==>
                exists|i: int| 0 <= i < upto && ns[i] == v && lay.contains_key(i) && lay[i] == k by {
                if exists|i: int| 0 <= i < upto && ns[i] == v && lay.contains_key(i) && lay[i] == k {
                    let i = choose|i: int| 0 <= i < upto && ns[i] == v && lay.contains_key(i) && lay[i] == k;
                    assert(i < upto - 1);
                }
            }
            assert(ordered_like(ns, m));
            assert forall|x: int| 0 <= x < members(ns, lay, k, upto).len() implies
                exists|p: int| 0 <= p < upto && ns[p] == #[trigger] members(ns, lay, k, upto)[x] by {
                assert(members(ns, lay, k, upto)[x] == before[x]);
                let p = choose|p: int| 0 <= p < upto - 1 && ns[p] == #[trigger] before[x];
                assert(0 <= p < upto && ns[p] == m[x]);
            }
        }
    } else {
        assert(members(ns, lay, k, upto).len() == 0);
    }
}


/// Members only depend on which nodes before `upto` lie in layer `k`.
proof fn lemma_members_agree(ns: Seq<u64>, l1: Map<int, int>, l2: Map<int, int>, k: int, upto: int)
    requires
        forall|j: int| 0 <= j < upto ==>
            ((l1.contains_key(j) && l1[j] == k) <==> (l2.contains_key(j) && l2[j] == k)),
    ensures
        members(ns, l1, k, upto) == members(ns, l2, k, upto),
    decreases upto,
{
    if upto > 0 {
        lemma_members_agree(ns, l1, l2, k, upto - 1);
    }
}

pub open spec fn count_true(rem: Seq<bool>, upto: int) -> nat
    decreases upto,
{
    if upto <= 0 {
        0
    } else {
        count_true(rem, upto - 1) + if rem[upto - 1] { 1nat } else { 0nat }
    }
}

proof fn lemma_count_true_clear(rem: Seq<bool>, z: int, upto: int)
    requires
        0 <= z < rem.len(),
        0 <= upto <= rem.len(),
    ensures
        count_true(rem.update(z, false), upto) + (if z < upto && rem[z] { 1nat } else { 0nat }) == count_true(rem, upto),
    decreases upto,
{
    if upto > 0 {
        lemma_count_true_clear(rem, z, upto - 1);
    }
}

proof fn lemma_count_true_zero(rem: Seq<bool>, upto: int)
    requires
        0 <= upto <= rem.len(),
    ensures
        count_true(rem, upto) == 0 <==> forall|j: int| 0 <= j < upto ==> !#[trigger] rem[j],
    decreases upto,
{
    if upto > 0 {
        lemma_count_true_zero(rem, upto - 1);
    }
}

proof fn lemma_remaining_preds_bound(ns: Seq<u64>, edges: Set<(u64, u64)>, rem: Seq<bool>, t: int, upto: int)
    requires
        0 <= upto,
    ensures
        remaining_preds(ns, edges, rem, t, upto) <= upto,
    decreases upto,
{
    if upto > 0 {
        lemma_remaining_preds_bound(ns, edges, rem, t, upto - 1);
    }
}

/// In a graph without cycles, some remaining node has no remaining prerequisite.
proof fn lemma_source_exists(ns: Seq<u64>, edges: Set<(u64, u64)>, rem: Seq<bool>, rank: spec_fn(u64) -> nat, i: int)
    requires
        ranks_edges(edges, rank),
        rem.len() == ns.len(),
        0 <= i < ns.len(),
        rem[i],
    ensures
        exists|z: int| 0 <= z < ns.len() && #[trigger] rem[z]
            && forall|j: int| 0 <= j < ns.len() ==> !(rem[j] && #[trigger] edges.contains((ns[j], ns[z]))),
    decreases rank(ns[i]),
{
    if exists|j: int| 0 <= j < ns.len() && rem[j] && #[trigger] edges.contains((ns[j], ns[i])) {
        let j = choose|j: int| 0 <= j < ns.len() && rem[j] && #[trigger] edges.contains((ns[j], ns[i]));
        assert(rank(ns[j]) < rank(ns[i]));
        lemma_source_exists(ns, edges, rem, rank, j);
    } else {
        assert(rem[i]);
    }
}

fn index_of_node(nodes: &Vec<u64>, v: u64) -> (r: usize)
    requires
        nodes@.contains(v),
    ensures
        r < nodes@.len(),
        nodes@[r as int] == v,
{
    let n = nodes.len();
    let mut i: usize = 0;
    while i < n
        invariant
            n == nodes@.len(),
            0 <= i <= n,
            forall|k: int| 0 <= k < i ==> nodes@[k] != v,
        decreases n - i,
    {
        if nodes[i] == v {
            return i;
        }
        i = i + 1;
    }
    proof {
        let k = choose|k: int| 0 <= k < nodes@.len() && nodes@[k] == v;
        assert(false);
    }
    0
}


/// For every node, the number of its prerequisites (all nodes are remaining).
#[verifier::spinoff_prover]
fn initial_indegrees(g: &TaskGraph, nodes: &Vec<u64>, rem: &Vec<bool>) -> (indeg: Vec<usize>)
    requires
        nodes@ == graph_nodes(*g),
        nodes@.no_duplicates(),
        forall|a: u64, b: u64| #[trigger] graph_edges(*g).contains((a, b)) ==> nodes@.contains(a) && nodes@.contains(b),
        rem@.len() == nodes@.len(),
        forall|i: int| 0 <= i < rem@.len() ==> #[trigger] rem@[i],
    ensures
        indeg@.len() == nodes@.len(),
        forall|i: int| 0 <= i < nodes@.len() ==>
            #[trigger] indeg@[i] == remaining_preds(nodes@, graph_edges(*g), rem@, i, nodes@.len() as int),
{
    let ghost ns = nodes@;
    let ghost edges = graph_edges(*g);
    let n = nodes.len();
    let mut indeg: Vec<usize> = Vec::new();
    let mut i: usize = 0;
    while i < n
        invariant
            0 <= i <= n,
            n == ns.len(),
            indeg@.len() == i,
            forall|k: int| 0 <= k < i ==> #[trigger] indeg@[k] == 0,
        decreases n - i,
    {
        indeg.push(0);
        i = i + 1;
    }
    let mut j: usize = 0;
    while j < n
        invariant
            0 <= j <= n,
            n == ns.len(),
            ns == nodes@,
            ns.no_duplicates(),
            edges == graph_edges(*g),
            forall|a: u64, b: u64| #[trigger] graph_edges(*g).contains((a, b)) ==> nodes@.contains(a) && nodes@.contains(b),
            rem@.len() == n,
            forall|k: int| 0 <= k < n ==> #[trigger] rem@[k],
            indeg@.len() == n,
            forall|k: int| 0 <= k < n ==> #[trigger] indeg@[k] == remaining_preds(ns, edges, rem@, k, j as int),
        decreases n - j,
    {
        let succ = successors(g, nodes[j]);
        let m = succ.len();
        let mut t: usize = 0;
        while t < m
            invariant
                0 <= t <= m,
                m == succ@.len(),
                succ@.no_duplicates(),
                forall|x: u64| succ@.contains(x) <==> #[trigger] graph_edges(*g).contains((ns[j as int], x)),
                0 <= j < n,
                n == ns.len(),
                ns == nodes@,
                ns.no_duplicates(),
                edges == graph_edges(*g),
                forall|a: u64, b: u64| #[trigger] graph_edges(*g).contains((a, b)) ==> nodes@.contains(a) && nodes@.contains(b),
                rem@.len() == n,
                forall|k: int| 0 <= k < n ==> #[trigger] rem@[k],
                indeg@.len() == n,
                forall|k: int| 0 <= k < n ==> #[trigger] indeg@[k] == remaining_preds(ns, edges, rem@, k, j as int)
                    + if succ@.take(t as int).contains(ns[k]) { 1nat } else { 0nat },
            decreases m - t,
        {
            let v = succ[t];
            assert(succ@.contains(v));
            assert(edges.contains((ns[j as int], v)));
            let idx = index_of_node(nodes, v);
            proof {
                lemma_remaining_preds_bound(ns, edges, rem@, idx as int, j as int);
                if succ@.take(t as int).contains(ns[idx as int]) {
                    let y = choose|y: int| 0 <= y < t && succ@.take(t as int)[y] == ns[idx as int];
                    assert(succ@[y] == succ@[t as int]);
                }
            }
            indeg.set(idx, indeg[idx] + 1);
            proof {
                assert forall|k: int| 0 <= k < n implies #[trigger] indeg@[k] == remaining_preds(ns, edges, rem@, k, j as int)
                    + if succ@.take(t + 1).contains(ns[k]) { 1nat } else { 0nat } by {
                    let before = succ@.take(t as int);
                    let after = succ@.take(t + 1);
                    assert(after =~= before.push(v));
                    if k == idx {
                        assert(after[t as int] == ns[k]);
                        assert(after.contains(ns[k]));
                    } else {
                        assert(ns[k] != v);
                        if after.contains(ns[k]) {
                            let y = choose|y: int| 0 <= y < after.len() && after[y] == ns[k];
                            assert(y < t);
                            assert(before[y] == ns[k]);
                        }
                        if before.contains(ns[k]) {
                            let y = choose|y: int| 0 <= y < before.len() && before[y] == ns[k];
                            assert(after[y] == ns[k]);
                        }
                    }
                }
            }
            t = t + 1;
        }
        proof {
            assert(succ@.take(m as int) == succ@);
            assert forall|k: int| 0 <= k < n implies #[trigger] indeg@[k] == remaining_preds(ns, edges, rem@, k, j + 1) by {
                assert(rem@[j as int]);
                if succ@.contains(ns[k]) {
                    assert(edges.contains((ns[j as int], ns[k])));
                } else {
                    assert(!edges.contains((ns[j as int], ns[k])));
                }
            }
        }
        j = j + 1;
    }
    indeg
}


/// The remaining nodes without remaining prerequisites.
pub open spec fn sources(rem: Seq<bool>, indeg: Seq<usize>, n: int) -> Set<int> {
    Set::new(|i: int| 0 <= i < n && rem[i] && indeg[i] == 0)
}

/// The layer map with the nodes of `zs` placed in layer `k`.
pub open spec fn add_layer(lay: Map<int, int>, zs: Set<int>, k: int) -> Map<int, int> {
    lay.union_prefer_right(Map::new(|i: int| zs.contains(i), |i: int| k))
}

fn collect_sources(
    nodes: &Vec<u64>,
    rem: &Vec<bool>,
    indeg: &Vec<usize>,
    Ghost(lay): Ghost<Map<int, int>>,
    k: usize,
) -> (r: (Vec<u64>, Vec<usize>))
    requires
        rem@.len() == nodes@.len(),
        indeg@.len() == nodes@.len(),
        forall|i: int| #[trigger] lay.contains_key(i) ==> lay[i] < k,
    ensures
        r.0@ == members(nodes@, add_layer(lay, sources(rem@, indeg@, nodes@.len() as int), k as int), k as int, nodes@.len() as int),
        forall|t: int| 0 <= t < r.1@.len() ==> sources(rem@, indeg@, nodes@.len() as int).contains(#[trigger] r.1@[t] as int),
        forall|i: int| #[trigger] sources(rem@, indeg@, nodes@.len() as int).contains(i) ==> r.1@.contains(i as usize),
        forall|t1: int, t2: int| 0 <= t1 < t2 < r.1@.len() ==> #[trigger] r.1@[t1] < #[trigger] r.1@[t2],
{
    let ghost ns = nodes@;
    let ghost n_int = nodes@.len() as int;
    let ghost zs = sources(rem@, indeg@, n_int);
    let ghost full = add_layer(lay, zs, k as int);
    let n = nodes.len();
    let mut zero: Vec<u64> = Vec::new();
    let mut zidx: Vec<usize> = Vec::new();
    let mut i: usize = 0;
    while i < n
        invariant
            0 <= i <= n,
            n == ns.len(),
            ns == nodes@,
            n_int == n,
            rem@.len() == n,
            indeg@.len() == n,
            zs == sources(rem@, indeg@, n_int),
            full == add_layer(lay, zs, k as int),
            forall|j: int| #[trigger] lay.contains_key(j) ==> lay[j] < k,
            zero@ == members(ns, full, k as int, i as int),
            forall|t: int| 0 <= t < zidx@.len() ==> zs.contains(#[trigger] zidx@[t] as int) && zidx@[t] < i,
            forall|j: int| 0 <= j < i && #[trigger] zs.contains(j) ==> zidx@.contains(j as usize),
            forall|t1: int, t2: int| 0 <= t1 < t2 < zidx@.len() ==> #[trigger] zidx@[t1] < #[trigger] zidx@[t2],
        decreases n - i,
    {
        if rem[i] && indeg[i] == 0 {
            assert(zs.contains(i as int));
            assert(full.contains_key(i as int) && full[i as int] == k);
            let ghost zb = zidx@;
            zero.push(nodes[i]);
            zidx.push(i);
            proof {
                assert(zidx@ == zb.push(i));
                assert forall|j: int| 0 <= j < i + 1 && #[trigger] zs.contains(j) implies zidx@.contains(j as usize) by {
                    if j == i {
                        assert(zidx@[zidx@.len() - 1] == i);
                    } else {
                        assert(zb.contains(j as usize));
                        let t = choose|t: int| 0 <= t < zb.len() && zb[t] == j as usize;
                        assert(zidx@[t] == j as usize);
                    }
                }
            }
        } else {
            assert(!zs.contains(i as int));
            assert(!(full.contains_key(i as int) && full[i as int] == k));
        }
        i = i + 1;
    }
    (zero, zidx)
}

#[verifier::spinoff_prover]
fn remove_sources(
    g: &TaskGraph,
    nodes: &Vec<u64>,
    rem: &mut Vec<bool>,
    indeg: &mut Vec<usize>,
    zidx: &Vec<usize>,
)
    requires
        nodes@ == graph_nodes(*g),
        nodes@.no_duplicates(),
        forall|a: u64, b: u64| #[trigger] graph_edges(*g).contains((a, b)) ==> nodes@.contains(a) && nodes@.contains(b),
        old(rem)@.len() == nodes@.len(),
        old(indeg)@.len() == nodes@.len(),
        forall|i: int| 0 <= i < nodes@.len() ==>
            #[trigger] old(indeg)@[i] == remaining_preds(nodes@, graph_edges(*g), old(rem)@, i, nodes@.len() as int),
        forall|t: int| 0 <= t < zidx@.len() ==> #[trigger] zidx@[t] < nodes@.len() && old(rem)@[zidx@[t] as int],
        forall|t1: int, t2: int| 0 <= t1 < t2 < zidx@.len() ==> #[trigger] zidx@[t1] < #[trigger] zidx@[t2],
    ensures
        final(rem)@.len() == nodes@.len(),
        final(indeg)@.len() == nodes@.len(),
        forall|i: int| 0 <= i < nodes@.len() ==>
            #[trigger] final(rem)@[i] == (old(rem)@[i] && !zidx@.contains(i as usize)),
        forall|i: int| 0 <= i < nodes@.len() ==>
            #[trigger] final(indeg)@[i] == remaining_preds(nodes@, graph_edges(*g), final(rem)@, i, nodes@.len() as int),
        count_true(final(rem)@, nodes@.len() as int) + zidx@.len() == count_true(old(rem)@, nodes@.len() as int),
{
    let ghost ns = nodes@;
    let ghost edges = graph_edges(*g);
    let n = nodes.len();
    let zn = zidx.len();
    let mut p: usize = 0;
    while p < zn
        invariant
            0 <= p <= zn,
            zn == zidx@.len(),
            n == ns.len(),
            ns == nodes@,
            ns.no_duplicates(),
            edges == graph_edges(*g),
            forall|a: u64, b: u64| #[trigger] graph_edges(*g).contains((a, b)) ==> nodes@.contains(a) && nodes@.contains(b),
            rem@.len() == n,
            indeg@.len() == n,
            forall|i: int| 0 <= i < n ==>
                #[trigger] rem@[i] == (old(rem)@[i] && !zidx@.take(p as int).contains(i as usize)),
            forall|i: int| 0 <= i < n ==> #[trigger] indeg@[i] == remaining_preds(ns, edges, rem@, i, n as int),
            forall|t: int| 0 <= t < zidx@.len() ==> #[trigger] zidx@[t] < n && old(rem)@[zidx@[t] as int],
            forall|t1: int, t2: int| 0 <= t1 < t2 < zidx@.len() ==> #[trigger] zidx@[t1] < #[trigger] zidx@[t2],
            count_true(rem@, n as int) + p == count_true(old(rem)@, n as int),
        decreases zn - p,
    {
        let z = zidx[p];
        let ghost rem_before = rem@;
        proof {
            assert(zidx@[p as int] == z);
            if zidx@.take(p as int).contains(z) {
                let y = choose|y: int| 0 <= y < p && zidx@.take(p as int)[y] == z;
                assert(zidx@[y] < zidx@[p as int]);
            }
            assert(rem@[z as int]);
            lemma_count_true_clear(rem@, z as int, n as int);
            assert forall|i: int| 0 <= i < n implies
                remaining_preds(ns, edges, rem@.update(z as int, false), i, n as int)
                    + (if edges.contains((ns[z as int], ns[i])) { 1nat } else { 0nat })
                    == remaining_preds(ns, edges, rem@, i, n as int) by {
                lemma_remaining_preds_clear(ns, edges, rem@, z as int, i, n as int);
            }
        }
        rem.set(z, false);
        proof {
            let before = zidx@.take(p as int);
            let after = zidx@.take(p + 1);
            assert(after =~= before.push(z));
            assert forall|i: int| 0 <= i < n implies
                #[trigger] rem@[i] == (old(rem)@[i] && !after.contains(i as usize)) by {
                if i == z {
                    assert(after[p as int] == z);
                } else {
                    if after.contains(i as usize) {
                        let y = choose|y: int| 0 <= y < after.len() && after[y] == i as usize;
                        assert(y < p);
                        assert(before[y] == i as usize);
                    }
                    if before.contains(i as usize) {
                        let y = choose|y: int| 0 <= y < before.len() && before[y] == i as usize;
                        assert(after[y] == i as usize);
                    }
                }
            }
        }
        let succ = successors(g, nodes[z]);
        let m = succ.len();
        let mut t: usize = 0;
        while t < m
            invariant
                0 <= t <= m,
                m == succ@.len(),
                succ@.no_duplicates(),
                forall|x: u64| succ@.contains(x) <==> #[trigger] graph_edges(*g).contains((ns[z as int], x)),
                z < n,
                n == ns.len(),
                ns == nodes@,
                ns.no_duplicates(),
                edges == graph_edges(*g),
                forall|a: u64, b: u64| #[trigger] graph_edges(*g).contains((a, b)) ==> nodes@.contains(a) && nodes@.contains(b),
                rem@.len() == n,
                indeg@.len() == n,
                forall|i: int| 0 <= i < n ==> #[trigger] indeg@[i] == remaining_preds(ns, edges, rem@, i, n as int)
                    + if edges.contains((ns[z as int], ns[i])) && !succ@.take(t as int).contains(ns[i]) { 1nat } else { 0nat },
            decreases m - t,
        {
            let v = succ[t];
            assert(succ@.contains(v));
            assert(edges.contains((ns[z as int], v)));
            let idx = index_of_node(nodes, v);
            proof {
                if succ@.take(t as int).contains(ns[idx as int]) {
                    let y = choose|y: int| 0 <= y < t && succ@.take(t as int)[y] == ns[idx as int];
                    assert(succ@[y] == succ@[t as int]);
                }
            }
            indeg.set(idx, indeg[idx] - 1);
            proof {
                assert forall|k: int| 0 <= k < n implies #[trigger] indeg@[k] == remaining_preds(ns, edges, rem@, k, n as int)
                    + if edges.contains((ns[z as int], ns[k])) && !succ@.take(t + 1).contains(ns[k]) { 1nat } else { 0nat } by {
                    let before = succ@.take(t as int);
                    let after = succ@.take(t + 1);
                    assert(after =~= before.push(v));
                    if k == idx {
                        assert(after[t as int] == ns[k]);
                        assert(after.contains(ns[k]));
                    } else {
                        assert(ns[k] != v);
                        if after.contains(ns[k]) {
                            let y = choose|y: int| 0 <= y < after.len() && after[y] == ns[k];
                            assert(y < t);
                            assert(before[y] == ns[k]);
                        }
                        if before.contains(ns[k]) {
                            let y = choose|y: int| 0 <= y < before.len() && before[y] == ns[k];
                            assert(after[y] == ns[k]);
                        }
                    }
                }
            }
            t = t + 1;
        }
        proof {
            assert(succ@.take(m as int) =~= succ@);
            assert forall|k: int| 0 <= k < n implies #[trigger] indeg@[k] == remaining_preds(ns, edges, rem@, k, n as int) by {
                if edges.contains((ns[z as int], ns[k])) {
                    assert(succ@.contains(ns[k]));
                }
            }
        }
        p = p + 1;
    }
    proof {
        assert(zidx@.take(zn as int) =~= zidx@);
    }
}


proof fn lemma_count_true_all(rem: Seq<bool>, upto: int)
    requires
        0 <= upto <= rem.len(),
        forall|j: int| 0 <= j < upto ==> #[trigger] rem[j],
    ensures
        count_true(rem, upto) == upto,
    decreases upto,
{
    if upto > 0 {
        lemma_count_true_all(rem, upto - 1);
    }
}
/// The state of the layering after some layers are placed: `lay` maps each
/// placed node (by position) to its layer, and the placed nodes are exactly
/// those no longer remaining; an edge into a placed node comes from a placed
/// node of an earlier layer; a placed node past the first layer has a
/// prerequisite in the layer just before; and a remaining node without
/// remaining prerequisites has one in the last layer placed.
#[verifier::opaque]
pub open spec fn placed_ok(ns: Seq<u64>, edges: Set<(u64, u64)>, rem: Seq<bool>, lay: Map<int, int>, nl: int) -> bool {
    let n = ns.len() as int;
    &&& forall|i: int| 0 <= i < n ==> (!#[trigger] rem[i] <==> lay.contains_key(i))
    &&& forall|i: int| #[trigger] lay.contains_key(i) ==> 0 <= i < n && 0 <= lay[i] < nl
    &&& forall|i: int, j: int| 0 <= i < n && 0 <= j < n && #[trigger] edges.contains((ns[i], ns[j])) && !rem[j] ==>
        !rem[i] && lay[i] < lay[j]
    &&& forall|j: int| 0 <= j < n && !#[trigger] rem[j] && lay[j] > 0 ==>
        exists|i: int| 0 <= i < n && #[trigger] edges.contains((ns[i], ns[j])) && !rem[i] && lay[i] == lay[j] - 1
    &&& forall|j: int| 0 <= j < n && #[trigger] rem[j]
        && (forall|i: int| 0 <= i < n ==> !(rem[i] && #[trigger] edges.contains((ns[i], ns[j])))) ==>
        nl == 0 || exists|i: int| 0 <= i < n && #[trigger] edges.contains((ns[i], ns[j])) && !rem[i] && lay[i] == nl - 1
}

/// Nothing is placed at the start.
proof fn lemma_placed_start(ns: Seq<u64>, edges: Set<(u64, u64)>, rem: Seq<bool>)
    requires
        rem.len() == ns.len(),
        forall|i: int| 0 <= i < rem.len() ==> #[trigger] rem[i],
    ensures
        placed_ok(ns, edges, rem, Map::empty(), 0),
{
    reveal(placed_ok);
}

/// Placing the current sources as layer `kk` keeps the state in order and
/// leaves the earlier layers as they were.
#[verifier::spinoff_prover]
proof fn lemma_place_layer(
    ns: Seq<u64>,
    edges: Set<(u64, u64)>,
    old_rem: Seq<bool>,
    old_indeg: Seq<usize>,
    rem: Seq<bool>,
    old_lay: Map<int, int>,
    kk: int,
)
    requires
        old_rem.len() == ns.len(),
        rem.len() == ns.len(),
        old_indeg.len() == ns.len(),
        kk >= 0,
        forall|i: int| 0 <= i < ns.len() ==>
            #[trigger] old_indeg[i] == remaining_preds(ns, edges, old_rem, i, ns.len() as int),
        placed_ok(ns, edges, old_rem, old_lay, kk),
        forall|i: int| 0 <= i < ns.len() ==>
            #[trigger] rem[i] == (old_rem[i] && !sources(old_rem, old_indeg, ns.len() as int).contains(i)),
    ensures
        placed_ok(ns, edges, rem, add_layer(old_lay, sources(old_rem, old_indeg, ns.len() as int), kk), kk + 1),
        forall|k: int| 0 <= k < kk ==>
            #[trigger] members(ns, add_layer(old_lay, sources(old_rem, old_indeg, ns.len() as int), kk), k, ns.len() as int)
                == members(ns, old_lay, k, ns.len() as int),
{
    reveal(placed_ok);
    let n = ns.len() as int;
    let zs = sources(old_rem, old_indeg, n);
    let lay = add_layer(old_lay, zs, kk);
    assert forall|i: int| 0 <= i < n implies (#[trigger] zs.contains(i) <==>
        old_rem[i] && forall|j: int| 0 <= j < n ==> !(old_rem[j] && #[trigger] edges.contains((ns[j], ns[i])))) by {
        lemma_remaining_preds_zero(ns, edges, old_rem, i, n);
    }
    assert forall|k: int| 0 <= k < kk implies
        #[trigger] members(ns, lay, k, n) == members(ns, old_lay, k, n) by {
        lemma_members_agree(ns, lay, old_lay, k, n);
    }
    assert forall|i: int, j: int| 0 <= i < n && 0 <= j < n && #[trigger] edges.contains((ns[i], ns[j])) && !rem[j] implies
        !rem[i] && lay[i] < lay[j] by {
        if zs.contains(j) {
            assert(!(old_rem[i] && edges.contains((ns[i], ns[j]))));
            assert(old_lay.contains_key(i));
        }
    }
    assert forall|j: int| 0 <= j < n && !#[trigger] rem[j] && lay[j] > 0 implies
        exists|i: int| 0 <= i < n && #[trigger] edges.contains((ns[i], ns[j])) && !rem[i] && lay[i] == lay[j] - 1 by {
        if zs.contains(j) {
            assert(forall|i: int| 0 <= i < n ==> !(old_rem[i] && #[trigger] edges.contains((ns[i], ns[j]))));
            let i = choose|i: int| 0 <= i < n && #[trigger] edges.contains((ns[i], ns[j])) && !old_rem[i]
                && old_lay[i] == kk - 1;
            assert(old_lay.contains_key(i));
            assert(edges.contains((ns[i], ns[j])) && !rem[i] && lay[i] == lay[j] - 1);
        } else {
            let i = choose|i: int| 0 <= i < n && #[trigger] edges.contains((ns[i], ns[j])) && !old_rem[i]
                && old_lay[i] == old_lay[j] - 1;
            assert(old_lay.contains_key(i));
            assert(edges.contains((ns[i], ns[j])) && !rem[i] && lay[i] == lay[j] - 1);
        }
    }
    assert forall|j: int| 0 <= j < n && #[trigger] rem[j]
        && (forall|i: int| 0 <= i < n ==> !(rem[i] && #[trigger] edges.contains((ns[i], ns[j])))) implies
        exists|i: int| 0 <= i < n && #[trigger] edges.contains((ns[i], ns[j])) && !rem[i] && lay[i] == kk by {
        assert(old_rem[j] && !zs.contains(j));
        let i = choose|i: int| 0 <= i < n && old_rem[i] && #[trigger] edges.contains((ns[i], ns[j]));
        assert(!rem[i]);
        assert(zs.contains(i));
    }
}

/// While a node remains, the graph without cycles has a remaining node
/// without remaining prerequisites.
proof fn lemma_sources_nonempty(
    ns: Seq<u64>,
    edges: Set<(u64, u64)>,
    rem: Seq<bool>,
    indeg: Seq<usize>,
    rank: spec_fn(u64) -> nat,
)
    requires
        ranks_edges(edges, rank),
        rem.len() == ns.len(),
        indeg.len() == ns.len(),
        count_true(rem, ns.len() as int) > 0,
        forall|i: int| 0 <= i < ns.len() ==>
            #[trigger] indeg[i] == remaining_preds(ns, edges, rem, i, ns.len() as int),
    ensures
        exists|z: int| #[trigger] sources(rem, indeg, ns.len() as int).contains(z),
{
    let n = ns.len() as int;
    lemma_count_true_zero(rem, n);
    let r0 = choose|r0: int| 0 <= r0 < n && #[trigger] rem[r0];
    lemma_source_exists(ns, edges, rem, rank, r0);
    let z = choose|z: int| 0 <= z < n && #[trigger] rem[z]
        && forall|j: int| 0 <= j < n ==> !(rem[j] && #[trigger] edges.contains((ns[j], ns[z])));
    lemma_remaining_preds_zero(ns, edges, rem, z, n);
    assert(sources(rem, indeg, n).contains(z));
}

/// Once every node is placed, the layers form the layering of the graph.
#[verifier::spinoff_prover]
proof fn lemma_layering(ns: Seq<u64>, edges: Set<(u64, u64)>, rem: Seq<bool>, lay: Map<int, int>, layers: Seq<Seq<u64>>)
    requires
        ns.no_duplicates(),
        rem.len() == ns.len(),
        forall|i: int| 0 <= i < ns.len() ==> !#[trigger] rem[i],
        placed_ok(ns, edges, rem, lay, layers.len() as int),
        forall|k: int| 0 <= k < layers.len() ==> #[trigger] layers[k] == members(ns, lay, k, ns.len() as int),
        forall|k: int| 0 <= k < layers.len() ==> #[trigger] layers[k].len() > 0,
    ensures
        is_layering(ns, edges, layers),
{
    reveal(placed_ok);
    let n = ns.len() as int;
    assert forall|k: int| 0 <= k < layers.len() implies ordered_like(ns, #[trigger] layers[k]) by {
        lemma_members(ns, lay, k, n);
    }
    assert forall|v: u64| ns.contains(v) implies exists|k: int| 0 <= k < layers.len() && #[trigger] layers[k].contains(v) by {
        let i = choose|i: int| 0 <= i < n && ns[i] == v;
        assert(!rem[i]);
        assert(lay.contains_key(i));
        let k = lay[i];
        lemma_members(ns, lay, k, n);
        assert(ns[i] == v && lay.contains_key(i) && lay[i] == k);
        assert(layers[k] == members(ns, lay, k, n));
        assert(layers[k].contains(v));
    }
    assert forall|k: int, v: u64| 0 <= k < layers.len() && #[trigger] layers[k].contains(v) implies ns.contains(v) by {
        lemma_members(ns, lay, k, n);
        let i = choose|i: int| 0 <= i < n && ns[i] == v && lay.contains_key(i) && lay[i] == k;
        assert(ns[i] == v);
    }
    assert forall|k1: int, k2: int, v: u64|
        0 <= k1 < layers.len() && 0 <= k2 < layers.len() && #[trigger] layers[k1].contains(v)
            && #[trigger] layers[k2].contains(v) implies k1 == k2 by {
        lemma_members(ns, lay, k1, n);
        lemma_members(ns, lay, k2, n);
        let i1 = choose|i: int| 0 <= i < n && ns[i] == v && lay.contains_key(i) && lay[i] == k1;
        let i2 = choose|i: int| 0 <= i < n && ns[i] == v && lay.contains_key(i) && lay[i] == k2;
    }
    assert forall|k1: int, k2: int, a: u64, b: u64|
        0 <= k1 < layers.len() && 0 <= k2 < layers.len() && #[trigger] edges.contains((a, b))
            && #[trigger] layers[k1].contains(a) && #[trigger] layers[k2].contains(b) implies k1 < k2 by {
        lemma_members(ns, lay, k1, n);
        lemma_members(ns, lay, k2, n);
        let i1 = choose|i: int| 0 <= i < n && ns[i] == a && lay.contains_key(i) && lay[i] == k1;
        let i2 = choose|i: int| 0 <= i < n && ns[i] == b && lay.contains_key(i) && lay[i] == k2;
        assert(edges.contains((ns[i1], ns[i2])));
        assert(!rem[i2]);
    }
    assert forall|k: int, v: u64| 0 < k < layers.len() && #[trigger] layers[k].contains(v) implies
        exists|a: u64| #[trigger] edges.contains((a, v)) && layers[k - 1].contains(a) by {
        lemma_members(ns, lay, k, n);
        let j = choose|i: int| 0 <= i < n && ns[i] == v && lay.contains_key(i) && lay[i] == k;
        assert(!rem[j]);
        assert(lay[j] > 0);
        let i = choose|i: int| 0 <= i < n && #[trigger] edges.contains((ns[i], ns[j])) && !rem[i] && lay[i] == lay[j] - 1;
        lemma_members(ns, lay, k - 1, n);
        assert(ns[i] == ns[i] && lay.contains_key(i) && lay[i] == k - 1);
        assert(layers[k - 1] == members(ns, lay, k - 1, n));
        assert(layers[k - 1].contains(ns[i]));
    }
}

/// A graph whose nodes can be layered so that every edge leads to a later
/// layer has no cycle: the layer of a node ranks it.
pub proof fn lemma_layering_is_acyclic(nodes: Seq<u64>, edges: Set<(u64, u64)>, layers: Seq<Seq<u64>>)
    requires
        is_layering(nodes, edges, layers),
        forall|a: u64, b: u64| #[trigger] edges.contains((a, b)) ==> nodes.contains(a) && nodes.contains(b),
    ensures
        acyclic(edges),
{
    let rank = |v: u64| (choose|k: int| 0 <= k < layers.len() && #[trigger] layers[k].contains(v)) as nat;
    assert forall|a: u64, b: u64| #[trigger] edges.contains((a, b)) implies rank(a) < rank(b) by {
        assert(nodes.contains(a) && nodes.contains(b));
        let ka = choose|k: int| 0 <= k < layers.len() && #[trigger] layers[k].contains(a);
        let kb = choose|k: int| 0 <= k < layers.len() && #[trigger] layers[k].contains(b);
        assert(ka < kb);
    }
    assert(ranks_edges(edges, rank));
}

/// In a layering of a graph whose edges join its nodes, every edge leads
/// from an earlier layer to a later one, and a node lies in the first layer
/// exactly when no edge leads to it.
pub proof fn lemma_layering_edges(nodes: Seq<u64>, edges: Set<(u64, u64)>, layers: Seq<Seq<u64>>)
    requires
        is_layering(nodes, edges, layers),
        forall|a: u64, b: u64| #[trigger] edges.contains((a, b)) ==> nodes.contains(a) && nodes.contains(b),
    ensures
        forall|a: u64, b: u64| #[trigger] edges.contains((a, b)) ==>
            exists|k1: int, k2: int| 0 <= k1 < k2 < layers.len() && #[trigger] layers[k1].contains(a)
                && #[trigger] layers[k2].contains(b),
        forall|v: u64| nodes.contains(v) ==>
            (layers.len() > 0 && #[trigger] layers[0].contains(v) <==> forall|a: u64| !edges.contains((a, v))),
{
    assert forall|a: u64, b: u64| #[trigger] edges.contains((a, b)) implies
        exists|k1: int, k2: int| 0 <= k1 < k2 < layers.len() && #[trigger] layers[k1].contains(a)
            && #[trigger] layers[k2].contains(b) by {
        assert(nodes.contains(a) && nodes.contains(b));
        let k1 = choose|k: int| 0 <= k < layers.len() && #[trigger] layers[k].contains(a);
        let k2 = choose|k: int| 0 <= k < layers.len() && #[trigger] layers[k].contains(b);
        assert(k1 < k2);
    }
    assert forall|v: u64| nodes.contains(v) implies
        (layers.len() > 0 && #[trigger] layers[0].contains(v) <==> forall|a: u64| !edges.contains((a, v))) by {
        let k = choose|k: int| 0 <= k < layers.len() && #[trigger] layers[k].contains(v);
        if layers.len() > 0 && layers[0].contains(v) {
            assert forall|a: u64| !edges.contains((a, v)) by {
                if edges.contains((a, v)) {
                    assert(nodes.contains(a));
                    let ka = choose|j: int| 0 <= j < layers.len() && #[trigger] layers[j].contains(a);
                    assert(ka < 0);
                }
            }
        }
        if forall|a: u64| !edges.contains((a, v)) {
            if k > 0 {
                let a = choose|a: u64| #[trigger] edges.contains((a, v)) && layers[k - 1].contains(a);
                assert(edges.contains((a, v)));
            }
            assert(layers[0].contains(v));
        }
    }
}

/// The layers of a task graph: all tasks without prerequisites first, then
/// all tasks whose prerequisites lie entirely in earlier layers, and so on;
/// within a layer the tasks keep the graph's order. `None` when the graph
/// has a cycle, so that at some point no remaining task is free of
/// remaining prerequisites.
#[verifier::spinoff_prover]
pub fn try_compute_layers(graph: &TaskGraph) -> (r: Option<Vec<Vec<u64>>>)
    ensures
        match r {
            Some(layers) => is_layering(graph_nodes(*graph), graph_edges(*graph), layers@.map_values(|l: Vec<u64>| l@)),
            None => !acyclic(graph_edges(*graph)),
        },
        r is Some <==> acyclic(graph_edges(*graph)),
        forall|a: u64, b: u64| #[trigger] graph_edges(*graph).contains((a, b)) ==>
            graph_nodes(*graph).contains(a) && graph_nodes(*graph).contains(b),
{
    let nodes = nodes_of(graph);
    let ghost ns = nodes@;
    let ghost edges = graph_edges(*graph);
    let n = nodes.len();
    let mut rem: Vec<bool> = Vec::new();
    let mut i: usize = 0;
    while i < n
        invariant
            0 <= i <= n,
            rem@.len() == i,
            forall|k: int| 0 <= k < i ==> #[trigger] rem@[k],
        decreases n - i,
    {
        rem.push(true);
        i = i + 1;
    }
    let mut indeg = initial_indegrees(graph, &nodes, &rem);
    let mut layers: Vec<Vec<u64>> = Vec::new();
    let ghost mut lay: Map<int, int> = Map::empty();
    let mut left: usize = n;
    proof {
        lemma_count_true_all(rem@, n as int);
        lemma_placed_start(ns, edges, rem@);
    }
    while left > 0
        invariant
            n == ns.len(),
            ns == nodes@,
            ns == graph_nodes(*graph),
            ns.no_duplicates(),
            edges == graph_edges(*graph),
            forall|a: u64, b: u64| #[trigger] graph_edges(*graph).contains((a, b)) ==> nodes@.contains(a) && nodes@.contains(b),
            rem@.len() == n,
            indeg@.len() == n,
            left == count_true(rem@, n as int),
            forall|i: int| 0 <= i < n ==> #[trigger] indeg@[i] == remaining_preds(ns, edges, rem@, i, n as int),
            placed_ok(ns, edges, rem@, lay, layers@.len() as int),
            forall|k: int| 0 <= k < layers@.len() ==> #[trigger] layers@[k]@ == members(ns, lay, k, n as int),
            forall|k: int| 0 <= k < layers@.len() ==> #[trigger] layers@[k]@.len() > 0,
            forall|i: int| #[trigger] lay.contains_key(i) ==> lay[i] < layers@.len(),
        decreases left,
    {
        let kk = layers.len();
        let ghost zs = sources(rem@, indeg@, n as int);
        let ghost new_lay = add_layer(lay, zs, kk as int);
        let (zero, zidx) = collect_sources(&nodes, &rem, &indeg, Ghost(lay), kk);
        if zidx.len() == 0 {
            proof {
                if acyclic(edges) {
                    let rank = choose|rank: spec_fn(u64) -> nat| #[trigger] ranks_edges(edges, rank);
                    lemma_sources_nonempty(ns, edges, rem@, indeg@, rank);
                    let z = choose|z: int| #[trigger] zs.contains(z);
                    assert(zidx@.contains(z as usize));
                }
            }
            return None;
        }
        proof {
            let z = zidx@[0] as int;
            assert(zs.contains(z));
            lemma_members(ns, new_lay, kk as int, n as int);
            assert(new_lay.contains_key(z) && new_lay[z] == kk);
            assert(zero@.contains(ns[z]));
        }
        let ghost old_rem = rem@;
        let ghost old_indeg = indeg@;
        let ghost old_layers = layers@;
        remove_sources(graph, &nodes, &mut rem, &mut indeg, &zidx);
        layers.push(zero);
        proof {
            assert forall|i: int| 0 <= i < n implies (#[trigger] rem@[i] == (old_rem[i] && !zs.contains(i))) by {
                if zs.contains(i) {
                    assert(zidx@.contains(i as usize));
                } else if zidx@.contains(i as usize) {
                    let t = choose|t: int| 0 <= t < zidx@.len() && zidx@[t] == i as usize;
                    assert(zs.contains(zidx@[t] as int));
                }
            }
            lemma_place_layer(ns, edges, old_rem, old_indeg, rem@, lay, kk as int);
            lay = new_lay;
            assert forall|k: int| 0 <= k < layers@.len() implies #[trigger] layers@[k]@ == members(ns, lay, k, n as int) by {
                if k < kk {
                    assert(layers@[k] == old_layers[k]);
                }
            }
            assert forall|k: int| 0 <= k < layers@.len() implies #[trigger] layers@[k]@.len() > 0 by {
                if k < kk {
                    assert(layers@[k] == old_layers[k]);
                }
            }
        }
        left = left - zidx.len();
    }
    proof {
        lemma_count_true_zero(rem@, n as int);
        let lv = layers@.map_values(|l: Vec<u64>| l@);
        assert forall|k: int| 0 <= k < lv.len() implies #[trigger] lv[k] == members(ns, lay, k, n as int) by {
            assert(lv[k] == layers@[k]@);
        }
        assert forall|k: int| 0 <= k < lv.len() implies #[trigger] lv[k].len() > 0 by {
            assert(lv[k] == layers@[k]@);
        }
        lemma_layering(ns, edges, rem@, lay, lv);
        lemma_layering_is_acyclic(ns, edges, lv);
    }
    Some(layers)
}

/// The layers of a task graph without cycles: all tasks without
/// prerequisites first, then all tasks whose prerequisites lie entirely in
/// earlier layers, and so on; within a layer the tasks keep the graph's order.
pub fn compute_layers(graph: &TaskGraph) -> (layers: Vec<Vec<u64>>)
    requires
        acyclic(graph_edges(*graph)),
    ensures
        is_layering(graph_nodes(*graph), graph_edges(*graph), layers@.map_values(|l: Vec<u64>| l@)),
        forall|a: u64, b: u64| #[trigger] graph_edges(*graph).contains((a, b)) ==>
            graph_nodes(*graph).contains(a) && graph_nodes(*graph).contains(b),
{
    match try_compute_layers(graph) {
        Some(layers) => layers,
        None => {
            assert(false);
            Vec::new()
        },
    }
}

} // verus!
