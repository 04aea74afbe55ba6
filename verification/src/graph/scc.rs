//! The strongly connected components of a graph: the sets of nodes that
//! reach each other.

use crate::graph::{
    comes_after_successors, has_post_order, is_graph, is_increasing, is_post_order, is_ready,
    lemma_all_placed, lemma_unplaced_all, lemma_unplaced_none, lemma_unplaced_update, successors,
    unplaced,
};
use crate::graph::reach::{
    is_edge, is_path, lemma_reached_is_node, lemma_reaches_itself, lemma_reaches_onward,
    lemma_reaches_successor, reach_each_other, reach_from, reaches,
};
use vstd::prelude::*;
use vstd::set_lib::{lemma_int_range, lemma_len_subset, set_int_range};

verus! {

/// `c` stands for the component of `u`: it is the least node that `u`
/// reaches and that reaches `u`.
pub open spec fn is_component_of(g: Seq<Seq<usize>>, u: int, c: int) -> bool {
    reach_each_other(g, u, c) && forall|w: int| 0 <= w < c ==> !reach_each_other(g, u, w)
}

/// `component` gives for each node the node that stands for its component.
pub open spec fn is_component_map(g: Seq<Seq<usize>>, component: Seq<usize>) -> bool {
    &&& component.len() == g.len()
    &&& forall|u: int| 0 <= u < g.len() ==> is_component_of(g, u, #[trigger] component[u] as int)
}

/// Some node of the component `a` has a successor in the component `b`.
pub open spec fn is_joined(g: Seq<Seq<usize>>, component: Seq<usize>, a: int, b: int) -> bool {
    exists|u: int, k: int|
        0 <= u < g.len() && 0 <= k < g[u].len() && component[u] == a
            && component[#[trigger] g[u][k] as int] == b
}

/// `c` is the graph of the components of `g`: the successors of the node
/// that stands for a component are the nodes that stand for the other
/// components which the component is joined to, in growing order; the
/// other nodes have no successors.
pub open spec fn is_condensed(g: Seq<Seq<usize>>, component: Seq<usize>, c: Seq<Seq<usize>>) -> bool {
    &&& c.len() == g.len()
    &&& is_graph(c)
    &&& forall|a: int| 0 <= a < c.len() ==> is_increasing(#[trigger] c[a])
    &&& forall|a: int, b: usize|
        0 <= a < g.len() && b < g.len() ==> (#[trigger] c[a].contains(b) <==> a != b && is_joined(
            g,
            component,
            a,
            b as int,
        ))
}

/// Two nodes are of one component exactly where they reach each other.
pub proof fn law_components_are_classes(g: Seq<Seq<usize>>, component: Seq<usize>, u: int, v: int)
    requires
        is_component_map(g, component),
        0 <= u < g.len(),
        0 <= v < g.len(),
    ensures
        component[u] == component[v] <==> reach_each_other(g, u, v),
{
    let a = component[u] as int;
    let b = component[v] as int;
    assert(is_component_of(g, u, a));
    assert(is_component_of(g, v, b));
    if a == b {
        lemma_reaches_onward(g, u, a, v);
        lemma_reaches_onward(g, v, a, u);
    }
    if reach_each_other(g, u, v) {
        lemma_reaches_onward(g, u, v, b);
        lemma_reaches_onward(g, b, v, u);
        lemma_reaches_onward(g, v, u, a);
        lemma_reaches_onward(g, a, u, v);
        if a < b {
            assert(!reach_each_other(g, v, a));
        }
        if b < a {
            assert(!reach_each_other(g, u, b));
        }
    }
}

/// The place of a node in an order.
pub open spec fn place_of(order: Seq<usize>, x: int) -> int {
    choose|p: int| 0 <= p < order.len() && order[p] as int == x
}

proof fn lemma_place_of(order: Seq<usize>, p: int)
    requires
        order.no_duplicates(),
        0 <= p < order.len(),
    ensures
        place_of(order, order[p] as int) == p,
{
    let q = place_of(order, order[p] as int);
    assert(order[q] == order[p]);
}

/// Along a path through a graph the places in a post-order do not grow.
proof fn lemma_path_descends(g: Seq<Seq<usize>>, order: Seq<usize>, path: Seq<int>, k: int)
    requires
        is_graph(g),
        is_post_order(g, order),
        g.len() <= usize::MAX,
        is_path(g, path),
        0 <= k < path.len(),
    ensures
        0 <= path[k] < g.len(),
        0 <= place_of(order, path[k]) <= place_of(order, path[0]) < order.len(),
        order[place_of(order, path[k])] as int == path[k],
    decreases k,
{
    let start = path[0];
    assert(order.contains(start as usize));
    let p0 = choose|p: int| 0 <= p < order.len() && order[p] == start as usize;
    assert(order[p0] as int == start);
    if k > 0 {
        lemma_path_descends(g, order, path, k - 1);
        let x = path[k - 1];
        let y = path[k];
        assert(is_edge(g, x, path[k - 1 + 1]));
        let p = place_of(order, x);
        let j = choose|j: int| 0 <= j < g[x].len() && #[trigger] g[x][j] as int == y;
        if y != x {
            assert(comes_after_successors(g, order, p));
            assert(g[order[p] as int][j] != order[p]);
            let q = choose|q: int| 0 <= q < p && order[q] == g[order[p] as int][j];
            lemma_place_of(order, q);
        }
    }
}

/// Where a graph has a post-order, no two nodes reach each other: every
/// component is a single node.
pub proof fn law_post_order_means_single_nodes(
    g: Seq<Seq<usize>>,
    order: Seq<usize>,
    u: int,
    v: int,
)
    requires
        is_graph(g),
        g.len() <= usize::MAX,
        is_post_order(g, order),
        reach_each_other(g, u, v),
    ensures
        u == v,
{
    let there = choose|path: Seq<int>| is_path(g, path) && path[0] == u && #[trigger] path.last() == v;
    let back = choose|path: Seq<int>| is_path(g, path) && path[0] == v && #[trigger] path.last() == u;
    lemma_path_descends(g, order, there, there.len() - 1);
    lemma_path_descends(g, order, back, back.len() - 1);
    lemma_path_descends(g, order, there, 0);
    lemma_path_descends(g, order, back, 0);
}

/// No two nodes reach each other: every component is a single node.
pub open spec fn has_single_nodes(g: Seq<Seq<usize>>) -> bool {
    forall|u: int, v: int| #[trigger] reach_each_other(g, u, v) ==> u == v
}

/// The nodes that `u` reaches.
pub open spec fn reached_from(g: Seq<Seq<usize>>, u: int) -> Set<int> {
    Set::new(|w: int| reaches(g, u, w))
}

/// Where no two nodes reach each other, another node that is a successor
/// of a node reaches fewer nodes than that node.
proof fn lemma_successor_reaches_less(g: Seq<Seq<usize>>, v: int, w: int)
    requires
        has_single_nodes(g),
        is_edge(g, v, w),
        v != w,
    ensures
        reached_from(g, v).finite(),
        reached_from(g, w).len() < reached_from(g, v).len(),
{
    let from_v = reached_from(g, v);
    let from_w = reached_from(g, w);
    let nodes = set_int_range(0, g.len() as int);
    lemma_int_range(0, g.len() as int);
    assert(from_v.subset_of(nodes)) by {
        assert forall|x: int| from_v.contains(x) implies nodes.contains(x) by {
            lemma_reached_is_node(g, v, x);
        }
    }
    lemma_len_subset(from_v, nodes);
    lemma_reaches_itself(g, v);
    lemma_reaches_successor(g, v, v, w);
    assert(from_v.contains(v));
    assert(from_w.subset_of(from_v.remove(v))) by {
        assert forall|x: int| from_w.contains(x) implies from_v.remove(v).contains(x) by {
            lemma_reaches_onward(g, v, w, x);
            if x == v {
                assert(reach_each_other(g, v, w));
            }
        }
    }
    lemma_len_subset(from_w, from_v.remove(v));
}

/// Where no two nodes reach each other and a node is left, a node that is
/// left may come next: from any node that is left, successors that are left
/// lead to one.
proof fn lemma_some_node_is_ready(g: Seq<Seq<usize>>, placed: Seq<bool>, v: int) -> (u: int)
    requires
        is_graph(g),
        has_single_nodes(g),
        placed.len() == g.len(),
        0 <= v < g.len(),
        !placed[v],
    ensures
        0 <= u < g.len(),
        !placed[u],
        is_ready(g, placed, u),
    decreases reached_from(g, v).len(),
{
    if is_ready(g, placed, v) {
        v
    } else {
        let k = choose|k: int|
            0 <= k < g[v].len() && !(#[trigger] g[v][k] == v || placed[g[v][k] as int]);
        let w = g[v][k] as int;
        assert(g[v][k] < g.len());
        assert(is_edge(g, v, w));
        lemma_successor_reaches_less(g, v, w);
        lemma_some_node_is_ready(g, placed, w)
    }
}

/// Where no two nodes reach each other, an order in which each node comes
/// after its successors can be made longer until it holds every node.
proof fn lemma_order_can_be_completed(g: Seq<Seq<usize>>, order: Seq<usize>, placed: Seq<bool>)
    requires
        is_graph(g),
        g.len() <= usize::MAX,
        has_single_nodes(g),
        placed.len() == g.len(),
        order.len() + unplaced(placed) == g.len(),
        order.no_duplicates(),
        forall|v: usize| v < g.len() ==> (#[trigger] order.contains(v) <==> placed[v as int]),
        forall|p: int| 0 <= p < order.len() ==> order[p] < g.len(),
        forall|p: int| 0 <= p < order.len() ==> #[trigger] comes_after_successors(g, order, p),
    ensures
        has_post_order(g),
    decreases unplaced(placed),
{
    if unplaced(placed) == 0 {
        lemma_unplaced_none(placed);
        assert(is_post_order(g, order));
    } else {
        if forall|v: int| 0 <= v < placed.len() ==> placed[v] {
            lemma_all_placed(placed);
        }
        let v = choose|v: int| 0 <= v < placed.len() && !placed[v];
        let u = lemma_some_node_is_ready(g, placed, v);
        let longer = order.push(u as usize);
        let marks = placed.update(u, true);
        lemma_unplaced_update(placed, u);
        let end = order.len() as int;
        assert(!order.contains(u as usize));
        assert forall|v: usize| v < g.len() implies (#[trigger] longer.contains(v) <==> marks[v as int]) by {
            if longer.contains(v) {
                let p = choose|p: int| 0 <= p < longer.len() && longer[p] == v;
                if p < end {
                    assert(order[p] == v);
                    assert(order.contains(v));
                }
            }
            if marks[v as int] {
                if v == u as usize {
                    assert(longer[end] == v);
                } else {
                    assert(order.contains(v));
                    let p = choose|p: int| 0 <= p < order.len() && order[p] == v;
                    assert(longer[p] == v);
                }
            }
        }
        assert forall|p: int| 0 <= p < longer.len() implies #[trigger] comes_after_successors(
            g,
            longer,
            p,
        ) by {
            if p < end {
                assert(comes_after_successors(g, order, p));
                assert forall|k: int|
                    0 <= k < g[longer[p] as int].len() && #[trigger] g[longer[p] as int][k]
                        != longer[p] implies exists|q: int|
                    0 <= q < p && longer[q] == g[longer[p] as int][k] by {
                    let q = choose|q: int| 0 <= q < p && order[q] == g[order[p] as int][k];
                    assert(longer[q] == order[q]);
                }
            } else {
                assert forall|k: int|
                    0 <= k < g[longer[p] as int].len() && #[trigger] g[longer[p] as int][k]
                        != longer[p] implies exists|q: int|
                    0 <= q < p && longer[q] == g[longer[p] as int][k] by {
                    let w = g[u][k];
                    assert(w < g.len());
                    assert(placed[w as int]);
                    assert(order.contains(w));
                    let q = choose|q: int| 0 <= q < order.len() && order[q] == w;
                    assert(longer[q] == w);
                }
            }
        }
        lemma_order_can_be_completed(g, longer, marks);
    }
}

/// Where no two nodes of a graph reach each other, the graph has a
/// post-order.
pub proof fn law_single_nodes_mean_post_order(g: Seq<Seq<usize>>)
    requires
        is_graph(g),
        g.len() <= usize::MAX,
        has_single_nodes(g),
    ensures
        has_post_order(g),
{
    let none = Seq::new(g.len(), |i: int| false);
    lemma_unplaced_all(g.len());
    lemma_order_can_be_completed(g, Seq::<usize>::empty(), none);
}

fn joins(g: &Vec<Vec<usize>>, component: &Vec<usize>, a: usize, b: usize) -> (r: bool)
    requires
        is_graph(successors(g@)),
        component.len() == g.len(),
    ensures
        r == is_joined(successors(g@), component@, a as int, b as int),
{
    let ghost gs = successors(g@);
    let mut u: usize = 0;
    while u < g.len()
        invariant
            u <= g.len(),
            gs == successors(g@),
            is_graph(gs),
            component.len() == g.len(),
            forall|x: int, k: int|
                0 <= x < u && 0 <= k < gs[x].len() ==> !(component@[x] == a
                    && component@[#[trigger] gs[x][k] as int] == b),
        decreases g.len() - u,
    {
        let row = &g[u];
        assert(row@ == gs[u as int]);
        if component[u] == a {
            let mut k: usize = 0;
            while k < row.len()
                invariant
                    k <= row.len(),
                    u < g.len(),
                    gs == successors(g@),
                    is_graph(gs),
                    row@ == gs[u as int],
                    component.len() == g.len(),
                    component@[u as int] == a,
                    forall|j: int| 0 <= j < k ==> component@[#[trigger] row@[j] as int] != b,
                decreases row.len() - k,
            {
                assert(gs[u as int][k as int] < g.len());
                if component[row[k]] == b {
                    return true;
                }
                k += 1;
            }
        }
        u += 1;
    }
    false
}

/// The components of `g`: for each node the least node of its component,
/// and the graph of the components.
pub fn sccs(g: &Vec<Vec<usize>>) -> (r: (Vec<Vec<usize>>, Vec<usize>))
    requires
        is_graph(successors(g@)),
    ensures
        is_component_map(successors(g@), r.1@),
        is_condensed(successors(g@), r.1@, successors(r.0@)),
{
    let n = g.len();
    let ghost gs = successors(g@);
    let mut reach: Vec<Vec<bool>> = Vec::new();
    let mut u: usize = 0;
    while u < n
        invariant
            u <= n,
            n == g.len(),
            gs == successors(g@),
            is_graph(gs),
            reach.len() == u,
            forall|a: int| 0 <= a < u ==> (#[trigger] reach@[a])@.len() == n,
            forall|a: int, v: int|
                0 <= a < u && 0 <= v < n ==> (#[trigger] reach@[a]@[v]) == reaches(gs, a, v),
        decreases n - u,
    {
        reach.push(reach_from(g, u));
        u += 1;
    }
    let mut component: Vec<usize> = Vec::new();
    let mut u: usize = 0;
    while u < n
        invariant
            u <= n,
            n == g.len(),
            gs == successors(g@),
            is_graph(gs),
            reach.len() == n,
            forall|a: int| 0 <= a < n ==> (#[trigger] reach@[a])@.len() == n,
            forall|a: int, v: int|
                0 <= a < n && 0 <= v < n ==> (#[trigger] reach@[a]@[v]) == reaches(gs, a, v),
            component.len() == u,
            forall|a: int| 0 <= a < u ==> is_component_of(gs, a, #[trigger] component@[a] as int),
        decreases n - u,
    {
        let mut c: usize = 0;
        proof {
            lemma_reaches_itself(gs, u as int);
        }
        while !(reach[u][c] && reach[c][u])
            invariant
                c <= u < n,
                n == g.len(),
                reach.len() == n,
                forall|a: int| 0 <= a < n ==> (#[trigger] reach@[a])@.len() == n,
                forall|a: int, v: int|
                    0 <= a < n && 0 <= v < n ==> (#[trigger] reach@[a]@[v]) == reaches(gs, a, v),
                reaches(gs, u as int, u as int),
                forall|w: int| 0 <= w < c ==> !reach_each_other(gs, u as int, w),
            decreases u - c,
        {
            assert(c != u);
            c += 1;
        }
        component.push(c);
        u += 1;
    }
    let mut condensed: Vec<Vec<usize>> = Vec::new();
    let mut a: usize = 0;
    while a < n
        invariant
            a <= n,
            n == g.len(),
            gs == successors(g@),
            is_graph(gs),
            component.len() == n,
            condensed.len() == a,
            forall|x: int| 0 <= x < a ==> is_increasing(#[trigger] condensed@[x]@),
            forall|x: int, k: int|
                0 <= x < a && 0 <= k < condensed@[x]@.len() ==> #[trigger] condensed@[x]@[k] < n,
            forall|x: int, b: usize|
                0 <= x < a && b < n ==> (#[trigger] condensed@[x]@.contains(b) <==> x != b
                    && is_joined(gs, component@, x, b as int)),
        decreases n - a,
    {
        let mut row: Vec<usize> = Vec::new();
        let mut b: usize = 0;
        while b < n
            invariant
                b <= n,
                a < n,
                n == g.len(),
                gs == successors(g@),
                is_graph(gs),
                component.len() == n,
                is_increasing(row@),
                forall|k: int| 0 <= k < row@.len() ==> #[trigger] row@[k] < b,
                forall|y: usize|
                    y < b ==> (#[trigger] row@.contains(y) <==> a != y && is_joined(
                        gs,
                        component@,
                        a as int,
                        y as int,
                    )),
            decreases n - b,
        {
            let ghost before = row@;
            let hit = b != a && joins(g, &component, a, b);
            if hit {
                row.push(b);
            }
            proof {
                assert forall|y: usize| y < b + 1 implies (#[trigger] row@.contains(y) <==> a != y
                    && is_joined(gs, component@, a as int, y as int)) by {
                    if before.contains(y) {
                        let q = choose|q: int| 0 <= q < before.len() && before[q] == y;
                        assert(row@[q] == y);
                    }
                    if row@.contains(y) {
                        let q = choose|q: int| 0 <= q < row@.len() && row@[q] == y;
                        if q < before.len() {
                            assert(before[q] == y);
                            assert(before.contains(y));
                        }
                    }
                    if y == b && hit {
                        assert(row@[before.len() as int] == b);
                    }
                }
            }
            b += 1;
        }
        let ghost rows = condensed@;
        condensed.push(row);
        proof {
            assert forall|x: int| 0 <= x < a + 1 implies is_increasing(#[trigger] condensed@[x]@) by {
                if x < a {
                    assert(condensed@[x] == rows[x]);
                }
            }
            assert forall|x: int, k: int|
                0 <= x < a + 1 && 0 <= k < condensed@[x]@.len() implies #[trigger] condensed@[x]@[k]
                < n by {
                if x < a {
                    assert(condensed@[x] == rows[x]);
                }
            }
            assert forall|x: int, y: usize| 0 <= x < a + 1 && y < n implies (
            #[trigger] condensed@[x]@.contains(y) <==> x != y && is_joined(
                gs,
                component@,
                x,
                y as int,
            )) by {
                if x < a {
                    assert(condensed@[x] == rows[x]);
                }
            }
        }
        a += 1;
    }
    proof {
        let cs = successors(condensed@);
        assert forall|x: int| 0 <= x < cs.len() implies is_increasing(#[trigger] cs[x]) by {
            assert(cs[x] == condensed@[x]@);
        }
        assert forall|x: int, k: int| 0 <= x < cs.len() && 0 <= k < cs[x].len() implies #[trigger] cs[x][k]
            < cs.len() by {
            assert(cs[x] == condensed@[x]@);
        }
        assert forall|x: int, y: usize| 0 <= x < gs.len() && y < gs.len() implies (#[trigger] cs[x].contains(
            y,
        ) <==> x != y && is_joined(gs, component@, x, y as int)) by {
            assert(cs[x] == condensed@[x]@);
        }
    }
    (condensed, component)
}

/// A node that stands for a component stands for its own.
proof fn lemma_stands_for_itself(g: Seq<Seq<usize>>, component: Seq<usize>, u: int)
    requires
        is_component_map(g, component),
        0 <= u < g.len(),
    ensures
        0 <= component[u] < g.len(),
        component[component[u] as int] == component[u],
{
    let a = component[u] as int;
    assert(is_component_of(g, u, a));
    lemma_reached_is_node(g, u, a);
    law_components_are_classes(g, component, u, a);
}

/// Along a path through the graph of the components, what stands at the
/// start reaches in `g` what the path comes to.
proof fn lemma_condensed_path(
    g: Seq<Seq<usize>>,
    component: Seq<usize>,
    c: Seq<Seq<usize>>,
    path: Seq<int>,
    k: int,
)
    requires
        is_graph(g),
        is_component_map(g, component),
        is_condensed(g, component, c),
        is_path(c, path),
        0 <= k < path.len(),
    ensures
        reaches(g, path[0], path[k]),
        k > 0 ==> component[path[k]] as int == path[k] && component[path[0]] as int == path[0],
    decreases k,
{
    if k == 0 {
        lemma_reaches_itself(g, path[0]);
    } else {
        lemma_condensed_path(g, component, c, path, k - 1);
        let a = path[k - 1];
        let b = path[k];
        assert(is_edge(c, a, path[k - 1 + 1]));
        let j = choose|j: int| 0 <= j < c[a].len() && #[trigger] c[a][j] as int == b;
        assert(c[a].contains(c[a][j]));
        assert(is_joined(g, component, a, b));
        let (u, e) = choose|u: int, e: int|
            0 <= u < g.len() && 0 <= e < g[u].len() && component[u] == a
                && component[#[trigger] g[u][e] as int] == b;
        let v = g[u][e] as int;
        assert(is_component_of(g, u, a));
        assert(is_component_of(g, v, b));
        assert(is_edge(g, u, v));
        lemma_reaches_successor(g, a, u, v);
        lemma_reaches_onward(g, a, v, b);
        lemma_reaches_onward(g, path[0], a, b);
        lemma_stands_for_itself(g, component, u);
        lemma_stands_for_itself(g, component, v);
    }
}

/// The graph of the components has no circle: two of its nodes that reach
/// each other in it are one node.
pub proof fn law_condensed_has_no_circle(
    g: Seq<Seq<usize>>,
    component: Seq<usize>,
    c: Seq<Seq<usize>>,
    a: int,
    b: int,
)
    requires
        is_graph(g),
        is_component_map(g, component),
        is_condensed(g, component, c),
        reach_each_other(c, a, b),
    ensures
        a == b,
{
    let there = choose|path: Seq<int>| is_path(c, path) && path[0] == a && #[trigger] path.last() == b;
    let back = choose|path: Seq<int>| is_path(c, path) && path[0] == b && #[trigger] path.last() == a;
    lemma_condensed_path(g, component, c, there, there.len() - 1);
    lemma_condensed_path(g, component, c, back, back.len() - 1);
    if a != b {
        assert(there.len() > 1);
        assert(back.len() > 1);
        law_components_are_classes(g, component, a, b);
    }
}

/// The graph of the components has a post-order: its nodes can be taken
/// one after another, each after the components it is joined to.
pub proof fn law_condensed_has_post_order(
    g: Seq<Seq<usize>>,
    component: Seq<usize>,
    c: Seq<Seq<usize>>,
)
    requires
        is_graph(g),
        g.len() <= usize::MAX,
        is_component_map(g, component),
        is_condensed(g, component, c),
    ensures
        has_post_order(c),
{
    assert forall|a: int, b: int| #[trigger] reach_each_other(c, a, b) implies a == b by {
        law_condensed_has_no_circle(g, component, c, a, b);
    }
    law_single_nodes_mean_post_order(c);
}

} // verus!
