//! Graphs of dependencies: the reverse of a graph, and the order in which
//! every node comes after what it depends on.
//!
//! A graph over the nodes `0 .. n` is given by the successors of each node:
//! the nodes it depends on.

pub mod reach;
pub mod scc;

use vstd::prelude::*;

verus! {

/// The successors of each node, as sequences.
pub open spec fn successors(g: Seq<Vec<usize>>) -> Seq<Seq<usize>> {
    Seq::new(g.len(), |i: int| g[i]@)
}

/// Every successor is a node of the graph.
pub open spec fn is_graph(g: Seq<Seq<usize>>) -> bool {
    forall|i: int, k: int| 0 <= i < g.len() && 0 <= k < g[i].len() ==> #[trigger] g[i][k] < g.len()
}

/// `order` holds every one of the nodes `0 .. n` exactly once.
pub open spec fn is_arrangement(order: Seq<usize>, n: nat) -> bool {
    &&& order.len() == n
    &&& order.no_duplicates()
    &&& forall|p: int| 0 <= p < order.len() ==> order[p] < n
    &&& forall|v: usize| v < n ==> order.contains(v)
}

/// Every successor of the node at `p`, but the node itself, stands before `p`.
pub open spec fn comes_after_successors(g: Seq<Seq<usize>>, order: Seq<usize>, p: int) -> bool {
    forall|k: int|
        0 <= k < g[order[p] as int].len() && #[trigger] g[order[p] as int][k] != order[p]
            ==> exists|q: int| 0 <= q < p && order[q] == g[order[p] as int][k]
}

/// `order` is a post-order of `g`: it arranges the nodes so that each comes
/// after its successors. A node may be its own successor.
pub open spec fn is_post_order(g: Seq<Seq<usize>>, order: Seq<usize>) -> bool {
    &&& is_arrangement(order, g.len())
    &&& forall|p: int| 0 <= p < order.len() ==> #[trigger] comes_after_successors(g, order, p)
}

/// The nodes that stand before the place `p` of `order`, as marks on the
/// nodes `0 .. n`.
pub open spec fn placed_before(order: Seq<usize>, p: int, n: nat) -> Seq<bool> {
    Seq::new(n, |v: int| order.take(p).contains(v as usize))
}

/// The node `v` cannot come at the place `p` of `order`: it stands before
/// that place, or it waits for a successor that does not.
pub open spec fn is_passed_over(g: Seq<Seq<usize>>, order: Seq<usize>, p: int, v: int) -> bool {
    placed_before(order, p, g.len())[v] || !is_ready(g, placed_before(order, p, g.len()), v)
}

/// At every place of `order` stands the least node that may come there.
pub open spec fn takes_least_first(g: Seq<Seq<usize>>, order: Seq<usize>) -> bool {
    forall|p: int, v: int|
        0 <= p < order.len() && 0 <= v < order[p] ==> #[trigger] is_passed_over(g, order, p, v)
}

/// `g` has a post-order: no node depends on itself by way of another.
pub open spec fn has_post_order(g: Seq<Seq<usize>>) -> bool {
    exists|order: Seq<usize>| is_post_order(g, order)
}

/// The numbers of `row` grow from each to the next.
pub open spec fn is_increasing(row: Seq<usize>) -> bool {
    forall|a: int, b: int| 0 <= a < b < row.len() ==> row[a] < row[b]
}

/// `r` is the reverse of `g`: it has the same nodes, and `i` is a successor
/// of `j` in it exactly where `j` is a successor of `i` in `g`; the
/// successors of each node stand in growing order, each once.
pub open spec fn is_inverse(g: Seq<Seq<usize>>, r: Seq<Seq<usize>>) -> bool {
    &&& r.len() == g.len()
    &&& forall|j: int| 0 <= j < r.len() ==> is_increasing(#[trigger] r[j])
    &&& forall|i: usize, j: usize|
        i < g.len() && j < g.len() ==> (#[trigger] r[j as int].contains(i) <==> g[i as int].contains(
            j,
        ))
    &&& is_graph(r)
}

/// The number of nodes that are not placed.
pub open spec fn unplaced(placed: Seq<bool>) -> nat
    decreases placed.len(),
{
    if placed.len() == 0 {
        0
    } else {
        unplaced(placed.drop_last()) + if placed.last() {
            0nat
        } else {
            1nat
        }
    }
}

/// The node `v` may come next: each of its successors is placed or is `v` itself.
pub open spec fn is_ready(g: Seq<Seq<usize>>, placed: Seq<bool>, v: int) -> bool {
    forall|k: int|
        0 <= k < g[v].len() ==> #[trigger] g[v][k] == v || placed[g[v][k] as int]
}

pub proof fn lemma_unplaced_update(placed: Seq<bool>, v: int)
    requires
        0 <= v < placed.len(),
        !placed[v],
    ensures
        unplaced(placed.update(v, true)) == unplaced(placed) - 1,
    decreases placed.len(),
{
    let after = placed.update(v, true);
    if v == placed.len() - 1 {
        assert(after.drop_last() =~= placed.drop_last());
    } else {
        assert(after.drop_last() =~= placed.drop_last().update(v, true));
        lemma_unplaced_update(placed.drop_last(), v);
    }
}

pub proof fn lemma_unplaced_none(placed: Seq<bool>)
    requires
        unplaced(placed) == 0,
    ensures
        forall|v: int| 0 <= v < placed.len() ==> placed[v],
    decreases placed.len(),
{
    if placed.len() > 0 {
        lemma_unplaced_none(placed.drop_last());
        assert forall|v: int| 0 <= v < placed.len() implies placed[v] by {
            if v < placed.len() - 1 {
                assert(placed.drop_last()[v] == placed[v]);
            }
        }
    }
}

pub proof fn lemma_unplaced_all(n: nat)
    ensures
        unplaced(Seq::new(n, |i: int| false)) == n,
    decreases n,
{
    if n > 0 {
        assert(Seq::new(n, |i: int| false).drop_last() =~= Seq::new((n - 1) as nat, |i: int| false));
        lemma_unplaced_all((n - 1) as nat);
    }
}

/// Where no node that is left may come next, the node at `p` of any
/// post-order is placed: else one of its successors would stand before it
/// and be left as well, and so on without end.
proof fn lemma_stuck(g: Seq<Seq<usize>>, placed: Seq<bool>, order: Seq<usize>, p: int)
    requires
        is_graph(g),
        placed.len() == g.len(),
        is_post_order(g, order),
        forall|v: int| 0 <= v < g.len() && !placed[v] ==> !is_ready(g, placed, v),
        0 <= p < order.len(),
    ensures
        placed[order[p] as int],
    decreases p,
{
    let u = order[p] as int;
    assert(order.contains(order[p]));
    if !placed[u] {
        assert(!is_ready(g, placed, u));
        let k = choose|k: int| 0 <= k < g[u].len() && !(#[trigger] g[u][k] == u || placed[g[u][k] as int]);
        assert(comes_after_successors(g, order, p));
        let q = choose|q: int| 0 <= q < p && order[q] == g[u][k];
        lemma_stuck(g, placed, order, q);
    }
}

fn ready(g: &Vec<Vec<usize>>, placed: &Vec<bool>, v: usize) -> (r: bool)
    requires
        is_graph(successors(g@)),
        placed.len() == g.len(),
        v < g.len(),
    ensures
        r == is_ready(successors(g@), placed@, v as int),
{
    let row = &g[v];
    let mut k: usize = 0;
    while k < row.len()
        invariant
            k <= row.len(),
            v < g.len(),
            row@ == successors(g@)[v as int],
            is_graph(successors(g@)),
            placed.len() == g.len(),
            forall|j: int| 0 <= j < k ==> #[trigger] row@[j] == v || placed@[row@[j] as int],
        decreases row.len() - k,
    {
        let w = row[k];
        assert(successors(g@)[v as int][k as int] < g.len());
        if w != v && !placed[w] {
            return false;
        }
        k += 1;
    }
    true
}

/// The post-order of `g` in which the least node that may come next always
/// does, where `g` has a post-order at all.
pub fn post_order(g: &Vec<Vec<usize>>) -> (r: Option<Vec<usize>>)
    requires
        is_graph(successors(g@)),
    ensures
        match r {
            Some(order) => is_post_order(successors(g@), order@) && takes_least_first(
                successors(g@),
                order@,
            ),
            None => !has_post_order(successors(g@)),
        },
{
    let n = g.len();
    let ghost gs = successors(g@);
    let mut placed: Vec<bool> = Vec::new();
    let mut i: usize = 0;
    while i < n
        invariant
            i <= n,
            placed@ == Seq::new(i as nat, |j: int| false),
        decreases n - i,
    {
        placed.push(false);
        assert(placed@ =~= Seq::new((i + 1) as nat, |j: int| false));
        i += 1;
    }
    proof {
        lemma_unplaced_all(n as nat);
    }
    let mut order: Vec<usize> = Vec::new();
    while order.len() < n
        invariant
            n == g.len(),
            gs == successors(g@),
            is_graph(gs),
            placed.len() == n,
            order.len() + unplaced(placed@) == n,
            order@.no_duplicates(),
            forall|v: usize| v < n ==> (#[trigger] order@.contains(v) <==> placed@[v as int]),
            forall|p: int| 0 <= p < order.len() ==> order@[p] < n,
            forall|p: int| 0 <= p < order.len() ==> #[trigger] comes_after_successors(gs, order@, p),
            takes_least_first(gs, order@),
        decreases n - order.len(),
    {
        let mut v: usize = 0;
        let mut found: Option<usize> = None;
        while v < n
            invariant_except_break
                found is None,
                forall|u: int| 0 <= u < v && !placed@[u] ==> !is_ready(gs, placed@, u),
            invariant
                v <= n,
                n == g.len(),
                gs == successors(g@),
                is_graph(gs),
                placed.len() == n,
            ensures
                match found {
                    Some(u) => u < n && !placed@[u as int] && is_ready(gs, placed@, u as int)
                        && forall|w: int|
                        0 <= w < u && !placed@[w] ==> !is_ready(gs, placed@, w),
                    None => forall|u: int| 0 <= u < n && !placed@[u] ==> !is_ready(gs, placed@, u),
                },
            decreases n - v,
        {
            if !placed[v] && ready(g, &placed, v) {
                found = Some(v);
                break ;
            }
            v += 1;
        }
        match found {
            None => {
                proof {
                    assert forall|o: Seq<usize>| !is_post_order(gs, o) by {
                        if is_post_order(gs, o) {
                            assert forall|p: int| 0 <= p < o.len() implies placed@[o[p] as int] by {
                                lemma_stuck(gs, placed@, o, p);
                            }
                            assert forall|u: int| 0 <= u < n implies placed@[u] by {
                                assert(o.contains(u as usize));
                                let p = choose|p: int| 0 <= p < o.len() && o[p] == u as usize;
                                assert(placed@[o[p] as int]);
                            }
                            assert forall|u: usize| u < n implies order@.contains(u) by {
                                assert(placed@[u as int]);
                            }
                            lemma_all_placed(placed@);
                        }
                    }
                }
                return None;
            },
            Some(u) => {
                let ghost before = order@;
                let ghost marks = placed@;
                proof {
                    lemma_unplaced_update(placed@, u as int);
                }
                placed.set(u, true);
                order.push(u);
                proof {
                    let p_new = before.len() as int;
                    assert(order@ == before.push(u));
                    assert(!before.contains(u));
                    assert(order@.take(p_new) =~= before);
                    assert(placed_before(order@, p_new, n as nat) =~= marks) by {
                        assert(before.take(p_new) =~= before);
                    }
                    assert forall|p: int, v: int|
                        0 <= p < order@.len() && 0 <= v < order@[p] implies #[trigger] is_passed_over(
                        gs,
                        order@,
                        p,
                        v,
                    ) by {
                        if p < p_new {
                            assert(order@.take(p) =~= before.take(p));
                            assert(is_passed_over(gs, before, p, v));
                        }
                    }
                    assert(order@.no_duplicates()) by {
                        assert forall|a: int, b: int|
                            0 <= a < order@.len() && 0 <= b < order@.len() && a != b implies order@[a]
                            != order@[b] by {
                            if a < p_new && b < p_new {
                                assert(before[a] != before[b]);
                            } else if a < p_new {
                                assert(before.contains(before[a]));
                            } else if b < p_new {
                                assert(before.contains(before[b]));
                            }
                        }
                    }
                    assert forall|w: usize| w < n implies (#[trigger] order@.contains(w)
                        <==> placed@[w as int]) by {
                        if w == u {
                            assert(order@[p_new] == u);
                        } else {
                            if before.contains(w) {
                                let q = choose|q: int| 0 <= q < before.len() && before[q] == w;
                                assert(order@[q] == w);
                            }
                            if order@.contains(w) {
                                let q = choose|q: int| 0 <= q < order@.len() && order@[q] == w;
                                assert(before[q] == w);
                                assert(before.contains(w));
                            }
                        }
                    }
                    assert forall|p: int| 0 <= p < order@.len() implies #[trigger] comes_after_successors(
                        gs,
                        order@,
                        p,
                    ) by {
                        if p < p_new {
                            assert(comes_after_successors(gs, before, p));
                            assert forall|k: int|
                                0 <= k < gs[order@[p] as int].len() && #[trigger] gs[order@[p] as int][k]
                                    != order@[p] implies exists|q: int|
                                0 <= q < p && order@[q] == gs[order@[p] as int][k] by {
                                let q = choose|q: int|
                                    0 <= q < p && before[q] == gs[before[p] as int][k];
                                assert(order@[q] == gs[order@[p] as int][k]);
                            }
                        } else {
                            assert forall|k: int|
                                0 <= k < gs[u as int].len() && #[trigger] gs[u as int][k]
                                    != u implies exists|q: int|
                                0 <= q < p && order@[q] == gs[u as int][k] by {
                                let w = gs[u as int][k];
                                assert(w == u || marks[w as int]);
                                assert(before.contains(w));
                                let q = choose|q: int| 0 <= q < before.len() && before[q] == w;
                                assert(order@[q] == w);
                            }
                        }
                    }
                }
            },
        }
    }
    proof {
        lemma_unplaced_none(placed@);
        assert forall|v: usize| v < n implies order@.contains(v) by {
            assert(placed@[v as int]);
        }
    }
    Some(order)
}

pub proof fn lemma_all_placed(placed: Seq<bool>)
    requires
        forall|v: int| 0 <= v < placed.len() ==> placed[v],
    ensures
        unplaced(placed) == 0,
    decreases placed.len(),
{
    if placed.len() > 0 {
        assert forall|v: int| 0 <= v < placed.drop_last().len() implies placed.drop_last()[v] by {
            assert(placed.drop_last()[v] == placed[v]);
        }
        lemma_all_placed(placed.drop_last());
    }
}

/// The reverse of `g`.
pub fn inverse(g: &Vec<Vec<usize>>) -> (r: Vec<Vec<usize>>)
    requires
        is_graph(successors(g@)),
    ensures
        is_inverse(successors(g@), successors(r@)),
{
    let n = g.len();
    let ghost gs = successors(g@);
    let mut r: Vec<Vec<usize>> = Vec::new();
    let mut j: usize = 0;
    while j < n
        invariant
            j <= n,
            n == g.len(),
            gs == successors(g@),
            is_graph(gs),
            r.len() == j,
            forall|b: int, k: int|
                0 <= b < j && 0 <= k < r@[b]@.len() ==> #[trigger] r@[b]@[k] < n,
            forall|b: int| 0 <= b < j ==> is_increasing(#[trigger] r@[b]@),
            forall|i: usize, b: usize|
                i < n && b < j ==> (#[trigger] r@[b as int]@.contains(i) <==> gs[i as int].contains(b)),
        decreases n - j,
    {
        let mut row: Vec<usize> = Vec::new();
        let mut i: usize = 0;
        while i < n
            invariant
                i <= n,
                j < n,
                n == g.len(),
                gs == successors(g@),
                forall|k: int| 0 <= k < row@.len() ==> #[trigger] row@[k] < i,
                is_increasing(row@),
                forall|a: usize| a < i ==> (#[trigger] row@.contains(a) <==> gs[a as int].contains(j)),
            decreases n - i,
        {
            let ghost before = row@;
            let hit = holds(&g[i], j);
            assert(gs[i as int] == g@[i as int]@);
            if hit {
                row.push(i);
            }
            proof {
                assert forall|a: usize| a < i + 1 implies (#[trigger] row@.contains(a)
                    <==> gs[a as int].contains(j)) by {
                    if before.contains(a) {
                        let q = choose|q: int| 0 <= q < before.len() && before[q] == a;
                        assert(row@[q] == a);
                    }
                    if row@.contains(a) {
                        let q = choose|q: int| 0 <= q < row@.len() && row@[q] == a;
                        if q < before.len() {
                            assert(before[q] == a);
                            assert(before.contains(a));
                        }
                    }
                    if a == i && hit {
                        assert(row@[before.len() as int] == i);
                    }
                }
            }
            i += 1;
        }
        let ghost rows = r@;
        r.push(row);
        proof {
            assert forall|a: usize, b: usize| a < n && b < j + 1 implies (#[trigger] r@[b as int]@.contains(
                a,
            ) <==> gs[a as int].contains(b)) by {
                if b < j {
                    assert(r@[b as int] == rows[b as int]);
                }
            }
            assert forall|b: int, k: int| 0 <= b < j + 1 && 0 <= k < r@[b]@.len() implies #[trigger] r@[b]@[k]
                < n by {
                if b < j {
                    assert(r@[b] == rows[b]);
                }
            }
            assert forall|b: int| 0 <= b < j + 1 implies is_increasing(#[trigger] r@[b]@) by {
                if b < j {
                    assert(r@[b] == rows[b]);
                }
            }
        }
        j += 1;
    }
    proof {
        let rs = successors(r@);
        assert forall|i: usize, b: usize| i < gs.len() && b < gs.len() implies (#[trigger] rs[b as int].contains(
            i,
        ) <==> gs[i as int].contains(b)) by {
            assert(rs[b as int] == r@[b as int]@);
        }
        assert forall|b: int, k: int| 0 <= b < rs.len() && 0 <= k < rs[b].len() implies #[trigger] rs[b][k]
            < rs.len() by {
            assert(rs[b] == r@[b]@);
        }
        assert forall|b: int| 0 <= b < rs.len() implies is_increasing(#[trigger] rs[b]) by {
            assert(rs[b] == r@[b]@);
        }
    }
    r
}

/// Whether `row` holds `v`.
pub fn holds(row: &Vec<usize>, v: usize) -> (r: bool)
    ensures
        r == row@.contains(v),
{
    let mut k: usize = 0;
    while k < row.len()
        invariant
            k <= row.len(),
            forall|j: int| 0 <= j < k ==> row@[j] != v,
        decreases row.len() - k,
    {
        if row[k] == v {
            return true;
        }
        k += 1;
    }
    false
}

} // verus!
