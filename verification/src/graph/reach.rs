//! Which nodes of a graph can be reached from which.

use crate::graph::{is_graph, successors, unplaced};
use vstd::prelude::*;

verus! {

/// `v` is a successor of `u`.
pub open spec fn is_edge(g: Seq<Seq<usize>>, u: int, v: int) -> bool {
    0 <= u < g.len() && 0 <= v < g.len() && exists|k: int|
        0 <= k < g[u].len() && #[trigger] g[u][k] as int == v
}

/// `path` leads through `g`: it begins at a node, and each step goes to a successor.
pub open spec fn is_path(g: Seq<Seq<usize>>, path: Seq<int>) -> bool {
    &&& path.len() >= 1
    &&& 0 <= path[0] < g.len()
    &&& forall|i: int| 0 <= i < path.len() - 1 ==> is_edge(g, #[trigger] path[i], path[i + 1])
}

/// Some path leads from `u` to `v`. Every node reaches itself.
pub open spec fn reaches(g: Seq<Seq<usize>>, u: int, v: int) -> bool {
    exists|path: Seq<int>| is_path(g, path) && path[0] == u && #[trigger] path.last() == v
}

/// `u` and `v` reach each other.
pub open spec fn reach_each_other(g: Seq<Seq<usize>>, u: int, v: int) -> bool {
    reaches(g, u, v) && reaches(g, v, u)
}

/// Every node reaches itself.
pub proof fn lemma_reaches_itself(g: Seq<Seq<usize>>, u: int)
    requires
        0 <= u < g.len(),
    ensures
        reaches(g, u, u),
{
    let path = seq![u];
    assert(is_path(g, path));
    assert(path.last() == u);
}

/// A node that reaches a node reaches its successors.
pub proof fn lemma_reaches_successor(g: Seq<Seq<usize>>, u: int, v: int, w: int)
    requires
        reaches(g, u, v),
        is_edge(g, v, w),
    ensures
        reaches(g, u, w),
{
    let path = choose|path: Seq<int>| is_path(g, path) && path[0] == u && #[trigger] path.last() == v;
    let longer = path.push(w);
    assert forall|i: int| 0 <= i < longer.len() - 1 implies is_edge(
        g,
        #[trigger] longer[i],
        longer[i + 1],
    ) by {
        if i < path.len() - 1 {
            assert(is_edge(g, path[i], path[i + 1]));
        }
    }
    assert(is_path(g, longer));
    assert(longer.last() == w);
}

/// A node that reaches the start of a path reaches every node of the path.
pub proof fn lemma_reaches_along(g: Seq<Seq<usize>>, u: int, path: Seq<int>, k: int)
    requires
        is_path(g, path),
        reaches(g, u, path[0]),
        0 <= k < path.len(),
    ensures
        reaches(g, u, path[k]),
    decreases k,
{
    if k > 0 {
        lemma_reaches_along(g, u, path, k - 1);
        assert(is_edge(g, path[k - 1], path[k - 1 + 1]));
        lemma_reaches_successor(g, u, path[k - 1], path[k]);
    }
}

/// What reaches a node reaches what that node reaches.
pub proof fn lemma_reaches_onward(g: Seq<Seq<usize>>, u: int, v: int, w: int)
    requires
        reaches(g, u, v),
        reaches(g, v, w),
    ensures
        reaches(g, u, w),
{
    let path = choose|path: Seq<int>| is_path(g, path) && path[0] == v && #[trigger] path.last() == w;
    lemma_reaches_along(g, u, path, path.len() - 1);
}

/// What is reached is a node.
pub proof fn lemma_reached_is_node(g: Seq<Seq<usize>>, u: int, v: int)
    requires
        reaches(g, u, v),
    ensures
        0 <= u < g.len(),
        0 <= v < g.len(),
{
    let path = choose|path: Seq<int>| is_path(g, path) && path[0] == u && #[trigger] path.last() == v;
    assert(path.last() == path[path.len() - 1]);
    if path.len() > 1 {
        let i = path.len() - 2;
        assert(is_edge(g, path[i], path[i + 1]));
    }
}

/// The marks hold every successor of every marked node.
pub open spec fn is_closed(g: Seq<Seq<usize>>, marks: Seq<bool>) -> bool {
    forall|x: int, k: int|
        0 <= x < g.len() && marks[x] && 0 <= k < g[x].len() ==> marks[#[trigger] g[x][k] as int]
}

/// Marks that hold the start of a path and every successor of what they
/// hold, hold every node of the path.
pub proof fn lemma_closed_holds_path(g: Seq<Seq<usize>>, marks: Seq<bool>, path: Seq<int>, k: int)
    requires
        is_graph(g),
        marks.len() == g.len(),
        is_closed(g, marks),
        is_path(g, path),
        marks[path[0]],
        0 <= k < path.len(),
    ensures
        marks[path[k]],
    decreases k,
{
    if k > 0 {
        lemma_closed_holds_path(g, marks, path, k - 1);
        let x = path[k - 1];
        assert(is_edge(g, x, path[k - 1 + 1]));
        let j = choose|j: int| 0 <= j < g[x].len() && #[trigger] g[x][j] as int == path[k];
        assert(marks[g[x][j] as int]);
    }
}

proof fn lemma_unplaced_marked(marks: Seq<bool>, v: int)
    requires
        0 <= v < marks.len(),
        !marks[v],
    ensures
        unplaced(marks.update(v, true)) == unplaced(marks) - 1,
        unplaced(marks) >= 1,
    decreases marks.len(),
{
    let after = marks.update(v, true);
    if v == marks.len() - 1 {
        assert(after.drop_last() =~= marks.drop_last());
    } else {
        assert(after.drop_last() =~= marks.drop_last().update(v, true));
        lemma_unplaced_marked(marks.drop_last(), v);
    }
}

/// The nodes that `u` reaches, as marks on the nodes.
pub fn reach_from(g: &Vec<Vec<usize>>, u: usize) -> (marks: Vec<bool>)
    requires
        is_graph(successors(g@)),
        u < g.len(),
    ensures
        marks.len() == g.len(),
        forall|v: int| 0 <= v < g.len() ==> marks@[v] == reaches(successors(g@), u as int, v),
{
    let n = g.len();
    let ghost gs = successors(g@);
    let mut marks: Vec<bool> = Vec::new();
    let mut i: usize = 0;
    while i < n
        invariant
            i <= n,
            marks.len() == i,
            forall|j: int| 0 <= j < i ==> !marks@[j],
        decreases n - i,
    {
        marks.push(false);
        i += 1;
    }
    marks.set(u, true);
    let mut stack: Vec<usize> = Vec::new();
    stack.push(u);
    proof {
        lemma_reaches_itself(gs, u as int);
        assert(stack@[0] == u);
        assert forall|x: int| 0 <= x < n && marks@[x] implies stack@.contains(x as usize) by {
            assert(x == u);
        }
    }
    while stack.len() > 0
        invariant
            n == g.len(),
            gs == successors(g@),
            is_graph(gs),
            u < n,
            marks.len() == n,
            marks@[u as int],
            forall|k: int| 0 <= k < stack.len() ==> stack@[k] < n && marks@[stack@[k] as int],
            forall|v: int| 0 <= v < n && marks@[v] ==> reaches(gs, u as int, v),
            forall|y: int, j: int|
                0 <= y < n && marks@[y] && !stack@.contains(y as usize) && 0 <= j < gs[y].len()
                    ==> marks@[#[trigger] gs[y][j] as int],
        decreases 2 * unplaced(marks@) + stack.len(),
    {
        let ghost before = stack@;
        let ghost measure = 2 * unplaced(marks@) + stack.len();
        let x = stack.pop().unwrap();
        let ghost rest = stack@;
        proof {
            assert(before[before.len() - 1] == x);
            assert(marks@[x as int]);
            assert forall|y: usize| #[trigger] before.contains(y) && y != x implies rest.contains(
                y,
            ) by {
                let q = choose|q: int| 0 <= q < before.len() && before[q] == y;
                assert(rest[q] == y);
            }
        }
        let row = &g[x];
        assert(row@ == gs[x as int]);
        let mut k: usize = 0;
        while k < row.len()
            invariant
                k <= row.len(),
                n == g.len(),
                gs == successors(g@),
                is_graph(gs),
                u < n,
                x < n,
                row@ == gs[x as int],
                marks.len() == n,
                marks@[u as int],
                marks@[x as int],
                forall|j: int| 0 <= j < stack.len() ==> stack@[j] < n && marks@[stack@[j] as int],
                forall|v: int| 0 <= v < n && marks@[v] ==> reaches(gs, u as int, v),
                forall|y: int, j: int|
                    0 <= y < n && y != x && marks@[y] && !stack@.contains(y as usize) && 0 <= j
                        < gs[y].len() ==> marks@[#[trigger] gs[y][j] as int],
                forall|j: int| 0 <= j < k ==> marks@[#[trigger] row@[j] as int],
                2 * unplaced(marks@) + stack.len() < measure,
            decreases row.len() - k,
        {
            let w = row[k];
            assert(gs[x as int][k as int] < n);
            if !marks[w] {
                let ghost seen = marks@;
                let ghost pile = stack@;
                proof {
                    lemma_unplaced_marked(marks@, w as int);
                    assert(gs[x as int][k as int] as int == w as int);
                    assert(is_edge(gs, x as int, w as int));
                    lemma_reaches_successor(gs, u as int, x as int, w as int);
                }
                marks.set(w, true);
                stack.push(w);
                proof {
                    assert(stack@[stack@.len() - 1] == w);
                    assert forall|y: usize| #[trigger] pile.contains(y) implies stack@.contains(y) by {
                        let q = choose|q: int| 0 <= q < pile.len() && pile[q] == y;
                        assert(stack@[q] == y);
                    }
                    assert forall|v: int| 0 <= v < n && marks@[v] implies reaches(gs, u as int, v) by {
                        if v != w {
                            assert(seen[v]);
                        }
                    }
                    assert forall|y: int, j: int|
                        0 <= y < n && y != x && marks@[y] && !stack@.contains(y as usize) && 0 <= j
                            < gs[y].len() implies marks@[#[trigger] gs[y][j] as int] by {
                        assert(y != w);
                        assert(seen[y]);
                        assert(!pile.contains(y as usize));
                        assert(seen[gs[y][j] as int]);
                    }
                    assert forall|j: int| 0 <= j < k implies marks@[#[trigger] row@[j] as int] by {
                        assert(seen[row@[j] as int]);
                    }
                }
            }
            k += 1;
        }
    }
    proof {
        assert(is_closed(gs, marks@)) by {
            assert forall|y: int, j: int|
                0 <= y < gs.len() && marks@[y] && 0 <= j < gs[y].len() implies marks@[#[trigger] gs[y][j] as int] by {
                assert(!stack@.contains(y as usize));
            }
        }
        assert forall|v: int| 0 <= v < n implies marks@[v] == reaches(gs, u as int, v) by {
            if reaches(gs, u as int, v) {
                let path = choose|path: Seq<int>|
                    is_path(gs, path) && path[0] == u as int && #[trigger] path.last() == v;
                lemma_closed_holds_path(gs, marks@, path, path.len() - 1);
            }
        }
    }
    marks
}

} // verus!
