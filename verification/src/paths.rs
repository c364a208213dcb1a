//! Paths through the open cells of a grid, and why a carved grid has
//! exactly one between any two of its open cells.

use vstd::prelude::*;
use crate::carving::{adjacent, has_parent, is_carve_order, is_tree, links_back};
use crate::grid::is_open;

verus! {

/// Every cell of `path` shares an edge with the next one.
pub open spec fn steps(path: Seq<(int, int)>) -> bool {
    forall|k: int| 0 <= k < path.len() - 1 ==> adjacent(#[trigger] path[k], path[k + 1])
}

/// `path` is a simple path of `grid`: it leads through open cells, from
/// each to one that shares an edge with it, and comes to no cell twice.
pub open spec fn is_simple_path(grid: Seq<Seq<bool>>, path: Seq<(int, int)>) -> bool {
    &&& path.len() > 0
    &&& forall|k: int| 0 <= k < path.len() ==> is_open(grid, (#[trigger] path[k]).0, path[k].1)
    &&& steps(path)
    &&& path.no_duplicates()
}

/// Some simple path of `grid` leads from `a` to `b`.
pub open spec fn joined(grid: Seq<Seq<bool>>, a: (int, int), b: (int, int)) -> bool {
    exists|path: Seq<(int, int)>|
        #[trigger] is_simple_path(grid, path) && path.first() == a && path.last() == b
}

/// Every open cell of `grid` can be reached from every other.
pub open spec fn is_connected(grid: Seq<Seq<bool>>) -> bool {
    forall|a: (int, int), b: (int, int)|
        is_open(grid, a.0, a.1) && is_open(grid, b.0, b.1) ==> #[trigger] joined(grid, a, b)
}

/// No two simple paths of `grid` lead from the same cell to the same cell:
/// the open cells hold no cycle.
pub open spec fn has_single_paths(grid: Seq<Seq<bool>>) -> bool {
    forall|p: Seq<(int, int)>, q: Seq<(int, int)>|
        #[trigger] is_simple_path(grid, p) && #[trigger] is_simple_path(grid, q) && p.first()
            == q.first() && p.last() == q.last() ==> p == q
}

/// `cell` is among the first `n` cells of `order`.
pub open spec fn in_prefix(order: Seq<(int, int)>, n: int, cell: (int, int)) -> bool {
    exists|i: int| 0 <= i < n && i < order.len() && #[trigger] order[i] == cell
}

/// `order` lists cells, each once, so that every cell but the first shares
/// an edge with exactly one cell before it.
pub open spec fn is_leaf_order(order: Seq<(int, int)>) -> bool {
    &&& order.no_duplicates()
    &&& forall|i: int| 1 <= i < order.len() ==> #[trigger] has_parent(order, i)
    &&& forall|i: int, j: int, k: int|
        #[trigger] links_back(order, i, j) && #[trigger] links_back(order, i, k) ==> j == k
}

/// `path` is a simple path through the first `n` cells of `order`.
pub open spec fn is_path_in(order: Seq<(int, int)>, n: int, path: Seq<(int, int)>) -> bool {
    &&& path.len() > 0
    &&& forall|k: int| 0 <= k < path.len() ==> in_prefix(order, n, #[trigger] path[k])
    &&& steps(path)
    &&& path.no_duplicates()
}

/// A path through the first cells of an order is a path through more of
/// them.
proof fn lemma_path_in_more(order: Seq<(int, int)>, n: int, path: Seq<(int, int)>)
    requires
        is_path_in(order, n, path),
    ensures
        is_path_in(order, n + 1, path),
{
    assert forall|k: int| 0 <= k < path.len()
        implies in_prefix(order, n + 1, #[trigger] path[k]) by {
        assert(in_prefix(order, n, path[k]));
        let i = choose|i: int| 0 <= i < n && i < order.len() && #[trigger] order[i] == path[k];
        assert(order[i] == path[k]);
    }
}

/// A path through the first `n` cells that does not touch the last of them
/// is a path through the first `n - 1`.
proof fn lemma_path_in_less(order: Seq<(int, int)>, n: int, path: Seq<(int, int)>)
    requires
        1 <= n <= order.len(),
        is_path_in(order, n, path),
        forall|k: int| 0 <= k < path.len() ==> #[trigger] path[k] != order[n - 1],
    ensures
        is_path_in(order, n - 1, path),
{
    assert forall|k: int| 0 <= k < path.len()
        implies in_prefix(order, n - 1, #[trigger] path[k]) by {
        assert(in_prefix(order, n, path[k]));
        let i = choose|i: int| 0 <= i < n && i < order.len() && #[trigger] order[i] == path[k];
        assert(order[i] == path[k]);
        assert(i != n - 1);
    }
}

/// The place in the order of a cell that shares an edge with the last of
/// the first `n` cells and is another of them: it is the one cell before the
/// last that the last is linked to.
proof fn lemma_parent_place(order: Seq<(int, int)>, n: int, cell: (int, int)) -> (place: int)
    requires
        is_leaf_order(order),
        1 <= n <= order.len(),
        in_prefix(order, n, cell),
        cell != order[n - 1],
        adjacent(cell, order[n - 1]),
    ensures
        0 <= place < n - 1,
        order[place] == cell,
        links_back(order, n - 1, place),
{
    let place = choose|i: int| 0 <= i < n && i < order.len() && #[trigger] order[i] == cell;
    place
}

/// The last of the first `n` cells of an order is no inner cell of a path
/// through them: it would share an edge with two of the cells before it.
proof fn lemma_last_is_no_inner_cell(
    order: Seq<(int, int)>,
    n: int,
    path: Seq<(int, int)>,
    k: int,
)
    requires
        is_leaf_order(order),
        1 <= n <= order.len(),
        is_path_in(order, n, path),
        0 < k < path.len() - 1,
    ensures
        path[k] != order[n - 1],
{
    if path[k] == order[n - 1] {
        let before = path[k - 1];
        let after = path[k + 1];
        assert(adjacent(path[k - 1], path[k]));
        assert(adjacent(path[k], path[k + 1]));
        let i = lemma_parent_place(order, n, before);
        let j = lemma_parent_place(order, n, after);
        // one cell before the last, twice on a path that comes to no cell twice
        assert(i == j);
        assert(path[k - 1] == path[k + 1]);
    }
}

/// A path that ends where it starts has one cell only.
proof fn lemma_round_path(order: Seq<(int, int)>, n: int, path: Seq<(int, int)>)
    requires
        is_path_in(order, n, path),
        path.first() == path.last(),
    ensures
        path.len() == 1,
{
    assert(path[0] == path[path.len() - 1]);
}

/// What is left of a path without its first cell is a path.
proof fn lemma_path_tail(order: Seq<(int, int)>, n: int, path: Seq<(int, int)>)
    requires
        is_path_in(order, n, path),
        path.len() >= 2,
    ensures
        is_path_in(order, n, path.subrange(1, path.len() as int)),
        path.subrange(1, path.len() as int).last() == path.last(),
        path.subrange(1, path.len() as int).first() == path[1],
        path == seq![path.first()] + path.subrange(1, path.len() as int),
{
    let rest = path.subrange(1, path.len() as int);
    assert forall|k: int| 0 <= k < rest.len() implies in_prefix(order, n, #[trigger] rest[k]) by {
        assert(rest[k] == path[k + 1]);
    }
    assert forall|k: int| 0 <= k < rest.len() - 1
        implies adjacent(#[trigger] rest[k], rest[k + 1]) by {
        assert(rest[k] == path[k + 1]);
        assert(rest[k + 1] == path[k + 2]);
        assert(adjacent(path[k + 1], path[k + 1 + 1]));
    }
    assert forall|i: int, j: int| 0 <= i < rest.len() && 0 <= j < rest.len() && i != j
        implies rest[i]
        != rest[j] by {
        assert(rest[i] == path[i + 1]);
        assert(rest[j] == path[j + 1]);
    }
    assert(path =~= seq![path.first()] + rest);
}

/// What is left of a path without its last cell is a path.
proof fn lemma_path_front(order: Seq<(int, int)>, n: int, path: Seq<(int, int)>)
    requires
        is_path_in(order, n, path),
        path.len() >= 2,
    ensures
        is_path_in(order, n, path.drop_last()),
        path.drop_last().first() == path.first(),
        path.drop_last().last() == path[path.len() - 2],
        path == path.drop_last().push(path.last()),
{
    let rest = path.drop_last();
    assert forall|k: int| 0 <= k < rest.len() implies in_prefix(order, n, #[trigger] rest[k]) by {
        assert(rest[k] == path[k]);
    }
    assert forall|k: int| 0 <= k < rest.len() - 1
        implies adjacent(#[trigger] rest[k], rest[k + 1]) by {
        assert(rest[k] == path[k]);
        assert(rest[k + 1] == path[k + 1]);
        assert(adjacent(path[k], path[k + 1]));
    }
    assert forall|i: int, j: int| 0 <= i < rest.len() && 0 <= j < rest.len() && i != j
        implies rest[i]
        != rest[j] by {
        assert(rest[i] == path[i]);
        assert(rest[j] == path[j]);
    }
    assert(path =~= rest.push(path.last()));
}

/// A path through the first `n` cells whose ends are not the last of them
/// does not touch the last of them.
proof fn lemma_path_inside(order: Seq<(int, int)>, n: int, path: Seq<(int, int)>)
    requires
        is_leaf_order(order),
        1 <= n <= order.len(),
        is_path_in(order, n, path),
        path.first() != order[n - 1],
        path.last() != order[n - 1],
    ensures
        is_path_in(order, n - 1, path),
{
    assert forall|k: int| 0 <= k < path.len() implies #[trigger] path[k] != order[n - 1] by {
        if 0 < k < path.len() - 1 {
            lemma_last_is_no_inner_cell(order, n, path, k);
        }
    }
    lemma_path_in_less(order, n, path);
}

/// Two simple paths through the first `n` cells of a leaf order that join
/// the same two cells are the same path.
pub proof fn lemma_single_path(
    order: Seq<(int, int)>,
    n: int,
    p: Seq<(int, int)>,
    q: Seq<(int, int)>,
)
    requires
        is_leaf_order(order),
        0 <= n <= order.len(),
        is_path_in(order, n, p),
        is_path_in(order, n, q),
        p.first() == q.first(),
        p.last() == q.last(),
    ensures
        p == q,
    decreases n,
{
    assert(in_prefix(order, n, p[0]));
    let leaf = order[n - 1];
    if p.first() != leaf && p.last() != leaf {
        lemma_path_inside(order, n, p);
        lemma_path_inside(order, n, q);
        lemma_single_path(order, n - 1, p, q);
    } else if p.first() == leaf && p.last() == leaf {
        lemma_round_path(order, n, p);
        lemma_round_path(order, n, q);
        assert(p =~= q);
    } else if p.first() == leaf {
        assert(p.len() >= 2 && q.len() >= 2);
        lemma_path_tail(order, n, p);
        lemma_path_tail(order, n, q);
        let p_rest = p.subrange(1, p.len() as int);
        let q_rest = q.subrange(1, q.len() as int);
        // both go on from the one cell that the leaf hangs on
        assert(adjacent(p[0], p[1]) && adjacent(q[0], q[1]));
        assert(p[1] != p[0] && q[1] != q[0]);
        assert(in_prefix(order, n, p[1]) && in_prefix(order, n, q[1]));
        let i = lemma_parent_place(order, n, p[1]);
        let j = lemma_parent_place(order, n, q[1]);
        assert(i == j);
        lemma_path_inside(order, n, p_rest);
        lemma_path_inside(order, n, q_rest);
        lemma_single_path(order, n - 1, p_rest, q_rest);
    } else {
        assert(p.len() >= 2 && q.len() >= 2);
        lemma_path_front(order, n, p);
        lemma_path_front(order, n, q);
        let p_rest = p.drop_last();
        let q_rest = q.drop_last();
        let p_end = p.len() - 1;
        let q_end = q.len() - 1;
        assert(adjacent(p[p_end - 1], p[p_end - 1 + 1])
            && adjacent(q[q_end - 1], q[q_end - 1 + 1]));
        assert(p[p_end - 1] != p[p_end] && q[q_end - 1] != q[q_end]);
        assert(in_prefix(order, n, p[p_end - 1]) && in_prefix(order, n, q[q_end - 1]));
        let i = lemma_parent_place(order, n, p[p_end - 1]);
        let j = lemma_parent_place(order, n, q[q_end - 1]);
        assert(i == j);
        lemma_path_inside(order, n, p_rest);
        lemma_path_inside(order, n, q_rest);
        lemma_single_path(order, n - 1, p_rest, q_rest);
    }
}

/// A simple path through the first `n` cells of a leaf order, from the cell
/// at `i` to the cell at `j`.
pub proof fn lemma_path_between(order: Seq<(int, int)>, n: int, i: int, j: int) -> (path: Seq<
    (int, int),
>)
    requires
        is_leaf_order(order),
        0 <= i < n <= order.len(),
        0 <= j < n,
    ensures
        is_path_in(order, n, path),
        path.first() == order[i],
        path.last() == order[j],
    decreases n,
{
    let leaf = n - 1;
    if i < leaf && j < leaf {
        let path = lemma_path_between(order, n - 1, i, j);
        lemma_path_in_more(order, n - 1, path);
        path
    } else if i == leaf && j == leaf {
        let path = seq![order[i]];
        assert(path[0] == order[i]);
        assert forall|k: int| 0 <= k < path.len()
            implies in_prefix(order, n, #[trigger] path[k]) by {
            assert(order[i] == path[k]);
        }
        path
    } else if i == leaf {
        assert(has_parent(order, i));
        let parent = choose|parent: int| links_back(order, i, parent);
        let rest = lemma_path_between(order, n - 1, parent, j);
        let path = seq![order[i]] + rest;
        lemma_path_grown(order, n, rest, path, true);
        path
    } else {
        assert(has_parent(order, j));
        let parent = choose|parent: int| links_back(order, j, parent);
        let rest = lemma_path_between(order, n - 1, i, parent);
        let path = rest.push(order[j]);
        lemma_path_grown(order, n, rest, path, false);
        path
    }
}

/// A path through the first `n - 1` cells, with the last of the first `n`
/// cells put before its first cell or after its last one, is a path through
/// the first `n` cells if the cell next to the new one shares an edge with
/// it.
proof fn lemma_path_grown(
    order: Seq<(int, int)>,
    n: int,
    rest: Seq<(int, int)>,
    path: Seq<(int, int)>,
    in_front: bool,
)
    requires
        is_leaf_order(order),
        1 <= n <= order.len(),
        is_path_in(order, n - 1, rest),
        in_front ==> path == seq![order[n - 1]] + rest && adjacent(order[n - 1], rest.first()),
        !in_front ==> path == rest.push(order[n - 1]) && adjacent(rest.last(), order[n - 1]),
    ensures
        is_path_in(order, n, path),
{
    let leaf = order[n - 1];
    lemma_path_in_more(order, n - 1, rest);
    assert forall|k: int| 0 <= k < rest.len() implies #[trigger] rest[k] != leaf by {
        assert(in_prefix(order, n - 1, rest[k]));
        let i = choose|i: int| 0 <= i < n - 1 && i < order.len() && #[trigger] order[i] == rest[k];
        assert(order[i] == rest[k]);
    }
    assert(in_prefix(order, n, leaf)) by {
        assert(order[n - 1] == leaf);
    }
    if in_front {
        assert forall|k: int| 0 <= k < path.len()
            implies in_prefix(order, n, #[trigger] path[k]) by {
            if k > 0 {
                assert(path[k] == rest[k - 1]);
            }
        }
        assert forall|k: int| 0 <= k < path.len() - 1 implies adjacent(
            #[trigger] path[k],
            path[k + 1],
        ) by {
            if k > 0 {
                assert(path[k] == rest[k - 1]);
                assert(path[k + 1] == rest[k - 1 + 1]);
                assert(adjacent(rest[k - 1], rest[k - 1 + 1]));
            } else {
                assert(path[1] == rest[0]);
            }
        }
        assert forall|i: int, j: int| 0 <= i < path.len() && 0 <= j < path.len() && i != j
            implies path[i]
            != path[j] by {
            if i > 0 {
                assert(path[i] == rest[i - 1]);
            }
            if j > 0 {
                assert(path[j] == rest[j - 1]);
            }
        }
    } else {
        assert forall|k: int| 0 <= k < path.len()
            implies in_prefix(order, n, #[trigger] path[k]) by {
            if k < rest.len() {
                assert(path[k] == rest[k]);
            }
        }
        assert forall|k: int| 0 <= k < path.len() - 1 implies adjacent(
            #[trigger] path[k],
            path[k + 1],
        ) by {
            assert(path[k] == rest[k]);
            if k + 1 < rest.len() {
                assert(path[k + 1] == rest[k + 1]);
                assert(adjacent(rest[k], rest[k + 1]));
            }
        }
        assert forall|i: int, j: int| 0 <= i < path.len() && 0 <= j < path.len() && i != j
            implies path[i]
            != path[j] by {
            if i < rest.len() {
                assert(path[i] == rest[i]);
            }
            if j < rest.len() {
                assert(path[j] == rest[j]);
            }
        }
    }
}

/// The simple paths of a grid with a carve order are the simple paths
/// through the cells of that order.
proof fn lemma_paths_of_order(grid: Seq<Seq<bool>>, order: Seq<(int, int)>, path: Seq<(int, int)>)
    requires
        is_carve_order(grid, order),
    ensures
        is_simple_path(grid, path) == is_path_in(order, order.len() as int, path),
{
    let n = order.len() as int;
    if is_simple_path(grid, path) {
        assert forall|k: int| 0 <= k < path.len()
            implies in_prefix(order, n, #[trigger] path[k]) by {
            assert(is_open(grid, path[k].0, path[k].1));
            assert(order.contains(path[k]));
            let i = choose|i: int| 0 <= i < order.len() && order[i] == path[k];
            assert(order[i] == path[k]);
        }
    }
    if is_path_in(order, n, path) {
        assert forall|k: int| 0 <= k < path.len() implies is_open(
            grid,
            (#[trigger] path[k]).0,
            path[k].1,
        ) by {
            assert(in_prefix(order, n, path[k]));
            let i = choose|i: int| 0 <= i < n && i < order.len() && #[trigger] order[i] == path[k];
            assert(is_open(grid, order[i].0, order[i].1));
        }
    }
}

/// In a grid whose open cells form a tree, every open cell is reached from
/// every other open cell by exactly one simple path: by one, and by no
/// second one.
pub proof fn lemma_tree_paths(grid: Seq<Seq<bool>>)
    requires
        is_tree(grid),
    ensures
        is_connected(grid),
        has_single_paths(grid),
{
    let order = choose|order: Seq<(int, int)>| is_carve_order(grid, order);
    let n = order.len() as int;
    assert(is_leaf_order(order));
    assert forall|a: (int, int), b: (int, int)|
        is_open(grid, a.0, a.1) && is_open(grid, b.0, b.1)
            implies #[trigger] joined(grid, a, b) by {
        assert(order.contains((a.0, a.1)));
        assert(order.contains((b.0, b.1)));
        let i = choose|i: int| 0 <= i < order.len() && order[i] == a;
        let j = choose|j: int| 0 <= j < order.len() && order[j] == b;
        let path = lemma_path_between(order, n, i, j);
        lemma_paths_of_order(grid, order, path);
        assert(is_simple_path(grid, path) && path.first() == a && path.last() == b);
    }
    assert forall|p: Seq<(int, int)>, q: Seq<(int, int)>|
        #[trigger] is_simple_path(grid, p) && #[trigger] is_simple_path(grid, q) && p.first()
            == q.first() && p.last() == q.last() implies p == q by {
        lemma_paths_of_order(grid, order, p);
        lemma_paths_of_order(grid, order, q);
        lemma_single_path(order, n, p, q);
    }
}

} // verus!
