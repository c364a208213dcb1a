//! What it means for a wall grid to be carved: the open cells form a tree,
//! and no passage can be dug any further.

use vstd::prelude::*;
use crate::grid::{in_grid, is_open, is_wall, opened};

verus! {

/// The four cells that the generator examines around `(x, y)`: to the left,
/// above, to the right and below. On the left and the upper border the cell
/// itself takes the place of the neighbor that the board does not have.
pub open spec fn neighbor_cells(x: int, y: int) -> Seq<(int, int)> {
    seq![
        (if x > 0 { x - 1 } else { 0 }, y),
        (x, if y > 0 { y - 1 } else { 0 }),
        (x + 1, y),
        (x, y + 1),
    ]
}

/// Two cells share an edge.
pub open spec fn adjacent(a: (int, int), b: (int, int)) -> bool {
    ||| a.0 == b.0 && (a.1 == b.1 + 1 || b.1 == a.1 + 1)
    ||| a.1 == b.1 && (a.0 == b.0 + 1 || b.0 == a.0 + 1)
}

/// Some cell around `(x, y)`, other than `parent`, is open.
pub open spec fn touches_open(grid: Seq<Seq<bool>>, x: int, y: int, parent: (int, int)) -> bool {
    exists|k: int|
        0 <= k < 4 && (#[trigger] neighbor_cells(x, y)[k]) != parent && is_open(
            grid,
            neighbor_cells(x, y)[k].0,
            neighbor_cells(x, y)[k].1,
        )
}

/// A passage may be dug from the open cell `from` into `to`: `to` is a wall
/// of the grid, and no cell around it is open but `from`.
pub open spec fn can_carve(grid: Seq<Seq<bool>>, from: (int, int), to: (int, int)) -> bool {
    is_wall(grid, to.0, to.1) && !touches_open(grid, to.0, to.1, from)
}

/// No passage can be dug from `(x, y)`.
pub open spec fn cell_saturated(grid: Seq<Seq<bool>>, x: int, y: int) -> bool {
    forall|k: int| 0 <= k < 4 ==> !can_carve(grid, (x, y), #[trigger] neighbor_cells(x, y)[k])
}

/// No passage can be dug from any open cell.
pub open spec fn saturated(grid: Seq<Seq<bool>>) -> bool {
    forall|x: int, y: int| #[trigger] is_open(grid, x, y) ==> cell_saturated(grid, x, y)
}

/// The cell at `i` shares an edge with the earlier cell at `j`.
pub open spec fn links_back(order: Seq<(int, int)>, i: int, j: int) -> bool {
    0 <= j < i < order.len() && adjacent(order[j], order[i])
}

/// The cell at `i` shares an edge with some earlier cell.
pub open spec fn has_parent(order: Seq<(int, int)>, i: int) -> bool {
    exists|j: int| links_back(order, i, j)
}

/// `order` lists the open cells of `grid`, each once, so that every cell but
/// the first shares an edge with exactly one cell before it. A grid with such
/// an order is a tree: it grew from the first cell by one leaf at a time.
pub open spec fn is_carve_order(grid: Seq<Seq<bool>>, order: Seq<(int, int)>) -> bool {
    &&& order.len() > 0
    &&& order.no_duplicates()
    &&& forall|i: int| 0 <= i < order.len() ==> is_open(grid, (#[trigger] order[i]).0, order[i].1)
    &&& forall|x: int, y: int| #[trigger] is_open(grid, x, y) ==> order.contains((x, y))
    &&& forall|i: int| 1 <= i < order.len() ==> #[trigger] has_parent(order, i)
    &&& forall|i: int, j: int, k: int|
        #[trigger] links_back(order, i, j) && #[trigger] links_back(order, i, k) ==> j == k
}

/// The open cells of `grid` form a tree.
pub open spec fn is_tree(grid: Seq<Seq<bool>>) -> bool {
    exists|order: Seq<(int, int)>| is_carve_order(grid, order)
}

/// `grid` is a finished carving: its open cells form a tree that cannot grow.
pub open spec fn is_carving(grid: Seq<Seq<bool>>) -> bool {
    is_tree(grid) && saturated(grid)
}

/// Each of the four cells around a cell with no negative coordinate is the
/// cell itself or shares an edge with it.
pub proof fn lemma_neighbor_adjacent(x: int, y: int, k: int)
    requires
        0 <= k < 4,
        x >= 0,
        y >= 0,
    ensures
        neighbor_cells(x, y)[k] == (x, y) || adjacent((x, y), neighbor_cells(x, y)[k]),
{
}

/// A cell with no negative coordinate that shares an edge with `(x, y)` is
/// one of the four cells around `(x, y)`.
pub proof fn lemma_adjacent_neighbor(x: int, y: int, other: (int, int)) -> (k: int)
    requires
        adjacent((x, y), other),
        other.0 >= 0,
        other.1 >= 0,
    ensures
        0 <= k < 4,
        neighbor_cells(x, y)[k] == other,
{
    if other.0 == x - 1 {
        0
    } else if other.1 == y - 1 {
        1
    } else if other.0 == x + 1 {
        2
    } else {
        3
    }
}

/// A cell from which nothing can be dug stays so when another cell opens.
pub proof fn lemma_saturated_stays(grid: Seq<Seq<bool>>, x: int, y: int, ox: int, oy: int)
    requires
        cell_saturated(grid, x, y),
        in_grid(grid, ox, oy),
    ensures
        cell_saturated(opened(grid, ox, oy), x, y),
{
    let after = opened(grid, ox, oy);
    assert forall|k: int| 0 <= k < 4 implies !can_carve(
        after,
        (x, y),
        #[trigger] neighbor_cells(x, y)[k],
    ) by {
        let to = neighbor_cells(x, y)[k];
        assert(!can_carve(grid, (x, y), to));
        if is_wall(after, to.0, to.1) {
            lemma_opened_cell(grid, ox, oy, to.0, to.1);
            assert(is_wall(grid, to.0, to.1));
            let j = choose|j: int|
                0 <= j < 4 && (#[trigger] neighbor_cells(to.0, to.1)[j]) != (x, y) && is_open(
                    grid,
                    neighbor_cells(to.0, to.1)[j].0,
                    neighbor_cells(to.0, to.1)[j].1,
                );
            let n = neighbor_cells(to.0, to.1)[j];
            lemma_opened_cell(grid, ox, oy, n.0, n.1);
            assert(is_open(after, n.0, n.1));
        }
    }
}

/// What opening the cell `(ox, oy)` does to the cell `(x, y)`.
pub proof fn lemma_opened_cell(grid: Seq<Seq<bool>>, ox: int, oy: int, x: int, y: int)
    requires
        in_grid(grid, ox, oy),
    ensures
        in_grid(opened(grid, ox, oy), x, y) == in_grid(grid, x, y),
        is_open(opened(grid, ox, oy), x, y) == (is_open(grid, x, y) || (x == ox && y == oy)),
        is_wall(opened(grid, ox, oy), x, y) == (is_wall(grid, x, y) && !(x == ox && y == oy)),
{
}

/// Digging from the open cell `from` into a cell around it that can be
/// carved keeps the tree a tree: the new cell comes last in the order.
pub proof fn lemma_carve_extends(
    grid: Seq<Seq<bool>>,
    order: Seq<(int, int)>,
    from: (int, int),
    k: int,
)
    requires
        is_carve_order(grid, order),
        is_open(grid, from.0, from.1),
        0 <= k < 4,
        can_carve(grid, from, neighbor_cells(from.0, from.1)[k]),
    ensures
        is_carve_order(
            opened(
                grid,
                neighbor_cells(from.0, from.1)[k].0,
                neighbor_cells(from.0, from.1)[k].1,
            ),
            order.push(neighbor_cells(from.0, from.1)[k]),
        ),
{
    let to = neighbor_cells(from.0, from.1)[k];
    let after = opened(grid, to.0, to.1);
    let longer = order.push(to);
    let last = order.len() as int;
    lemma_neighbor_adjacent(from.0, from.1, k);
    assert(adjacent(from, to));
    // the new cell is not in the old order: it is a wall
    assert forall|i: int| 0 <= i < order.len() implies order[i] != to by {
        assert(is_open(grid, order[i].0, order[i].1));
    }
    assert(longer.no_duplicates());
    assert forall|i: int| 0 <= i < longer.len() implies is_open(
        after,
        (#[trigger] longer[i]).0,
        longer[i].1,
    ) by {
        lemma_opened_cell(grid, to.0, to.1, longer[i].0, longer[i].1);
        if i < last {
            assert(longer[i] == order[i]);
        }
    }
    assert forall|x: int, y: int| #[trigger] is_open(after, x, y) implies longer.contains(
        (x, y),
    ) by {
        lemma_opened_cell(grid, to.0, to.1, x, y);
        if x == to.0 && y == to.1 {
            assert(longer[last] == (x, y));
        } else {
            assert(is_open(grid, x, y));
            let i = choose|i: int| 0 <= i < order.len() && order[i] == (x, y);
            assert(longer[i] == (x, y));
        }
    }
    // the cell dug from is the parent of the new cell
    assert(order.contains(from));
    let parent = choose|j: int| 0 <= j < order.len() && order[j] == from;
    assert(longer[parent] == from);
    assert(links_back(longer, last, parent));
    assert forall|i: int| 1 <= i < longer.len() implies #[trigger] has_parent(longer, i) by {
        if i < last {
            assert(has_parent(order, i));
            let j = choose|j: int| links_back(order, i, j);
            assert(longer[j] == order[j] && longer[i] == order[i]);
            assert(links_back(longer, i, j));
        } else {
            assert(links_back(longer, i, parent));
        }
    }
    assert forall|i: int, j: int, m: int| #[trigger]
        links_back(longer, i, j) && #[trigger] links_back(longer, i, m) implies j == m by {
        if i < last {
            assert(longer[j] == order[j] && longer[m] == order[m] && longer[i] == order[i]);
            assert(links_back(order, i, j) && links_back(order, i, m));
        } else {
            lemma_only_parent(grid, order, from, to, j);
            lemma_only_parent(grid, order, from, to, m);
        }
    }
}

/// The only cell of the order that shares an edge with a cell that can be
/// carved from `from` is `from` itself.
proof fn lemma_only_parent(
    grid: Seq<Seq<bool>>,
    order: Seq<(int, int)>,
    from: (int, int),
    to: (int, int),
    j: int,
)
    requires
        is_carve_order(grid, order),
        can_carve(grid, from, to),
        0 <= j < order.len(),
        adjacent(order[j], to),
    ensures
        order[j] == from,
        forall|m: int| 0 <= m < order.len() && order[m] == from ==> m == j,
{
    let cell = order[j];
    assert(is_open(grid, cell.0, cell.1));
    let k = lemma_adjacent_neighbor(to.0, to.1, cell);
    assert(neighbor_cells(to.0, to.1)[k] == cell);
    if cell != from {
        assert(touches_open(grid, to.0, to.1, from));
    }
}

} // verus!
