//! The maze generator: a randomized depth-first carve through a grid of
//! walls, followed by an erosion that opens walls at random.

use vstd::prelude::*;
use crate::board::Board;
use crate::carving::{
    can_carve, cell_saturated, is_carve_order, is_carving, is_tree, lemma_carve_extends,
    lemma_opened_cell, lemma_saturated_stays, neighbor_cells, touches_open,
};
use crate::chance::Chance;
use crate::grid::{
    all_open, all_walls, cells, filled_grid, in_grid, is_grid, is_open, keeps_open,
    lemma_opened_open, lemma_same_items, lemma_wall_count_opened, open_cell, opened, wall_at,
    wall_count,
};
use crate::paths::{has_single_paths, is_connected, lemma_tree_paths};
use crate::point::{generate_point, Point};
use crate::random::{random_ratio, shuffle};

verus! {

/// The cell that a point stands on.
pub open spec fn cell_of(p: Point) -> (int, int) {
    (p.x as int, p.y as int)
}

/// A pair of indices as a cell.
pub open spec fn pair_cell(pair: (usize, usize)) -> (int, int) {
    (pair.0 as int, pair.1 as int)
}

/// The four cells around `(x, y)` as pairs of indices, in the order of
/// [`neighbor_cells`].
pub open spec fn neighbor_pairs(x: usize, y: usize) -> Seq<(usize, usize)> {
    seq![
        (if x > 0 { (x - 1) as usize } else { 0usize }, y),
        (x, if y > 0 { (y - 1) as usize } else { 0usize }),
        ((x + 1) as usize, y),
        (x, (y + 1) as usize),
    ]
}

/// The pairs of [`neighbor_pairs`] are the cells of [`neighbor_cells`].
pub proof fn lemma_neighbor_pairs(x: usize, y: usize, k: int)
    requires
        x < usize::MAX,
        y < usize::MAX,
        0 <= k < 4,
    ensures
        pair_cell(neighbor_pairs(x, y)[k]) == neighbor_cells(x as int, y as int)[k],
{
}

/// The cells to the left of, above, to the right of and below `(x, y)`. On
/// the left and the upper border the cell itself takes the place of the
/// neighbor that is not there.
pub fn get_neighbors(x: usize, y: usize) -> (around: [(usize, usize); 4])
    requires
        x < usize::MAX,
        y < usize::MAX,
    ensures
        around@ == neighbor_pairs(x, y),
{
    let around = [(x.saturating_sub(1), y), (x, y.saturating_sub(1)), (x + 1, y), (x, y + 1)];
    assert(around@ =~= neighbor_pairs(x, y));
    around
}

/// The four cells of [`get_neighbors`] in a random order.
pub fn generate_random_neighbors(x: usize, y: usize) -> (around: [(usize, usize); 4])
    requires
        x < usize::MAX,
        y < usize::MAX,
    ensures
        around@.to_multiset() == neighbor_pairs(x, y).to_multiset(),
{
    let neighbors = get_neighbors(x, y);
    let mut mixed: Vec<(usize, usize)> = Vec::new();
    mixed.push(neighbors[0]);
    mixed.push(neighbors[1]);
    mixed.push(neighbors[2]);
    mixed.push(neighbors[3]);
    assert(mixed@ =~= neighbor_pairs(x, y));
    shuffle(&mut mixed);
    proof {
        mixed@.to_multiset_ensures();
        neighbor_pairs(x, y).to_multiset_ensures();
    }
    let around = [mixed[0], mixed[1], mixed[2], mixed[3]];
    assert(around@ =~= mixed@);
    around
}

/// Whether a cell around `(x, y)`, other than `(parent_x, parent_y)`, is
/// open already.
pub fn is_node_next_to_visited(
    x: usize,
    y: usize,
    parent_x: usize,
    parent_y: usize,
    maze: &Vec<Vec<bool>>,
    board: &Board,
) -> (visited: bool)
    requires
        x < usize::MAX,
        y < usize::MAX,
        is_grid(cells(maze), board.spec_width(), board.spec_height()),
    ensures
        visited == touches_open(
            cells(maze),
            x as int,
            y as int,
            (parent_x as int, parent_y as int),
        ),
{
    let neighbors = get_neighbors(x, y);
    let ghost grid = cells(maze);
    let ghost parent = (parent_x as int, parent_y as int);
    let mut k: usize = 0;
    while k < 4
        invariant
            k <= 4,
            x < usize::MAX,
            y < usize::MAX,
            neighbors@ == neighbor_pairs(x, y),
            grid == cells(maze),
            parent == (parent_x as int, parent_y as int),
            is_grid(grid, board.spec_width(), board.spec_height()),
            forall|j: int|
                0 <= j < k ==> !((#[trigger] neighbor_cells(x as int, y as int)[j]) != parent
                    && is_open(
                    grid,
                    neighbor_cells(x as int, y as int)[j].0,
                    neighbor_cells(x as int, y as int)[j].1,
                )),
        decreases 4 - k,
    {
        let (x_n, y_n) = neighbors[k];
        proof {
            lemma_neighbor_pairs(x, y, k as int);
        }
        if x_n < board.get_width() && y_n < board.get_height()
            && (x_n != parent_x || y_n != parent_y) && !wall_at(maze, x_n, y_n) {
            assert(neighbor_cells(x as int, y as int)[k as int] == (x_n as int, y_n as int));
            return true;
        }
        k += 1;
    }
    false
}

/// The grid in which the cell on top of the stack is open: what the carve
/// has reached once it has looked at that cell.
pub open spec fn with_top_open(grid: Seq<Seq<bool>>, stack: Seq<Point>) -> Seq<Seq<bool>> {
    if stack.len() > 0 {
        opened(grid, stack.last().x as int, stack.last().y as int)
    } else {
        grid
    }
}

/// Some point of the stack stands on `cell`.
pub open spec fn on_stack(stack: Seq<Point>, cell: (int, int)) -> bool {
    exists|s: int| 0 <= s < stack.len() && cell_of(#[trigger] stack[s]) == cell
}

/// What holds between two steps of the carve. The points of the stack lie
/// in the grid, and all but the top one are open. With the top one open too,
/// the open cells form a tree in the order in which they were reached, and
/// nothing can be dug from a cell that has left the stack.
pub open spec fn carve_inv(
    grid: Seq<Seq<bool>>,
    stack: Seq<Point>,
    order: Seq<(int, int)>,
) -> bool {
    &&& forall|s: int|
        0 <= s < stack.len() ==> in_grid(grid, (#[trigger] stack[s]).x as int, stack[s].y as int)
    &&& forall|s: int|
        0 <= s < stack.len() - 1
            ==> is_open(grid, (#[trigger] stack[s]).x as int, stack[s].y as int)
    &&& is_carve_order(with_top_open(grid, stack), order)
    &&& forall|i: int|
        0 <= i < order.len() ==> on_stack(stack, #[trigger] order[i]) || cell_saturated(
            with_top_open(grid, stack),
            order[i].0,
            order[i].1,
        )
}

/// Opening the cell on top of the stack keeps what holds between two steps.
proof fn lemma_carve_top_opened(grid: Seq<Seq<bool>>, stack: Seq<Point>, order: Seq<(int, int)>)
    requires
        carve_inv(grid, stack, order),
        stack.len() > 0,
    ensures
        carve_inv(with_top_open(grid, stack), stack, order),
        with_top_open(with_top_open(grid, stack), stack) == with_top_open(grid, stack),
        is_open(with_top_open(grid, stack), stack.last().x as int, stack.last().y as int),
{
    let top = stack.last();
    let carved = with_top_open(grid, stack);
    assert(in_grid(grid, top.x as int, top.y as int));
    lemma_opened_cell(grid, top.x as int, top.y as int, top.x as int, top.y as int);
    lemma_opened_open(carved, top.x as int, top.y as int);
    assert forall|s: int| 0 <= s < stack.len() implies in_grid(
        carved,
        (#[trigger] stack[s]).x as int,
        stack[s].y as int,
    ) by {
        lemma_opened_cell(grid, top.x as int, top.y as int, stack[s].x as int, stack[s].y as int);
    }
    assert forall|s: int| 0 <= s < stack.len() - 1 implies is_open(
        carved,
        (#[trigger] stack[s]).x as int,
        stack[s].y as int,
    ) by {
        lemma_opened_cell(grid, top.x as int, top.y as int, stack[s].x as int, stack[s].y as int);
    }
}

/// Digging a passage from the top of the stack into a cell that can be
/// carved, and putting that cell on the stack, keeps what holds between two
/// steps and leaves one wall less.
proof fn lemma_carve_push(
    grid: Seq<Seq<bool>>,
    stack: Seq<Point>,
    order: Seq<(int, int)>,
    to: Point,
)
    requires
        carve_inv(grid, stack, order),
        stack.len() > 0,
        is_open(grid, stack.last().x as int, stack.last().y as int),
        exists|k: int|
            0 <= k < 4 && #[trigger] neighbor_cells(
                stack.last().x as int,
                stack.last().y as int,
            )[k] == cell_of(to),
        can_carve(grid, cell_of(stack.last()), cell_of(to)),
    ensures
        carve_inv(grid, stack.push(to), order.push(cell_of(to))),
        wall_count(with_top_open(grid, stack.push(to))) + 1 == wall_count(grid),
{
    let top = stack.last();
    let from = cell_of(top);
    let longer = stack.push(to);
    let after = opened(grid, to.x as int, to.y as int);
    lemma_opened_open(grid, top.x as int, top.y as int);
    assert(with_top_open(grid, stack) == grid);
    assert(longer.last() == to);
    assert(with_top_open(grid, longer) == after);
    let k = choose|k: int| 0 <= k < 4
        && #[trigger] neighbor_cells(from.0, from.1)[k] == cell_of(to);
    lemma_carve_extends(grid, order, from, k);
    lemma_wall_count_opened(grid, to.x as int, to.y as int);
    assert forall|s: int| 0 <= s < longer.len() implies in_grid(
        grid,
        (#[trigger] longer[s]).x as int,
        longer[s].y as int,
    ) by {
        if s < stack.len() {
            assert(longer[s] == stack[s]);
        }
    }
    assert forall|s: int| 0 <= s < longer.len() - 1 implies is_open(
        grid,
        (#[trigger] longer[s]).x as int,
        longer[s].y as int,
    ) by {
        assert(longer[s] == stack[s]);
    }
    let more = order.push(cell_of(to));
    assert forall|i: int| 0 <= i < more.len() implies on_stack(longer, #[trigger] more[i])
        || cell_saturated(after, more[i].0, more[i].1) by {
        if i < order.len() {
            assert(more[i] == order[i]);
            if on_stack(stack, order[i]) {
                let s = choose|s: int| 0 <= s < stack.len()
                    && cell_of(#[trigger] stack[s]) == order[i];
                assert(cell_of(longer[s]) == order[i]);
            } else {
                lemma_saturated_stays(grid, order[i].0, order[i].1, to.x as int, to.y as int);
            }
        } else {
            assert(cell_of(longer[stack.len() as int]) == more[i]);
        }
    }
}

/// Taking the top off the stack, once nothing can be dug from it, keeps
/// what holds between two steps.
proof fn lemma_carve_pop(grid: Seq<Seq<bool>>, stack: Seq<Point>, order: Seq<(int, int)>)
    requires
        carve_inv(grid, stack, order),
        stack.len() > 0,
        is_open(grid, stack.last().x as int, stack.last().y as int),
        cell_saturated(grid, stack.last().x as int, stack.last().y as int),
    ensures
        carve_inv(grid, stack.drop_last(), order),
        with_top_open(grid, stack.drop_last()) == grid,
{
    let top = stack.last();
    let shorter = stack.drop_last();
    lemma_opened_open(grid, top.x as int, top.y as int);
    assert(with_top_open(grid, stack) == grid);
    if shorter.len() > 0 {
        let below = shorter.last();
        assert(below == stack[stack.len() - 2]);
        lemma_opened_open(grid, below.x as int, below.y as int);
    }
    assert forall|i: int| 0 <= i < order.len() implies on_stack(shorter, #[trigger] order[i])
        || cell_saturated(grid, order[i].0, order[i].1) by {
        if on_stack(stack, order[i]) {
            let s = choose|s: int| 0 <= s < stack.len() && cell_of(#[trigger] stack[s]) == order[i];
            if s < shorter.len() {
                assert(cell_of(shorter[s]) == order[i]);
            }
        }
    }
}

/// Looks at the cells around the open cell `(x, y)` in a random order and
/// returns the first into which a passage can be dug. `None` means that
/// there is no such cell.
fn pick_passage(maze: &Vec<Vec<bool>>, board: &Board, x: usize, y: usize) -> (found: Option<
    (usize, usize),
>)
    requires
        is_grid(cells(maze), board.spec_width(), board.spec_height()),
        in_grid(cells(maze), x as int, y as int),
    ensures
        match found {
            Some(to) => {
                &&& exists|k: int|
                    0 <= k < 4 && #[trigger] neighbor_cells(x as int, y as int)[k] == pair_cell(to)
                &&& can_carve(cells(maze), (x as int, y as int), pair_cell(to))
            },
            None => cell_saturated(cells(maze), x as int, y as int),
        },
{
    let width = board.get_width();
    let height = board.get_height();
    let around = generate_random_neighbors(x, y);
    let ghost grid = cells(maze);
    let ghost from = (x as int, y as int);
    let mut i: usize = 0;
    while i < 4
        invariant
            i <= around@.len() == 4,
            x < width,
            y < height,
            width == board.spec_width(),
            height == board.spec_height(),
            width <= 1000,
            height <= 1000,
            grid == cells(maze),
            from == (x as int, y as int),
            is_grid(grid, width as int, height as int),
            around@.to_multiset() == neighbor_pairs(x, y).to_multiset(),
            forall|j: int| 0 <= j < i ==> !can_carve(grid, from, pair_cell(#[trigger] around@[j])),
        decreases around@.len() - i,
    {
        let (new_x, new_y) = around[i];
        proof {
            // whatever the order, the cell is one of the four
            assert(around@.contains(around@[i as int]));
            lemma_same_items(around@, neighbor_pairs(x, y), (new_x, new_y));
            let k = choose|k: int|
                0 <= k < 4 && neighbor_pairs(x, y)[k] == (new_x, new_y);
            lemma_neighbor_pairs(x, y, k);
            assert(neighbor_cells(x as int, y as int)[k] == pair_cell((new_x, new_y)));
        }
        if new_x < width && new_y < height && wall_at(maze, new_x, new_y)
            && !is_node_next_to_visited(new_x, new_y, x, y, maze, board) {
            return Some((new_x, new_y));
        }
        i += 1;
    }
    proof {
        // whatever the order, each of the four was looked at
        assert forall|k: int| 0 <= k < 4 implies !can_carve(
            grid,
            from,
            #[trigger] neighbor_cells(x as int, y as int)[k],
        ) by {
            lemma_neighbor_pairs(x, y, k);
            let pair = neighbor_pairs(x, y)[k];
            assert(neighbor_pairs(x, y).contains(pair));
            lemma_same_items(neighbor_pairs(x, y), around@, pair);
            let j = choose|j: int| 0 <= j < around@.len() && around@[j] == pair;
            assert(!can_carve(grid, from, pair_cell(around@[j])));
        }
    }
    None
}

/// Carves passages into a grid of walls. Starting from a cell drawn at
/// random, it walks depth first: from the cell on top of the stack it digs
/// into the first cell around it, in a random order, that is a wall and
/// touches no other open cell; where there is none it steps back. The open
/// cells end up as a tree from which nothing more can be dug.
pub fn perform_dfs(maze: &mut Vec<Vec<bool>>, board: &Board)
    requires
        is_grid(cells(old(maze)), board.spec_width(), board.spec_height()),
        all_walls(cells(old(maze))),
    ensures
        is_grid(cells(final(maze)), board.spec_width(), board.spec_height()),
        is_carving(cells(final(maze))),
        is_connected(cells(final(maze))),
        has_single_paths(cells(final(maze))),
{
    let width = board.get_width();
    let height = board.get_height();
    let entry_point = generate_point(width as u32, height as u32);

    let mut stack: Vec<Point> = Vec::new();
    stack.push(entry_point);
    open_cell(maze, entry_point.get_x() as usize, entry_point.get_y() as usize);
    let ghost mut order: Seq<(int, int)> = seq![cell_of(entry_point)];
    proof {
        let walls = cells(old(maze));
        let grid = cells(maze);
        let entry = cell_of(entry_point);
        assert(in_grid(walls, entry.0, entry.1));
        assert forall|x: int, y: int| #[trigger] is_open(grid, x, y) implies order.contains(
            (x, y),
        ) by {
            lemma_opened_cell(walls, entry.0, entry.1, x, y);
            assert(order[0] == entry);
        }
        lemma_opened_cell(walls, entry.0, entry.1, entry.0, entry.1);
        lemma_opened_open(grid, entry.0, entry.1);
        assert(with_top_open(grid, stack@) == grid);
        assert(is_carve_order(grid, order));
        assert(cell_of(stack@[0]) == order[0]);
        assert(carve_inv(grid, stack@, order));
    }

    while stack.len() > 0
        invariant
            width == board.spec_width(),
            height == board.spec_height(),
            width <= 1000,
            height <= 1000,
            is_grid(cells(maze), width as int, height as int),
            carve_inv(cells(maze), stack@, order),
        decreases 2 * wall_count(with_top_open(cells(maze), stack@)) + stack@.len(),
    {
        let last_point = stack[stack.len() - 1];
        let ghost before = cells(maze);
        assert(in_grid(before, last_point.x as int, last_point.y as int));
        let (curr_x, curr_y) = (last_point.get_x() as usize, last_point.get_y() as usize);
        open_cell(maze, curr_x, curr_y);
        let ghost grid = cells(maze);
        proof {
            lemma_carve_top_opened(before, stack@, order);
            assert(grid == with_top_open(before, stack@));
        }

        match pick_passage(maze, board, curr_x, curr_y) {
            Some((new_x, new_y)) => {
                let next = Point::new(new_x as i32, new_y as i32);
                proof {
                    assert(cell_of(next) == pair_cell((new_x, new_y)));
                    lemma_carve_push(grid, stack@, order, next);
                    order = order.push(cell_of(next));
                }
                stack.push(next);
            },
            None => {
                proof {
                    lemma_carve_pop(grid, stack@, order);
                }
                stack.pop();
            },
        }
    }
    proof {
        let grid = cells(maze);
        assert(is_carve_order(grid, order));
        assert forall|x: int, y: int| #[trigger] is_open(grid, x, y) implies cell_saturated(
            grid,
            x,
            y,
        ) by {
            assert(order.contains((x, y)));
            let i = choose|i: int| 0 <= i < order.len() && order[i] == (x, y);
            assert(!on_stack(stack@, order[i]));
        }
        assert(is_tree(grid));
        lemma_tree_paths(grid);
    }
}

/// Opens walls at random: each wall of `maze` falls with the chance
/// `remove_chance`, each by a draw of its own. Open cells stay open.
pub fn erode_dfs_maze(maze: &mut Vec<Vec<bool>>, remove_chance: &Chance)
    ensures
        keeps_open(cells(old(maze)), cells(final(maze))),
        remove_chance.is_never() ==> cells(final(maze)) == cells(old(maze)),
        remove_chance.is_always() ==> all_open(cells(final(maze))),
{
    let numerator = remove_chance.get_numerator();
    let denominator = remove_chance.get_denominator();
    let ghost before = cells(maze);
    let mut y: usize = 0;
    while y < maze.len()
        invariant
            0 < denominator,
            numerator <= denominator,
            numerator == remove_chance.spec_numerator(),
            denominator == remove_chance.spec_denominator(),
            before == cells(old(maze)),
            y <= maze@.len(),
            keeps_open(before, cells(maze)),
            remove_chance.is_never() ==> cells(maze) == before,
            remove_chance.is_always() ==> forall|i: int, j: int|
                0 <= j < y && #[trigger] in_grid(cells(maze), i, j) ==> is_open(cells(maze), i, j),
        decreases maze@.len() - y,
    {
        let mut x: usize = 0;
        while x < maze[y].len()
            invariant
                0 < denominator,
                numerator <= denominator,
                numerator == remove_chance.spec_numerator(),
                denominator == remove_chance.spec_denominator(),
                y < maze@.len(),
                x <= maze@[y as int]@.len(),
                keeps_open(before, cells(maze)),
                remove_chance.is_never() ==> cells(maze) == before,
                remove_chance.is_always() ==> forall|i: int, j: int|
                    (j < y || (j == y && i < x)) && #[trigger] in_grid(cells(maze), i, j)
                        ==> is_open(
                        cells(maze),
                        i,
                        j,
                    ),
            decreases maze@[y as int]@.len() - x,
        {
            assert(cells(maze)[y as int].len() == maze@[y as int]@.len());
            if wall_at(maze, x, y) && random_ratio(numerator, denominator) {
                let ghost earlier = cells(maze);
                open_cell(maze, x, y);
                proof {
                    assert forall|i: int, j: int| #[trigger] is_open(before, i, j) implies is_open(
                        cells(maze),
                        i,
                        j,
                    ) by {
                        lemma_opened_cell(earlier, x as int, y as int, i, j);
                        assert(is_open(earlier, i, j));
                    }
                    assert forall|i: int, j: int|
                        (j < y || (j == y && i < x + 1)) && #[trigger] in_grid(
                            cells(maze),
                            i,
                            j,
                        ) && remove_chance.is_always() implies is_open(cells(maze), i, j) by {
                        lemma_opened_cell(earlier, x as int, y as int, i, j);
                        if !(j == y && i == x) {
                            assert(in_grid(earlier, i, j));
                        }
                    }
                }
            }
            x += 1;
        }
        y += 1;
    }
}

/// `grid` is a maze of the given size, eroded with the chance
/// `remove_chance`: a finished carving of which some more cells may have
/// been opened. Where the chance is zero it is the carving itself, with
/// exactly one simple path from any open cell to any other; where the
/// chance is one no wall is left.
pub open spec fn is_maze(
    grid: Seq<Seq<bool>>,
    width: int,
    height: int,
    remove_chance: Chance,
) -> bool {
    &&& is_grid(grid, width, height)
    &&& exists|carved: Seq<Seq<bool>>| #[trigger] is_carving(carved) && keeps_open(carved, grid)
    &&& remove_chance.is_never()
        ==> is_carving(grid) && is_connected(grid) && has_single_paths(grid)
    &&& remove_chance.is_always() ==> all_open(grid)
}

/// A maze for `board`: a grid of walls, carved depth first from a random
/// cell and then eroded with the chance `remove_chance` for every wall.
pub fn build_maze(board: &Board, remove_chance: &Chance) -> (maze: Vec<Vec<bool>>)
    ensures
        is_maze(cells(&maze), board.spec_width(), board.spec_height(), *remove_chance),
{
    let mut maze = filled_grid(board.get_width(), board.get_height(), true);

    perform_dfs(&mut maze, board);
    let ghost carved = cells(&maze);
    erode_dfs_maze(&mut maze, remove_chance);
    proof {
        assert(is_carving(carved) && keeps_open(carved, cells(&maze)));
        assert forall|y: int| 0 <= y < board.spec_height()
            implies (#[trigger] cells(&maze)[y]).len()
            == board.spec_width() by {
            assert(carved[y].len() == board.spec_width());
        }
    }
    maze
}

} // verus!
