//! Where a snake can start in a maze: on a stretch of open cells.

use vstd::prelude::*;
use crate::board::Board;
use crate::direction::Direction;
use crate::game::Game;
use crate::grid::{cells, in_grid, is_grid, is_open, lemma_same_items, wall_at};
use crate::point::Point;
use crate::random::shuffle;
use crate::snake::Snake;

verus! {

/// Number of open cells that a snake needs in a row to start on them.
pub const SPAWN_ROOM: u32 = 4;

/// Number of open cells of `row` from column `x` on, up to the next wall or
/// to the end of the row.
pub open spec fn free_run(row: Seq<bool>, x: int) -> nat
    decreases row.len() - x,
{
    if x < 0 || x >= row.len() || row[x] {
        0
    } else {
        1 + free_run(row, x + 1)
    }
}

/// The cell `(x, y)` and the three cells to its right are open cells of the
/// grid.
pub open spec fn has_spawn_room(grid: Seq<Seq<bool>>, x: int, y: int) -> bool {
    forall|c: int| x <= c < x + SPAWN_ROOM ==> #[trigger] is_open(grid, c, y)
}

/// A run of open cells ends within its row.
pub proof fn lemma_free_run_bound(row: Seq<bool>, x: int)
    requires
        0 <= x <= row.len(),
    ensures
        free_run(row, x) <= row.len() - x,
    decreases row.len() - x,
{
    if x < row.len() && !row[x] {
        lemma_free_run_bound(row, x + 1);
    }
}

/// The `n` cells of `row` from column `x` on are open cells of the row.
pub open spec fn open_stretch(row: Seq<bool>, x: int, n: int) -> bool {
    forall|c: int| x <= c < x + n ==> #[trigger] open_in_row(row, c)
}

/// Column `c` is an open cell of `row`.
pub open spec fn open_in_row(row: Seq<bool>, c: int) -> bool {
    0 <= c < row.len() && !row[c]
}

/// A run of at least `n` open cells starts at `x` if and only if the `n`
/// cells from `x` on are open cells of the row.
pub proof fn lemma_free_run_room(row: Seq<bool>, x: int, n: nat)
    requires
        0 <= x,
    ensures
        free_run(row, x) >= n <==> open_stretch(row, x, n as int),
    decreases n,
{
    if n > 0 {
        if x < row.len() && !row[x] {
            lemma_free_run_room(row, x + 1, (n - 1) as nat);
            if open_stretch(row, x, n as int) {
                assert(open_stretch(row, x + 1, n - 1));
            }
            if open_stretch(row, x + 1, n - 1) {
                assert(open_stretch(row, x, n as int));
            }
        } else {
            assert(free_run(row, x) == 0);
            if open_stretch(row, x, n as int) {
                assert(open_in_row(row, x));
            }
        }
    }
}

/// A cell of the grid has room for a snake to start if and only if a run of
/// at least four open cells starts there.
pub proof fn lemma_spawn_room(grid: Seq<Seq<bool>>, x: int, y: int)
    requires
        in_grid(grid, x, y),
    ensures
        has_spawn_room(grid, x, y) <==> free_run(grid[y], x) >= SPAWN_ROOM,
{
    lemma_free_run_room(grid[y], x, SPAWN_ROOM as nat);
    if has_spawn_room(grid, x, y) {
        assert forall|c: int| x <= c < x + SPAWN_ROOM implies #[trigger] open_in_row(
            grid[y],
            c,
        ) by {
            assert(is_open(grid, c, y));
        }
    }
    if open_stretch(grid[y], x, SPAWN_ROOM as int) {
        assert forall|c: int| x <= c < x + SPAWN_ROOM implies #[trigger] is_open(grid, c, y) by {
            assert(open_in_row(grid[y], c));
        }
    }
}

impl Game {
    /// For every cell of `maze` the number of open cells from it on to the
    /// right, up to the next wall: zero for a wall.
    pub fn build_suffix_free_count(maze: &Vec<Vec<bool>>, board: &Board) -> (counts: Vec<
        Vec<u32>,
    >)
        requires
            is_grid(cells(maze), board.spec_width(), board.spec_height()),
        ensures
            counts@.len() == board.spec_height(),
            forall|y: int|
                0 <= y < board.spec_height()
                    ==> (#[trigger] counts@[y])@.len() == board.spec_width(),
            forall|x: int, y: int|
                in_grid(cells(maze), x, y)
                    ==> (#[trigger] counts@[y]@[x]) == free_run(cells(maze)[y], x),
    {
        let width = board.get_width();
        let height = board.get_height();
        let ghost grid = cells(maze);
        let mut suffix_free_count: Vec<Vec<u32>> = Vec::new();
        let mut i: usize = 0;
        while i < height
            invariant
                i <= height,
                grid == cells(maze),
                is_grid(grid, width as int, height as int),
                width == board.spec_width(),
                height == board.spec_height(),
                width <= 1000,
                suffix_free_count@.len() == i,
                forall|y: int| 0 <= y < i ==> (#[trigger] suffix_free_count@[y])@.len() == width,
                forall|x: int, y: int|
                    0 <= y < i && 0 <= x < width
                        ==> (#[trigger] suffix_free_count@[y]@[x]) == free_run(
                        grid[y],
                        x,
                    ),
            decreases height - i,
        {
            let mut row: Vec<u32> = Vec::new();
            while row.len() < width
                invariant
                    row@.len() <= width,
                decreases width - row@.len(),
            {
                row.push(0);
            }
            let mut j: usize = width;
            while j > 0
                invariant
                    j <= width <= 1000,
                    i < height,
                    grid == cells(maze),
                    is_grid(grid, width as int, height as int),
                    row@.len() == width,
                    forall|x: int| j <= x < width
                        ==> (#[trigger] row@[x]) == free_run(grid[i as int], x),
                decreases j,
            {
                j -= 1;
                proof {
                    lemma_free_run_bound(grid[i as int], j as int);
                    lemma_free_run_bound(grid[i as int], j as int + 1);
                }
                if !wall_at(maze, j, i) {
                    let in_front_cell_count = if j + 1 < width {
                        row[j + 1]
                    } else {
                        0
                    };
                    row[j] = in_front_cell_count + 1;
                } else {
                    row[j] = 0;
                }
            }
            suffix_free_count.push(row);
            i += 1;
        }
        suffix_free_count
    }

    /// A snake of two segments on a random stretch of open cells of `maze`,
    /// heading right: its tail on a cell from which four cells in a row are
    /// open, its head on the next of them. `None` where the maze has no such
    /// stretch.
    pub fn generate_snake_spawn_between_maze(
        maze: &Vec<Vec<bool>>,
        board: &Board,
    ) -> (spawn: Option<Snake>)
        requires
            is_grid(cells(maze), board.spec_width(), board.spec_height()),
        ensures
            match spawn {
                Some(snake) => {
                    &&& snake.wf()
                    &&& snake@.direction == Direction::RIGHT
                    &&& snake@.segments.len() == 2
                    &&& snake@.segments[0].x == snake@.segments[1].x + 1
                    &&& snake@.segments[0].y == snake@.segments[1].y
                    &&& has_spawn_room(
                        cells(maze),
                        snake@.segments[1].x as int,
                        snake@.segments[1].y as int,
                    )
                },
                None => forall|x: int, y: int| !has_spawn_room(cells(maze), x, y),
            },
    {
        let width = board.get_width();
        let height = board.get_height();
        let suffix_free_count = Game::build_suffix_free_count(maze, board);
        let ghost grid = cells(maze);
        let mut suitable_cells: Vec<Point> = Vec::new();

        let mut i: usize = 0;
        while i < height
            invariant
                i <= height,
                grid == cells(maze),
                is_grid(grid, width as int, height as int),
                width == board.spec_width(),
                height == board.spec_height(),
                width <= 1000,
                height <= 1000,
                suffix_free_count@.len() == height,
                forall|y: int| 0 <= y < height
                    ==> (#[trigger] suffix_free_count@[y])@.len() == width,
                forall|x: int, y: int|
                    in_grid(grid, x, y)
                        ==> (#[trigger] suffix_free_count@[y]@[x]) == free_run(grid[y], x),
                forall|k: int|
                    0 <= k < suitable_cells@.len() ==> has_spawn_room(
                        grid,
                        (#[trigger] suitable_cells@[k]).x as int,
                        suitable_cells@[k].y as int,
                    ),
                forall|x: int, y: int|
                    0 <= y < i && 0 <= x < width && has_spawn_room(grid, x, y)
                        ==> suitable_cells@.contains(Point { x: x as i32, y: y as i32 }),
            decreases height - i,
        {
            let mut j: usize = 0;
            while j < width
                invariant
                    j <= width,
                    i < height,
                    grid == cells(maze),
                    is_grid(grid, width as int, height as int),
                    width <= 1000,
                    height <= 1000,
                    suffix_free_count@.len() == height,
                    forall|y: int| 0 <= y < height
                        ==> (#[trigger] suffix_free_count@[y])@.len() == width,
                    forall|x: int, y: int|
                        in_grid(grid, x, y) ==> (#[trigger] suffix_free_count@[y]@[x]) == free_run(
                            grid[y],
                            x,
                        ),
                    forall|k: int|
                        0 <= k < suitable_cells@.len() ==> has_spawn_room(
                            grid,
                            (#[trigger] suitable_cells@[k]).x as int,
                            suitable_cells@[k].y as int,
                        ),
                    forall|x: int, y: int|
                        0 <= y < i && 0 <= x < width && has_spawn_room(grid, x, y)
                            ==> suitable_cells@.contains(Point { x: x as i32, y: y as i32 }),
                    forall|x: int|
                        0 <= x < j && has_spawn_room(grid, x, i as int)
                            ==> suitable_cells@.contains(
                            Point { x: x as i32, y: i as i32 },
                        ),
                decreases width - j,
            {
                proof {
                    assert(in_grid(grid, j as int, i as int));
                    lemma_spawn_room(grid, j as int, i as int);
                }
                let ghost before = suitable_cells@;
                if suffix_free_count[i][j] >= SPAWN_ROOM {
                    suitable_cells.push(Point::new(j as i32, i as i32));
                }
                proof {
                    let after = suitable_cells@;
                    assert forall|p: Point| before.contains(p) implies after.contains(p) by {
                        let k = choose|k: int| 0 <= k < before.len() && before[k] == p;
                        assert(after[k] == p);
                    }
                    if has_spawn_room(grid, j as int, i as int) {
                        assert(after[after.len() - 1] == Point { x: j as i32, y: i as i32 });
                    }
                }
                j += 1;
            }
            i += 1;
        }

        let ghost found = suitable_cells@;
        shuffle(&mut suitable_cells);
        proof {
            found.to_multiset_ensures();
            suitable_cells@.to_multiset_ensures();
        }

        if suitable_cells.len() == 0 {
            proof {
                assert forall|x: int, y: int| !has_spawn_room(grid, x, y) by {
                    if has_spawn_room(grid, x, y) {
                        assert(is_open(grid, x, y));
                        assert(found.contains(Point { x: x as i32, y: y as i32 }));
                    }
                }
            }
            return None;
        }
        let tail = suitable_cells[0];
        proof {
            assert(suitable_cells@.contains(tail));
            lemma_same_items(suitable_cells@, found, tail);
            let k = choose|k: int| 0 <= k < found.len() && found[k] == tail;
            assert(has_spawn_room(grid, found[k].x as int, found[k].y as int));
            assert(is_open(grid, tail.x as int, tail.y as int));
            assert(is_open(grid, tail.x as int + 1, tail.y as int));
        }
        let mut segments: Vec<Point> = Vec::new();
        segments.push(Point::new(tail.get_x() + 1, tail.get_y()));
        segments.push(tail);
        Some(Snake::from_segments(segments))
    }
}

} // verus!
