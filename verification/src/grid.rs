//! Wall grids: rows of cells, each a wall (`true`) or open (`false`).

use vstd::prelude::*;

verus! {

/// The cells of `maze`, row by row.
pub open spec fn cells(maze: &Vec<Vec<bool>>) -> Seq<Seq<bool>> {
    Seq::new(maze@.len(), |y: int| maze@[y]@)
}

/// `grid` has `height` rows of `width` cells each.
pub open spec fn is_grid(grid: Seq<Seq<bool>>, width: int, height: int) -> bool {
    &&& grid.len() == height
    &&& forall|y: int| 0 <= y < height ==> (#[trigger] grid[y]).len() == width
}

/// The cell `(x, y)` lies in `grid`.
pub open spec fn in_grid(grid: Seq<Seq<bool>>, x: int, y: int) -> bool {
    0 <= y < grid.len() && 0 <= x < grid[y].len()
}

/// The cell `(x, y)` lies in `grid` and is a wall.
pub open spec fn is_wall(grid: Seq<Seq<bool>>, x: int, y: int) -> bool {
    in_grid(grid, x, y) && grid[y][x]
}

/// The cell `(x, y)` lies in `grid` and is open.
pub open spec fn is_open(grid: Seq<Seq<bool>>, x: int, y: int) -> bool {
    in_grid(grid, x, y) && !grid[y][x]
}

/// `grid` with the cell `(x, y)` made open.
pub open spec fn opened(grid: Seq<Seq<bool>>, x: int, y: int) -> Seq<Seq<bool>> {
    grid.update(y, grid[y].update(x, false))
}

/// Every cell of `grid` is a wall.
pub open spec fn all_walls(grid: Seq<Seq<bool>>) -> bool {
    forall|x: int, y: int| #[trigger] in_grid(grid, x, y) ==> is_wall(grid, x, y)
}

/// Every cell of `grid` is open.
pub open spec fn all_open(grid: Seq<Seq<bool>>) -> bool {
    forall|x: int, y: int| #[trigger] in_grid(grid, x, y) ==> is_open(grid, x, y)
}

/// `after` has the shape of `before`, and every cell that is open in
/// `before` is open in `after`.
pub open spec fn keeps_open(before: Seq<Seq<bool>>, after: Seq<Seq<bool>>) -> bool {
    &&& after.len() == before.len()
    &&& forall|y: int| 0 <= y < before.len() ==> (#[trigger] after[y]).len() == before[y].len()
    &&& forall|x: int, y: int| #[trigger] is_open(before, x, y) ==> is_open(after, x, y)
}

/// Number of walls in one row.
pub open spec fn row_walls(row: Seq<bool>) -> nat
    decreases row.len(),
{
    if row.len() == 0 {
        0
    } else {
        row_walls(row.drop_last()) + if row.last() { 1nat } else { 0nat }
    }
}

/// Number of walls in a grid.
pub open spec fn wall_count(grid: Seq<Seq<bool>>) -> nat
    decreases grid.len(),
{
    if grid.len() == 0 {
        0
    } else {
        wall_count(grid.drop_last()) + row_walls(grid.last())
    }
}

/// Opening a wall of a row leaves one wall less.
pub proof fn lemma_row_walls_opened(row: Seq<bool>, x: int)
    requires
        0 <= x < row.len(),
        row[x],
    ensures
        row_walls(row.update(x, false)) + 1 == row_walls(row),
    decreases row.len(),
{
    let after = row.update(x, false);
    if x == row.len() - 1 {
        assert(after.drop_last() =~= row.drop_last());
    } else {
        lemma_row_walls_opened(row.drop_last(), x);
        assert(after.drop_last() =~= row.drop_last().update(x, false));
    }
}

/// Opening a wall of a grid leaves one wall less.
pub proof fn lemma_wall_count_opened(grid: Seq<Seq<bool>>, x: int, y: int)
    requires
        is_wall(grid, x, y),
    ensures
        wall_count(opened(grid, x, y)) + 1 == wall_count(grid),
    decreases grid.len(),
{
    let after = opened(grid, x, y);
    if y == grid.len() - 1 {
        assert(after.drop_last() =~= grid.drop_last());
        lemma_row_walls_opened(grid[y], x);
    } else {
        lemma_wall_count_opened(grid.drop_last(), x, y);
        assert(after.drop_last() =~= opened(grid.drop_last(), x, y));
    }
}

/// Opening a cell that is open already changes nothing.
pub proof fn lemma_opened_open(grid: Seq<Seq<bool>>, x: int, y: int)
    requires
        is_open(grid, x, y),
    ensures
        opened(grid, x, y) == grid,
{
    assert(grid[y].update(x, false) =~= grid[y]);
    assert(opened(grid, x, y) =~= grid);
}

/// A grid of `height` rows and `width` columns whose cells all hold `wall`.
pub fn filled_grid(width: usize, height: usize, wall: bool) -> (maze: Vec<Vec<bool>>)
    ensures
        is_grid(cells(&maze), width as int, height as int),
        forall|x: int, y: int| #[trigger]
            in_grid(cells(&maze), x, y) ==> cells(&maze)[y][x] == wall,
        wall ==> all_walls(cells(&maze)),
        !wall ==> all_open(cells(&maze)),
{
    let mut row: Vec<bool> = Vec::new();
    while row.len() < width
        invariant
            row@.len() <= width,
            forall|x: int| 0 <= x < row@.len() ==> row@[x] == wall,
        decreases width - row@.len(),
    {
        row.push(wall);
    }
    let mut maze: Vec<Vec<bool>> = Vec::new();
    while maze.len() < height
        invariant
            maze@.len() <= height,
            row@.len() == width,
            forall|x: int| 0 <= x < row@.len() ==> row@[x] == wall,
            forall|y: int| 0 <= y < maze@.len() ==> (#[trigger] maze@[y])@ == row@,
        decreases height - maze@.len(),
    {
        let copy = row.clone();
        assert(copy@ =~= row@);
        maze.push(copy);
    }
    maze
}

/// Makes the cell `(x, y)` of `maze` open.
pub fn open_cell(maze: &mut Vec<Vec<bool>>, x: usize, y: usize)
    requires
        in_grid(cells(old(maze)), x as int, y as int),
    ensures
        cells(final(maze)) == opened(cells(old(maze)), x as int, y as int),
        final(maze)@.len() == old(maze)@.len(),
        forall|j: int|
            0 <= j < old(maze)@.len()
                ==> (#[trigger] final(maze)@[j])@.len() == old(maze)@[j]@.len(),
{
    maze[y][x] = false;
    assert(cells(maze) =~= opened(cells(old(maze)), x as int, y as int));
}

/// Whether the cell `(x, y)` of `maze` is a wall.
pub fn wall_at(maze: &Vec<Vec<bool>>, x: usize, y: usize) -> (wall: bool)
    requires
        in_grid(cells(maze), x as int, y as int),
    ensures
        wall == cells(maze)[y as int][x as int],
        wall == is_wall(cells(maze), x as int, y as int),
{
    maze[y][x]
}

/// Two sequences with the same items, each as often in one as in the other,
/// contain the same values.
pub proof fn lemma_same_items<T>(a: Seq<T>, b: Seq<T>, item: T)
    requires
        a.to_multiset() == b.to_multiset(),
        a.contains(item),
    ensures
        b.contains(item),
{
    a.to_multiset_ensures();
    b.to_multiset_ensures();
    assert(a.to_multiset().count(item) > 0);
    assert(b.to_multiset().count(item) > 0);
}

} // verus!
