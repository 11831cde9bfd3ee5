//! The maze: a square grid of cells with a start and a goal.

use super::cell::{Cell, CellFlags};
use super::{on_grid, Coord1D, CoordXY, Direction, WIDTH};
use vstd::prelude::*;

verus! {

/// Number of cells in the grid.
pub const CELLS: usize = WIDTH * WIDTH;

/// The position one step from `(x, y)` in the given direction.
pub open spec fn step(x: int, y: int, direction: Direction) -> (int, int) {
    (x + direction.unit().x, y + direction.unit().y)
}

/// The place of cell `(x, y)` in the row-major cell array.
pub open spec fn cell_index(x: int, y: int) -> int {
    x + y * WIDTH
}

/// What a maze holds: the start, the goal, and the flags of each cell by position.
pub ghost struct MazeView {
    pub start: (int, int),
    pub goal: (int, int),
    pub cells: Map<(int, int), CellFlags>,
}

impl MazeView {
    /// Whether a wall stands on the given side of cell `(x, y)`.
    pub open spec fn wall(self, x: int, y: int, direction: Direction) -> bool {
        self.cells[(x, y)].wall(direction)
    }

    /// The auxiliary flag on the given side of cell `(x, y)`.
    pub open spec fn check(self, x: int, y: int, direction: Direction) -> bool {
        self.cells[(x, y)].check(direction)
    }

    /// Whether the maze holds flags for the cells of the grid and for nothing else.
    pub open spec fn covers_grid(self) -> bool {
        forall|p: (int, int)| self.cells.dom().contains(p) <==> on_grid(p.0, p.1)
    }

    /// Whether every wall between two cells of the grid is recorded alike on
    /// both of them.
    pub open spec fn walls_symmetric(self) -> bool {
        forall|x: int, y: int, direction: Direction|
            on_grid(x, y) && on_grid(step(x, y, direction).0, step(x, y, direction).1)
                ==> #[trigger] self.wall(x, y, direction) == self.wall(
                step(x, y, direction).0,
                step(x, y, direction).1,
                direction.opposite(),
            )
    }

    /// Whether a wall stands on every side of a cell that faces out of the grid.
    pub open spec fn enclosed(self) -> bool {
        forall|x: int, y: int, direction: Direction|
            on_grid(x, y) && !on_grid(step(x, y, direction).0, step(x, y, direction).1)
                ==> #[trigger] self.wall(x, y, direction)
    }

    /// This maze with the flags of cell `(x, y)` replaced.
    pub open spec fn with_cell(self, x: int, y: int, flags: CellFlags) -> MazeView {
        MazeView { cells: self.cells.insert((x, y), flags), ..self }
    }

    /// This maze after the wall flag on one side of cell `(x, y)` is set to `value`,
    /// together with the flag on the facing side of the cell beyond it, if there is one.
    pub open spec fn set_wall(self, x: int, y: int, direction: Direction, value: bool) -> MazeView {
        let own = self.with_cell(x, y, self.cells[(x, y)].with_wall(direction, value));
        let (nx, ny) = step(x, y, direction);
        if on_grid(nx, ny) {
            own.with_cell(nx, ny, own.cells[(nx, ny)].with_wall(direction.opposite(), value))
        } else {
            own
        }
    }

    /// This maze after the auxiliary flag on one side of cell `(x, y)` is set to `value`,
    /// together with the flag on the facing side of the cell beyond it, if there is one.
    pub open spec fn set_check(
        self,
        x: int,
        y: int,
        direction: Direction,
        value: bool,
    ) -> MazeView {
        let own = self.with_cell(x, y, self.cells[(x, y)].with_check(direction, value));
        let (nx, ny) = step(x, y, direction);
        if on_grid(nx, ny) {
            own.with_cell(nx, ny, own.cells[(nx, ny)].with_check(direction.opposite(), value))
        } else {
            own
        }
    }

    /// The flags of cell `(x, y)` in a maze that has only its outer walls:
    /// a wall on each side that faces out of the grid, and nothing else.
    pub open spec fn outer_walls(x: int, y: int) -> CellFlags {
        CellFlags {
            north: !on_grid(x, y + 1),
            east: !on_grid(x + 1, y),
            south: !on_grid(x, y - 1),
            west: !on_grid(x - 1, y),
            ..CellFlags::clear()
        }
    }

    /// The maze with the given start and goal that has only its outer walls.
    pub open spec fn enclosure(start: (int, int), goal: (int, int)) -> MazeView {
        MazeView {
            start,
            goal,
            cells: Map::new(
                |p: (int, int)| on_grid(p.0, p.1),
                |p: (int, int)| Self::outer_walls(p.0, p.1),
            ),
        }
    }
}

/// Setting a wall sets it on both of its sides, and changes nothing else:
/// the wall on the named side of the cell has the new value, and so has the
/// wall on the facing side of the cell beyond, where the grid has one; every
/// other wall, every auxiliary flag, the start and the goal stay as they were.
pub proof fn lemma_set_wall_is_mirrored(
    maze: MazeView,
    x: int,
    y: int,
    direction: Direction,
    value: bool,
)
    requires
        maze.covers_grid(),
        on_grid(x, y),
    ensures
        ({
            let after = maze.set_wall(x, y, direction, value);
            let (nx, ny) = step(x, y, direction);
            &&& after.covers_grid()
            &&& after.start == maze.start
            &&& after.goal == maze.goal
            &&& after.wall(x, y, direction) == value
            &&& on_grid(nx, ny) ==> after.wall(nx, ny, direction.opposite()) == value
            &&& forall|a: int, b: int, d: Direction|
                !(a == x && b == y && d == direction) && !(a == nx && b == ny && d
                    == direction.opposite()) ==> #[trigger] after.wall(a, b, d) == maze.wall(
                    a,
                    b,
                    d,
                )
            &&& forall|a: int, b: int, d: Direction| #[trigger]
                after.check(a, b, d) == maze.check(a, b, d)
        }),
{
    let after = maze.set_wall(x, y, direction, value);
    assert forall|p: (int, int)| after.cells.dom().contains(p) <==> on_grid(p.0, p.1) by {
        assert(maze.cells.dom().contains(p) <==> on_grid(p.0, p.1));
    }
}

/// Setting a wall keeps the walls alike on both sides.
pub proof fn lemma_set_wall_keeps_symmetry(
    maze: MazeView,
    x: int,
    y: int,
    direction: Direction,
    value: bool,
)
    requires
        maze.covers_grid(),
        maze.walls_symmetric(),
        on_grid(x, y),
    ensures
        maze.set_wall(x, y, direction, value).walls_symmetric(),
{
    let after = maze.set_wall(x, y, direction, value);
    lemma_set_wall_is_mirrored(maze, x, y, direction, value);
    assert forall|a: int, b: int, d: Direction|
        on_grid(a, b) && on_grid(step(a, b, d).0, step(a, b, d).1) implies #[trigger] after.wall(
        a,
        b,
        d,
    ) == after.wall(step(a, b, d).0, step(a, b, d).1, d.opposite()) by {
        assert(maze.wall(a, b, d) == maze.wall(step(a, b, d).0, step(a, b, d).1, d.opposite()));
    }
}

/// Setting a wall keeps the maze enclosed, unless it takes down an outer wall.
pub proof fn lemma_set_wall_keeps_enclosure(
    maze: MazeView,
    x: int,
    y: int,
    direction: Direction,
    value: bool,
)
    requires
        maze.covers_grid(),
        maze.enclosed(),
        on_grid(x, y),
        value || on_grid(step(x, y, direction).0, step(x, y, direction).1),
    ensures
        maze.set_wall(x, y, direction, value).enclosed(),
{
    let after = maze.set_wall(x, y, direction, value);
    lemma_set_wall_is_mirrored(maze, x, y, direction, value);
    assert forall|a: int, b: int, d: Direction|
        on_grid(a, b) && !on_grid(step(a, b, d).0, step(a, b, d).1) implies #[trigger] after.wall(
        a,
        b,
        d,
    ) by {
        assert(maze.wall(a, b, d));
    }
}

/// A maze that has only its outer walls has a wall exactly on the sides that
/// face out of the grid, and no auxiliary flag; it is enclosed, and its walls
/// are alike on both sides.
pub proof fn lemma_enclosure(start: (int, int), goal: (int, int))
    ensures
        ({
            let maze = MazeView::enclosure(start, goal);
            &&& maze.covers_grid()
            &&& maze.enclosed()
            &&& maze.walls_symmetric()
            &&& forall|x: int, y: int, d: Direction|
                on_grid(x, y) ==> #[trigger] maze.wall(x, y, d) == !on_grid(
                    step(x, y, d).0,
                    step(x, y, d).1,
                )
            &&& forall|x: int, y: int, d: Direction|
                on_grid(x, y) ==> !#[trigger] maze.check(x, y, d)
        }),
{
}

/// The maze: the start, the goal, and the cells row by row from the bottom
/// row up, cell `(x, y)` at place `x + y * WIDTH`.
#[non_exhaustive]
#[derive(Debug)]
pub struct Maze {
    pub start: CoordXY,
    pub goal: CoordXY,
    pub data: [Cell; CELLS],
}

impl View for Maze {
    type V = MazeView;

    open spec fn view(&self) -> MazeView {
        MazeView {
            start: self.start@,
            goal: self.goal@,
            cells: Map::new(
                |p: (int, int)| on_grid(p.0, p.1),
                |p: (int, int)| self.data@[cell_index(p.0, p.1)]@,
            ),
        }
    }
}

impl Maze {
    /// A maze holds flags for the cells of the grid and for nothing else.
    pub proof fn lemma_covers_grid(self)
        ensures
            self@.covers_grid(),
    {
    }

    /// The maze with the given start and goal that has only its outer walls.
    pub fn new(start: CoordXY, goal: CoordXY) -> (maze: Self)
        ensures
            maze@ == MazeView::enclosure(start@, goal@),
    {
        let mut data = [Cell::new();CELLS];
        for x in 0..WIDTH
            invariant
                forall|i: int|
                    0 <= i < CELLS ==> (#[trigger] data@[i])@ == (CellFlags {
                        south: i < x,
                        north: i - WIDTH * (WIDTH - 1) < x && i >= WIDTH * (WIDTH - 1),
                        ..CellFlags::clear()
                    }),
        {
            data[x].set_south(true);
            data[x + WIDTH * (WIDTH - 1)].set_north(true);
        }
        for y in 0..WIDTH
            invariant
                forall|i: int|
                    0 <= i < CELLS ==> (#[trigger] data@[i])@ == (CellFlags {
                        south: i < WIDTH,
                        north: i >= WIDTH * (WIDTH - 1),
                        west: i % (WIDTH as int) == 0 && i / (WIDTH as int) < y,
                        east: i % (WIDTH as int) == WIDTH - 1 && i / (WIDTH as int) < y,
                        ..CellFlags::clear()
                    }),
        {
            data[y * WIDTH].set_west(true);
            data[WIDTH - 1 + y * WIDTH].set_east(true);
        }
        let maze = Self { start, goal, data };
        assert(maze@.cells =~= MazeView::enclosure(start@, goal@).cells);
        maze
    }

    /// A copy of the cell at `(x, y)`.
    #[inline]
    pub fn cell_by_x_y(&self, x: Coord1D, y: Coord1D) -> (cell: Cell)
        ensures
            cell == self.data@[cell_index(x@, y@)],
            cell@ == self@.cells[(x@, y@)],
    {
        self.data[x.value() as usize + y.value() as usize * WIDTH]
    }

    /// A copy of the cell at `coord`.
    #[inline]
    pub fn cell(&self, coord: CoordXY) -> (cell: Cell)
        ensures
            cell == self.data@[cell_index(coord@.0, coord@.1)],
            cell@ == self@.cells[coord@],
    {
        self.cell_by_x_y(coord.x(), coord.y())
    }

    /// Replacing one entry of the cell array replaces the flags of one cell.
    proof fn lemma_replaced_cell(self, after: Maze, x: int, y: int)
        requires
            on_grid(x, y),
            after.start == self.start,
            after.goal == self.goal,
            after.data@ == self.data@.update(cell_index(x, y), after.data@[cell_index(x, y)]),
        ensures
            after@ == self@.with_cell(x, y, after.data@[cell_index(x, y)]@),
    {
        assert(after@.cells =~= self@.with_cell(x, y, after.data@[cell_index(x, y)]@).cells);
    }

    /// The cell at `(x, y)`, to be changed in place. A wall changed this way is
    /// changed on one side only: `set_cell_state` changes both.
    #[inline]
    pub fn mutable_cell_by_x_y(&mut self, x: Coord1D, y: Coord1D) -> (cell: &mut Cell)
        ensures
            *cell == old(self).data@[cell_index(x@, y@)],
            final(self).data@ == old(self).data@.update(cell_index(x@, y@), *final(cell)),
            final(self).start == old(self).start,
            final(self).goal == old(self).goal,
    {
        let i: usize = x.value() as usize + y.value() as usize * WIDTH;
        &mut self.data[i]
    }

    /// The cell at `coord`, to be changed in place. A wall changed this way is
    /// changed on one side only: `set_cell_state` changes both.
    #[inline]
    pub fn mutable_cell(&mut self, coord: CoordXY) -> (cell: &mut Cell)
        ensures
            *cell == old(self).data@[cell_index(coord@.0, coord@.1)],
            final(self).data@ == old(self).data@.update(
                cell_index(coord@.0, coord@.1),
                *final(cell),
            ),
            final(self).start == old(self).start,
            final(self).goal == old(self).goal,
    {
        self.mutable_cell_by_x_y(coord.x(), coord.y())
    }

    /// Sets the wall on one side of the cell at `coord`, and with it the wall
    /// on the facing side of the cell beyond, where the grid has one.
    pub fn set_cell_state(&mut self, coord: CoordXY, direction: Direction, state: bool)
        ensures
            final(self)@ == old(self)@.set_wall(coord@.0, coord@.1, direction, state),
    {
        let ghost before = *self;
        proof {
            use_type_invariant(&coord);
        }
        self.mutable_cell(coord).set_state_by_direction(direction, state);
        proof {
            before.lemma_replaced_cell(*self, coord@.0, coord@.1);
        }
        let ghost own = *self;
        if let Ok(next_coord) = coord + direction.into() {
            self.mutable_cell(next_coord).set_state_by_direction(direction.inverted(), state);
            proof {
                use_type_invariant(&next_coord);
                own.lemma_replaced_cell(*self, next_coord@.0, next_coord@.1);
            }
        }
    }

    /// Sets the auxiliary flag on one side of the cell at `coord`, and with it
    /// the flag on the facing side of the cell beyond, where the grid has one.
    pub fn set_cell_check(&mut self, coord: CoordXY, direction: Direction, state: bool)
        ensures
            final(self)@ == old(self)@.set_check(coord@.0, coord@.1, direction, state),
    {
        let ghost before = *self;
        proof {
            use_type_invariant(&coord);
        }
        self.mutable_cell(coord).set_check_by_direction(direction, state);
        proof {
            before.lemma_replaced_cell(*self, coord@.0, coord@.1);
        }
        let ghost own = *self;
        if let Ok(next_coord) = coord + direction.into() {
            self.mutable_cell(next_coord).set_check_by_direction(direction.inverted(), state);
            proof {
                use_type_invariant(&next_coord);
                own.lemma_replaced_cell(*self, next_coord@.0, next_coord@.1);
            }
        }
    }
}

} // verus!
