//! The text form of a maze: how it is read and how it is written.
//!
//! A maze `w` cells wide is written as `2w + 1` lines of `4w + 2` bytes each,
//! the newline included. Lines alternate between wall lines (`+---+   +`) and
//! corridor lines (`|   | S  `), top row first, and a last wall line closes
//! the bottom row.

use super::cell::CellFlags;
use super::maze::{step, Maze, MazeView};
use super::{on_grid, CoordXY, Direction, WIDTH};
use vstd::prelude::*;
use vstd::string::{StringExecFns, StringSliceAdditionalSpecFns};
use vstd::utf8::{encode_utf8, is_ascii_chars, is_ascii_chars_encode_utf8};

verus! {

/// The byte `-`, which marks a wall above or below a cell.
pub const DASH: u8 = 0x2d;

/// The byte `|`, which marks a wall to the left or right of a cell.
pub const BAR: u8 = 0x7c;

/// The byte `S`, which marks the start cell.
pub const START: u8 = 0x53;

/// The byte `G`, which marks the goal cell.
pub const GOAL: u8 = 0x47;

/// Number of bytes in one line of the text of a maze `w` cells wide.
pub open spec fn line_len(w: int) -> int {
    4 * w + 2
}

/// Number of bytes in the text of a maze `w` cells wide.
pub open spec fn text_len(w: int) -> int {
    line_len(w) * (2 * w + 1)
}

/// The width of the maze that a text of `len` bytes holds: the first of
/// 32, 16, 9, 8 and 4 whose text has exactly that many bytes.
pub open spec fn width_of(len: int) -> Option<int> {
    if len == text_len(32) {
        Some(32)
    } else if len == text_len(16) {
        Some(16)
    } else if len == text_len(9) {
        Some(9)
    } else if len == text_len(8) {
        Some(8)
    } else if len == text_len(4) {
        Some(4)
    } else {
        None
    }
}

/// Whether a text of `len` bytes holds a maze that fits the grid.
pub open spec fn loadable(len: int) -> bool {
    match width_of(len) {
        Some(w) => w <= WIDTH,
        None => false,
    }
}

/// The byte at column `col` of line `line` of the text of a maze `w` cells
/// wide. Lines count from the top.
pub open spec fn byte_at(text: Seq<u8>, w: int, line: int, col: int) -> u8 {
    text[line * line_len(w) + col]
}

/// The line that holds the upper walls of row `y`.
pub open spec fn wall_line(w: int, y: int) -> int {
    2 * (w - 1 - y)
}

/// The line that holds the side walls and the markers of row `y`.
pub open spec fn corridor_line(w: int, y: int) -> int {
    2 * (w - 1 - y) + 1
}

/// Whether the text marks a wall on the given side of cell `(x, y)`. The
/// lower side of a cell is never marked: it is the upper side of the cell
/// beneath, and the last line of the text is not read.
pub open spec fn marks_wall(text: Seq<u8>, w: int, x: int, y: int, direction: Direction) -> bool {
    &&& 0 <= x < w
    &&& 0 <= y < w
    &&& match direction {
        Direction::North => byte_at(text, w, wall_line(w, y), 4 * x + 2) == DASH,
        Direction::East => byte_at(text, w, corridor_line(w, y), 4 * x + 4) == BAR,
        Direction::South => false,
        Direction::West => byte_at(text, w, corridor_line(w, y), 4 * x) == BAR,
    }
}

/// Whether the text holds cell `(x, y)` and shows `marker` at its centre.
pub open spec fn has_marker(text: Seq<u8>, w: int, marker: u8, x: int, y: int) -> bool {
    &&& 0 <= x < w
    &&& 0 <= y < w
    &&& byte_at(text, w, corridor_line(w, y), 4 * x + 2) == marker
}

/// Whether cell `(x1, y1)` is read after cell `(x2, y2)`: rows are read from
/// the top down, and the cells of a row from left to right.
pub open spec fn read_after(x1: int, y1: int, x2: int, y2: int) -> bool {
    y1 < y2 || (y1 == y2 && x1 > x2)
}

/// Whether `pos` is the cell that a marker names: the last cell read that
/// shows it, or `fallback` where no cell does.
pub open spec fn is_marked_cell(
    text: Seq<u8>,
    w: int,
    marker: u8,
    fallback: (int, int),
    pos: (int, int),
) -> bool {
    if exists|x: int, y: int| has_marker(text, w, marker, x, y) {
        &&& has_marker(text, w, marker, pos.0, pos.1)
        &&& forall|x: int, y: int| #[trigger]
            has_marker(text, w, marker, x, y) ==> !read_after(x, y, pos.0, pos.1)
    } else {
        pos == fallback
    }
}

/// Whether a wall stands on the given side of cell `(x, y)` once the text is
/// loaded: where the side faces out of the grid, where the text marks it, and
/// where the text marks the facing side of the cell beyond.
pub open spec fn loaded_wall(text: Seq<u8>, w: int, x: int, y: int, direction: Direction) -> bool {
    let (nx, ny) = step(x, y, direction);
    ||| !on_grid(nx, ny)
    ||| marks_wall(text, w, x, y, direction)
    ||| marks_wall(text, w, nx, ny, direction.opposite())
}

/// The flags of cell `(x, y)` once the text is loaded.
pub open spec fn loaded_flags(text: Seq<u8>, w: int, x: int, y: int) -> CellFlags {
    CellFlags {
        north: loaded_wall(text, w, x, y, Direction::North),
        east: loaded_wall(text, w, x, y, Direction::East),
        south: loaded_wall(text, w, x, y, Direction::South),
        west: loaded_wall(text, w, x, y, Direction::West),
        ..CellFlags::clear()
    }
}

impl MazeView {
    /// Whether this is the maze that the text holds: its walls are the outer
    /// walls and those that the text marks, its start is the cell marked `S`
    /// or else `(0, 0)`, and its goal is the cell marked `G` or else `(7, 7)`.
    pub open spec fn is_loaded_from(self, text: Seq<u8>) -> bool {
        match width_of(text.len() as int) {
            Some(w) => {
                &&& self.cells == Map::new(
                    |p: (int, int)| on_grid(p.0, p.1),
                    |p: (int, int)| loaded_flags(text, w, p.0, p.1),
                )
                &&& is_marked_cell(text, w, START, (0, 0), self.start)
                &&& is_marked_cell(text, w, GOAL, (7, 7), self.goal)
            },
            None => false,
        }
    }
}

/// A maze that a text holds has flags for the cells of the grid alone, is
/// enclosed, records every wall alike on both of its sides, and has no
/// auxiliary flag set.
pub proof fn lemma_loaded_is_sound(maze: MazeView, text: Seq<u8>)
    requires
        maze.is_loaded_from(text),
    ensures
        maze.covers_grid(),
        maze.enclosed(),
        maze.walls_symmetric(),
        forall|x: int, y: int, direction: Direction|
            on_grid(x, y) ==> !#[trigger] maze.check(x, y, direction),
{
}

/// A text holds one maze only.
pub proof fn lemma_loaded_is_unique(first: MazeView, second: MazeView, text: Seq<u8>)
    requires
        first.is_loaded_from(text),
        second.is_loaded_from(text),
    ensures
        first == second,
{
    let w = width_of(text.len() as int)->0;
    lemma_marked_cell_is_unique(text, w, START, (0, 0), first.start, second.start);
    lemma_marked_cell_is_unique(text, w, GOAL, (7, 7), first.goal, second.goal);
}

/// A marker names one cell only.
proof fn lemma_marked_cell_is_unique(
    text: Seq<u8>,
    w: int,
    marker: u8,
    fallback: (int, int),
    first: (int, int),
    second: (int, int),
)
    requires
        is_marked_cell(text, w, marker, fallback, first),
        is_marked_cell(text, w, marker, fallback, second),
    ensures
        first == second,
{
    if exists|x: int, y: int| has_marker(text, w, marker, x, y) {
        assert(!read_after(first.0, first.1, second.0, second.1));
        assert(!read_after(second.0, second.1, first.0, first.1));
    }
}

/// The character at column `col` of line `line` of the text that a maze is
/// written as. Lines count from the top. The right wall of the last column
/// and the lower wall of the bottom row are always drawn.
pub open spec fn text_char(maze: MazeView, line: int, col: int) -> char {
    let x = col / 4;
    let y = WIDTH - 1 - line / 2;
    if col == 4 * WIDTH + 1 {
        '\n'
    } else if line % 2 == 0 {
        if col % 4 == 0 {
            '+'
        } else if line == 2 * WIDTH || maze.wall(x, y, Direction::North) {
            '-'
        } else {
            ' '
        }
    } else if col % 4 == 0 {
        if col == 4 * WIDTH || maze.wall(x, y, Direction::West) {
            '|'
        } else {
            ' '
        }
    } else if col % 4 == 2 {
        if maze.start == (x, y) {
            'S'
        } else if maze.goal == (x, y) {
            'G'
        } else {
            ' '
        }
    } else {
        ' '
    }
}

/// The text that a maze is written as.
pub open spec fn text_of(maze: MazeView) -> Seq<char> {
    Seq::new(
        text_len(WIDTH as int) as nat,
        |i: int| text_char(maze, i / line_len(WIDTH as int), i % line_len(WIDTH as int)),
    )
}

/// Each byte of the text that a maze is written as is the character at its place.
proof fn lemma_written_byte(maze: MazeView, line: int, col: int)
    requires
        0 <= line <= 2 * WIDTH,
        0 <= col < line_len(WIDTH as int),
    ensures
        encode_utf8(text_of(maze)).len() == text_len(WIDTH as int),
        byte_at(encode_utf8(text_of(maze)), WIDTH as int, line, col) == text_char(
            maze,
            line,
            col,
        ) as u8,
{
    let text = text_of(maze);
    let len = line_len(WIDTH as int);
    assert(is_ascii_chars(text));
    is_ascii_chars_encode_utf8(text);
    let i = line * len + col;
    lemma_line_in_text(WIDTH as int, line, col);
    assert(i / len == line && i % len == col) by (nonlinear_arith)
        requires
            i == line * len + col,
            0 <= col < len,
    ;
    assert(encode_utf8(text)[i] == text[i] as u8);
}

/// A text as wide as the grid is told to be that wide from its length.
proof fn lemma_full_width()
    ensures
        width_of(text_len(WIDTH as int)) == Some(WIDTH as int),
{
    let w = WIDTH as int;
    assert(w == 8 || w == 16 || w == 32);
    assert(line_len(8) == 34);
    assert(line_len(9) == 38);
    assert(line_len(16) == 66);
    assert(line_len(32) == 130);
    assert(text_len(8) == 578);
    assert(text_len(9) == 722);
    assert(text_len(16) == 2178);
    assert(text_len(32) == 8450);
}

/// The text that a maze is written as can be loaded.
pub proof fn lemma_written_is_loadable(maze: MazeView)
    ensures
        is_ascii_chars(text_of(maze)),
        encode_utf8(text_of(maze)).len() == text_len(WIDTH as int),
        width_of(text_len(WIDTH as int)) == Some(WIDTH as int),
        loadable(text_len(WIDTH as int)),
{
    lemma_written_byte(maze, 0, 0);
    lemma_full_width();
}

/// What the text that a maze is written as marks on a cell: the walls above
/// and to the left of the cell, the wall to the left of the cell on its
/// right, and the start and the goal.
proof fn lemma_written_marks(maze: MazeView, x: int, y: int)
    requires
        on_grid(x, y),
    ensures
        ({
            let bytes = encode_utf8(text_of(maze));
            let w = WIDTH as int;
            &&& marks_wall(bytes, w, x, y, Direction::North) == maze.wall(x, y, Direction::North)
            &&& marks_wall(bytes, w, x, y, Direction::West) == maze.wall(x, y, Direction::West)
            &&& marks_wall(bytes, w, x, y, Direction::East) == (x == w - 1 || maze.wall(
                x + 1,
                y,
                Direction::West,
            ))
            &&& !marks_wall(bytes, w, x, y, Direction::South)
            &&& has_marker(bytes, w, START, x, y) == (maze.start == (x, y))
            &&& has_marker(bytes, w, GOAL, x, y) == (maze.goal == (x, y) && maze.start != (x, y))
        }),
{
    let w = WIDTH as int;
    lemma_written_byte(maze, wall_line(w, y), 4 * x + 2);
    lemma_written_byte(maze, corridor_line(w, y), 4 * x);
    lemma_written_byte(maze, corridor_line(w, y), 4 * x + 2);
    lemma_written_byte(maze, corridor_line(w, y), 4 * x + 4);
}

/// The walls of a cell that are loaded from what was written are the walls of the cell.
proof fn lemma_written_walls(maze: MazeView, x: int, y: int, direction: Direction)
    requires
        on_grid(x, y),
        maze.enclosed(),
        maze.walls_symmetric(),
    ensures
        loaded_wall(encode_utf8(text_of(maze)), WIDTH as int, x, y, direction) == maze.wall(
            x,
            y,
            direction,
        ),
{
    let (nx, ny) = step(x, y, direction);
    lemma_written_marks(maze, x, y);
    if on_grid(nx, ny) {
        lemma_written_marks(maze, nx, ny);
        assert(maze.wall(x, y, direction) == maze.wall(nx, ny, direction.opposite()));
        if direction == Direction::West {
            assert(maze.wall(nx, ny, Direction::East) == maze.wall(
                step(nx, ny, Direction::East).0,
                step(nx, ny, Direction::East).1,
                Direction::West,
            ));
        }
    } else {
        assert(maze.wall(x, y, direction));
    }
}

/// Writing a maze and loading what was written gives the maze again, where
/// the maze is enclosed, records every wall alike on both of its sides, has
/// no auxiliary flag set, and has its start and its goal on two cells of the
/// grid.
pub proof fn lemma_write_then_load(maze: MazeView, loaded: MazeView)
    requires
        maze.covers_grid(),
        maze.enclosed(),
        maze.walls_symmetric(),
        forall|x: int, y: int, direction: Direction|
            on_grid(x, y) ==> !#[trigger] maze.check(x, y, direction),
        on_grid(maze.start.0, maze.start.1),
        on_grid(maze.goal.0, maze.goal.1),
        maze.start != maze.goal,
        loaded.is_loaded_from(encode_utf8(text_of(maze))),
    ensures
        loaded == maze,
{
    let bytes = encode_utf8(text_of(maze));
    let w = WIDTH as int;
    lemma_written_is_loadable(maze);
    assert(loaded.start == maze.start) by {
        lemma_written_marks(maze, maze.start.0, maze.start.1);
        lemma_written_marks(maze, loaded.start.0, loaded.start.1);
    }
    assert(loaded.goal == maze.goal) by {
        lemma_written_marks(maze, maze.goal.0, maze.goal.1);
        lemma_written_marks(maze, loaded.goal.0, loaded.goal.1);
    }
    assert forall|p: (int, int)| on_grid(p.0, p.1) implies loaded_flags(bytes, w, p.0, p.1)
        == #[trigger] maze.cells[p] by {
        lemma_written_walls(maze, p.0, p.1, Direction::North);
        lemma_written_walls(maze, p.0, p.1, Direction::East);
        lemma_written_walls(maze, p.0, p.1, Direction::South);
        lemma_written_walls(maze, p.0, p.1, Direction::West);
        assert(!maze.check(p.0, p.1, Direction::North));
        assert(!maze.check(p.0, p.1, Direction::East));
        assert(!maze.check(p.0, p.1, Direction::South));
        assert(!maze.check(p.0, p.1, Direction::West));
    }
    assert(loaded.cells =~= maze.cells);
}

/// Whether `out` is the text of `maze` up to column `col` of line `line`.
spec fn written(out: Seq<char>, maze: MazeView, line: int, col: int) -> bool {
    &&& out.len() == line * line_len(WIDTH as int) + col
    &&& forall|i: int|
        0 <= i < out.len() ==> #[trigger] out[i] == text_char(
            maze,
            i / line_len(WIDTH as int),
            i % line_len(WIDTH as int),
        )
}

/// Writing the next characters of a line carries the text further along it.
proof fn lemma_written(out: Seq<char>, piece: Seq<char>, maze: MazeView, line: int, col: int)
    requires
        written(out, maze, line, col),
        0 <= line,
        0 <= col,
        col + piece.len() <= line_len(WIDTH as int),
        forall|k: int|
            0 <= k < piece.len() ==> #[trigger] piece[k] == text_char(maze, line, col + k),
    ensures
        written(out + piece, maze, line, col + piece.len()),
{
    let all = out + piece;
    assert forall|i: int| 0 <= i < all.len() implies #[trigger] all[i] == text_char(
        maze,
        i / line_len(WIDTH as int),
        i % line_len(WIDTH as int),
    ) by {
        if i >= out.len() {
            let k = i - out.len();
            assert(all[i] == piece[k]);
            assert(i == line * line_len(WIDTH as int) + (col + k));
            assert(i / line_len(WIDTH as int) == line && i % line_len(WIDTH as int) == col + k)
                by (nonlinear_arith)
                requires
                    i == line * line_len(WIDTH as int) + (col + k),
                    0 <= col + k < line_len(WIDTH as int),
                    line_len(WIDTH as int) > 0,
            ;
        }
    }
}

/// A text that ends with a whole line stands at the start of the next line.
proof fn lemma_line_written(out: Seq<char>, maze: MazeView, line: int)
    requires
        written(out, maze, line, line_len(WIDTH as int)),
    ensures
        written(out, maze, line + 1, 0),
{
    let len = line_len(WIDTH as int);
    assert((line + 1) * len == line * len + len) by (nonlinear_arith);
}

/// Writes the next characters of a line.
fn write_piece(
    out: &mut String,
    piece: &str,
    Ghost(maze): Ghost<MazeView>,
    Ghost(line): Ghost<int>,
    Ghost(col): Ghost<int>,
)
    requires
        written(old(out)@, maze, line, col),
        0 <= line,
        0 <= col,
        col + piece@.len() <= line_len(WIDTH as int),
        forall|k: int|
            0 <= k < piece@.len() ==> #[trigger] piece@[k] == text_char(maze, line, col + k),
    ensures
        written(final(out)@, maze, line, col + piece@.len()),
{
    proof {
        lemma_written(out@, piece@, maze, line, col);
    }
    out.append(piece);
}

/// How far the reading of a text has come: the rows above `row` are read, and
/// of row `row` the first `north` upper walls, `west` left walls, `east` right
/// walls and `marker` markers.
ghost struct Scan {
    row: int,
    north: int,
    west: int,
    east: int,
    marker: int,
}

impl Scan {
    /// Nothing of row `y` is read, and all of the rows above it.
    spec fn row_start(y: int) -> Scan {
        Scan { row: y, north: 0, west: 0, east: 0, marker: 0 }
    }

    /// Whether the mark for the given side of cell `(x, y)` is read.
    spec fn wall(self, x: int, y: int, direction: Direction) -> bool {
        y > self.row || (y == self.row && match direction {
            Direction::North => x < self.north,
            Direction::East => x < self.east,
            Direction::South => false,
            Direction::West => x < self.west,
        })
    }

    /// Whether the marker of cell `(x, y)` is read.
    spec fn marker(self, x: int, y: int) -> bool {
        y > self.row || (y == self.row && x < self.marker)
    }
}

/// Whether a wall stands on the given side of cell `(x, y)` after the marks
/// in `scan` are read.
spec fn scanned_wall(
    text: Seq<u8>,
    w: int,
    scan: Scan,
    x: int,
    y: int,
    direction: Direction,
) -> bool {
    let (nx, ny) = step(x, y, direction);
    ||| !on_grid(nx, ny)
    ||| (marks_wall(text, w, x, y, direction) && scan.wall(x, y, direction))
    ||| (marks_wall(text, w, nx, ny, direction.opposite()) && scan.wall(
        nx,
        ny,
        direction.opposite(),
    ))
}

spec fn scanned_flags(text: Seq<u8>, w: int, scan: Scan, x: int, y: int) -> CellFlags {
    CellFlags {
        north: scanned_wall(text, w, scan, x, y, Direction::North),
        east: scanned_wall(text, w, scan, x, y, Direction::East),
        south: scanned_wall(text, w, scan, x, y, Direction::South),
        west: scanned_wall(text, w, scan, x, y, Direction::West),
        ..CellFlags::clear()
    }
}

spec fn scanned_cells(text: Seq<u8>, w: int, scan: Scan) -> Map<(int, int), CellFlags> {
    Map::new(
        |p: (int, int)| on_grid(p.0, p.1),
        |p: (int, int)| scanned_flags(text, w, scan, p.0, p.1),
    )
}

/// Whether `pos` is the cell that a marker names after the markers in `scan`
/// are read.
spec fn is_scanned_cell(
    text: Seq<u8>,
    w: int,
    scan: Scan,
    marker: u8,
    fallback: (int, int),
    pos: (int, int),
) -> bool {
    if exists|x: int, y: int| has_marker(text, w, marker, x, y) && scan.marker(x, y) {
        &&& has_marker(text, w, marker, pos.0, pos.1)
        &&& scan.marker(pos.0, pos.1)
        &&& forall|x: int, y: int|
            #[trigger] has_marker(text, w, marker, x, y) && scan.marker(x, y) ==> !read_after(
                x,
                y,
                pos.0,
                pos.1,
            )
    } else {
        pos == fallback
    }
}

/// Whether `maze` is what the reading has built when it has come as far as `scan`.
spec fn scanned(maze: MazeView, text: Seq<u8>, w: int, scan: Scan) -> bool {
    &&& maze.cells == scanned_cells(text, w, scan)
    &&& is_scanned_cell(text, w, scan, START, (0, 0), maze.start)
    &&& is_scanned_cell(text, w, scan, GOAL, (7, 7), maze.goal)
}

/// Reading the mark for one more side of one more cell sets that wall where the
/// text marks it, and leaves the maze as it is where the text does not.
proof fn lemma_wall_read(
    maze: MazeView,
    text: Seq<u8>,
    w: int,
    before: Scan,
    after: Scan,
    x: int,
    y: int,
    direction: Direction,
)
    requires
        0 <= x < w <= WIDTH,
        0 <= y < w,
        maze.cells == scanned_cells(text, w, before),
        forall|a: int, b: int, c: Direction| #[trigger]
            after.wall(a, b, c) == (before.wall(a, b, c) || (a == x && b == y && c == direction)),
    ensures
        (if marks_wall(text, w, x, y, direction) {
            maze.set_wall(x, y, direction, true)
        } else {
            maze
        }).cells == scanned_cells(text, w, after),
{
    let result = if marks_wall(text, w, x, y, direction) {
        maze.set_wall(x, y, direction, true)
    } else {
        maze
    };
    assert forall|p: (int, int)| on_grid(p.0, p.1) implies #[trigger] result.cells[p]
        == scanned_flags(text, w, after, p.0, p.1) by {
        assert(maze.cells[p] == scanned_flags(text, w, before, p.0, p.1));
    }
    assert(result.cells =~= scanned_cells(text, w, after));
}

/// Reading the marker of one more cell moves the marked cell there where the
/// text shows the marker, and leaves it where the text does not.
proof fn lemma_marker_read(
    text: Seq<u8>,
    w: int,
    before: Scan,
    marker: u8,
    fallback: (int, int),
    pos: (int, int),
    x: int,
    y: int,
)
    requires
        0 <= x < w,
        0 <= y < w,
        before.row == y,
        before.marker == x,
        is_scanned_cell(text, w, before, marker, fallback, pos),
    ensures
        is_scanned_cell(
            text,
            w,
            Scan { marker: x + 1, ..before },
            marker,
            fallback,
            if has_marker(text, w, marker, x, y) {
                (x, y)
            } else {
                pos
            },
        ),
{
    let after = Scan { marker: x + 1, ..before };
    assert forall|a: int, b: int| #[trigger]
        after.marker(a, b) == (before.marker(a, b) || (a == x && b == y)) by {}
    if has_marker(text, w, marker, x, y) {
        assert(has_marker(text, w, marker, x, y) && after.marker(x, y));
    } else if exists|a: int, b: int| has_marker(text, w, marker, a, b) && after.marker(a, b) {
        let (a, b) = choose|a: int, b: int| has_marker(text, w, marker, a, b) && after.marker(a, b);
        assert(has_marker(text, w, marker, a, b) && before.marker(a, b));
    } else {
        assert forall|a: int, b: int|
            !(has_marker(text, w, marker, a, b) && before.marker(a, b)) by {
            assert(!(has_marker(text, w, marker, a, b) && after.marker(a, b)));
        }
    }
}

/// Which cell a marker names depends only on which markers of the text are read.
proof fn lemma_markers_agree(
    text: Seq<u8>,
    w: int,
    a: Scan,
    b: Scan,
    marker: u8,
    fallback: (int, int),
    pos: (int, int),
)
    requires
        is_scanned_cell(text, w, a, marker, fallback, pos),
        forall|x: int, y: int|
            0 <= x < w && 0 <= y < w ==> #[trigger] a.marker(x, y) == b.marker(x, y),
    ensures
        is_scanned_cell(text, w, b, marker, fallback, pos),
{
    if exists|x: int, y: int| has_marker(text, w, marker, x, y) && b.marker(x, y) {
        let (x, y) = choose|x: int, y: int| has_marker(text, w, marker, x, y) && b.marker(x, y);
        assert(has_marker(text, w, marker, x, y) && a.marker(x, y));
    } else {
        assert forall|x: int, y: int| !(has_marker(text, w, marker, x, y) && a.marker(x, y)) by {
            assert(!(has_marker(text, w, marker, x, y) && b.marker(x, y)));
        }
    }
}

/// What the reading has built depends only on which marks of the text are read.
proof fn lemma_scan_agrees(maze: MazeView, text: Seq<u8>, w: int, a: Scan, b: Scan)
    requires
        scanned(maze, text, w, a),
        w <= WIDTH,
        forall|x: int, y: int, d: Direction|
            0 <= x < w && 0 <= y < w && d != Direction::South ==> #[trigger] a.wall(x, y, d)
                == b.wall(x, y, d),
        forall|x: int, y: int|
            0 <= x < w && 0 <= y < w ==> #[trigger] a.marker(x, y) == b.marker(x, y),
    ensures
        scanned(maze, text, w, b),
{
    assert(scanned_cells(text, w, a) =~= scanned_cells(text, w, b));
    lemma_markers_agree(text, w, a, b, START, (0, 0), maze.start);
    lemma_markers_agree(text, w, a, b, GOAL, (7, 7), maze.goal);
}

/// Once every mark is read, the maze is the one that the text holds.
proof fn lemma_all_read(maze: MazeView, text: Seq<u8>, w: int, scan: Scan)
    requires
        scanned(maze, text, w, scan),
        width_of(text.len() as int) == Some(w),
        w <= WIDTH,
        forall|x: int, y: int, d: Direction|
            0 <= x < w && 0 <= y < w && d != Direction::South ==> #[trigger] scan.wall(x, y, d),
        forall|x: int, y: int| 0 <= x < w && 0 <= y < w ==> #[trigger] scan.marker(x, y),
    ensures
        maze.is_loaded_from(text),
{
    assert(scanned_cells(text, w, scan) =~= Map::new(
        |p: (int, int)| on_grid(p.0, p.1),
        |p: (int, int)| loaded_flags(text, w, p.0, p.1),
    ));
    assert forall|marker: u8, fallback: (int, int), pos: (int, int)|
        is_scanned_cell(text, w, scan, marker, fallback, pos) implies is_marked_cell(
        text,
        w,
        marker,
        fallback,
        pos,
    ) by {
        if exists|x: int, y: int| has_marker(text, w, marker, x, y) {
            let (x, y) = choose|x: int, y: int| has_marker(text, w, marker, x, y);
            assert(has_marker(text, w, marker, x, y) && scan.marker(x, y));
        }
    }
}

/// Every byte of every line lies within the text.
proof fn lemma_line_in_text(w: int, line: int, col: int)
    requires
        0 < w,
        0 <= line <= 2 * w,
        0 <= col < line_len(w),
    ensures
        0 <= line * line_len(w),
        line * line_len(w) + col < text_len(w),
        line * line_len(w) == line * (4 * w + 2),
{
    assert(0 <= line * (4 * w + 2) && line * (4 * w + 2) + col < (4 * w + 2) * (2 * w + 1))
        by (nonlinear_arith)
        requires
            0 < w,
            0 <= line <= 2 * w,
            0 <= col < 4 * w + 2,
    ;
}

impl Maze {
    /// Reads the line that holds the upper walls of row `y`.
    fn read_wall_line(&mut self, text: &[u8], width: usize, y: usize)
        requires
            0 < width <= WIDTH,
            text@.len() == text_len(width as int),
            text@.len() <= usize::MAX,
            y < width,
            scanned(old(self)@, text@, width as int, Scan::row_start(y as int)),
        ensures
            scanned(
                final(self)@,
                text@,
                width as int,
                Scan { north: width as int, ..Scan::row_start(y as int) },
            ),
    {
        let line: usize = 2 * (width - 1 - y);
        proof {
            lemma_line_in_text(width as int, line as int, 0);
        }
        let base: usize = line * (4 * width + 2);
        for x in 0..width
            invariant
                0 < width <= WIDTH,
                text@.len() == text_len(width as int),
                text@.len() <= usize::MAX,
                y < width,
                line == wall_line(width as int, y as int),
                base == line * line_len(width as int),
                scanned(
                    self@,
                    text@,
                    width as int,
                    Scan { north: x as int, ..Scan::row_start(y as int) },
                ),
        {
            let ghost before = Scan { north: x as int, ..Scan::row_start(y as int) };
            let ghost after = Scan { north: x as int + 1, ..Scan::row_start(y as int) };
            proof {
                lemma_line_in_text(width as int, line as int, 4 * x + 2);
                lemma_wall_read(
                    self@,
                    text@,
                    width as int,
                    before,
                    after,
                    x as int,
                    y as int,
                    Direction::North,
                );
            }
            let coord = CoordXY::new(x as u8, y as u8).unwrap();
            if text[base + 2 + 4 * x] == DASH {
                self.set_cell_state(coord, Direction::North, true);
            }
            proof {
                lemma_markers_agree(text@, width as int, before, after, START, (0, 0), self@.start);
                lemma_markers_agree(text@, width as int, before, after, GOAL, (7, 7), self@.goal);
            }
        }
    }

    /// Reads the line that holds the side walls and the markers of row `y`.
    fn read_corridor_line(&mut self, text: &[u8], width: usize, y: usize)
        requires
            0 < width <= WIDTH,
            text@.len() == text_len(width as int),
            text@.len() <= usize::MAX,
            y < width,
            scanned(
                old(self)@,
                text@,
                width as int,
                Scan { north: width as int, ..Scan::row_start(y as int) },
            ),
        ensures
            scanned(
                final(self)@,
                text@,
                width as int,
                Scan {
                    row: y as int,
                    north: width as int,
                    west: width as int,
                    east: width as int,
                    marker: width as int,
                },
            ),
    {
        let line: usize = 2 * (width - 1 - y) + 1;
        proof {
            lemma_line_in_text(width as int, line as int, 0);
        }
        let base: usize = line * (4 * width + 2);
        for x in 0..width
            invariant
                0 < width <= WIDTH,
                text@.len() == text_len(width as int),
                text@.len() <= usize::MAX,
                y < width,
                line == corridor_line(width as int, y as int),
                base == line * line_len(width as int),
                scanned(
                    self@,
                    text@,
                    width as int,
                    Scan {
                        row: y as int,
                        north: width as int,
                        west: x as int,
                        east: x as int,
                        marker: x as int,
                    },
                ),
        {
            let ghost w = width as int;
            let ghost at_cell = Scan {
                row: y as int,
                north: w,
                west: x as int,
                east: x as int,
                marker: x as int,
            };
            let ghost past_west = Scan { west: x as int + 1, ..at_cell };
            let ghost past_marker = Scan { marker: x as int + 1, ..past_west };
            let ghost past_east = Scan { east: x as int + 1, ..past_marker };
            let coord = CoordXY::new(x as u8, y as u8).unwrap();
            proof {
                lemma_line_in_text(w, line as int, 4 * x + 4);
                let (cx, cy) = (x as int, y as int);
                lemma_wall_read(self@, text@, w, at_cell, past_west, cx, cy, Direction::West);
            }
            if text[base + 4 * x] == BAR {
                self.set_cell_state(coord, Direction::West, true);
            }
            proof {
                lemma_markers_agree(text@, w, at_cell, past_west, START, (0, 0), self@.start);
                lemma_markers_agree(text@, w, at_cell, past_west, GOAL, (7, 7), self@.goal);
                let (cx, cy) = (x as int, y as int);
                lemma_marker_read(text@, w, past_west, START, (0, 0), self@.start, cx, cy);
                lemma_marker_read(text@, w, past_west, GOAL, (7, 7), self@.goal, cx, cy);
                assert(scanned_cells(text@, w, past_west) =~= scanned_cells(text@, w, past_marker));
            }
            if text[base + 4 * x + 2] == START {
                self.start = coord;
            } else if text[base + 4 * x + 2] == GOAL {
                self.goal = coord;
            }
            proof {
                let (cx, cy) = (x as int, y as int);
                lemma_wall_read(self@, text@, w, past_marker, past_east, cx, cy, Direction::East);
            }
            if text[base + 4 * x + 4] == BAR {
                self.set_cell_state(coord, Direction::East, true);
            }
            proof {
                lemma_markers_agree(text@, w, past_marker, past_east, START, (0, 0), self@.start);
                lemma_markers_agree(text@, w, past_marker, past_east, GOAL, (7, 7), self@.goal);
            }
        }
    }

    /// Builds the maze that a text holds.
    ///
    /// The width `w` of the maze is told from the length of the text, which
    /// `text_width` must be able to tell and the grid must have room for.
    /// Every line is taken to be `4w + 2` bytes long, so that line `k` begins
    /// at byte `k(4w + 2)`. Only the bytes at the places of the marks are
    /// read, and of the last line none. Rows are read from the top down. A
    /// cell marked `S` becomes the start and one marked `G` the goal; where
    /// several cells carry a marker, the last one read counts.
    pub fn load_from_str(maze_str: &str) -> (maze: Self)
        requires
            loadable(maze_str.len() as int),
        ensures
            maze@.is_loaded_from(maze_str.spec_bytes()),
    {
        let text = maze_str.as_bytes();
        let mut maze = Self::new(CoordXY::new(0, 0).unwrap(), CoordXY::new(7, 7).unwrap());
        let width: usize = Self::text_width(text.len()).unwrap();
        proof {
            assert(scanned_cells(text@, width as int, Scan::row_start(width as int - 1))
                =~= maze@.cells);
        }
        let mut y: usize = width;
        while y > 0
            invariant
                0 < width <= WIDTH,
                y <= width,
                text@.len() == text_len(width as int),
                text@.len() <= usize::MAX,
                scanned(maze@, text@, width as int, Scan::row_start(y as int - 1)),
            decreases y,
        {
            y -= 1;
            maze.read_wall_line(text, width, y);
            maze.read_corridor_line(text, width, y);
            proof {
                let w = width as int;
                lemma_scan_agrees(
                    maze@,
                    text@,
                    w,
                    Scan { row: y as int, north: w, west: w, east: w, marker: w },
                    Scan::row_start(y as int - 1),
                );
            }
        }
        proof {
            lemma_all_read(maze@, text@, width as int, Scan::row_start(-1));
        }
        maze
    }

    /// Writes the maze as text, at the full width of the grid.
    ///
    /// The walls drawn are the upper and left walls of each cell; the right
    /// wall of the last column and the lower wall of the bottom row are
    /// always drawn. `S` stands at the start and `G` at the goal; where both
    /// are one cell, `S` stands there.
    pub fn to_string(&self) -> (text: String)
        ensures
            text@ == text_of(self@),
    {
        let mut out = String::new();
        let mut y: usize = WIDTH;
        while y > 0
            invariant
                y <= WIDTH,
                written(out@, self@, 2 * (WIDTH - y), 0),
            decreases y,
        {
            y -= 1;
            let ghost line: int = 2 * (WIDTH - 1 - y);
            for x in 0..WIDTH
                invariant
                    y < WIDTH,
                    line == 2 * (WIDTH - 1 - y),
                    written(out@, self@, line, 4 * x),
            {
                let cell = self.data[x + y * WIDTH];
                let wall: &str = if cell.north() {
                    "---"
                } else {
                    "   "
                };
                proof {
                    reveal_strlit("+");
                    reveal_strlit("---");
                    reveal_strlit("   ");
                }
                write_piece(&mut out, "+", Ghost(self@), Ghost(line), Ghost(4 * x as int));
                write_piece(&mut out, wall, Ghost(self@), Ghost(line), Ghost(4 * x + 1));
            }
            proof {
                reveal_strlit("+\n");
            }
            write_piece(&mut out, "+\n", Ghost(self@), Ghost(line), Ghost(4 * WIDTH as int));
            proof {
                lemma_line_written(out@, self@, line);
            }
            for x in 0..WIDTH
                invariant
                    y < WIDTH,
                    line == 2 * (WIDTH - 1 - y),
                    written(out@, self@, line + 1, 4 * x),
            {
                let cell = self.data[x + y * WIDTH];
                let coord = CoordXY::new(x as u8, y as u8).unwrap();
                let wall: &str = if cell.west() {
                    "|"
                } else {
                    " "
                };
                let mark: &str = if self.start == coord {
                    "S"
                } else if self.goal == coord {
                    "G"
                } else {
                    " "
                };
                proof {
                    reveal_strlit("|");
                    reveal_strlit(" ");
                    reveal_strlit("S");
                    reveal_strlit("G");
                }
                write_piece(&mut out, wall, Ghost(self@), Ghost(line + 1), Ghost(4 * x as int));
                write_piece(&mut out, " ", Ghost(self@), Ghost(line + 1), Ghost(4 * x + 1));
                write_piece(&mut out, mark, Ghost(self@), Ghost(line + 1), Ghost(4 * x + 2));
                write_piece(&mut out, " ", Ghost(self@), Ghost(line + 1), Ghost(4 * x + 3));
            }
            proof {
                reveal_strlit("|\n");
            }
            write_piece(&mut out, "|\n", Ghost(self@), Ghost(line + 1), Ghost(4 * WIDTH as int));
            proof {
                lemma_line_written(out@, self@, line + 1);
            }
        }
        let ghost bottom: int = 2 * WIDTH as int;
        for x in 0..WIDTH
            invariant
                bottom == 2 * WIDTH,
                written(out@, self@, bottom, 4 * x),
        {
            proof {
                reveal_strlit("+---");
            }
            write_piece(&mut out, "+---", Ghost(self@), Ghost(bottom), Ghost(4 * x as int));
        }
        proof {
            reveal_strlit("+\n");
        }
        write_piece(&mut out, "+\n", Ghost(self@), Ghost(bottom), Ghost(4 * WIDTH as int));
        proof {
            lemma_line_written(out@, self@, bottom);
        }
        assert(out@ =~= text_of(self@));
        out
    }

    /// The width of the maze that a text of `len` bytes holds, if it holds one.
    pub fn text_width(len: usize) -> (width: Option<usize>)
        ensures
            match width {
                Some(w) => width_of(len as int) == Some(w as int),
                None => width_of(len as int) is None,
            },
    {
        let candidates: [usize; 5] = [32, 16, 9, 8, 4];
        let mut i: usize = 0;
        while i < 5
            invariant
                i <= 5,
                candidates@ == seq![32usize, 16, 9, 8, 4],
                forall|k: int| 0 <= k < i ==> len != text_len(#[trigger] candidates@[k] as int),
            decreases 5 - i,
        {
            let w: usize = candidates[i];
            assert(w == 32 || w == 16 || w == 9 || w == 8 || w == 4);
            let nominal_len: usize = (4 * w + 2) * (2 * w + 1);
            if len == nominal_len {
                return Some(w);
            }
            i += 1;
        }
        assert(forall|k: int| 0 <= k < 5 ==> len != text_len(#[trigger] candidates@[k] as int));
        assert(candidates@[0] == 32 && candidates@[1] == 16 && candidates@[2] == 9
            && candidates@[3] == 8 && candidates@[4] == 4);
        None
    }
}

} // verus!
