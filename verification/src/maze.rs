//! The grid model: a maze as rows of single-character cell tags.

use vstd::prelude::*;

verus! {

/// Tag of an empty cell.
pub const EMPTY: char = ' ';

/// Tag of the cell where the player starts.
pub const START: char = 's';

/// Tag of the cell that ends the level.
pub const GOAL: char = 'g';

/// Largest span in pixels, along either axis, of a grid that rays are cast
/// through. It keeps every pixel coordinate and distance inside the machine
/// integers.
pub const MAX_SPAN: usize = 0x7FFF_FFFF;

/// The grid as a sequence of rows of tags.
pub open spec fn grid_of(maze: &Vec<Vec<char>>) -> Seq<Seq<char>> {
    Seq::new(maze@.len(), |j: int| maze@[j]@)
}

/// A tag that neither blocks movement nor stops a ray: empty, start or goal.
pub open spec fn passable_tag(tag: char) -> bool {
    tag == EMPTY || tag == START || tag == GOAL
}

/// Whether row `row` of the grid has a cell in column `col`.
pub open spec fn has_cell(grid: Seq<Seq<char>>, row: int, col: int) -> bool {
    0 <= row < grid.len() && 0 <= col < grid[row].len()
}

/// The whole grid, at `block_size` pixels per cell, spans at most `limit`
/// pixels along each axis.
pub open spec fn span_within(grid: Seq<Seq<char>>, block_size: int, limit: int) -> bool {
    &&& grid.len() * block_size <= limit
    &&& forall|j: int| 0 <= j < grid.len() ==> (#[trigger] grid[j]).len() * block_size <= limit
}

/// The whole grid, at `block_size` pixels per cell, spans at most `width`
/// pixels across and `height` pixels down.
pub open spec fn extent_within(grid: Seq<Seq<char>>, block_size: int, width: int, height: int) -> bool {
    &&& grid.len() * block_size <= height
    &&& forall|j: int| 0 <= j < grid.len() ==> (#[trigger] grid[j]).len() * block_size <= width
}

/// Whether the cell can be walked through. A cell outside the grid cannot.
pub fn is_passable(maze: &Vec<Vec<char>>, row: usize, col: usize) -> (free: bool)
    ensures
        free == (has_cell(grid_of(maze), row as int, col as int) && passable_tag(
            grid_of(maze)[row as int][col as int],
        )),
{
    if row < maze.len() && col < maze[row].len() {
        let tag: char = maze[row][col];
        tag == EMPTY || tag == START || tag == GOAL
    } else {
        false
    }
}

/// Whether the grid is small enough for rays to be cast through it: the
/// run-time form of `span_within` at `MAX_SPAN`.
pub fn grid_fits(maze: &Vec<Vec<char>>, block_size: usize) -> (fits: bool)
    ensures
        fits == span_within(grid_of(maze), block_size as int, MAX_SPAN as int),
{
    if block_size == 0 {
        proof {
            let grid = grid_of(maze);
            assert(grid.len() * block_size == 0) by (nonlinear_arith)
                requires block_size == 0;
            assert forall|j: int| 0 <= j < grid.len() implies (#[trigger] grid[j]).len() * block_size
                <= MAX_SPAN by {
                assert(grid[j].len() * block_size == 0) by (nonlinear_arith)
                    requires block_size == 0;
            }
        }
        return true;
    }
    let cap: usize = MAX_SPAN / block_size;
    proof {
        lemma_cap(block_size as int, maze@.len() as int);
    }
    if maze.len() > cap {
        return false;
    }
    let mut j: usize = 0;
    while j < maze.len()
        invariant
            0 < block_size,
            cap == MAX_SPAN / block_size,
            j <= maze@.len(),
            forall|r: int| 0 <= r < j ==> (#[trigger] grid_of(maze)[r]).len() * block_size <= MAX_SPAN,
        decreases maze@.len() - j,
    {
        proof {
            lemma_cap(block_size as int, maze@[j as int]@.len() as int);
        }
        if maze[j].len() > cap {
            assert(grid_of(maze)[j as int].len() * block_size > MAX_SPAN);
            return false;
        }
        j += 1;
    }
    true
}

/// `n` cells of `block_size` pixels fit in `MAX_SPAN` exactly when `n` is at
/// most `MAX_SPAN / block_size`.
proof fn lemma_cap(block_size: int, n: int)
    requires
        0 < block_size,
        0 <= n,
    ensures
        n * block_size <= MAX_SPAN <==> n <= (MAX_SPAN as int) / block_size,
{
    let m = MAX_SPAN as int;
    let q = m / block_size;
    assert(m == q * block_size + m % block_size && 0 <= m % block_size < block_size) by (nonlinear_arith)
        requires 0 < block_size, q == m / block_size;
    if n <= q {
        assert(n * block_size <= q * block_size) by (nonlinear_arith)
            requires n <= q, 0 < block_size;
    } else {
        assert(n * block_size >= (q + 1) * block_size) by (nonlinear_arith)
            requires n >= q + 1, 0 < block_size;
        assert((q + 1) * block_size == q * block_size + block_size) by (nonlinear_arith);
    }
}

/// Why a maze text is refused.
#[derive(Clone, Copy, Debug, PartialEq, Eq, Structural)]
pub enum LoadError {
    /// A row holds no cell.
    EmptyRow,
    /// Two rows differ in width.
    UnevenRows,
}

/// A line without the carriage return that ended it.
pub open spec fn strip_cr(line: Seq<char>) -> Seq<char> {
    if line.len() > 0 && line.last() == '\r' {
        line.drop_last()
    } else {
        line
    }
}

/// The lines of `rest`, read after the characters `cur` of an unfinished
/// line. A line feed ends a line, and takes a carriage return just before
/// it along; what follows the last line feed is a line if it holds
/// anything.
pub open spec fn split_lines(rest: Seq<char>, cur: Seq<char>) -> Seq<Seq<char>>
    decreases rest.len(),
{
    if rest.len() == 0 {
        if cur.len() == 0 {
            Seq::empty()
        } else {
            seq![cur]
        }
    } else if rest[0] == '\n' {
        seq![strip_cr(cur)] + split_lines(rest.drop_first(), Seq::empty())
    } else {
        split_lines(rest.drop_first(), cur.push(rest[0]))
    }
}

/// The rows of a maze text: its lines, one cell per character.
pub open spec fn rows_of(text: Seq<char>) -> Seq<Seq<char>> {
    split_lines(text, Seq::empty())
}

/// Whether some row is empty.
pub open spec fn has_empty_row(rows: Seq<Seq<char>>) -> bool {
    exists|j: int| 0 <= j < rows.len() && (#[trigger] rows[j]).len() == 0
}

/// Whether some row differs in width from the first.
pub open spec fn has_uneven_rows(rows: Seq<Seq<char>>) -> bool {
    exists|j: int| 0 <= j < rows.len() && (#[trigger] rows[j]).len() != rows[0].len()
}

/// Reads a maze from its text, one row per line and one cell per character.
/// A text with an empty row is refused, and so is one whose rows differ in
/// width.
pub fn load_maze(source: &str) -> (loaded: Result<Vec<Vec<char>>, LoadError>)
    ensures
        match loaded {
            Ok(maze) => grid_of(&maze) == rows_of(source@) && !has_empty_row(rows_of(source@))
                && !has_uneven_rows(rows_of(source@)),
            Err(LoadError::EmptyRow) => has_empty_row(rows_of(source@)),
            Err(LoadError::UnevenRows) => !has_empty_row(rows_of(source@)) && has_uneven_rows(
                rows_of(source@),
            ),
        },
{
    let rows: Vec<Vec<char>> = read_rows(source);
    let mut j: usize = 0;
    while j < rows.len()
        invariant
            j <= rows@.len(),
            grid_of(&rows) == rows_of(source@),
            forall|r: int| 0 <= r < j ==> (#[trigger] grid_of(&rows)[r]).len() != 0,
        decreases rows@.len() - j,
    {
        if rows[j].len() == 0 {
            assert(grid_of(&rows)[j as int].len() == 0);
            return Err(LoadError::EmptyRow);
        }
        j += 1;
    }
    let mut j: usize = 0;
    while j < rows.len()
        invariant
            j <= rows@.len(),
            grid_of(&rows) == rows_of(source@),
            !has_empty_row(rows_of(source@)),
            forall|r: int| 0 <= r < j ==> (#[trigger] grid_of(&rows)[r]).len() == grid_of(&rows)[0].len(),
        decreases rows@.len() - j,
    {
        if rows[j].len() != rows[0].len() {
            assert(grid_of(&rows)[j as int].len() != grid_of(&rows)[0].len());
            return Err(LoadError::UnevenRows);
        }
        j += 1;
    }
    Ok(rows)
}

/// The rows of a maze text, unchecked.
fn read_rows(source: &str) -> (rows: Vec<Vec<char>>)
    ensures
        grid_of(&rows) == rows_of(source@),
{
    let mut rows: Vec<Vec<char>> = Vec::new();
    let mut cur: Vec<char> = Vec::new();
    let ghost n = source@.len() as int;
    assert(source@.subrange(0, n) == source@);
    assert(grid_of(&rows) + rows_of(source@) == rows_of(source@));
    for ch in it: source.chars()
        invariant
            it.seq() == source@,
            n == source@.len(),
            grid_of(&rows) + split_lines(source@.subrange(it.index() as int, n), cur@) == rows_of(
                source@,
            ),
    {
        let ghost i = it.index() as int;
        let ghost rest = source@.subrange(i, n);
        let ghost done = grid_of(&rows);
        let ghost line = cur@;
        assert(rest.drop_first() == source@.subrange(i + 1, n));
        assert(rest[0] == ch);
        if ch == '\n' {
            let k: usize = cur.len();
            if k > 0 && cur[k - 1] == '\r' {
                cur.pop();
            }
            assert(cur@ == strip_cr(line));
            rows.push(cur);
            cur = Vec::new();
            let ghost tail = split_lines(rest.drop_first(), Seq::empty());
            assert(grid_of(&rows) == done + seq![strip_cr(line)]);
            assert((done + seq![strip_cr(line)]) + tail == done + (seq![strip_cr(line)] + tail));
            assert(cur@ == Seq::<char>::empty());
        } else {
            cur.push(ch);
            assert(grid_of(&rows) == done);
        }
    }
    assert(source@.subrange(n, n).len() == 0);
    if cur.len() > 0 {
        let ghost done = grid_of(&rows);
        let ghost last = cur@;
        rows.push(cur);
        assert(grid_of(&rows) == done + seq![last]);
    } else {
        assert(grid_of(&rows) + Seq::<Seq<char>>::empty() == grid_of(&rows));
    }
    rows
}

/// Whether the cell in column `col` of row `row` holds the start tag.
pub open spec fn is_start(grid: Seq<Seq<char>>, row: int, col: int) -> bool {
    has_cell(grid, row, col) && grid[row][col] == START
}

/// Whether the cell is the first start cell, reading the rows from the top
/// and each row from the left.
pub open spec fn first_start_at(grid: Seq<Seq<char>>, row: int, col: int) -> bool {
    &&& is_start(grid, row, col)
    &&& forall|r: int, c: int| #[trigger]
        is_start(grid, r, c) ==> row < r || (row == r && col <= c)
}

/// Whether no cell of the grid holds the start tag.
pub open spec fn no_start(grid: Seq<Seq<char>>) -> bool {
    forall|r: int, c: int| !#[trigger] is_start(grid, r, c)
}

/// Where the player is placed for a start cell: half a block to the left
/// of the cell's left edge and half a block below its top edge. The two
/// offsets differ on purpose: the place lies at mid height of the cell to
/// the left of the start cell.
pub open spec fn start_position(row: int, col: int, block_size: int) -> (int, int) {
    (col * block_size - block_size / 2, row * block_size + block_size / 2)
}

/// Whether the place for the first start cell, if there is one, can be
/// written in machine integers: neither coordinate is negative or too
/// large.
pub open spec fn start_fits(grid: Seq<Seq<char>>, block_size: int) -> bool {
    forall|r: int, c: int| #[trigger]
        first_start_at(grid, r, c) ==> {
            &&& 0 <= start_position(r, c, block_size).0 <= usize::MAX
            &&& start_position(r, c, block_size).1 <= usize::MAX
        }
}

/// The first start cell of the maze, as `(row, column)`, or `None` where
/// no cell holds the start tag.
pub fn find_start_cell(maze: &Vec<Vec<char>>) -> (cell: Option<(usize, usize)>)
    ensures
        cell.is_none() == no_start(grid_of(maze)),
        match cell {
            Some((row, col)) => first_start_at(grid_of(maze), row as int, col as int),
            None => no_start(grid_of(maze)),
        },
{
    let ghost grid = grid_of(maze);
    let mut row: usize = 0;
    while row < maze.len()
        invariant
            row <= maze@.len(),
            grid == grid_of(maze),
            forall|r: int, c: int| #[trigger] is_start(grid, r, c) ==> row <= r,
        decreases maze@.len() - row,
    {
        let cells: &Vec<char> = &maze[row];
        let mut col: usize = 0;
        while col < cells.len()
            invariant
                row < maze@.len(),
                cells == maze@[row as int],
                col <= cells@.len(),
                grid == grid_of(maze),
                forall|r: int, c: int| #[trigger]
                    is_start(grid, r, c) ==> row < r || (row == r && col <= c),
            decreases cells@.len() - col,
        {
            if cells[col] == START {
                assert(is_start(grid, row as int, col as int));
                return Some((row, col));
            }
            col += 1;
        }
        row += 1;
    }
    None
}

/// Where the player starts: the place for the first start cell of the maze,
/// or `None` where the maze has no start cell.
pub fn find_start_position(maze: &Vec<Vec<char>>, block_size: usize) -> (position: Option<
    (usize, usize),
>)
    requires
        start_fits(grid_of(maze), block_size as int),
    ensures
        position.is_none() == no_start(grid_of(maze)),
        position.is_some() ==> exists|r: int, c: int| #[trigger]
            first_start_at(grid_of(maze), r, c) && start_position(r, c, block_size as int) == (
                position.unwrap().0 as int,
                position.unwrap().1 as int,
            ),
{
    match find_start_cell(maze) {
        None => None,
        Some((row, col)) => {
            let half: usize = block_size / 2;
            assert(first_start_at(grid_of(maze), row as int, col as int));
            assert(0 <= row * block_size) by (nonlinear_arith);
            let y: usize = row * block_size + half;
            // The left edge of the cell may be too large where the place is
            // not: the place is reckoned from the cell before.
            let x: usize = if col == 0 {
                assert(0 * block_size == 0);
                0
            } else {
                assert(0 <= (col - 1) * block_size && (col - 1) * block_size + block_size == col
                    * block_size) by (nonlinear_arith)
                    requires 0 < col;
                (col - 1) * block_size + (block_size - half)
            };
            Some((x, y))
        },
    }
}

/// Where the place for the first start cell can be computed in machine
/// integers, `start_fits` holds: what a caller of `find_start_position`
/// has to show, from the cell that `find_start_cell` returns.
pub proof fn lemma_start_fits(grid: Seq<Seq<char>>, block_size: int, row: int, col: int)
    requires
        first_start_at(grid, row, col),
        0 <= start_position(row, col, block_size).0 <= usize::MAX,
        start_position(row, col, block_size).1 <= usize::MAX,
    ensures
        start_fits(grid, block_size),
{
    assert forall|r: int, c: int| #[trigger] first_start_at(grid, r, c) implies {
        &&& 0 <= start_position(r, c, block_size).0 <= usize::MAX
        &&& start_position(r, c, block_size).1 <= usize::MAX
    } by {
        lemma_first_start_unique(grid, r, c, row, col);
    }
}

/// A grid has at most one first start cell.
pub proof fn lemma_first_start_unique(grid: Seq<Seq<char>>, r1: int, c1: int, r2: int, c2: int)
    requires
        first_start_at(grid, r1, c1),
        first_start_at(grid, r2, c2),
    ensures
        r1 == r2 && c1 == c2,
{
    assert(is_start(grid, r1, c1));
    assert(is_start(grid, r2, c2));
}

} // verus!
