//! The grid model: a maze is a sequence of rows of cell kinds.

use vstd::prelude::*;

verus! {

/// Rows of cells; `maze[row][col]` is the kind of one cell.
pub type Maze = Vec<Vec<char>>;

/// The kind of a cell that rays and players pass through.
pub const EMPTY: char = ' ';

/// The kind of the cell that ends the level.
pub const GOAL: char = 'g';

/// The wall kind reported when a ray leaves the grid or runs out of range.
pub const DEFAULT_WALL: char = '+';

/// The kinds that are drawn as textured walls.
pub open spec fn is_wall(kind: char) -> bool {
    kind == '+' || kind == '-' || kind == '|'
}

/// The kind of the cell in column `col` of row `row`, if the grid has one.
pub open spec fn cell_at(grid: Seq<Seq<char>>, col: int, row: int) -> Option<char> {
    if 0 <= row < grid.len() && 0 <= col < grid[row].len() {
        Some(grid[row][col])
    } else {
        None
    }
}

/// A grid is rectangular when it has a row, its first row has a cell, and
/// every row is as long as the first.
pub open spec fn rectangular(grid: Seq<Seq<char>>) -> bool {
    &&& grid.len() > 0
    &&& grid[0].len() > 0
    &&& forall|row: int| 0 <= row < grid.len() ==> (#[trigger] grid[row]).len() == grid[0].len()
}

/// The number of columns of a rectangular grid.
pub open spec fn grid_width(grid: Seq<Seq<char>>) -> int {
    grid[0].len() as int
}

/// The number of rows of a grid.
pub open spec fn grid_height(grid: Seq<Seq<char>>) -> int {
    grid.len() as int
}

/// Whether `kind` is one of the textured wall kinds.
pub fn wall_kind(kind: char) -> (b: bool)
    ensures
        b == is_wall(kind),
{
    kind == '+' || kind == '-' || kind == '|'
}

/// Looks a cell up by signed indices; `None` outside the grid.
pub fn cell(maze: &Maze, col: i128, row: i128) -> (kind: Option<char>)
    ensures
        kind == cell_at(maze.deep_view(), col as int, row as int),
{
    if row < 0 || col < 0 {
        return None;
    }
    if row >= maze.len() as i128 {
        return None;
    }
    let r: usize = row as usize;
    if col >= maze[r].len() as i128 {
        return None;
    }
    let c: usize = col as usize;
    Some(maze[r][c])
}

/// Whether the maze is a non-empty rectangle of cells.
pub fn is_rectangular(maze: &Maze) -> (b: bool)
    ensures
        b == rectangular(maze.deep_view()),
{
    if maze.len() == 0 {
        return false;
    }
    let width: usize = maze[0].len();
    if width == 0 {
        return false;
    }
    let ghost grid = maze.deep_view();
    let mut row: usize = 0;
    while row < maze.len()
        invariant
            row <= maze.len(),
            grid == maze.deep_view(),
            maze.len() > 0,
            width == grid[0].len(),
            width > 0,
            forall|k: int| 0 <= k < row ==> (#[trigger] grid[k]).len() == width,
        decreases maze.len() - row,
    {
        if maze[row].len() != width {
            assert(grid[row as int].len() != grid[0].len());
            return false;
        }
        row = row + 1;
    }
    true
}

/// The byte that ends a line.
pub const NEWLINE: u8 = 10;

/// The byte that may come before the end of a line and is not part of it.
pub const CARRIAGE_RETURN: u8 = 13;

/// Where the line that starts at `from` ends: at the first newline at or
/// after `from`, or at the end of the text.
pub open spec fn line_end(text: Seq<u8>, from: int) -> int
    decreases text.len() - from,
{
    if from >= text.len() {
        text.len() as int
    } else if text[from] == NEWLINE {
        from
    } else {
        line_end(text, from + 1)
    }
}

/// The cells of the line from `from` up to but not including `to`: one for
/// each byte, but for a carriage return at its end.
pub open spec fn row_of_line(text: Seq<u8>, from: int, to: int) -> Seq<char> {
    let end = if from < to && text[to - 1] == CARRIAGE_RETURN {
        to - 1
    } else {
        to
    };
    Seq::new((end - from) as nat, |i: int| text[from + i] as char)
}

/// The rows of the lines of a text from `from` on.
pub open spec fn rows_from(text: Seq<u8>, from: int) -> Seq<Seq<char>>
    decreases text.len() - from,
{
    if from < 0 || from >= text.len() {
        Seq::empty()
    } else {
        proof {
            lemma_line_end(text, from);
        }
        let end = line_end(text, from);
        seq![row_of_line(text, from, end)] + if end < text.len() {
            rows_from(text, end + 1)
        } else {
            Seq::empty()
        }
    }
}

/// A line ends at or after its start and within the text, on a newline
/// unless the text ends first.
pub proof fn lemma_line_end(text: Seq<u8>, from: int)
    requires
        0 <= from <= text.len(),
    ensures
        from <= line_end(text, from) <= text.len(),
        line_end(text, from) < text.len() ==> text[line_end(text, from)] == NEWLINE,
        forall|i: int| from <= i < line_end(text, from) ==> text[i] != NEWLINE,
    decreases text.len() - from,
{
    if from < text.len() && text[from] != NEWLINE {
        lemma_line_end(text, from + 1);
    }
}

/// A stretch without a newline that ends on a newline or with the text is
/// a line.
proof fn lemma_line_found(text: Seq<u8>, from: int, to: int)
    requires
        0 <= from <= to <= text.len(),
        forall|i: int| from <= i < to ==> text[i] != NEWLINE,
        to == text.len() || text[to] == NEWLINE,
    ensures
        line_end(text, from) == to,
    decreases to - from,
{
    if from < to {
        lemma_line_found(text, from + 1, to);
    }
}

/// Reads a maze from a text: one row for each line, one cell for each byte
/// of the line.  Lines end with a newline, or with a carriage return and a
/// newline; the last line may end with the text.
pub fn parse_maze(text: &Vec<u8>) -> (maze: Maze)
    ensures
        maze.deep_view() == rows_from(text@, 0),
{
    let mut maze: Maze = Vec::new();
    let mut row: Vec<char> = Vec::new();
    let mut start: usize = 0;
    let mut i: usize = 0;
    while i < text.len()
        invariant
            start <= i <= text@.len(),
            forall|k: int| start <= k < i ==> text@[k] != NEWLINE,
            row@.len() == i - start,
            forall|k: int| 0 <= k < row@.len() ==> row@[k] == text@[start + k] as char,
            maze.deep_view() + rows_from(text@, start as int) == rows_from(text@, 0),
        decreases text@.len() - i,
    {
        let byte: u8 = text[i];
        if byte == NEWLINE {
            proof {
                lemma_line_found(text@, start as int, i as int);
            }
            if row.len() > 0 && text[i - 1] == CARRIAGE_RETURN {
                row.pop();
            }
            let ghost before = maze.deep_view();
            let ghost cells = row@;
            assert(cells =~= row_of_line(text@, start as int, i as int));
            assert(row.deep_view() =~= cells);
            maze.push(row);
            proof {
                assert(maze.deep_view() =~= before + seq![cells]);
                assert(before + rows_from(text@, start as int) =~= (before + seq![cells])
                    + rows_from(text@, i + 1));
            }
            row = Vec::new();
            start = i + 1;
        } else {
            row.push(byte as char);
        }
        i = i + 1;
    }
    if start < text.len() {
        proof {
            lemma_line_found(text@, start as int, text@.len() as int);
        }
        if row.len() > 0 && text[text.len() - 1] == CARRIAGE_RETURN {
            row.pop();
        }
        let ghost before = maze.deep_view();
        let ghost cells = row@;
        assert(cells =~= row_of_line(text@, start as int, text@.len() as int));
        assert(row.deep_view() =~= cells);
        maze.push(row);
        proof {
            assert(maze.deep_view() =~= before + seq![cells]);
            assert(before + rows_from(text@, start as int) =~= before + seq![cells]);
        }
    } else {
        proof {
            assert(rows_from(text@, start as int) =~= Seq::<Seq<char>>::empty());
            assert(maze.deep_view() + Seq::<Seq<char>>::empty() =~= maze.deep_view());
        }
    }
    maze
}

} // verus!
