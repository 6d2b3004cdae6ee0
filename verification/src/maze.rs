//! The grid maze: rows of cell symbols, and the queries the renderers ask of it.

use vstd::prelude::*;

verus! {

/// The symbol of open space.
pub const OPEN: char = ' ';

/// The symbol of the goal cell.
pub const GOAL: char = 'g';

/// The symbol reported for a position that lies outside the grid.
pub const OUTSIDE: char = '\0';

/// The grid as a sequence of rows, each a sequence of symbols.
pub open spec fn grid(maze: &Vec<Vec<char>>) -> Seq<Seq<char>> {
    Seq::new(maze@.len(), |row: int| maze@[row]@)
}

/// Whether column `x` of row `y` is a cell of the grid. Rows may differ in length.
pub open spec fn in_grid(g: Seq<Seq<char>>, x: int, y: int) -> bool {
    0 <= y < g.len() && 0 <= x < g[y].len()
}

/// The symbol at column `x` of row `y`, or `OUTSIDE` beyond the grid.
pub open spec fn symbol_at(g: Seq<Seq<char>>, x: int, y: int) -> char {
    if in_grid(g, x, y) {
        g[y][x]
    } else {
        OUTSIDE
    }
}

/// A position blocks movement and sight unless it is an open cell of the grid.
pub open spec fn blocked(g: Seq<Seq<char>>, x: int, y: int) -> bool {
    !in_grid(g, x, y) || g[y][x] != OPEN
}

/// A position is the goal when it is a cell of the grid that holds the goal symbol.
pub open spec fn goal(g: Seq<Seq<char>>, x: int, y: int) -> bool {
    in_grid(g, x, y) && g[y][x] == GOAL
}

/// Whether the cell at column `x`, row `y` blocks. Everything outside the grid blocks.
pub fn is_blocked(maze: &Vec<Vec<char>>, x: usize, y: usize) -> (b: bool)
    ensures
        b == blocked(grid(maze), x as int, y as int),
{
    if y >= maze.len() || x >= maze[y].len() {
        return true;
    }
    maze[y][x] != OPEN
}

/// Whether the cell at column `x`, row `y` is the goal. Nothing outside the grid is.
pub fn is_goal(maze: &Vec<Vec<char>>, x: usize, y: usize) -> (b: bool)
    ensures
        b == goal(grid(maze), x as int, y as int),
{
    if y >= maze.len() || x >= maze[y].len() {
        return false;
    }
    maze[y][x] == GOAL
}

/// The flat colour of a cell in the overhead views: dark grey for the wall
/// symbols `'+'`, `'-'` and `'|'`, red for the goal, light grey for open
/// space and for any other symbol.
pub open spec fn cell_color(cell: char) -> u32 {
    if cell == '+' || cell == '-' || cell == '|' {
        0x333333
    } else if cell == 'g' {
        0xFF0000
    } else {
        0xAAAAAA
    }
}

/// The flat colour of a cell in the overhead views.
pub fn cell_to_color(cell: char) -> (color: u32)
    ensures
        color == cell_color(cell),
{
    match cell {
        '+' | '-' | '|' => 0x333333,
        ' ' => 0xAAAAAA,
        'g' => 0xFF0000,
        _ => 0xAAAAAA,
    }
}

/// A line without the carriage return at its end, if it has one.
pub open spec fn without_return(line: Seq<char>) -> Seq<char> {
    if line.len() > 0 && line.last() == '\r' {
        line.drop_last()
    } else {
        line
    }
}

/// The first `count` characters of a text, read as lines: the lines that a
/// line feed has ended so far, each without the carriage return before the
/// line feed, and the characters of the line that is still open.
pub open spec fn scanned(text: Seq<char>, count: int) -> (Seq<Seq<char>>, Seq<char>)
    decreases count,
{
    if count <= 0 {
        (Seq::empty(), Seq::empty())
    } else {
        let (rows, line) = scanned(text, count - 1);
        if text[count - 1] == '\n' {
            (rows.push(without_return(line)), Seq::empty())
        } else {
            (rows, line.push(text[count - 1]))
        }
    }
}

/// The lines of a text. A line ends at a line feed, or at the end of the
/// text if characters stand there after the last line feed; the line feed,
/// and a carriage return before it, are not part of the line.
pub open spec fn lines_of(text: Seq<char>) -> Seq<Seq<char>> {
    let (rows, line) = scanned(text, text.len() as int);
    if line.len() > 0 {
        rows.push(line)
    } else {
        rows
    }
}

/// Reads a maze from its text: one row of cells per line, one cell per character.
pub fn parse_maze(text: &str) -> (maze: Vec<Vec<char>>)
    ensures
        grid(&maze) == lines_of(text@),
{
    let count = text.unicode_len();
    let mut maze: Vec<Vec<char>> = Vec::new();
    let mut line: Vec<char> = Vec::new();
    let mut i: usize = 0;
    while i < count
        invariant
            0 <= i <= count,
            count == text@.len(),
            grid(&maze) == scanned(text@, i as int).0,
            line@ == scanned(text@, i as int).1,
        decreases count - i,
    {
        let ch = text.get_char(i);
        if ch == '\n' {
            if line.len() > 0 && line[line.len() - 1] == '\r' {
                line.pop();
            }
            maze.push(line);
            line = Vec::new();
        } else {
            line.push(ch);
        }
        i += 1;
    }
    if line.len() > 0 {
        maze.push(line);
    }
    maze
}

} // verus!
