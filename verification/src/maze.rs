//! The maze: a rectangle of cell symbols, and how one is read from text.
//!
//! A cell holds one of these symbols: `.` for open floor, `p` for the place
//! where the player starts, `g` for the goal, `#` for a plain wall and `1` to
//! `4` for walls that differ from it in colour only.

use vstd::prelude::*;
use crate::geometry::{cell_middle, Point, MAX_CELLS};

verus! {

/// A maze as rows of cell symbols, top row first.
pub type Maze = Vec<Vec<char>>;

/// The rows of a maze as sequences: `grid(maze)[y][x]` is the cell in column
/// `x` of row `y`. Of the lines of a text, likewise, `grid(lines)[y][x]` is
/// character `x` of line `y`.
pub open spec fn grid(maze: &Maze) -> Seq<Seq<char>> {
    Seq::new(maze@.len(), |y: int| maze@[y]@)
}

/// The number of rows.
pub open spec fn height(g: Seq<Seq<char>>) -> nat {
    g.len()
}

/// The number of columns, taken from the top row; an empty maze has none.
pub open spec fn width(g: Seq<Seq<char>>) -> nat {
    if g.len() > 0 {
        g[0].len()
    } else {
        0
    }
}

/// Every row is as long as the top row.
pub open spec fn rectangular(g: Seq<Seq<char>>) -> bool {
    forall|y: int| 0 <= y < g.len() ==> (#[trigger] g[y]).len() == width(g)
}

/// Column `x` of row `y` is a cell of the maze.
pub open spec fn in_grid(g: Seq<Seq<char>>, x: int, y: int) -> bool {
    0 <= y < height(g) && 0 <= x < width(g)
}

/// Column `x` of row `y` lies in the outermost ring of a `w` by `h` rectangle.
pub open spec fn on_border(w: int, h: int, x: int, y: int) -> bool {
    x == 0 || y == 0 || x == w - 1 || y == h - 1
}

/// The maze is a rectangle of at least one cell whose first and last row and
/// first and last column hold nothing but walls.
pub open spec fn enclosed(g: Seq<Seq<char>>) -> bool {
    &&& rectangular(g)
    &&& height(g) >= 1
    &&& width(g) >= 1
    &&& forall|x: int, y: int|
        in_grid(g, x, y) && on_border(width(g) as int, height(g) as int, x, y) ==> spec_is_wall(
            #[trigger] g[y][x],
        )
}

/// Whether a cell symbol is a wall: the plain wall `#`, the four coloured
/// variants `1` to `4`, and the line-drawing marks `+ - | =`.
pub open spec fn spec_is_wall(c: char) -> bool {
    c == '#' || c == '1' || c == '2' || c == '3' || c == '4' || c == '+' || c == '-' || c == '|'
        || c == '='
}

/// Whether a cell symbol blocks movement and sight.
#[verifier::when_used_as_spec(spec_is_wall)]
pub fn is_wall(c: char) -> (b: bool)
    ensures
        b == spec_is_wall(c),
{
    c == '#' || c == '1' || c == '2' || c == '3' || c == '4' || c == '+' || c == '-' || c == '|'
        || c == '='
}

/// The size of a maze in cells, as `(width, height)`. The width is the length
/// of the top row.
pub fn dims(maze: &Maze) -> (d: (usize, usize))
    ensures
        d.0 == width(grid(maze)),
        d.1 == height(grid(maze)),
{
    let h = maze.len();
    let w = if h > 0 {
        maze[0].len()
    } else {
        0
    };
    (w, h)
}

/// The cell symbol that a character of the map text stands for. A blank and
/// `.` are open floor; `p`, `g`, `#` and `1` to `4` stand for themselves; every
/// other character, the line-drawing marks among them, is a plain wall.
pub open spec fn spec_map_symbol(c: char) -> char {
    if c == ' ' || c == '.' {
        '.'
    } else if c == 'p' || c == 'g' || c == '#' || c == '1' || c == '2' || c == '3' || c == '4' {
        c
    } else {
        '#'
    }
}

/// The cell symbol for one character of the map text.
#[verifier::when_used_as_spec(spec_map_symbol)]
pub fn map_symbol(c: char) -> (m: char)
    ensures
        m == spec_map_symbol(c),
{
    if c == ' ' || c == '.' {
        '.'
    } else if c == 'p' || c == 'g' || c == '#' || c == '1' || c == '2' || c == '3' || c == '4' {
        c
    } else {
        '#'
    }
}

/// Whether a character is white space: the characters that Unicode gives the
/// property `White_Space`.
pub open spec fn spec_is_space(c: char) -> bool {
    let u = c as u32;
    (0x09 <= u <= 0x0D) || u == 0x20 || u == 0x85 || u == 0xA0 || u == 0x1680 || (0x2000 <= u
        <= 0x200A) || u == 0x2028 || u == 0x2029 || u == 0x202F || u == 0x205F || u == 0x3000
}

/// Whether a character is white space.
#[verifier::when_used_as_spec(spec_is_space)]
pub fn is_space(c: char) -> (b: bool)
    ensures
        b == spec_is_space(c),
{
    let u: u32 = c as u32;
    (0x09 <= u && u <= 0x0D) || u == 0x20 || u == 0x85 || u == 0xA0 || u == 0x1680 || (0x2000 <= u
        && u <= 0x200A) || u == 0x2028 || u == 0x2029 || u == 0x202F || u == 0x205F || u == 0x3000
}

/// A line is blank when it holds nothing but white space.
pub open spec fn spec_is_blank(line: Seq<char>) -> bool {
    forall|i: int| 0 <= i < line.len() ==> spec_is_space(#[trigger] line[i])
}

/// Whether a line holds nothing but white space.
pub fn is_blank(line: &Vec<char>) -> (b: bool)
    ensures
        b == spec_is_blank(line@),
{
    let mut i: usize = 0;
    while i < line.len()
        invariant
            i <= line@.len(),
            forall|j: int| 0 <= j < i ==> spec_is_space(#[trigger] line@[j]),
        decreases line@.len() - i,
    {
        if !is_space(line[i]) {
            return false;
        }
        i += 1;
    }
    true
}

/// The number of characters before the first line feed of `s`, or the length
/// of `s` where it has none.
pub open spec fn line_len(s: Seq<char>) -> nat
    decreases s.len(),
{
    if s.len() == 0 || s[0] == '\n' {
        0
    } else {
        1 + line_len(s.skip(1))
    }
}

/// A line without the carriage returns at its end.
pub open spec fn strip_cr(line: Seq<char>) -> Seq<char>
    decreases line.len(),
{
    if line.len() > 0 && line.last() == '\r' {
        strip_cr(line.drop_last())
    } else {
        line
    }
}

/// The lines of a text. A line ends at a line feed or at the end of the text;
/// the line feed and any carriage returns before it are not part of the line.
/// A text that ends in a line feed has no empty line after it.
pub open spec fn text_lines(s: Seq<char>) -> Seq<Seq<char>>
    decreases s.len(),
{
    if s.len() == 0 {
        Seq::empty()
    } else {
        let n = line_len(s);
        if n >= s.len() {
            seq![strip_cr(s)]
        } else {
            seq![strip_cr(s.take(n as int))] + text_lines(s.skip(n as int + 1))
        }
    }
}

/// The lines without the blank ones at the front.
pub open spec fn drop_blank_front(lines: Seq<Seq<char>>) -> Seq<Seq<char>>
    decreases lines.len(),
{
    if lines.len() > 0 && spec_is_blank(lines[0]) {
        drop_blank_front(lines.skip(1))
    } else {
        lines
    }
}

/// The lines without the blank ones at the back.
pub open spec fn drop_blank_back(lines: Seq<Seq<char>>) -> Seq<Seq<char>>
    decreases lines.len(),
{
    if lines.len() > 0 && spec_is_blank(lines.last()) {
        drop_blank_back(lines.drop_last())
    } else {
        lines
    }
}

/// The lines of a map text that describe the maze: all lines from the first
/// that is not blank to the last that is not blank.
pub open spec fn map_lines(text: Seq<char>) -> Seq<Seq<char>> {
    drop_blank_back(drop_blank_front(text_lines(text)))
}

/// The length of the longest line.
pub open spec fn widest(lines: Seq<Seq<char>>) -> nat
    decreases lines.len(),
{
    if lines.len() == 0 {
        0
    } else {
        let rest = widest(lines.drop_last());
        if lines.last().len() > rest {
            lines.last().len()
        } else {
            rest
        }
    }
}

/// The cell in column `x` of row `y` of the maze laid out from `lines`: a
/// plain wall on the border and where the line is too short to reach, else
/// the symbol that the character stands for.
pub open spec fn laid_cell(lines: Seq<Seq<char>>, x: int, y: int) -> char {
    if on_border(widest(lines) as int, lines.len() as int, x, y) {
        '#'
    } else if x < lines[y].len() {
        spec_map_symbol(lines[y][x])
    } else {
        '#'
    }
}

/// The maze laid out from the lines of a map: one row for each line, each as
/// wide as the longest line.
pub open spec fn layout(lines: Seq<Seq<char>>) -> Seq<Seq<char>> {
    Seq::new(lines.len(), |y: int| Seq::new(widest(lines), |x: int| laid_cell(lines, x, y)))
}

/// The chamber that stands in for a map without lines: one open cell within
/// walls.
pub open spec fn chamber() -> Seq<Seq<char>> {
    seq![seq!['#', '#', '#'], seq!['#', '.', '#'], seq!['#', '#', '#']]
}

/// The maze that a map text describes.
pub open spec fn spec_load_maze(text: Seq<char>) -> Seq<Seq<char>> {
    if map_lines(text).len() == 0 {
        chamber()
    } else {
        layout(map_lines(text))
    }
}

/// In front of `b`, a piece of text without line feeds moves the first line
/// feed along by its own length.
proof fn lemma_line_len_after(a: Seq<char>, b: Seq<char>)
    requires
        forall|i: int| 0 <= i < a.len() ==> a[i] != '\n',
    ensures
        line_len(a + b) == a.len() + line_len(b),
    decreases a.len(),
{
    if a.len() > 0 {
        assert((a + b).skip(1) =~= a.skip(1) + b);
        lemma_line_len_after(a.skip(1), b);
    }
}

/// Takes the carriage returns off the end of a line.
fn strip_trailing_cr(line: &mut Vec<char>)
    ensures
        final(line)@ == strip_cr(old(line)@),
{
    while line.len() > 0 && line[line.len() - 1] == '\r'
        invariant
            strip_cr(line@) == strip_cr(old(line)@),
        decreases line@.len(),
    {
        line.pop();
    }
}

/// Splits a text into its lines, without line feeds and without the carriage
/// returns at the end of each line.
pub fn split_lines(text: &str) -> (lines: Vec<Vec<char>>)
    ensures
        grid(&lines) == text_lines(text@),
{
    let mut lines: Vec<Vec<char>> = Vec::new();
    let mut cur: Vec<char> = Vec::new();
    let ghost mut seen: int = 0;
    proof {
        assert(cur@ + text@.skip(0) =~= text@);
    }
    for c in it: text.chars()
        invariant
            it.seq() == text@,
            seen == it.index(),
            0 <= seen <= text@.len(),
            forall|j: int| 0 <= j < cur@.len() ==> cur@[j] != '\n',
            text_lines(text@) == grid(&lines) + text_lines(cur@ + text@.skip(seen)),
    {
        let ghost rest = text@.skip(seen);
        let ghost whole = cur@ + rest;
        let ghost before = grid(&lines);
        if c == '\n' {
            proof {
                lemma_line_len_after(cur@, rest);
                assert(whole.take(cur@.len() as int) =~= cur@);
                assert(whole.skip(cur@.len() as int + 1) =~= text@.skip(seen + 1));
            }
            let ghost line = cur@;
            strip_trailing_cr(&mut cur);
            lines.push(cur);
            cur = Vec::new();
            proof {
                let after = text_lines(text@.skip(seen + 1));
                assert(before + (seq![strip_cr(line)] + after) =~= (before + seq![
                    strip_cr(line),
                ]) + after);
            }
        } else {
            cur.push(c);
            proof {
                assert(cur@ + text@.skip(seen + 1) =~= whole);
            }
        }
        proof {
            seen = seen + 1;
        }
    }
    proof {
        lemma_line_len_after(cur@, Seq::empty());
    }
    if cur.len() > 0 {
        strip_trailing_cr(&mut cur);
        lines.push(cur);
    }
    lines
}

/// The number `k` of blank lines at the front: dropping them leaves the lines
/// from `k` on, and line `k`, if there is one, is not blank.
proof fn lemma_drop_blank_front(lines: Seq<Seq<char>>) -> (k: int)
    ensures
        0 <= k <= lines.len(),
        drop_blank_front(lines) == lines.skip(k),
        forall|j: int| 0 <= j < k ==> spec_is_blank(#[trigger] lines[j]),
        k < lines.len() ==> !spec_is_blank(lines[k]),
    decreases lines.len(),
{
    if lines.len() > 0 && spec_is_blank(lines[0]) {
        let rest = lines.skip(1);
        let k = lemma_drop_blank_front(rest);
        assert forall|j: int| 0 <= j < k + 1 implies spec_is_blank(#[trigger] lines[j]) by {
            if j > 0 {
                assert(lines[j] == rest[j - 1]);
            }
        }
        k + 1
    } else {
        0
    }
}

/// The number `k` of lines that are left when the blank ones at the back are
/// dropped: they are the first `k` lines, and the last of them is not blank.
proof fn lemma_drop_blank_back(lines: Seq<Seq<char>>) -> (k: int)
    ensures
        0 <= k <= lines.len(),
        drop_blank_back(lines) == lines.take(k),
        forall|j: int| k <= j < lines.len() ==> spec_is_blank(#[trigger] lines[j]),
        k > 0 ==> !spec_is_blank(lines[k - 1]),
    decreases lines.len(),
{
    if lines.len() > 0 && spec_is_blank(lines.last()) {
        let rest = lines.drop_last();
        let k = lemma_drop_blank_back(rest);
        assert forall|j: int| k <= j < lines.len() implies spec_is_blank(#[trigger] lines[j]) by {
            if j < lines.len() - 1 {
                assert(lines[j] == rest[j]);
            }
        }
        k
    } else {
        lines.len() as int
    }
}

/// Finds the lines that are left when the blank lines at the front and at the
/// back are dropped: those from `span.0` up to, not including, `span.1`.
fn blank_span(lines: &Vec<Vec<char>>) -> (span: (usize, usize))
    ensures
        span.0 <= span.1 <= lines@.len(),
        drop_blank_back(drop_blank_front(grid(lines))) == grid(lines).subrange(
            span.0 as int,
            span.1 as int,
        ),
{
    let mut start: usize = 0;
    while start < lines.len() && is_blank(&lines[start])
        invariant
            start <= lines@.len(),
            forall|j: int| 0 <= j < start ==> spec_is_blank(#[trigger] grid(lines)[j]),
        decreases lines@.len() - start,
    {
        start += 1;
    }
    let mut end: usize = lines.len();
    while end > start && is_blank(&lines[end - 1])
        invariant
            start <= end <= lines@.len(),
            forall|j: int| end <= j < lines@.len() ==> spec_is_blank(#[trigger] grid(lines)[j]),
        decreases end,
    {
        end -= 1;
    }
    proof {
        let all = grid(lines);
        let k = lemma_drop_blank_front(all);
        assert(k == start) by {
            if start < k {
                assert(spec_is_blank(all[start as int]));
            }
        }
        let front = all.skip(k);
        let n = lemma_drop_blank_back(front);
        assert(n == end - start) by {
            if n < end - start {
                assert(spec_is_blank(front[end - start - 1]));
            }
        }
    }
    (start, end)
}

/// No line is longer than the longest.
pub proof fn lemma_widest_bounds(lines: Seq<Seq<char>>, y: int)
    requires
        0 <= y < lines.len(),
    ensures
        lines[y].len() <= widest(lines),
    decreases lines.len(),
{
    if y < lines.len() - 1 {
        lemma_widest_bounds(lines.drop_last(), y);
    }
}

/// The length of the longest of the lines from `start` up to `end`.
fn widest_line(lines: &Vec<Vec<char>>, start: usize, end: usize) -> (w: usize)
    requires
        start <= end <= lines@.len(),
    ensures
        w == widest(grid(lines).subrange(start as int, end as int)),
{
    let ghost kept = grid(lines).subrange(start as int, end as int);
    let mut w: usize = 0;
    let mut y: usize = start;
    while y < end
        invariant
            start <= y <= end <= lines@.len(),
            kept == grid(lines).subrange(start as int, end as int),
            w == widest(kept.take(y - start)),
        decreases end - y,
    {
        proof {
            assert(kept.take(y - start + 1).drop_last() =~= kept.take(y - start));
        }
        if lines[y].len() > w {
            w = lines[y].len();
        }
        y += 1;
    }
    proof {
        assert(kept.take(end - start) =~= kept);
    }
    w
}

/// Reads a maze from the text of a map, one line for each row.
///
/// Blank lines before the first and after the last line that is not blank are
/// left out. Each character becomes the cell that `map_symbol` gives; rows
/// shorter than the longest are filled up with plain walls; then the whole
/// border is made plain wall, whatever the text holds there. A text without
/// any line that is not blank gives a chamber of three by three cells.
pub fn load_maze(text: &str) -> (maze: Maze)
    ensures
        grid(&maze) == spec_load_maze(text@),
        enclosed(grid(&maze)),
{
    let lines = split_lines(text);
    let (start, end) = blank_span(&lines);
    let ghost kept = map_lines(text@);
    proof {
        lemma_load_enclosed(text@);
    }
    if start == end {
        return vec![vec!['#', '#', '#'], vec!['#', '.', '#'], vec!['#', '#', '#']];
    }
    let w = widest_line(&lines, start, end);
    let h = end - start;
    let mut maze: Maze = Vec::new();
    let mut y: usize = 0;
    while y < h
        invariant
            start <= end <= lines@.len(),
            h == end - start,
            y <= h,
            kept == grid(&lines).subrange(start as int, end as int),
            w == widest(kept),
            maze@.len() == y,
            forall|j: int| 0 <= j < y ==> (#[trigger] maze@[j])@ == layout(kept)[j],
        decreases h - y,
    {
        let line = &lines[start + y];
        let mut row: Vec<char> = Vec::new();
        let mut x: usize = 0;
        while x < w
            invariant
                x <= w,
                y < h,
                h == kept.len(),
                w == widest(kept),
                line@ == kept[y as int],
                row@.len() == x,
                forall|i: int| 0 <= i < x ==> #[trigger] row@[i] == laid_cell(kept, i, y as int),
            decreases w - x,
        {
            let c = if x == 0 || y == 0 || x == w - 1 || y == h - 1 {
                '#'
            } else if x < line.len() {
                map_symbol(line[x])
            } else {
                '#'
            };
            row.push(c);
            x += 1;
        }
        maze.push(row);
        y += 1;
    }
    maze
}

/// Every maze that a map text describes is a rectangle of at least one cell
/// with nothing but walls in its first and last row and its first and last
/// column.
pub proof fn lemma_load_enclosed(text: Seq<char>)
    ensures
        enclosed(spec_load_maze(text)),
{
    if map_lines(text).len() > 0 {
        lemma_drop_blank_back(drop_blank_front(text_lines(text)));
    }
}

/// Reading a map and then asking of the cell of any of its characters
/// whether it is a wall gives what the table of characters says: the
/// characters blank, `.`, `p` and `g` are open and every other character is a
/// wall, but on the border every cell is a wall.
pub proof fn lemma_load_agrees_with_table(text: Seq<char>, x: int, y: int)
    requires
        0 <= y < map_lines(text).len(),
        0 <= x < map_lines(text)[y].len(),
    ensures
        in_grid(spec_load_maze(text), x, y),
        spec_is_wall(spec_load_maze(text)[y][x]) == (on_border(
            width(spec_load_maze(text)) as int,
            height(spec_load_maze(text)) as int,
            x,
            y,
        ) || !({
            let c = map_lines(text)[y][x];
            c == ' ' || c == '.' || c == 'p' || c == 'g'
        })),
{
    lemma_widest_bounds(map_lines(text), y);
}

/// Where a line of the map is shorter than the longest, the maze has walls.
pub proof fn lemma_load_pads_with_walls(text: Seq<char>, x: int, y: int)
    requires
        0 <= y < map_lines(text).len(),
        map_lines(text)[y].len() <= x < widest(map_lines(text)),
    ensures
        in_grid(spec_load_maze(text), x, y),
        spec_load_maze(text)[y][x] == '#',
{
}

/// Every cell of the maze has coordinates: no row holds `MAX_CELLS` cells or
/// more, and there are fewer than `MAX_CELLS` rows.
pub open spec fn charted(g: Seq<Seq<char>>) -> bool {
    &&& g.len() < MAX_CELLS
    &&& forall|y: int| 0 <= y < g.len() ==> (#[trigger] g[y]).len() < MAX_CELLS
}

/// The cell in column `x` of row `y` holds the start marker.
pub open spec fn is_spawn(g: Seq<Seq<char>>, x: int, y: int) -> bool {
    0 <= y < g.len() && 0 <= x < g[y].len() && g[y][x] == 'p'
}

/// Reading row by row from the top, and each row from the left, the cell
/// `(x1, y1)` comes before the cell `(x2, y2)`.
pub open spec fn reads_before(x1: int, y1: int, x2: int, y2: int) -> bool {
    y1 < y2 || (y1 == y2 && x1 < x2)
}

/// The cell in column `x` of row `y` holds the first start marker in reading
/// order.
pub open spec fn first_spawn(g: Seq<Seq<char>>, x: int, y: int) -> bool {
    &&& is_spawn(g, x, y)
    &&& forall|i: int, j: int| #[trigger] is_spawn(g, i, j) ==> !reads_before(i, j, x, y)
}

/// Where the player starts: the middle of the cell with the first start
/// marker in reading order, or the middle of the cell in column 1 of row 1
/// where the maze has no start marker.
pub open spec fn spawn_point(g: Seq<Seq<char>>) -> Point {
    if exists|x: int, y: int| first_spawn(g, x, y) {
        let (x, y) = choose|x: int, y: int| first_spawn(g, x, y);
        Point { x: cell_middle(x) as i64, y: cell_middle(y) as i64 }
    } else {
        Point { x: 1_500_000, y: 1_500_000 }
    }
}

/// Finds where the player starts.
pub fn find_player(maze: &Maze) -> (p: Point)
    requires
        charted(grid(maze)),
    ensures
        p == spawn_point(grid(maze)),
        (forall|x: int, y: int| !is_spawn(grid(maze), x, y)) ==> p == (Point {
            x: 1_500_000,
            y: 1_500_000,
        }),
        (exists|x: int, y: int| is_spawn(grid(maze), x, y)) ==> (exists|x: int, y: int|
            first_spawn(grid(maze), x, y) && p.x == cell_middle(x) && p.y == cell_middle(y)),
{
    let ghost g = grid(maze);
    let mut y: usize = 0;
    while y < maze.len()
        invariant
            y <= maze@.len(),
            g == grid(maze),
            charted(g),
            forall|i: int, j: int| 0 <= j < y ==> !is_spawn(g, i, j),
        decreases maze@.len() - y,
    {
        let row = &maze[y];
        let mut x: usize = 0;
        while x < row.len()
            invariant
                y < maze@.len(),
                x <= row@.len(),
                row@ == g[y as int],
                g == grid(maze),
                charted(g),
                forall|i: int, j: int| 0 <= j < y ==> !is_spawn(g, i, j),
                forall|i: int| 0 <= i < x ==> !is_spawn(g, i, y as int),
            decreases row@.len() - x,
        {
            if row[x] == 'p' {
                proof {
                    assert(first_spawn(g, x as int, y as int));
                    lemma_first_spawn_is_one(g, x as int, y as int);
                }
                return Point::center(x, y);
            }
            x += 1;
        }
        y += 1;
    }
    Point { x: 1_500_000, y: 1_500_000 }
}

/// There is one first start marker at most, so where `(x, y)` is one, the
/// player starts in the middle of that cell.
pub proof fn lemma_first_spawn_is_one(g: Seq<Seq<char>>, x: int, y: int)
    requires
        first_spawn(g, x, y),
        charted(g),
    ensures
        spawn_point(g).x == cell_middle(x),
        spawn_point(g).y == cell_middle(y),
{
    let (i, j) = choose|i: int, j: int| first_spawn(g, i, j);
    assert(is_spawn(g, i, j) && is_spawn(g, x, y));
    assert(!reads_before(i, j, x, y) && !reads_before(x, y, i, j));
}

} // verus!
