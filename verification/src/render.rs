//! Drawing of laid-out graphs as text with box-drawing characters.
use vstd::prelude::*;
use crate::text::{eq_lit, chars_of, string_of, string_chars, push_chars, push_lit, views, join_s};
use crate::lexer::{drop_blank_tail, trim_trailing_blank_lines};

verus! {

/// A step placed on the character grid: its box starts at (`col`, `row`) and
/// spans `width` columns and `height` rows.
#[derive(Debug, Clone)]
pub struct GridNode {
    pub name: String,
    pub label: String,
    pub shape: String,
    pub col: usize,
    pub row: usize,
    pub width: usize,
    pub height: usize,
}

/// An edge placed on the grid, as its waypoints (column, row).
#[derive(Debug, Clone)]
pub struct GridEdge {
    pub from: String,
    pub to: String,
    pub points: Vec<(usize, usize)>,
    pub label: Option<String>,
}

/// Extra lines to show inside a step's box.
#[derive(Debug, Clone)]
pub struct NodeContent {
    pub lines: Vec<String>,
}

/// How to draw.
#[derive(Debug, Clone, Copy)]
pub struct RenderOptions {
    /// Show each step's attributes below its label.
    pub verbose: bool,
    pub color: bool,
}

/// One attribute of a step.
#[derive(Debug, Clone)]
pub struct Attribute {
    pub key: String,
    pub value: String,
}

/// The attributes of the step named `name`.
#[derive(Debug, Clone)]
pub struct NodeAttributes {
    pub name: String,
    pub attributes: Vec<Attribute>,
}

/// The icon drawn before the label of each shape; none for the box shapes.
pub open spec fn icon_s(s: Seq<char>) -> Option<char> {
    if s == "box"@ || s == "rect"@ || s == "rectangle"@ || s == "square"@ || s == "record"@ || s
        == "Mrecord"@ {
        None
    } else if s == "ellipse"@ || s == "oval"@ {
        Some('⬭')
    } else if s == "circle"@ {
        Some('○')
    } else if s == "doublecircle"@ {
        Some('◎')
    } else if s == "point"@ {
        Some('●')
    } else if s == "diamond"@ {
        Some('◇')
    } else if s == "Mdiamond"@ {
        Some('◆')
    } else if s == "Msquare"@ {
        Some('■')
    } else if s == "plaintext"@ || s == "plain"@ || s == "none"@ {
        Some('☐')
    } else if s == "triangle"@ {
        Some('△')
    } else if s == "invtriangle"@ {
        Some('▽')
    } else if s == "trapezium"@ {
        Some('⏢')
    } else if s == "invtrapezium"@ {
        Some('⏥')
    } else if s == "parallelogram"@ {
        Some('▱')
    } else if s == "pentagon"@ {
        Some('⬠')
    } else if s == "hexagon"@ || s == "septagon"@ || s == "heptagon"@ {
        Some('⬡')
    } else if s == "octagon"@ || s == "doubleoctagon"@ || s == "tripleoctagon"@ {
        Some('⯃')
    } else if s == "star"@ {
        Some('★')
    } else if s == "cylinder"@ {
        Some('⌸')
    } else if s == "note"@ {
        Some('♪')
    } else if s == "tab"@ || s == "folder"@ {
        Some('⊟')
    } else if s == "box3d"@ || s == "component"@ {
        Some('☐')
    } else if s == "house"@ || s == "invhouse"@ {
        Some('⌂')
    } else if s == "underline"@ {
        Some('_')
    } else if s == "cds"@ || s == "rpromoter"@ || s == "rarrow"@ {
        Some('▷')
    } else if s == "lpromoter"@ || s == "larrow"@ {
        Some('◁')
    } else if s == "assembly"@ {
        Some('⊞')
    } else if s == "signature"@ {
        Some('✎')
    } else if s == "insulator"@ {
        Some('⊘')
    } else if s == "ribosite"@ {
        Some('◯')
    } else if s == "rnastab"@ {
        Some('⊗')
    } else if s == "proteasesite"@ {
        Some('✂')
    } else if s == "proteinstab"@ {
        Some('⊕')
    } else if s == "primersite"@ {
        Some('▹')
    } else if s == "restrictionsite"@ {
        Some('▿')
    } else if s == "fivepoverhang"@ || s == "threepoverhang"@ {
        Some('⌐')
    } else if s == "noverhang"@ {
        Some('⊣')
    } else {
        Some('◈')
    }
}

fn icon_of(s: &[char]) -> (r: Option<char>)
    ensures
        r == icon_s(s@),
{
    if eq_lit(s, "box") || eq_lit(s, "rect") || eq_lit(s, "rectangle") || eq_lit(s, "square")
        || eq_lit(s, "record") || eq_lit(s, "Mrecord") {
        None
    } else if eq_lit(s, "ellipse") || eq_lit(s, "oval") {
        Some('⬭')
    } else if eq_lit(s, "circle") {
        Some('○')
    } else if eq_lit(s, "doublecircle") {
        Some('◎')
    } else if eq_lit(s, "point") {
        Some('●')
    } else if eq_lit(s, "diamond") {
        Some('◇')
    } else if eq_lit(s, "Mdiamond") {
        Some('◆')
    } else if eq_lit(s, "Msquare") {
        Some('■')
    } else if eq_lit(s, "plaintext") || eq_lit(s, "plain") || eq_lit(s, "none") {
        Some('☐')
    } else if eq_lit(s, "triangle") {
        Some('△')
    } else if eq_lit(s, "invtriangle") {
        Some('▽')
    } else if eq_lit(s, "trapezium") {
        Some('⏢')
    } else if eq_lit(s, "invtrapezium") {
        Some('⏥')
    } else if eq_lit(s, "parallelogram") {
        Some('▱')
    } else if eq_lit(s, "pentagon") {
        Some('⬠')
    } else if eq_lit(s, "hexagon") || eq_lit(s, "septagon") || eq_lit(s, "heptagon") {
        Some('⬡')
    } else if eq_lit(s, "octagon") || eq_lit(s, "doubleoctagon") || eq_lit(s, "tripleoctagon") {
        Some('⯃')
    } else if eq_lit(s, "star") {
        Some('★')
    } else if eq_lit(s, "cylinder") {
        Some('⌸')
    } else if eq_lit(s, "note") {
        Some('♪')
    } else if eq_lit(s, "tab") || eq_lit(s, "folder") {
        Some('⊟')
    } else if eq_lit(s, "box3d") || eq_lit(s, "component") {
        Some('☐')
    } else if eq_lit(s, "house") || eq_lit(s, "invhouse") {
        Some('⌂')
    } else if eq_lit(s, "underline") {
        Some('_')
    } else if eq_lit(s, "cds") || eq_lit(s, "rpromoter") || eq_lit(s, "rarrow") {
        Some('▷')
    } else if eq_lit(s, "lpromoter") || eq_lit(s, "larrow") {
        Some('◁')
    } else if eq_lit(s, "assembly") {
        Some('⊞')
    } else if eq_lit(s, "signature") {
        Some('✎')
    } else if eq_lit(s, "insulator") {
        Some('⊘')
    } else if eq_lit(s, "ribosite") {
        Some('◯')
    } else if eq_lit(s, "rnastab") {
        Some('⊗')
    } else if eq_lit(s, "proteasesite") {
        Some('✂')
    } else if eq_lit(s, "proteinstab") {
        Some('⊕')
    } else if eq_lit(s, "primersite") {
        Some('▹')
    } else if eq_lit(s, "restrictionsite") {
        Some('▿')
    } else if eq_lit(s, "fivepoverhang") || eq_lit(s, "threepoverhang") {
        Some('⌐')
    } else if eq_lit(s, "noverhang") {
        Some('⊣')
    } else {
        Some('◈')
    }
}

/// The icon a shape gets before its label; none for the box shapes, a
/// generic marker for unknown shapes.
pub fn shape_icon(shape: &str) -> (r: Option<char>)
    ensures
        r == icon_s(shape@),
{
    let v = chars_of(shape);
    icon_of(&v)
}

} // verus!

verus! {

/// The number of columns of a grid (that of its first row).
pub open spec fn width_of(g: Seq<Vec<char>>) -> nat {
    if g.len() > 0 {
        g[0]@.len()
    } else {
        0
    }
}

/// A grid of characters and its map of step cells, both rectangular and of
/// the same size.
pub open spec fn shaped(g: Seq<Vec<char>>, cells: Seq<Vec<bool>>) -> bool {
    &&& g.len() == cells.len()
    &&& forall|r: int|
        0 <= r < g.len() ==> (#[trigger] g[r])@.len() == width_of(g) && cells[r]@.len() == width_of(g)
}

/// `b` has the rows and columns of `a`.
pub open spec fn same_shape(a: Seq<Vec<char>>, b: Seq<Vec<char>>) -> bool {
    &&& a.len() == b.len()
    &&& forall|r: int| 0 <= r < a.len() ==> (#[trigger] a[r])@.len() == b[r]@.len()
}

/// Every cell that belongs to a step holds in `b` what it holds in `a`.
pub open spec fn keeps_step_cells(a: Seq<Vec<char>>, b: Seq<Vec<char>>, cells: Seq<Vec<bool>>) -> bool {
    forall|r: int, c: int|
        0 <= r < a.len() && 0 <= c < width_of(a) && (#[trigger] cells[r]@[c]) ==> b[r]@[c] == a[r]@[c]
}

/// Writes `ch` at (`row`, `col`) and marks the cell as a step cell, when it
/// is inside the grid.
fn set_cell(grid: &mut Vec<Vec<char>>, cells: &mut Vec<Vec<bool>>, row: usize, col: usize, ch: char)
    requires
        shaped(old(grid)@, old(cells)@),
    ensures
        shaped(final(grid)@, final(cells)@),
        same_shape(old(grid)@, final(grid)@),
        width_of(final(grid)@) == width_of(old(grid)@),
        forall|r: int, c: int|
            0 <= r < old(grid)@.len() && 0 <= c < width_of(old(grid)@) ==> (#[trigger] final(grid)@[r]@[c]) == if r == row && c == col {
                ch
            } else {
                old(grid)@[r]@[c]
            } && final(cells)@[r]@[c] == (old(cells)@[r]@[c] || (r == row && c == col)),
        canvas(final(grid)@, final(cells)@) == put_cell(canvas(old(grid)@, old(cells)@), row as int, col as int, ch),
{
    if row < grid.len() && col < grid[0].len() {
        assert(grid@[row as int]@.len() == width_of(grid@));
        grid[row].set(col, ch);
        cells[row].set(col, true);
        assert forall|r: int| 0 <= r < grid@.len() implies (#[trigger] grid@[r])@.len() == width_of(grid@)
            && cells@[r]@.len() == width_of(grid@) by {
            if r != row {
                assert(grid@[r] == old(grid)@[r]);
                assert(cells@[r] == old(cells)@[r]);
            }
            if row != 0 {
                assert(grid@[0] == old(grid)@[0]);
            }
        }
        assert forall|r: int, c: int| 0 <= r < old(grid)@.len() && 0 <= c < width_of(old(grid)@) implies (#[trigger] grid@[r]@[c]) == if r == row && c == col {
                ch
            } else {
                old(grid)@[r]@[c]
            } && cells@[r]@[c] == (old(cells)@[r]@[c] || (r == row && c == col)) by {
            if r != row {
                assert(grid@[r] == old(grid)@[r]);
                assert(cells@[r] == old(cells)@[r]);
            }
        }
    }
}

/// Writes `ch` at (`row`, `col`) when it is inside the grid and not a step
/// cell.
fn set_edge_cell(grid: &mut Vec<Vec<char>>, cells: &Vec<Vec<bool>>, row: usize, col: usize, ch: char)
    requires
        shaped(old(grid)@, cells@),
    ensures
        shaped(final(grid)@, cells@),
        same_shape(old(grid)@, final(grid)@),
        width_of(final(grid)@) == width_of(old(grid)@),
        keeps_step_cells(old(grid)@, final(grid)@, cells@),
        forall|r: int, c: int|
            0 <= r < old(grid)@.len() && 0 <= c < width_of(old(grid)@) ==> (#[trigger] final(grid)@[r]@[c]) == if r == row && c == col && !cells@[r]@[c] {
                ch
            } else {
                old(grid)@[r]@[c]
            },
        views(final(grid)@) == put_edge(views(old(grid)@), mviews(cells@), row as int, col as int, ch),
{
    if row < grid.len() && col < grid[0].len() {
        assert(grid@[row as int]@.len() == width_of(grid@));
        if !cells[row][col] {
            grid[row].set(col, ch);
            assert forall|r: int| 0 <= r < grid@.len() implies (#[trigger] grid@[r])@.len() == width_of(grid@)
                && cells@[r]@.len() == width_of(grid@) by {
                if r != row {
                    assert(grid@[r] == old(grid)@[r]);
                }
                if row != 0 {
                    assert(grid@[0] == old(grid)@[0]);
                }
            }
            assert forall|r: int, c: int| 0 <= r < old(grid)@.len() && 0 <= c < width_of(old(grid)@) implies (#[trigger] grid@[r]@[c]) == if r == row && c == col && !cells@[r]@[c] {
                    ch
                } else {
                    old(grid)@[r]@[c]
                } by {
                if r != row {
                    assert(grid@[r] == old(grid)@[r]);
                }
            }
        }
    }
}

/// The rows of a map of step cells.
pub open spec fn mviews(m: Seq<Vec<bool>>) -> Seq<Seq<bool>> {
    m.map_values(|r: Vec<bool>| r@)
}

/// Writing `ch` at row `r`, column `c` for an edge: only inside the grid
/// and off the step cells.
pub open spec fn put_edge(g: Seq<Seq<char>>, m: Seq<Seq<bool>>, r: int, c: int, ch: char) -> Seq<Seq<char>> {
    if 0 <= r < g.len() && 0 <= c < g[0].len() && !m[r][c] {
        g.update(r, g[r].update(c, ch))
    } else {
        g
    }
}

/// Drawing `ch` down column `col` from row `r` to row `hi`.
pub open spec fn edge_col_s(g: Seq<Seq<char>>, m: Seq<Seq<bool>>, col: int, r: int, hi: int, ch: char) -> Seq<Seq<char>>
    decreases hi - r,
{
    if r > hi {
        g
    } else if r == hi {
        put_edge(g, m, r, col, ch)
    } else {
        edge_col_s(put_edge(g, m, r, col, ch), m, col, r + 1, hi, ch)
    }
}

/// Drawing `ch` along row `row` from column `c` to column `hi`.
pub open spec fn edge_row_s(g: Seq<Seq<char>>, m: Seq<Seq<bool>>, row: int, c: int, hi: int, ch: char) -> Seq<Seq<char>>
    decreases hi - c,
{
    if c > hi {
        g
    } else if c == hi {
        put_edge(g, m, row, c, ch)
    } else {
        edge_row_s(put_edge(g, m, row, c, ch), m, row, c + 1, hi, ch)
    }
}

pub open spec fn min_i(a: int, b: int) -> int {
    if a < b {
        a
    } else {
        b
    }
}

pub open spec fn max_i(a: int, b: int) -> int {
    if a < b {
        b
    } else {
        a
    }
}

/// Drawing the segment from (`c1`, `r1`) to (`c2`, `r2`): straight when the
/// two share a column or a row, otherwise down (or up) column `c1` and then
/// across row `r2`, with a corner at the bend.
pub open spec fn segment_s(g: Seq<Seq<char>>, m: Seq<Seq<bool>>, c1: int, r1: int, c2: int, r2: int) -> Seq<Seq<char>> {
    let rmin = min_i(r1, r2);
    let rmax = max_i(r1, r2);
    let cmin = min_i(c1, c2);
    let cmax = max_i(c1, c2);
    if c1 == c2 {
        edge_col_s(g, m, c1, rmin, rmax, '│')
    } else if r1 == r2 {
        edge_row_s(g, m, r1, cmin, cmax, '─')
    } else {
        let g1 = edge_row_s(edge_col_s(g, m, c1, rmin, rmax, '│'), m, r2, cmin, cmax, '─');
        let corner = if r2 > r1 && c2 > c1 {
            '└'
        } else if r2 > r1 && c2 < c1 {
            '┘'
        } else if r2 < r1 && c2 > c1 {
            '┌'
        } else {
            '┐'
        };
        put_edge(g1, m, r2, c1, corner)
    }
}

/// Drawing the segments of a path from waypoint `i` on, each followed by
/// the corner at its end when the path turns there.
pub open spec fn path_s(g: Seq<Seq<char>>, m: Seq<Seq<bool>>, pts: Seq<(usize, usize)>, i: int) -> Seq<Seq<char>>
    decreases pts.len() - i,
{
    if i < 0 || i + 1 >= pts.len() {
        g
    } else {
        let (c1, r1) = pts[i];
        let (c2, r2) = pts[i + 1];
        let g1 = segment_s(g, m, c1 as int, r1 as int, c2 as int, r2 as int);
        let g2 = if i + 2 < pts.len() {
            let (c3, r3) = pts[i + 2];
            match corner_s(c1 as int, r1 as int, c2 as int, r2 as int, c3 as int, r3 as int) {
                Some(ch) => put_edge(g1, m, r2 as int, c2 as int, ch),
                None => g1,
            }
        } else {
            g1
        };
        path_s(g2, m, pts, i + 1)
    }
}

/// Drawing an edge along its waypoints, with an arrowhead at the last one
/// pointing the way the last segment goes.
pub open spec fn edge_s(g: Seq<Seq<char>>, m: Seq<Seq<bool>>, pts: Seq<(usize, usize)>) -> Seq<Seq<char>> {
    let n = pts.len();
    if n == 0 {
        g
    } else {
        let g1 = path_s(g, m, pts, 0);
        if n >= 2 {
            let (cp, rp) = pts[n - 2];
            let (cl, rl) = pts[n - 1];
            let arrow = if rl > rp {
                '▼'
            } else if rl < rp {
                '▲'
            } else if cl > cp {
                '►'
            } else {
                '◄'
            };
            put_edge(g1, m, rl as int, cl as int, arrow)
        } else {
            g1
        }
    }
}

/// Drawing edges `i..` in turn.
pub open spec fn edges_s(g: Seq<Seq<char>>, m: Seq<Seq<bool>>, es: Seq<GridEdge>, i: int) -> Seq<Seq<char>>
    decreases es.len() - i,
{
    if i < 0 || i >= es.len() {
        g
    } else {
        edges_s(edge_s(g, m, es[i].points@), m, es, i + 1)
    }
}

/// The corner where a path that comes from (`c1`, `r1`) to (`c2`, `r2`)
/// turns towards (`c3`, `r3`).
pub open spec fn corner_s(c1: int, r1: int, c2: int, r2: int, c3: int, r3: int) -> Option<char> {
    if r2 > r1 && c3 > c2 {
        Some('└')
    } else if r2 > r1 && c3 < c2 {
        Some('┘')
    } else if r2 < r1 && c3 > c2 {
        Some('┌')
    } else if r2 < r1 && c3 < c2 {
        Some('┐')
    } else if c2 > c1 && r3 > r2 {
        Some('┐')
    } else if c2 > c1 && r3 < r2 {
        Some('┘')
    } else if c2 < c1 && r3 > r2 {
        Some('┌')
    } else if c2 < c1 && r3 < r2 {
        Some('└')
    } else {
        None
    }
}

/// The corner character at a waypoint where the path turns.
pub fn pick_corner(c1: usize, r1: usize, c2: usize, r2: usize, c3: usize, r3: usize) -> (r: Option<char>)
    ensures
        r == corner_s(c1 as int, r1 as int, c2 as int, r2 as int, c3 as int, r3 as int),
{
    let going_down = r2 > r1;
    let going_up = r2 < r1;
    let going_right = c2 > c1;
    let going_left = c2 < c1;
    let then_down = r3 > r2;
    let then_up = r3 < r2;
    let then_right = c3 > c2;
    let then_left = c3 < c2;
    if going_down && then_right {
        Some('└')
    } else if going_down && then_left {
        Some('┘')
    } else if going_up && then_right {
        Some('┌')
    } else if going_up && then_left {
        Some('┐')
    } else if going_right && then_down {
        Some('┐')
    } else if going_right && then_up {
        Some('┘')
    } else if going_left && then_down {
        Some('┌')
    } else if going_left && then_up {
        Some('└')
    } else {
        None
    }
}

/// Draws `ch` down column `col` from row `lo` to row `hi`, around step
/// cells.
fn edge_column(grid: &mut Vec<Vec<char>>, cells: &Vec<Vec<bool>>, col: usize, lo: usize, hi: usize, ch: char)
    requires
        shaped(old(grid)@, cells@),
    ensures
        shaped(final(grid)@, cells@),
        same_shape(old(grid)@, final(grid)@),
        width_of(final(grid)@) == width_of(old(grid)@),
        keeps_step_cells(old(grid)@, final(grid)@, cells@),
        views(final(grid)@) == edge_col_s(views(old(grid)@), mviews(cells@), col as int, lo as int, hi as int, ch),
{
    let mut r = lo;
    while r <= hi
        invariant_except_break
            edge_col_s(views(grid@), mviews(cells@), col as int, r as int, hi as int, ch) == edge_col_s(views(old(grid)@), mviews(cells@), col as int, lo as int, hi as int, ch),
        invariant
            shaped(grid@, cells@),
            same_shape(old(grid)@, grid@),
            width_of(grid@) == width_of(old(grid)@),
            keeps_step_cells(old(grid)@, grid@, cells@),
            lo <= r,
        ensures
            views(grid@) == edge_col_s(views(old(grid)@), mviews(cells@), col as int, lo as int, hi as int, ch),
        decreases hi - r + 1,
    {
        set_edge_cell(grid, cells, r, col, ch);
        if r == hi {
            break;
        }
        r += 1;
    }
}

/// Draws `ch` along row `row` from column `lo` to column `hi`, around step
/// cells.
fn edge_row(grid: &mut Vec<Vec<char>>, cells: &Vec<Vec<bool>>, row: usize, lo: usize, hi: usize, ch: char)
    requires
        shaped(old(grid)@, cells@),
    ensures
        shaped(final(grid)@, cells@),
        same_shape(old(grid)@, final(grid)@),
        width_of(final(grid)@) == width_of(old(grid)@),
        keeps_step_cells(old(grid)@, final(grid)@, cells@),
        views(final(grid)@) == edge_row_s(views(old(grid)@), mviews(cells@), row as int, lo as int, hi as int, ch),
{
    let mut c = lo;
    while c <= hi
        invariant_except_break
            edge_row_s(views(grid@), mviews(cells@), row as int, c as int, hi as int, ch) == edge_row_s(views(old(grid)@), mviews(cells@), row as int, lo as int, hi as int, ch),
        invariant
            shaped(grid@, cells@),
            same_shape(old(grid)@, grid@),
            width_of(grid@) == width_of(old(grid)@),
            keeps_step_cells(old(grid)@, grid@, cells@),
            lo <= c,
        ensures
            views(grid@) == edge_row_s(views(old(grid)@), mviews(cells@), row as int, lo as int, hi as int, ch),
        decreases hi - c + 1,
    {
        set_edge_cell(grid, cells, row, c, ch);
        if c == hi {
            break;
        }
        c += 1;
    }
}

/// Draws the segment between two waypoints: straight when they share a row
/// or column, otherwise down (or up) first and then across, with a corner at
/// the bend.
fn draw_segment(grid: &mut Vec<Vec<char>>, cells: &Vec<Vec<bool>>, c1: usize, r1: usize, c2: usize, r2: usize)
    requires
        shaped(old(grid)@, cells@),
    ensures
        shaped(final(grid)@, cells@),
        same_shape(old(grid)@, final(grid)@),
        width_of(final(grid)@) == width_of(old(grid)@),
        keeps_step_cells(old(grid)@, final(grid)@, cells@),
        views(final(grid)@) == segment_s(views(old(grid)@), mviews(cells@), c1 as int, r1 as int, c2 as int, r2 as int),
{
    let (rmin, rmax) = if r1 < r2 {
        (r1, r2)
    } else {
        (r2, r1)
    };
    let (cmin, cmax) = if c1 < c2 {
        (c1, c2)
    } else {
        (c2, c1)
    };
    if c1 == c2 {
        edge_column(grid, cells, c1, rmin, rmax, '│');
    } else if r1 == r2 {
        edge_row(grid, cells, r1, cmin, cmax, '─');
    } else {
        edge_column(grid, cells, c1, rmin, rmax, '│');
        edge_row(grid, cells, r2, cmin, cmax, '─');
        let corner = if r2 > r1 && c2 > c1 {
            '└'
        } else if r2 > r1 && c2 < c1 {
            '┘'
        } else if r2 < r1 && c2 > c1 {
            '┌'
        } else {
            '┐'
        };
        set_edge_cell(grid, cells, r2, c1, corner);
    }
}

/// Draws an edge along its waypoints, with corners where it turns and an
/// arrowhead at its last point; it never draws over a step cell.
pub fn draw_edge(grid: &mut Vec<Vec<char>>, cells: &Vec<Vec<bool>>, edge: &GridEdge)
    requires
        shaped(old(grid)@, cells@),
    ensures
        shaped(final(grid)@, cells@),
        same_shape(old(grid)@, final(grid)@),
        width_of(final(grid)@) == width_of(old(grid)@),
        keeps_step_cells(old(grid)@, final(grid)@, cells@),
        views(final(grid)@) == edge_s(views(old(grid)@), mviews(cells@), edge.points@),
{
    let points = &edge.points;
    let n = points.len();
    if n == 0 {
        return;
    }
    let mut i: usize = 0;
    while i + 1 < n
        invariant
            n == points@.len(),
            i < n,
            shaped(grid@, cells@),
            same_shape(old(grid)@, grid@),
            width_of(grid@) == width_of(old(grid)@),
            keeps_step_cells(old(grid)@, grid@, cells@),
            path_s(views(grid@), mviews(cells@), points@, i as int) == path_s(views(old(grid)@), mviews(cells@), points@, 0),
        decreases n - i,
    {
        let (c1, r1) = points[i];
        let (c2, r2) = points[i + 1];
        draw_segment(grid, cells, c1, r1, c2, r2);
        if i + 2 < n {
            let (c3, r3) = points[i + 2];
            match pick_corner(c1, r1, c2, r2, c3, r3) {
                Some(ch) => set_edge_cell(grid, cells, r2, c2, ch),
                None => {},
            }
        }
        i += 1;
    }
    if n >= 2 {
        let (cp, rp) = points[n - 2];
        let (cl, rl) = points[n - 1];
        let arrow = if rl > rp {
            '▼'
        } else if rl < rp {
            '▲'
        } else if cl > cp {
            '►'
        } else {
            '◄'
        };
        set_edge_cell(grid, cells, rl, cl, arrow);
    }
}

/// Draws every edge. No edge draws over a cell of a step: what the steps
/// drew stays as it is.
pub fn draw_edges(grid: &mut Vec<Vec<char>>, cells: &Vec<Vec<bool>>, edges: &[GridEdge])
    requires
        shaped(old(grid)@, cells@),
    ensures
        shaped(final(grid)@, cells@),
        same_shape(old(grid)@, final(grid)@),
        keeps_step_cells(old(grid)@, final(grid)@, cells@),
        views(final(grid)@) == edges_s(views(old(grid)@), mviews(cells@), edges@, 0),
{
    let mut i: usize = 0;
    while i < edges.len()
        invariant
            shaped(grid@, cells@),
            same_shape(old(grid)@, grid@),
            width_of(grid@) == width_of(old(grid)@),
            keeps_step_cells(old(grid)@, grid@, cells@),
            edges_s(views(grid@), mviews(cells@), edges@, i as int) == edges_s(views(old(grid)@), mviews(cells@), edges@, 0),
        decreases edges@.len() - i,
    {
        draw_edge(grid, cells, &edges[i]);
        i += 1;
    }
}

} // verus!

verus! {

/// Every step cell of `a` within `h` rows and `w` columns is still one in
/// `b`.
pub open spec fn marks_grow(h: int, w: int, a: Seq<Vec<bool>>, b: Seq<Vec<bool>>) -> bool {
    forall|r: int, c: int| 0 <= r < h && 0 <= c < w && #[trigger] a[r]@[c] ==> b[r]@[c]
}

pub proof fn lemma_marks_trans(h: int, w: int, a: Seq<Vec<bool>>, b: Seq<Vec<bool>>, c: Seq<Vec<bool>>)
    requires
        marks_grow(h, w, a, b),
        marks_grow(h, w, b, c),
    ensures
        marks_grow(h, w, a, c),
{
    assert forall|r: int, k: int| 0 <= r < h && 0 <= k < w && #[trigger] a[r]@[k] implies c[r]@[k] by {
        assert(b[r]@[k]);
    }
}

/// Every cell of rows `r0..r1` and columns `c0..c1` within `h` rows and `w`
/// columns is a step cell.
pub open spec fn area_marked(h: int, w: int, cells: Seq<Vec<bool>>, r0: int, r1: int, c0: int, c1: int) -> bool {
    forall|r: int, c: int| r0 <= r < r1 && c0 <= c < c1 && 0 <= r < h && 0 <= c < w ==> #[trigger] cells[r]@[c]
}

pub proof fn lemma_area_kept(h: int, w: int, a: Seq<Vec<bool>>, b: Seq<Vec<bool>>, r0: int, r1: int, c0: int, c1: int)
    requires
        area_marked(h, w, a, r0, r1, c0, c1),
        marks_grow(h, w, a, b),
    ensures
        area_marked(h, w, b, r0, r1, c0, c1),
{
    assert forall|r: int, c: int| r0 <= r < r1 && c0 <= c < c1 && 0 <= r < h && 0 <= c < w implies #[trigger] b[r]@[c] by {
        assert(a[r]@[c]);
    }
}

/// A step whose box can be drawn: it has at least one row and one column
/// (or starts past the first) and its far sides stay within `usize`.
pub open spec fn node_fits(n: GridNode) -> bool {
    &&& n.col + n.width >= 1
    &&& n.row + n.height >= 1
    &&& n.col + n.width + 2 <= usize::MAX
    &&& n.row + n.height + 2 <= usize::MAX
}

/// A grid and its map of step cells, as rows.
pub type Canvas = (Seq<Seq<char>>, Seq<Seq<bool>>);

pub open spec fn canvas(g: Seq<Vec<char>>, m: Seq<Vec<bool>>) -> Canvas {
    (views(g), mviews(m))
}

/// Writing `ch` at row `r`, column `c` for a step: inside the grid, marking
/// the cell as a step cell.
pub open spec fn put_cell(s: Canvas, r: int, c: int, ch: char) -> Canvas {
    let (g, m) = s;
    if 0 <= r < g.len() && 0 <= c < g[0].len() {
        (g.update(r, g[r].update(c, ch)), m.update(r, m[r].update(c, true)))
    } else {
        s
    }
}

/// Writing `ch` on row `r` from column `c` up to (not including) `hi`.
pub open spec fn span_s(s: Canvas, r: int, c: int, hi: int, ch: char) -> Canvas
    decreases hi - c,
{
    if c >= hi {
        s
    } else {
        span_s(put_cell(s, r, c, ch), r, c + 1, hi, ch)
    }
}

/// The sides of a box on rows `r` up to (not including) its bottom row: a
/// bar at each end and blanks between.
pub open spec fn sides_s(s: Canvas, n: GridNode, r: int) -> Canvas
    decreases n.row + n.height - 1 - r,
{
    let right = n.col + n.width - 1;
    if r >= n.row + n.height - 1 {
        s
    } else {
        let s1 = put_cell(put_cell(s, r, n.col as int, '│'), r, right, '│');
        sides_s(span_s(s1, r, n.col + 1, right, ' '), n, r + 1)
    }
}

/// Writing characters `ci..count` of `line` on row `r` of a box, from the
/// column after the left padding, up to the box's right border.
pub open spec fn chars_s(s: Canvas, n: GridNode, r: int, line: Seq<char>, pad: int, ci: int, count: int) -> Canvas
    decreases count - ci,
{
    if ci >= count {
        s
    } else {
        let c = n.col + 2 + pad + ci;
        let s1 = if c < n.col + n.width - 1 {
            put_cell(s, r, c, line[ci])
        } else {
            s
        };
        chars_s(s1, n, r, line, pad, ci + 1, count)
    }
}

/// The width a line of a box may use: the inner width less a margin on
/// each side.
pub open spec fn usable_s(n: GridNode) -> int {
    let inner: int = if n.width >= 2 {
        n.width - 2
    } else {
        0
    };
    if inner >= 2 {
        inner - 2
    } else {
        0
    }
}

/// Writing lines `i..` of `content` in a box, from row `start` on, each cut
/// to the usable width and centred; the lines stop at the bottom border.
pub open spec fn lines_s(s: Canvas, n: GridNode, content: Seq<Seq<char>>, i: int, start: int) -> Canvas
    decreases content.len() - i,
{
    if i < 0 || i >= content.len() {
        s
    } else {
        let r = start + i;
        if r >= n.row + n.height - 1 {
            s
        } else {
            let line = content[i];
            let usable = usable_s(n);
            let count = if line.len() > usable {
                usable
            } else {
                line.len() as int
            };
            let pad = (usable - count) / 2;
            lines_s(chars_s(s, n, r, line, pad, 0, count), n, content, i + 1, start)
        }
    }
}

/// Writing `content` centred in the rows of a box: as many blank rows
/// above as below (one fewer above when they cannot be equal).
pub open spec fn place_s(s: Canvas, n: GridNode, content: Seq<Seq<char>>) -> Canvas {
    let available: int = if n.height >= 2 {
        n.height - 2
    } else {
        0
    };
    let spare: int = if available >= content.len() {
        available - content.len()
    } else {
        0
    };
    lines_s(s, n, content, 0, n.row + 1 + spare / 2)
}

/// Drawing the box of `n` with `content`: its top border, its sides, its
/// content, then its bottom border.
pub open spec fn box_s(s: Canvas, n: GridNode, content: Seq<Seq<char>>) -> Canvas {
    let col = n.col as int;
    let row = n.row as int;
    let right = n.col + n.width - 1;
    let bottom = n.row + n.height - 1;
    let s1 = put_cell(span_s(put_cell(s, row, col, '┌'), row, col + 1, right, '─'), row, right, '┐');
    let s2 = place_s(sides_s(s1, n, row + 1), n, content);
    put_cell(span_s(put_cell(s2, bottom, col, '└'), bottom, col + 1, right, '─'), bottom, right, '┘')
}

/// Drawing the boxes of steps `i..` in turn.
pub open spec fn boxes_s(s: Canvas, nodes: Seq<GridNode>, attrs: Seq<NodeAttributes>, verbose: bool, i: int) -> Canvas
    decreases nodes.len() - i,
{
    if i < 0 || i >= nodes.len() {
        s
    } else {
        boxes_s(box_s(s, nodes[i], content_s(nodes[i], attrs, verbose)), nodes, attrs, verbose, i + 1)
    }
}

/// A grid of `h` rows of `w` blanks, with no step cell.
pub open spec fn blank_s(w: nat, h: nat) -> Canvas {
    (Seq::new(h, |k: int| Seq::new(w, |j: int| ' ')), Seq::new(h, |k: int| Seq::new(w, |j: int| false)))
}

/// What `render_ascii` draws: the boxes on a blank grid, then the edges.
pub open spec fn render_grid_s(
    nodes: Seq<GridNode>,
    edges: Seq<GridEdge>,
    w: nat,
    h: nat,
    attrs: Seq<NodeAttributes>,
    verbose: bool,
) -> Seq<Seq<char>> {
    let s = boxes_s(blank_s(w, h), nodes, attrs, verbose, 0);
    edges_s(s.0, s.1, edges, 0)
}

/// Marks a cell, keeping the grid's shape.
fn mark(grid: &mut Vec<Vec<char>>, cells: &mut Vec<Vec<bool>>, row: usize, col: usize, ch: char)
    requires
        shaped(old(grid)@, old(cells)@),
    ensures
        shaped(final(grid)@, final(cells)@),
        same_shape(old(grid)@, final(grid)@),
        width_of(final(grid)@) == width_of(old(grid)@),
        marks_grow(old(grid)@.len() as int, width_of(old(grid)@) as int, old(cells)@, final(cells)@),
        0 <= row < old(grid)@.len() && 0 <= col < width_of(old(grid)@) ==> final(cells)@[row as int]@[col as int],
        canvas(final(grid)@, final(cells)@) == put_cell(canvas(old(grid)@, old(cells)@), row as int, col as int, ch),
{
    set_cell(grid, cells, row, col, ch);
    proof {
        assert forall|r: int, c: int| 0 <= r < old(grid)@.len() && 0 <= c < width_of(old(grid)@) && #[trigger] old(cells)@[r]@[c] implies cells@[r]@[c] by {
            assert(grid@[r]@[c] == (if r == row && c == col {
                ch
            } else {
                old(grid)@[r]@[c]
            }));
            assert(cells@[r]@[c] == (old(cells)@[r]@[c] || (r == row && c == col)));
        }
        if 0 <= row < old(grid)@.len() && 0 <= col < width_of(old(grid)@) {
            assert(grid@[row as int]@[col as int] == ch);
            assert(cells@[row as int]@[col as int] == (old(cells)@[row as int]@[col as int] || true));
        }
    }
}

/// Writes `ch` on row `r` from column `lo` up to (not including) `hi`, as
/// step cells.
fn fill_span(grid: &mut Vec<Vec<char>>, cells: &mut Vec<Vec<bool>>, r: usize, lo: usize, hi: usize, ch: char)
    requires
        shaped(old(grid)@, old(cells)@),
    ensures
        shaped(final(grid)@, final(cells)@),
        same_shape(old(grid)@, final(grid)@),
        width_of(final(grid)@) == width_of(old(grid)@),
        marks_grow(old(grid)@.len() as int, width_of(old(grid)@) as int, old(cells)@, final(cells)@),
        area_marked(old(grid)@.len() as int, width_of(old(grid)@) as int, final(cells)@, r as int, r + 1, lo as int, hi as int),
        canvas(final(grid)@, final(cells)@) == span_s(canvas(old(grid)@, old(cells)@), r as int, lo as int, hi as int, ch),
{
    let ghost h = old(grid)@.len() as int;
    let ghost w = width_of(old(grid)@) as int;
    let mut c = lo;
    while c < hi
        invariant
            lo <= c,
            h == old(grid)@.len(),
            w == width_of(old(grid)@),
            shaped(grid@, cells@),
            same_shape(old(grid)@, grid@),
            width_of(grid@) == width_of(old(grid)@),
            marks_grow(h, w, old(cells)@, cells@),
            area_marked(h, w, cells@, r as int, r + 1, lo as int, c as int),
            span_s(canvas(grid@, cells@), r as int, c as int, hi as int, ch) == span_s(canvas(old(grid)@, old(cells)@), r as int, lo as int, hi as int, ch),
        decreases hi - c,
    {
        let ghost before = cells@;
        mark(grid, cells, r, c, ch);
        proof {
            lemma_marks_trans(h, w, old(cells)@, before, cells@);
            lemma_area_kept(h, w, before, cells@, r as int, r + 1, lo as int, c as int);
        }
        c += 1;
    }
}

/// Writes the lines of `content` centred in the box of `node`, one per row
/// below its top border, cut to the box's inner width.
fn place_content(grid: &mut Vec<Vec<char>>, cells: &mut Vec<Vec<bool>>, node: &GridNode, content: &Vec<Vec<char>>)
    requires
        shaped(old(grid)@, old(cells)@),
        node_fits(*node),
    ensures
        shaped(final(grid)@, final(cells)@),
        same_shape(old(grid)@, final(grid)@),
        width_of(final(grid)@) == width_of(old(grid)@),
        marks_grow(old(grid)@.len() as int, width_of(old(grid)@) as int, old(cells)@, final(cells)@),
        canvas(final(grid)@, final(cells)@) == place_s(canvas(old(grid)@, old(cells)@), *node, views(content@)),
{
    let ghost gh = old(grid)@.len() as int;
    let ghost gw = width_of(old(grid)@) as int;
    let col = node.col;
    let row = node.row;
    let w = node.width;
    let h = node.height;
    let inner_width: usize = if w >= 2 { w - 2 } else { 0 };
    let available_rows: usize = if h >= 2 { h - 2 } else { 0 };
    let n = content.len();
    let spare: usize = if available_rows >= n { available_rows - n } else { 0 };
    let start = row + 1 + spare / 2;
    let mut i: usize = 0;
    while i < n
        invariant
            n == content@.len(),
            gh == old(grid)@.len(),
            gw == width_of(old(grid)@),
            start == row + 1 + spare / 2,
            spare <= available_rows,
            available_rows <= h,
            row + h + 2 <= usize::MAX,
            col + w + 2 <= usize::MAX,
            col + w >= 1,
            row + h >= 1,
            inner_width <= w,
            start + i <= row + h + 1,
            shaped(grid@, cells@),
            same_shape(old(grid)@, grid@),
            width_of(grid@) == width_of(old(grid)@),
            marks_grow(gh, gw, old(cells)@, cells@),
            lines_s(canvas(grid@, cells@), *node, views(content@), i as int, start as int) == place_s(canvas(old(grid)@, old(cells)@), *node, views(content@)),
            col == node.col && row == node.row && w == node.width && h == node.height,
            available_rows == (if h >= 2 { h - 2 } else { 0 }),
            spare == (if available_rows >= n { available_rows - n } else { 0 }),
            inner_width == (if w >= 2 { w - 2 } else { 0 }),
        decreases n - i,
    {
        let r = start + i;
        if r >= row + h - 1 {
            return;
        }
        let usable: usize = if inner_width >= 2 { inner_width - 2 } else { 0 };
        let line = &content[i];
        let count = if line.len() > usable { usable } else { line.len() };
        let left_pad = (usable - count) / 2;
        let ghost g_line = *grid;
        let ghost c_line = *cells;
        let mut ci: usize = 0;
        while ci < count
            invariant
                gh == old(grid)@.len(),
                gw == width_of(old(grid)@),
                count <= line@.len(),
                count <= usable,
                usable <= w,
                left_pad + count <= usable,
                ci <= count,
                col + w + 2 <= usize::MAX,
                col + w >= 1,
                shaped(grid@, cells@),
                same_shape(old(grid)@, grid@),
                width_of(grid@) == width_of(old(grid)@),
                marks_grow(gh, gw, old(cells)@, cells@),
                chars_s(canvas(grid@, cells@), *node, r as int, line@, left_pad as int, ci as int, count as int) == chars_s(canvas(g_line@, c_line@), *node, r as int, line@, left_pad as int, 0, count as int),
                col == node.col && row == node.row && w == node.width && h == node.height,
            decreases count - ci,
        {
            let c = col + 2 + left_pad + ci;
            if c < col + w - 1 {
                let ghost before = cells@;
                mark(grid, cells, r, c, line[ci]);
                proof {
                    lemma_marks_trans(gh, gw, old(cells)@, before, cells@);
                }
            }
            ci += 1;
        }
        i += 1;
    }
}

/// Draws the box of `node` with `content` inside; every cell of the box
/// that lies in the grid becomes a step cell.
fn draw_box_node(grid: &mut Vec<Vec<char>>, cells: &mut Vec<Vec<bool>>, node: &GridNode, content: &Vec<Vec<char>>)
    requires
        shaped(old(grid)@, old(cells)@),
        node_fits(*node),
    ensures
        shaped(final(grid)@, final(cells)@),
        same_shape(old(grid)@, final(grid)@),
        width_of(final(grid)@) == width_of(old(grid)@),
        marks_grow(old(grid)@.len() as int, width_of(old(grid)@) as int, old(cells)@, final(cells)@),
        node.width >= 1 && node.height >= 1 ==> area_marked(
            old(grid)@.len() as int,
            width_of(old(grid)@) as int,
            final(cells)@,
            node.row as int,
            node.row + node.height,
            node.col as int,
            node.col + node.width,
        ),
        canvas(final(grid)@, final(cells)@) == box_s(canvas(old(grid)@, old(cells)@), *node, views(content@)),
{
    let ghost gh = old(grid)@.len() as int;
    let ghost gw = width_of(old(grid)@) as int;
    let col = node.col;
    let row = node.row;
    let w = node.width;
    let h = node.height;
    let right = col + w - 1;
    let bottom = row + h - 1;
    let ghost c0 = cells@;
    mark(grid, cells, row, col, '┌');
    let ghost c1 = cells@;
    fill_span(grid, cells, row, col + 1, right, '─');
    let ghost c2 = cells@;
    mark(grid, cells, row, right, '┐');
    let ghost after_top = cells@;
    let ghost g_top = *grid;
    proof {
        lemma_marks_trans(gh, gw, c0, c1, c2);
        lemma_marks_trans(gh, gw, c0, c2, after_top);
        lemma_area_kept(gh, gw, c2, after_top, row as int, row + 1, col + 1, right as int);
        if w >= 1 {
            assert(area_marked(gh, gw, after_top, row as int, row + 1, col as int, col + w)) by {
                assert forall|rr: int, cc: int| row <= rr < row + 1 && col <= cc < col + w && 0 <= rr < gh && 0 <= cc < gw implies #[trigger] after_top[rr]@[cc] by {
                    if cc == col {
                        assert(c1[rr]@[cc]);
                        assert(c2[rr]@[cc]);
                    }
                }
            }
        }
    }
    let mut r = row + 1;
    while r < bottom
        invariant
            gh == old(grid)@.len(),
            gw == width_of(old(grid)@),
            row + 1 <= r,
            bottom == row + h - 1,
            right == col + w - 1,
            row + h + 2 <= usize::MAX,
            col + w + 2 <= usize::MAX,
            shaped(grid@, cells@),
            same_shape(old(grid)@, grid@),
            width_of(grid@) == width_of(old(grid)@),
            marks_grow(gh, gw, old(cells)@, cells@),
            marks_grow(gh, gw, after_top, cells@),
            w >= 1 ==> area_marked(gh, gw, cells@, row + 1, r as int, col as int, col + w),
            sides_s(canvas(grid@, cells@), *node, r as int) == sides_s(canvas(g_top@, after_top), *node, row + 1),
            col == node.col && row == node.row && w == node.width && h == node.height,
        decreases bottom - r,
    {
        let ghost d0 = cells@;
        mark(grid, cells, r, col, '│');
        let ghost d1 = cells@;
        mark(grid, cells, r, right, '│');
        let ghost d2 = cells@;
        fill_span(grid, cells, r, col + 1, right, ' ');
        let ghost d3 = cells@;
        proof {
            lemma_marks_trans(gh, gw, d0, d1, d2);
            lemma_marks_trans(gh, gw, d0, d2, d3);
            lemma_marks_trans(gh, gw, old(cells)@, d0, d3);
            lemma_marks_trans(gh, gw, after_top, d0, d3);
            if w >= 1 {
                lemma_area_kept(gh, gw, d0, d3, row + 1, r as int, col as int, col + w);
                assert(area_marked(gh, gw, d3, row + 1, r + 1, col as int, col + w)) by {
                    assert forall|rr: int, cc: int| row + 1 <= rr < r + 1 && col <= cc < col + w && 0 <= rr < gh && 0 <= cc < gw implies #[trigger] d3[rr]@[cc] by {
                        if rr == r {
                            if cc == col {
                                assert(d1[rr]@[cc]);
                                assert(d2[rr]@[cc]);
                            } else if cc == right {
                                assert(d2[rr]@[cc]);
                            }
                        }
                    }
                }
            }
        }
        r += 1;
    }
    let ghost e0 = cells@;
    place_content(grid, cells, node, content);
    let ghost e1 = cells@;
    mark(grid, cells, bottom, col, '└');
    let ghost e2 = cells@;
    fill_span(grid, cells, bottom, col + 1, right, '─');
    let ghost e3 = cells@;
    mark(grid, cells, bottom, right, '┘');
    let ghost e4 = cells@;
    proof {
        lemma_marks_trans(gh, gw, e0, e1, e2);
        lemma_marks_trans(gh, gw, e0, e2, e3);
        lemma_marks_trans(gh, gw, e0, e3, e4);
        lemma_marks_trans(gh, gw, old(cells)@, e0, e4);
        lemma_marks_trans(gh, gw, after_top, e0, e4);
        lemma_area_kept(gh, gw, e3, e4, bottom as int, bottom + 1, col + 1, right as int);
        if w >= 1 && h >= 1 {
            lemma_area_kept(gh, gw, after_top, e4, row as int, row + 1, col as int, col + w);
            if h >= 2 {
                lemma_area_kept(gh, gw, e0, e4, row + 1, bottom as int, col as int, col + w);
            }
            assert(area_marked(gh, gw, e4, row as int, row + h, col as int, col + w)) by {
                assert forall|rr: int, cc: int| row <= rr < row + h && col <= cc < col + w && 0 <= rr < gh && 0 <= cc < gw implies #[trigger] e4[rr]@[cc] by {
                    if rr == bottom && rr != row {
                        if cc == col {
                            assert(e2[rr]@[cc]);
                            assert(e3[rr]@[cc]);
                        } else if cc == right {
                        } else {
                            assert(e3[rr]@[cc]);
                        }
                    } else if rr == row {
                    } else {
                        assert(rr < bottom);
                    }
                }
            }
        }
    }
}

} // verus!

verus! {

/// The lines shown in a step's box: its label, after the shape's icon and a
/// space when the shape has one; in verbose mode, then `key: value` for
/// each of its attributes.
pub open spec fn label_line_s(n: GridNode) -> Seq<char> {
    match icon_s(n.shape@) {
        Some(icon) => seq![icon, ' '] + n.label@,
        None => n.label@,
    }
}

/// The attributes listed for the step named `name`: those of the first
/// entry with that name.
pub open spec fn attrs_for(attrs: Seq<NodeAttributes>, name: Seq<char>) -> Option<Seq<Attribute>>
    decreases attrs.len(),
{
    if attrs.len() == 0 {
        None
    } else if attrs[0].name@ == name {
        Some(attrs[0].attributes@)
    } else {
        attrs_for(attrs.drop_first(), name)
    }
}

/// The content lines of a step's box.
pub open spec fn content_s(n: GridNode, attrs: Seq<NodeAttributes>, verbose: bool) -> Seq<Seq<char>> {
    let extra = if verbose {
        match attrs_for(attrs, n.name@) {
            Some(a) => a.map_values(|x: Attribute| x.key@ + ": "@ + x.value@),
            None => Seq::empty(),
        }
    } else {
        Seq::empty()
    };
    seq![label_line_s(n)] + extra
}

fn find_attrs(attrs: &[NodeAttributes], name: &[char]) -> (r: Option<usize>)
    ensures
        match attrs_for(attrs@, name@) {
            Some(a) => r matches Some(i) && i < attrs@.len() && attrs@[i as int].attributes@ == a,
            None => r is None,
        },
{
    let mut i: usize = 0;
    assert(attrs@.skip(0) =~= attrs@);
    while i < attrs.len()
        invariant
            i <= attrs@.len(),
            attrs_for(attrs@, name@) == attrs_for(attrs@.skip(i as int), name@),
        decreases attrs@.len() - i,
    {
        assert(attrs@.skip(i as int).drop_first() =~= attrs@.skip(i + 1));
        let n = string_chars(&attrs[i].name);
        if crate::text::chars_eq(&n, name) {
            return Some(i);
        }
        i += 1;
    }
    None
}

/// The content lines of a step's box.
fn node_content(node: &GridNode, attrs: &[NodeAttributes], options: &RenderOptions) -> (r: Vec<Vec<char>>)
    ensures
        views(r@) == content_s(*node, attrs@, options.verbose),
{
    let shape = string_chars(&node.shape);
    let label = string_chars(&node.label);
    let mut first: Vec<char> = Vec::new();
    match icon_of(&shape) {
        Some(icon) => {
            first.push(icon);
            first.push(' ');
            push_chars(&mut first, &label);
        },
        None => {
            push_chars(&mut first, &label);
        },
    }
    assert(first@ =~= label_line_s(*node));
    let mut lines: Vec<Vec<char>> = Vec::new();
    lines.push(first);
    if options.verbose {
        let name = string_chars(&node.name);
        match find_attrs(attrs, &name) {
            Some(k) => {
                let list = &attrs[k].attributes;
                let ghost a = list@;
                let mut j: usize = 0;
                while j < list.len()
                    invariant
                        j <= a.len(),
                        a == list@,
                        views(lines@) == seq![label_line_s(*node)] + a.take(j as int).map_values(
                            |x: Attribute| x.key@ + ": "@ + x.value@,
                        ),
                    decreases a.len() - j,
                {
                    let mut l = string_chars(&list[j].key);
                    push_lit(&mut l, ": ");
                    let v = string_chars(&list[j].value);
                    push_chars(&mut l, &v);
                    let ghost before = views(lines@);
                    lines.push(l);
                    j += 1;
                    assert(views(lines@) =~= before.push(l@));
                    assert(views(lines@) =~= seq![label_line_s(*node)] + a.take(j as int).map_values(
                        |x: Attribute| x.key@ + ": "@ + x.value@,
                    ));
                }
                assert(a.take(a.len() as int) =~= a);
            },
            None => {},
        }
    }
    assert(views(lines@) =~= content_s(*node, attrs@, options.verbose));
    lines
}

/// A blank grid of `h` rows and `w` columns, with no step cells.
fn blank_grid(w: usize, h: usize) -> (r: (Vec<Vec<char>>, Vec<Vec<bool>>))
    ensures
        shaped(r.0@, r.1@),
        r.0@.len() == h,
        forall|k: int| 0 <= k < h ==> (#[trigger] r.0@[k])@.len() == w,
        canvas(r.0@, r.1@) == blank_s(w as nat, h as nat),
{
    let mut row: Vec<char> = Vec::new();
    let mut free: Vec<bool> = Vec::new();
    let mut c: usize = 0;
    while c < w
        invariant
            c <= w,
            row@.len() == c,
            free@.len() == c,
            forall|j: int| 0 <= j < c ==> row@[j] == ' ' && !free@[j],
        decreases w - c,
    {
        row.push(' ');
        free.push(false);
        c += 1;
    }
    assert(row@ =~= Seq::new(w as nat, |j: int| ' '));
    assert(free@ =~= Seq::new(w as nat, |j: int| false));
    let mut grid: Vec<Vec<char>> = Vec::new();
    let mut cells: Vec<Vec<bool>> = Vec::new();
    let mut k: usize = 0;
    while k < h
        invariant
            k <= h,
            grid@.len() == k,
            cells@.len() == k,
            row@.len() == w,
            free@.len() == w,
            forall|j: int| 0 <= j < w ==> !free@[j],
            forall|j: int| 0 <= j < k ==> (#[trigger] grid@[j])@ == row@,
            forall|j: int| 0 <= j < k ==> (#[trigger] cells@[j])@ == free@,
        decreases h - k,
    {
        grid.push(row.clone());
        cells.push(free.clone());
        k += 1;
    }
    assert(views(grid@) =~= blank_s(w as nat, h as nat).0);
    assert(mviews(cells@) =~= blank_s(w as nat, h as nat).1);
    (grid, cells)
}

/// Draws every step's box with its content; each cell of each box that lies
/// in the grid becomes a step cell.
pub fn draw_nodes(nodes: &[GridNode], w: usize, h: usize, attrs: &[NodeAttributes], options: &RenderOptions) -> (r: (Vec<Vec<char>>, Vec<Vec<bool>>))
    requires
        forall|i: int| 0 <= i < nodes@.len() ==> node_fits(#[trigger] nodes@[i]),
    ensures
        shaped(r.0@, r.1@),
        r.0@.len() == h,
        forall|k: int| 0 <= k < h ==> (#[trigger] r.0@[k])@.len() == w,
        forall|i: int| 0 <= i < nodes@.len() && (#[trigger] nodes@[i]).width >= 1 && nodes@[i].height >= 1 ==> area_marked(
            h as int,
            w as int,
            r.1@,
            nodes@[i].row as int,
            nodes@[i].row + nodes@[i].height,
            nodes@[i].col as int,
            nodes@[i].col + nodes@[i].width,
        ),
        canvas(r.0@, r.1@) == boxes_s(blank_s(w as nat, h as nat), nodes@, attrs@, options.verbose, 0),
{
    let (mut grid, mut cells) = blank_grid(w, h);
    let mut i: usize = 0;
    while i < nodes.len()
        invariant
            i <= nodes@.len(),
            forall|j: int| 0 <= j < nodes@.len() ==> node_fits(#[trigger] nodes@[j]),
            shaped(grid@, cells@),
            grid@.len() == h,
            forall|k: int| 0 <= k < h ==> (#[trigger] grid@[k])@.len() == w,
            h == 0 || width_of(grid@) == w,
            forall|j: int| 0 <= j < i && (#[trigger] nodes@[j]).width >= 1 && nodes@[j].height >= 1 ==> area_marked(
                h as int,
                w as int,
                cells@,
                nodes@[j].row as int,
                nodes@[j].row + nodes@[j].height,
                nodes@[j].col as int,
                nodes@[j].col + nodes@[j].width,
            ),
            boxes_s(canvas(grid@, cells@), nodes@, attrs@, options.verbose, i as int) == boxes_s(blank_s(w as nat, h as nat), nodes@, attrs@, options.verbose, 0),
        decreases nodes@.len() - i,
    {
        let content = node_content(&nodes[i], attrs, options);
        let ghost before = cells@;
        let ghost g_before = grid@;
        draw_box_node(&mut grid, &mut cells, &nodes[i], &content);
        proof {
            if h > 0 {
                assert(width_of(g_before) == w);
            }
            assert forall|j: int| 0 <= j < i + 1 && (#[trigger] nodes@[j]).width >= 1 && nodes@[j].height >= 1 implies area_marked(
                h as int,
                w as int,
                cells@,
                nodes@[j].row as int,
                nodes@[j].row + nodes@[j].height,
                nodes@[j].col as int,
                nodes@[j].col + nodes@[j].width,
            ) by {
                if j < i {
                    if h > 0 {
                        lemma_area_kept(h as int, w as int, before, cells@, nodes@[j].row as int, nodes@[j].row + nodes@[j].height, nodes@[j].col as int, nodes@[j].col + nodes@[j].width);
                    }
                }
            }
            assert forall|k: int| 0 <= k < h implies (#[trigger] grid@[k])@.len() == w by {
                assert(grid@[k]@.len() == g_before[k]@.len());
            }
        }
        i += 1;
    }
    (grid, cells)
}

/// The text of a grid: its rows, without the trailing rows that hold only
/// whitespace, joined with newlines.
pub open spec fn grid_text(g: Seq<Vec<char>>) -> Seq<char> {
    join_s(drop_blank_tail(views(g)), seq!['\n'])
}

/// Renders steps and edges on a grid of `grid_height` rows and `grid_width`
/// columns: the boxes first, then the edges, which never draw over a box.
pub fn render_ascii(nodes: &[GridNode], edges: &[GridEdge], grid_width: usize, grid_height: usize, attrs: &[NodeAttributes], options: &RenderOptions) -> (r: String)
    requires
        forall|i: int| 0 <= i < nodes@.len() ==> node_fits(#[trigger] nodes@[i]),
    ensures
        r@ == join_s(
            drop_blank_tail(
                render_grid_s(nodes@, edges@, grid_width as nat, grid_height as nat, attrs@, options.verbose),
            ),
            seq!['\n'],
        ),
{
    let (mut grid, cells) = draw_nodes(nodes, grid_width, grid_height, attrs, options);
    let ghost g0 = grid@;
    draw_edges(&mut grid, &cells, edges);
    let t = trim_trailing_blank_lines(&grid);
    proof {
        assert forall|k: int| 0 <= k < grid_height implies (#[trigger] grid@[k])@.len() == grid_width by {
            assert(grid@[k]@.len() == g0[k]@.len());
        }
        assert(t@ == grid_text(grid@));
    }
    string_of(&t)
}

} // verus!

verus! {

/// A grid of `h` rows of `w` cells each.
pub open spec fn rect(g: Seq<Seq<char>>, h: nat, w: nat) -> bool {
    &&& g.len() == h
    &&& forall|r: int| 0 <= r < h ==> (#[trigger] g[r]).len() == w
}

proof fn lemma_put_edge_rect(g: Seq<Seq<char>>, m: Seq<Seq<bool>>, r: int, c: int, ch: char, h: nat, w: nat)
    requires
        rect(g, h, w),
    ensures
        rect(put_edge(g, m, r, c, ch), h, w),
{
    let g2 = put_edge(g, m, r, c, ch);
    assert forall|k: int| 0 <= k < h implies (#[trigger] g2[k]).len() == w by {
        if 0 <= r < g.len() && 0 <= c < g[0].len() && !m[r][c] && k == r {
            assert(g2[k] == g[r].update(c, ch));
        }
    }
}

proof fn lemma_col_rect(g: Seq<Seq<char>>, m: Seq<Seq<bool>>, col: int, r: int, hi: int, ch: char, h: nat, w: nat)
    requires
        rect(g, h, w),
    ensures
        rect(edge_col_s(g, m, col, r, hi, ch), h, w),
    decreases hi - r,
{
    lemma_put_edge_rect(g, m, r, col, ch, h, w);
    if r < hi {
        lemma_col_rect(put_edge(g, m, r, col, ch), m, col, r + 1, hi, ch, h, w);
    }
}

proof fn lemma_row_rect(g: Seq<Seq<char>>, m: Seq<Seq<bool>>, row: int, c: int, hi: int, ch: char, h: nat, w: nat)
    requires
        rect(g, h, w),
    ensures
        rect(edge_row_s(g, m, row, c, hi, ch), h, w),
    decreases hi - c,
{
    lemma_put_edge_rect(g, m, row, c, ch, h, w);
    if c < hi {
        lemma_row_rect(put_edge(g, m, row, c, ch), m, row, c + 1, hi, ch, h, w);
    }
}

proof fn lemma_segment_rect(g: Seq<Seq<char>>, m: Seq<Seq<bool>>, c1: int, r1: int, c2: int, r2: int, h: nat, w: nat)
    requires
        rect(g, h, w),
    ensures
        rect(segment_s(g, m, c1, r1, c2, r2), h, w),
{
    let rmin = min_i(r1, r2);
    let rmax = max_i(r1, r2);
    let cmin = min_i(c1, c2);
    let cmax = max_i(c1, c2);
    lemma_col_rect(g, m, c1, rmin, rmax, '│', h, w);
    lemma_row_rect(g, m, r1, cmin, cmax, '─', h, w);
    let g0 = edge_col_s(g, m, c1, rmin, rmax, '│');
    lemma_row_rect(g0, m, r2, cmin, cmax, '─', h, w);
    let g1 = edge_row_s(g0, m, r2, cmin, cmax, '─');
    lemma_put_edge_rect(g1, m, r2, c1, '└', h, w);
    lemma_put_edge_rect(g1, m, r2, c1, '┘', h, w);
    lemma_put_edge_rect(g1, m, r2, c1, '┌', h, w);
    lemma_put_edge_rect(g1, m, r2, c1, '┐', h, w);
}

proof fn lemma_path_rect(g: Seq<Seq<char>>, m: Seq<Seq<bool>>, pts: Seq<(usize, usize)>, i: int, h: nat, w: nat)
    requires
        rect(g, h, w),
    ensures
        rect(path_s(g, m, pts, i), h, w),
    decreases pts.len() - i,
{
    if !(i < 0 || i + 1 >= pts.len()) {
        let (c1, r1) = pts[i];
        let (c2, r2) = pts[i + 1];
        lemma_segment_rect(g, m, c1 as int, r1 as int, c2 as int, r2 as int, h, w);
        let g1 = segment_s(g, m, c1 as int, r1 as int, c2 as int, r2 as int);
        let g2 = if i + 2 < pts.len() {
            let (c3, r3) = pts[i + 2];
            match corner_s(c1 as int, r1 as int, c2 as int, r2 as int, c3 as int, r3 as int) {
                Some(ch) => {
                    lemma_put_edge_rect(g1, m, r2 as int, c2 as int, ch, h, w);
                    put_edge(g1, m, r2 as int, c2 as int, ch)
                },
                None => g1,
            }
        } else {
            g1
        };
        lemma_path_rect(g2, m, pts, i + 1, h, w);
    }
}

/// The arrowhead of an edge points the way its last segment goes: up when
/// the last point lies above the one before it, down when below, right or
/// left when on the same row. It is drawn in the last point's cell unless
/// that cell belongs to a step.
pub proof fn lemma_arrow_follows_last_segment(g: Seq<Seq<char>>, m: Seq<Seq<bool>>, pts: Seq<(usize, usize)>, h: nat, w: nat)
    requires
        rect(g, h, w),
        pts.len() >= 2,
        pts.last().1 < h,
        pts.last().0 < w,
        !m[pts.last().1 as int][pts.last().0 as int],
    ensures
        ({
            let (cp, rp) = pts[pts.len() - 2];
            let (cl, rl) = pts.last();
            let cell = edge_s(g, m, pts)[rl as int][cl as int];
            &&& rl < rp ==> cell == '▲'
            &&& rl > rp ==> cell == '▼'
            &&& rl == rp && cl > cp ==> cell == '►'
            &&& rl == rp && cl < cp ==> cell == '◄'
        }),
{
    lemma_path_rect(g, m, pts, 0, h, w);
    let g1 = path_s(g, m, pts, 0);
    assert(g1[0].len() == w);
}

} // verus!
