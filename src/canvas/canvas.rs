//! The draw buffer: a grid of colors that takes pixels, lines and triangles, and its RGBA frame.

use vstd::prelude::*;
use vstd::arithmetic::div_mod::{lemma_fundamental_div_mod, lemma_fundamental_div_mod_converse};
use bresenham_zip::zip::Builder;
use bresenham_zip::Axis;
use crate::canvas::Point;
use crate::canvas::helpers::{
    as_signed,
    as_u32,
    calculate_intersection,
    intersection_x,
    sort_vectors,
    sorted_by_height,
};
use crate::color::Color;
use crate::color::palette::{black, spec_black};

verus! {

/// The cells `(x, y)` of a `width` × `height` grid.
pub open spec fn in_bounds(width: nat, height: nat, p: (int, int)) -> bool {
    0 <= p.0 < width && 0 <= p.1 < height
}

/// A grid with every cell at the background color.
pub open spec fn blank(width: nat, height: nat) -> Map<(int, int), Color> {
    Map::new(|p: (int, int)| in_bounds(width, height, p), |p: (int, int)| spec_black())
}

/// `m` with each of `cells` that it holds set to `c`. Cells outside `m` are ignored.
pub open spec fn paint(m: Map<(int, int), Color>, cells: Set<(int, int)>, c: Color) -> Map<
    (int, int),
    Color,
> {
    Map::new(|p: (int, int)| m.dom().contains(p), |p: (int, int)| if cells.contains(p) { c } else { m[p] })
}

/// A grid of `width * height * 4` bytes fits in memory.
pub open spec fn fits(width: nat, height: nat) -> bool {
    width * height * 4 <= usize::MAX
}

/// The cell of a point.
pub open spec fn cell(p: Point) -> (int, int) {
    (p.0 as int, p.1 as int)
}

/// A point with signed coordinates.
pub open spec fn signed(p: Point) -> (i64, i64) {
    (p.0 as i64, p.1 as i64)
}

/// A signed point with its coordinates cast to `u32`.
pub open spec fn unsigned(p: (i64, i64)) -> Point {
    (p.0 as u32, p.1 as u32)
}

/// `v` lies between `a` and `b`, both included, in either order.
pub open spec fn between(v: int, a: int, b: int) -> bool {
    (a <= v <= b) || (b <= v <= a)
}

/// The points, in order, that `line_drawing`'s Bresenham walk visits from `start` to `end`.
pub uninterp spec fn bresenham_points(start: (i64, i64), end: (i64, i64)) -> Seq<(i64, i64)>;

/// The pairs of points, one per row, that `bresenham_zip` gives for the two edges from `peak`
/// to `side_a` and to `side_b`, walked together along `y`.
pub uninterp spec fn zip_rows(peak: (i64, i64), side_a: (i64, i64), side_b: (i64, i64)) -> Seq<
    ((i64, i64), (i64, i64)),
>;

/// The cells of the points of a walk, each cast to `u32`.
pub open spec fn walk_cells(points: Seq<(i64, i64)>) -> Set<(int, int)> {
    Set::new(|p: (int, int)| exists|i: int| 0 <= i < points.len() && p == cell(unsigned(#[trigger] points[i])))
}

/// The cells that a line from `start` to `end` covers: an exact span where the two share
/// `x` or `y`, otherwise the Bresenham walk between them.
pub open spec fn line_cells(start: Point, end: Point) -> Set<(int, int)> {
    if start.0 == end.0 {
        Set::new(|p: (int, int)| p.0 == start.0 && between(p.1, start.1 as int, end.1 as int))
    } else if start.1 == end.1 {
        Set::new(|p: (int, int)| p.1 == start.1 && between(p.0, start.0 as int, end.0 as int))
    } else {
        walk_cells(bresenham_points(signed(start), signed(end)))
    }
}

/// The cells of the lines between the two points of each row.
pub open spec fn row_cells(rows: Seq<((i64, i64), (i64, i64))>) -> Set<(int, int)> {
    Set::new(
        |p: (int, int)|
            exists|i: int|
                0 <= i < rows.len() && #[trigger] line_cells(unsigned(rows[i].0), unsigned(rows[i].1)).contains(p),
    )
}

/// The cells of the flat triangle with apex `peak` and base from `side_a` to `side_b`.
pub open spec fn flat_cells(peak: Point, side_a: Point, side_b: Point) -> Set<(int, int)> {
    row_cells(zip_rows(signed(peak), signed(side_a), signed(side_b)))
}

/// The split point of a triangle sorted as `(top, mid, bottom)`: on the edge from `bottom`
/// to `top`, at the height of `mid`.
pub open spec fn split_point(top: Point, mid: Point, bottom: Point) -> Point {
    (intersection_x(bottom, mid, top) as u32, mid.1)
}

/// The cells of the outline of the triangle `a`, `b`, `c`: its three edges.
pub open spec fn outline_cells(a: Point, b: Point, c: Point) -> Set<(int, int)> {
    line_cells(a, b) + line_cells(b, c) + line_cells(c, a)
}

/// The spans that fill the inside of the triangle `p1`, `p2`, `p3`. With the vertices sorted
/// from top to bottom: a triangle of zero height is the one row from its leftmost to its
/// rightmost vertex; one with a flat top or a flat bottom is filled as one flat triangle; any
/// other is cut at the height of its middle vertex into a flat-bottom and a flat-top triangle.
pub open spec fn interior_cells(p1: Point, p2: Point, p3: Point) -> Set<(int, int)> {
    let (top, mid, bottom) = sorted_by_height(p1, p2, p3);
    if top.1 == bottom.1 {
        line_cells(top, bottom)
    } else if mid.1 == top.1 {
        flat_cells(bottom, top, mid)
    } else if mid.1 == bottom.1 {
        flat_cells(top, mid, bottom)
    } else {
        let split = split_point(top, mid, bottom);
        flat_cells(top, mid, split) + flat_cells(bottom, mid, split)
    }
}

/// The cells that filling the triangle `p1`, `p2`, `p3` covers: the spans inside it and its
/// outline, so that the fill's border is the outline's lines.
pub open spec fn fill_cells(p1: Point, p2: Point, p3: Point) -> Set<(int, int)> {
    interior_cells(p1, p2, p3) + outline_cells(p1, p2, p3)
}

/// Row `y` holds at least one of `cells`.
pub open spec fn row_is_drawn(cells: Set<(int, int)>, y: int) -> bool {
    exists|x: int| #[trigger] cells.contains((x, y))
}

/// Every row from `low` to `high` holds at least one of `cells`.
pub open spec fn covers_rows(cells: Set<(int, int)>, low: int, high: int) -> bool {
    forall|y: int| low <= y <= high ==> #[trigger] row_is_drawn(cells, y)
}

/// The distance between two values.
pub open spec fn distance(a: int, b: int) -> int {
    if a >= b {
        a - b
    } else {
        b - a
    }
}

/// The RGBA frame of a grid: four bytes per cell, cells in row-major order, so that the cell
/// of index `i` is `(i % width, i / width)`.
pub open spec fn frame_of(m: Map<(int, int), Color>, width: nat, height: nat) -> Seq<u8> {
    Seq::new(
        width * height * 4,
        |i: int| m[((i / 4) % (width as int), (i / 4) / (width as int))].to_bytes()[i % 4],
    )
}

/// A frame with every cell at the background color.
pub open spec fn blank_frame(width: nat, height: nat) -> Seq<u8> {
    Seq::new(width * height * 4, |i: int| spec_black().to_bytes()[i % 4])
}

/// Relies on `line_drawing::Bresenham`, which walks the line from `start` to `end`, both
/// included, beginning at `start` and ending at `end`.
#[verifier::external_body]
fn bresenham_line(start: (i64, i64), end: (i64, i64)) -> (r: Vec<(i64, i64)>)
    requires
        0 <= start.0 <= u32::MAX,
        0 <= start.1 <= u32::MAX,
        0 <= end.0 <= u32::MAX,
        0 <= end.1 <= u32::MAX,
    ensures
        r@ == bresenham_points(start, end),
        r@.len() > 0,
        r@[0] == start,
        r@.last() == end,
{
    line_drawing::Bresenham::new(start, end).collect()
}

/// Relies on `bresenham_zip::zip::Builder` along `Axis::Y`, which walks the edges from
/// `peak` to `side_a` and to `side_b` together and gives one pair of points per row, from the
/// row of `peak` to the row of the base, the last pair being the base's ends. It refuses ends
/// of differing `y`, which `requires` leaves out.
#[verifier::external_body]
fn zip_along_y(peak: (i64, i64), side_a: (i64, i64), side_b: (i64, i64)) -> (r: Vec<
    ((i64, i64), (i64, i64)),
>)
    requires
        side_a.1 == side_b.1,
        0 <= peak.0 <= u32::MAX,
        0 <= peak.1 <= u32::MAX,
        0 <= side_a.0 <= u32::MAX,
        0 <= side_a.1 <= u32::MAX,
        0 <= side_b.0 <= u32::MAX,
    ensures
        r@ == zip_rows(peak, side_a, side_b),
        r@.len() == distance(side_a.1 as int, peak.1 as int) + 1,
        forall|i: int|
            0 <= i < r@.len() ==> (#[trigger] r@[i]).0.1 == r@[i].1.1 && r@[i].0.1 == peak.1 + if side_a.1
                >= peak.1 {
                i
            } else {
                -i
            },
        r@.last() == (side_a, side_b),
{
    Builder::new().axis(Axis::Y).start_point(peak).first_ending_point(side_a).second_ending_point(
        side_b,
    ).build().expect("both ends share their y").collect()
}

/// Painting twice with one color paints the union.
proof fn lemma_paint_union(m: Map<(int, int), Color>, s: Set<(int, int)>, t: Set<(int, int)>, c: Color)
    ensures
        paint(paint(m, s, c), t, c) == paint(m, s + t, c),
{
    assert(paint(paint(m, s, c), t, c) =~= paint(m, s + t, c));
}

/// Painting no cell changes nothing.
proof fn lemma_paint_nothing(m: Map<(int, int), Color>, c: Color)
    ensures
        paint(m, Set::empty(), c) == m,
{
    assert(paint(m, Set::empty(), c) =~= m);
}

/// The index of a cell in the row-major buffer, and back.
proof fn lemma_cell_index(width: int, height: int, x: int, y: int)
    requires
        0 <= x < width,
        0 <= y < height,
    ensures
        0 <= y * width + x < width * height,
        (y * width + x) / width == y,
        (y * width + x) % width == x,
{
    lemma_fundamental_div_mod_converse(y * width + x, width, y, x);
    assert(0 <= y * width + x < width * height) by (nonlinear_arith)
        requires
            0 <= x < width,
            0 <= y < height,
    ;
}

/// The cell of a buffer index lies in the grid.
proof fn lemma_index_cell(width: int, height: int, k: int)
    requires
        0 <= k < width * height,
        width >= 0,
        height >= 0,
    ensures
        0 <= k % width < width,
        0 <= k / width < height,
        (k / width) * width + k % width == k,
{
    assert(width > 0) by (nonlinear_arith)
        requires
            0 <= k < width * height,
            width >= 0,
            height >= 0,
    ;
    lemma_fundamental_div_mod(k, width);
    assert((k / width) * width == width * (k / width)) by (nonlinear_arith);
    assert(0 <= k / width < height) by (nonlinear_arith)
        requires
            0 <= k < width * height,
            width > 0,
            k == width * (k / width) + k % width,
            0 <= k % width < width,
    ;
}

/// One more point of a walk adds its cell.
proof fn lemma_walk_step(points: Seq<(i64, i64)>, i: int)
    requires
        0 <= i < points.len(),
    ensures
        walk_cells(points.take(i + 1)) == walk_cells(points.take(i)).insert(cell(unsigned(points[i]))),
{
    let next = walk_cells(points.take(i + 1));
    let prev = walk_cells(points.take(i));
    assert forall|p: (int, int)| next.contains(p) <==> #[trigger] prev.insert(cell(unsigned(points[i]))).contains(p) by {
        if next.contains(p) {
            let j = choose|j: int| 0 <= j < i + 1 && p == cell(unsigned(#[trigger] points.take(i + 1)[j]));
            if j < i {
                assert(points.take(i)[j] == points[j]);
            }
        }
        if prev.contains(p) {
            let j = choose|j: int| 0 <= j < i && p == cell(unsigned(#[trigger] points.take(i)[j]));
            assert(points.take(i + 1)[j] == points[j]);
        }
        if p == cell(unsigned(points[i])) {
            assert(points.take(i + 1)[i] == points[i]);
        }
    }
    assert(next =~= prev.insert(cell(unsigned(points[i]))));
}

/// One more row adds the cells of its line.
proof fn lemma_row_step(rows: Seq<((i64, i64), (i64, i64))>, i: int)
    requires
        0 <= i < rows.len(),
    ensures
        row_cells(rows.take(i + 1)) == row_cells(rows.take(i)) + line_cells(
            unsigned(rows[i].0),
            unsigned(rows[i].1),
        ),
{
    let next = row_cells(rows.take(i + 1));
    let prev = row_cells(rows.take(i));
    let line = line_cells(unsigned(rows[i].0), unsigned(rows[i].1));
    assert forall|p: (int, int)| next.contains(p) <==> #[trigger] (prev + line).contains(p) by {
        if next.contains(p) {
            let j = choose|j: int|
                0 <= j < i + 1 && #[trigger] line_cells(
                    unsigned(rows.take(i + 1)[j].0),
                    unsigned(rows.take(i + 1)[j].1),
                ).contains(p);
            if j < i {
                assert(rows.take(i)[j] == rows[j]);
            }
        }
        if prev.contains(p) {
            let j = choose|j: int|
                0 <= j < i && #[trigger] line_cells(
                    unsigned(rows.take(i)[j].0),
                    unsigned(rows.take(i)[j].1),
                ).contains(p);
            assert(rows.take(i + 1)[j] == rows[j]);
        }
        if line.contains(p) {
            assert(rows.take(i + 1)[i] == rows[i]);
        }
    }
    assert(next =~= prev + line);
}

/// A line whose ends share a row holds its first end.
proof fn lemma_flat_line_holds_start(a: Point, b: Point)
    requires
        a.1 == b.1,
    ensures
        line_cells(a, b).contains(cell(a)),
{
}

/// Casting a point to signed coordinates and back gives the point again.
proof fn lemma_signed_round_trip(p: Point)
    ensures
        unsigned(signed(p)) == p,
{
}

/// More cells cover at least the same rows.
proof fn lemma_covers_more(s: Set<(int, int)>, t: Set<(int, int)>, low: int, high: int)
    requires
        covers_rows(s, low, high),
        s.subset_of(t),
    ensures
        covers_rows(t, low, high),
{
    assert forall|y: int| low <= y <= high implies #[trigger] row_is_drawn(t, y) by {
        assert(row_is_drawn(s, y));
        let x = choose|x: int| s.contains((x, y));
        assert(t.contains((x, y)));
    }
}

/// Cells that cover the rows `low..=mid` and `mid..=high` together cover `low..=high`.
proof fn lemma_covers_join(
    upper: Set<(int, int)>,
    lower: Set<(int, int)>,
    low: int,
    mid: int,
    high: int,
)
    requires
        covers_rows(upper, mid, high),
        covers_rows(lower, low, mid),
    ensures
        covers_rows(upper + lower, low, high),
{
    assert forall|y: int| low <= y <= high implies #[trigger] row_is_drawn(upper + lower, y) by {
        if y >= mid {
            assert(row_is_drawn(upper, y));
            let x = choose|x: int| upper.contains((x, y));
            assert((upper + lower).contains((x, y)));
        } else {
            assert(row_is_drawn(lower, y));
            let x = choose|x: int| lower.contains((x, y));
            assert((upper + lower).contains((x, y)));
        }
    }
}

/// The draw buffer: a `width` × `height` grid of colors. Drawing outside the grid is
/// ignored, not an error.
pub struct Canvas {
    /// The cells in row-major order: `(x, y)` at `y * width + x`.
    buffer: Vec<Color>,
    width: u32,
    height: u32,
}

impl View for Canvas {
    type V = Map<(int, int), Color>;

    /// The color of each cell of the grid.
    closed spec fn view(&self) -> Map<(int, int), Color> {
        Map::new(
            |p: (int, int)| in_bounds(self.width as nat, self.height as nat, p),
            |p: (int, int)| self.buffer@[p.1 * self.width + p.0],
        )
    }
}

impl Canvas {
    /// The width of the grid.
    pub closed spec fn spec_width(&self) -> nat {
        self.width as nat
    }

    /// The height of the grid.
    pub closed spec fn spec_height(&self) -> nat {
        self.height as nat
    }

    /// The buffer holds one color per cell, and the frame fits in memory.
    pub closed spec fn wf(&self) -> bool {
        &&& self.buffer@.len() == self.width * self.height
        &&& fits(self.width as nat, self.height as nat)
    }

    /// The grid as the contracts see it, in terms of the buffer.
    proof fn lemma_view(&self)
        requires
            self.wf(),
        ensures
            self@.dom() == Set::new(|p: (int, int)| in_bounds(self.spec_width(), self.spec_height(), p)),
            forall|x: int, y: int|
                #![trigger self@[(x, y)]]
                in_bounds(self.spec_width(), self.spec_height(), (x, y)) ==> self@[(x, y)]
                    == self.buffer@[y * self.width + x],
    {
        assert(self@.dom() =~= Set::new(|p: (int, int)| in_bounds(self.spec_width(), self.spec_height(), p)));
    }

    /// The cells of a canvas are those of its `width` × `height` grid.
    pub proof fn lemma_domain(&self)
        requires
            self.wf(),
        ensures
            self@.dom() == Set::new(|p: (int, int)| in_bounds(self.spec_width(), self.spec_height(), p)),
    {
        self.lemma_view();
    }

    /// A buffer of all-background cells.
    fn blank_buffer(width: u32, height: u32) -> (r: Vec<Color>)
        requires
            fits(width as nat, height as nat),
        ensures
            r@ == Seq::new((width * height) as nat, |i: int| spec_black()),
    {
        let n: usize = width as usize * height as usize;
        let mut buffer: Vec<Color> = Vec::new();
        while buffer.len() < n
            invariant
                buffer@.len() <= n,
                forall|i: int| 0 <= i < buffer@.len() ==> buffer@[i] == spec_black(),
            decreases n - buffer@.len(),
        {
            buffer.push(black());
        }
        assert(buffer@ =~= Seq::new((width * height) as nat, |i: int| spec_black()));
        buffer
    }

    /// A canvas of `width` × `height` cells, all at the background color.
    pub fn new(width: u32, height: u32) -> (r: Canvas)
        requires
            fits(width as nat, height as nat),
        ensures
            r.wf(),
            r.spec_width() == width,
            r.spec_height() == height,
            r@ == blank(width as nat, height as nat),
    {
        let r = Canvas { buffer: Self::blank_buffer(width, height), width, height };
        proof {
            r.lemma_blank();
        }
        r
    }

    /// A well-formed canvas whose buffer is all background is blank.
    proof fn lemma_blank(&self)
        requires
            self.buffer@ == Seq::new((self.width * self.height) as nat, |i: int| spec_black()),
            fits(self.width as nat, self.height as nat),
        ensures
            self.wf(),
            self@ == blank(self.spec_width(), self.spec_height()),
    {
        assert forall|p: (int, int)| #[trigger] in_bounds(self.width as nat, self.height as nat, p) implies self@[p]
            == spec_black() by {
            lemma_cell_index(self.width as int, self.height as int, p.0, p.1);
        }
        assert(self@ =~= blank(self.spec_width(), self.spec_height()));
    }

    /// The width of the grid.
    pub fn width(&self) -> (r: u32)
        ensures
            r == self.spec_width(),
    {
        self.width
    }

    /// The height of the grid.
    pub fn height(&self) -> (r: u32)
        ensures
            r == self.spec_height(),
    {
        self.height
    }

    /// Sets the cell `(x, y)` to `color`. A cell outside the grid is ignored.
    pub fn draw_pixel(&mut self, x: u32, y: u32, color: Color)
        requires
            old(self).wf(),
        ensures
            final(self).wf(),
            final(self).spec_width() == old(self).spec_width(),
            final(self).spec_height() == old(self).spec_height(),
            final(self)@ == paint(old(self)@, set![(x as int, y as int)], color),
    {
        let ghost before = self@;
        if x < self.width && y < self.height {
            proof {
                lemma_cell_index(self.width as int, self.height as int, x as int, y as int);
            }
            let i: usize = y as usize * self.width as usize + x as usize;
            self.buffer.set(i, color);
            proof {
                assert forall|p: (int, int)| #[trigger] in_bounds(self.width as nat, self.height as nat, p) implies self@[p]
                    == paint(before, set![(x as int, y as int)], color)[p] by {
                    lemma_cell_index(self.width as int, self.height as int, p.0, p.1);
                }
                assert(self@ =~= paint(before, set![(x as int, y as int)], color));
            }
        } else {
            assert(self@ =~= paint(before, set![(x as int, y as int)], color));
        }
    }

    /// Draws a vertical span: every cell of column `start.0` between the two rows.
    fn draw_vertical_line(&mut self, start: Point, end: Point, color: Color)
        requires
            old(self).wf(),
            start.0 == end.0,
        ensures
            final(self).wf(),
            final(self).spec_width() == old(self).spec_width(),
            final(self).spec_height() == old(self).spec_height(),
            final(self)@ == paint(old(self)@, line_cells(start, end), color),
    {
        let ghost before = self@;
        let x = start.0;
        let (low, high) = if start.1 < end.1 { (start.1, end.1) } else { (end.1, start.1) };
        let mut y: u64 = low as u64;
        proof {
            lemma_paint_nothing(before, color);
            assert(Set::<(int, int)>::empty() =~= Set::new(|p: (int, int)| p.0 == x && low <= p.1 < y));
        }
        while y <= high as u64
            invariant
                self.wf(),
                self.spec_width() == old(self).spec_width(),
                self.spec_height() == old(self).spec_height(),
                before == old(self)@,
                low <= y <= high as int + 1,
                self@ == paint(before, Set::new(|p: (int, int)| p.0 == x && low <= p.1 < y), color),
            decreases high as int + 1 - y,
        {
            let ghost done = Set::new(|p: (int, int)| p.0 == x && low <= p.1 < y);
            self.draw_pixel(x, y as u32, color);
            proof {
                lemma_paint_union(before, done, set![(x as int, y as int)], color);
                assert(done + set![(x as int, y as int)] =~= Set::new(
                    |p: (int, int)| p.0 == x && low <= p.1 < y + 1,
                ));
            }
            y = y + 1;
        }
        assert(Set::new(|p: (int, int)| p.0 == x && low <= p.1 < y) =~= line_cells(start, end));
    }

    /// Draws a horizontal span: every cell of row `start.1` between the two columns.
    fn draw_horizontal_line(&mut self, start: Point, end: Point, color: Color)
        requires
            old(self).wf(),
            start.1 == end.1,
            start.0 != end.0,
        ensures
            final(self).wf(),
            final(self).spec_width() == old(self).spec_width(),
            final(self).spec_height() == old(self).spec_height(),
            final(self)@ == paint(old(self)@, line_cells(start, end), color),
    {
        let ghost before = self@;
        let y = start.1;
        let (low, high) = if start.0 < end.0 { (start.0, end.0) } else { (end.0, start.0) };
        let mut x: u64 = low as u64;
        proof {
            lemma_paint_nothing(before, color);
            assert(Set::<(int, int)>::empty() =~= Set::new(|p: (int, int)| p.1 == y && low <= p.0 < x));
        }
        while x <= high as u64
            invariant
                self.wf(),
                self.spec_width() == old(self).spec_width(),
                self.spec_height() == old(self).spec_height(),
                before == old(self)@,
                low <= x <= high as int + 1,
                self@ == paint(before, Set::new(|p: (int, int)| p.1 == y && low <= p.0 < x), color),
            decreases high as int + 1 - x,
        {
            let ghost done = Set::new(|p: (int, int)| p.1 == y && low <= p.0 < x);
            self.draw_pixel(x as u32, y, color);
            proof {
                lemma_paint_union(before, done, set![(x as int, y as int)], color);
                assert(done + set![(x as int, y as int)] =~= Set::new(
                    |p: (int, int)| p.1 == y && low <= p.0 < x + 1,
                ));
            }
            x = x + 1;
        }
        assert(Set::new(|p: (int, int)| p.1 == y && low <= p.0 < x) =~= line_cells(start, end));
    }

    /// Draws the Bresenham walk from `start` to `end`.
    fn draw_diagonal_line(&mut self, start: Point, end: Point, color: Color)
        requires
            old(self).wf(),
            start.0 != end.0,
            start.1 != end.1,
        ensures
            final(self).wf(),
            final(self).spec_width() == old(self).spec_width(),
            final(self).spec_height() == old(self).spec_height(),
            final(self)@ == paint(old(self)@, line_cells(start, end), color),
            line_cells(start, end).contains(cell(start)),
            line_cells(start, end).contains(cell(end)),
    {
        let ghost before = self@;
        let points = bresenham_line(as_signed(start), as_signed(end));
        let mut i: usize = 0;
        proof {
            lemma_paint_nothing(before, color);
            assert(walk_cells(points@.take(0)) =~= Set::empty());
        }
        while i < points.len()
            invariant
                self.wf(),
                self.spec_width() == old(self).spec_width(),
                self.spec_height() == old(self).spec_height(),
                before == old(self)@,
                i <= points@.len(),
                self@ == paint(before, walk_cells(points@.take(i as int)), color),
            decreases points@.len() - i,
        {
            let (x, y) = as_u32(points[i]);
            self.draw_pixel(x, y, color);
            proof {
                lemma_walk_step(points@, i as int);
                lemma_paint_union(before, walk_cells(points@.take(i as int)), set![(x as int, y as int)], color);
            }
            i = i + 1;
        }
        assert(points@.take(i as int) =~= points@);
        proof {
            lemma_signed_round_trip(start);
            lemma_signed_round_trip(end);
            let last = points@.len() - 1;
            assert(cell(start) == cell(unsigned(points@[0])));
            assert(cell(end) == cell(unsigned(points@[last])));
        }
    }

    /// Draws the line from `start` to `end`, both included: an exact span where the two share
    /// `x` (checked first) or `y`, otherwise the Bresenham walk between them. Cells outside
    /// the grid are ignored.
    pub fn draw_line(&mut self, start: Point, end: Point, color: Color)
        requires
            old(self).wf(),
        ensures
            final(self).wf(),
            final(self).spec_width() == old(self).spec_width(),
            final(self).spec_height() == old(self).spec_height(),
            final(self)@ == paint(old(self)@, line_cells(start, end), color),
            line_cells(start, end).contains(cell(start)),
            line_cells(start, end).contains(cell(end)),
            in_bounds(old(self).spec_width(), old(self).spec_height(), cell(start)) ==> final(self)@[cell(
                start,
            )] == color,
            in_bounds(old(self).spec_width(), old(self).spec_height(), cell(end)) ==> final(self)@[cell(end)]
                == color,
            start.0 == end.0 ==> forall|p: (int, int)|
                #![trigger final(self)@[p]]
                in_bounds(old(self).spec_width(), old(self).spec_height(), p) ==> final(self)@[p] == if p.0
                    == start.0 && between(p.1, start.1 as int, end.1 as int) {
                    color
                } else {
                    old(self)@[p]
                },
            start.1 == end.1 ==> forall|p: (int, int)|
                #![trigger final(self)@[p]]
                in_bounds(old(self).spec_width(), old(self).spec_height(), p) ==> final(self)@[p] == if p.1
                    == start.1 && between(p.0, start.0 as int, end.0 as int) {
                    color
                } else {
                    old(self)@[p]
                },
    {
        if start.0 == end.0 {
            self.draw_vertical_line(start, end, color);
        } else if start.1 == end.1 {
            self.draw_horizontal_line(start, end, color);
        } else {
            self.draw_diagonal_line(start, end, color);
        }
        proof {
            self.lemma_view();
        }
    }

    /// Draws the outline of a triangle: the lines from `point_a` to `point_b`, from
    /// `point_b` to `point_c` and from `point_c` to `point_a`.
    pub fn draw_triangle(&mut self, point_a: Point, point_b: Point, point_c: Point, color: Color)
        requires
            old(self).wf(),
        ensures
            final(self).wf(),
            final(self).spec_width() == old(self).spec_width(),
            final(self).spec_height() == old(self).spec_height(),
            final(self)@ == paint(old(self)@, outline_cells(point_a, point_b, point_c), color),
    {
        let ghost before = self@;
        self.draw_line(point_a, point_b, color);
        self.draw_line(point_b, point_c, color);
        self.draw_line(point_c, point_a, color);
        proof {
            lemma_paint_union(before, line_cells(point_a, point_b), line_cells(point_b, point_c), color);
            lemma_paint_union(
                before,
                line_cells(point_a, point_b) + line_cells(point_b, point_c),
                line_cells(point_c, point_a),
                color,
            );
        }
    }

    /// Fills the flat triangle with apex `peak` and base from `side_a` to `side_b`: the two
    /// edges from the apex are walked together, one row at a time, and the span between
    /// them is drawn on each row.
    fn fill_flat_triangle(&mut self, peak: Point, side_a: Point, side_b: Point, color: Color)
        requires
            old(self).wf(),
            side_a.1 == side_b.1,
        ensures
            final(self).wf(),
            final(self).spec_width() == old(self).spec_width(),
            final(self).spec_height() == old(self).spec_height(),
            final(self)@ == paint(old(self)@, flat_cells(peak, side_a, side_b), color),
            line_cells(side_a, side_b).subset_of(flat_cells(peak, side_a, side_b)),
            covers_rows(
                flat_cells(peak, side_a, side_b),
                if peak.1 <= side_a.1 { peak.1 as int } else { side_a.1 as int },
                if peak.1 <= side_a.1 { side_a.1 as int } else { peak.1 as int },
            ),
    {
        let ghost before = self@;
        let rows = zip_along_y(as_signed(peak), as_signed(side_a), as_signed(side_b));
        let mut i: usize = 0;
        proof {
            lemma_paint_nothing(before, color);
            assert(row_cells(rows@.take(0)) =~= Set::empty());
        }
        while i < rows.len()
            invariant
                self.wf(),
                self.spec_width() == old(self).spec_width(),
                self.spec_height() == old(self).spec_height(),
                before == old(self)@,
                i <= rows@.len(),
                self@ == paint(before, row_cells(rows@.take(i as int)), color),
            decreases rows@.len() - i,
        {
            let (left, right) = rows[i];
            self.draw_line(as_u32(left), as_u32(right), color);
            proof {
                lemma_row_step(rows@, i as int);
                lemma_paint_union(
                    before,
                    row_cells(rows@.take(i as int)),
                    line_cells(unsigned(left), unsigned(right)),
                    color,
                );
            }
            i = i + 1;
        }
        assert(rows@.take(i as int) =~= rows@);
        proof {
            let rs = rows@;
            let n = rs.len();
            let cells = flat_cells(peak, side_a, side_b);
            lemma_signed_round_trip(side_a);
            lemma_signed_round_trip(side_b);
            assert forall|p: (int, int)| line_cells(side_a, side_b).contains(p) implies cells.contains(p) by {
                assert(line_cells(unsigned(rs[n - 1].0), unsigned(rs[n - 1].1)).contains(p));
            }
            let low = if peak.1 <= side_a.1 { peak.1 as int } else { side_a.1 as int };
            let high = if peak.1 <= side_a.1 { side_a.1 as int } else { peak.1 as int };
            assert forall|y: int| low <= y <= high implies #[trigger] row_is_drawn(cells, y) by {
                let k = distance(y, peak.1 as int);
                let left = rs[k].0;
                let right = rs[k].1;
                assert(left.1 == y);
                lemma_flat_line_holds_start(unsigned(left), unsigned(right));
                assert(line_cells(unsigned(rs[k].0), unsigned(rs[k].1)).contains(cell(unsigned(left))));
                assert(cells.contains((left.0 as u32 as int, y)));
            }
        }
    }

    /// Fills the spans inside the triangle `p1`, `p2`, `p3`, as [`interior_cells`] says.
    fn fill_interior(&mut self, p1: Point, p2: Point, p3: Point, color: Color)
        requires
            old(self).wf(),
        ensures
            final(self).wf(),
            final(self).spec_width() == old(self).spec_width(),
            final(self).spec_height() == old(self).spec_height(),
            final(self)@ == paint(old(self)@, interior_cells(p1, p2, p3), color),
            covers_rows(
                interior_cells(p1, p2, p3),
                sorted_by_height(p1, p2, p3).2.1 as int,
                sorted_by_height(p1, p2, p3).0.1 as int,
            ),
            sorted_by_height(p1, p2, p3).0.1 > sorted_by_height(p1, p2, p3).1.1 > sorted_by_height(
                p1,
                p2,
                p3,
            ).2.1 ==> line_cells(
                sorted_by_height(p1, p2, p3).1,
                split_point(sorted_by_height(p1, p2, p3).0, sorted_by_height(p1, p2, p3).1, sorted_by_height(p1, p2, p3).2),
            ).subset_of(interior_cells(p1, p2, p3)),
    {
        let ghost before = self@;
        let (top, mid, bottom) = sort_vectors(p1, p2, p3);
        if top.1 == bottom.1 {
            // Zero height: the one row from the leftmost vertex to the rightmost.
            self.draw_line(top, bottom, color);
            proof {
                lemma_flat_line_holds_start(top, bottom);
                assert(row_is_drawn(line_cells(top, bottom), top.1 as int));
            }
        } else if mid.1 == top.1 {
            self.fill_flat_triangle(bottom, top, mid, color);
        } else if mid.1 == bottom.1 {
            self.fill_flat_triangle(top, mid, bottom, color);
        } else {
            let split = calculate_intersection(bottom, mid, top);
            assert(split == split_point(top, mid, bottom));
            self.fill_flat_triangle(top, mid, split, color);
            self.fill_flat_triangle(bottom, mid, split, color);
            proof {
                let upper = flat_cells(top, mid, split);
                let lower = flat_cells(bottom, mid, split);
                lemma_paint_union(before, upper, lower, color);
                lemma_covers_join(upper, lower, bottom.1 as int, mid.1 as int, top.1 as int);
            }
        }
    }

    /// Fills the triangle `p1`, `p2`, `p3` and draws its outline. The vertices are sorted from
    /// top to bottom; a triangle of zero height is one row from its leftmost to its rightmost
    /// vertex; one with a flat top or bottom is filled as one flat triangle, whose two edges
    /// are walked together one row at a time; any other is cut at its middle vertex's height
    /// into a flat-bottom and a flat-top triangle. Every row from the lowest vertex to the
    /// highest gets cells, and the row of the cut is covered from the middle vertex to the
    /// split point.
    pub fn fill_triangle(&mut self, p1: Point, p2: Point, p3: Point, color: Color)
        requires
            old(self).wf(),
        ensures
            final(self).wf(),
            final(self).spec_width() == old(self).spec_width(),
            final(self).spec_height() == old(self).spec_height(),
            final(self)@ == paint(old(self)@, fill_cells(p1, p2, p3), color),
            outline_cells(p1, p2, p3).subset_of(fill_cells(p1, p2, p3)),
            covers_rows(
                fill_cells(p1, p2, p3),
                sorted_by_height(p1, p2, p3).2.1 as int,
                sorted_by_height(p1, p2, p3).0.1 as int,
            ),
            sorted_by_height(p1, p2, p3).0.1 > sorted_by_height(p1, p2, p3).1.1 > sorted_by_height(
                p1,
                p2,
                p3,
            ).2.1 ==> line_cells(
                sorted_by_height(p1, p2, p3).1,
                split_point(sorted_by_height(p1, p2, p3).0, sorted_by_height(p1, p2, p3).1, sorted_by_height(p1, p2, p3).2),
            ).subset_of(fill_cells(p1, p2, p3)),
    {
        let ghost before = self@;
        self.fill_interior(p1, p2, p3, color);
        self.draw_triangle(p1, p2, p3, color);
        proof {
            let (top, mid, bottom) = sorted_by_height(p1, p2, p3);
            lemma_paint_union(before, interior_cells(p1, p2, p3), outline_cells(p1, p2, p3), color);
            lemma_covers_more(
                interior_cells(p1, p2, p3),
                fill_cells(p1, p2, p3),
                bottom.1 as int,
                top.1 as int,
            );
        }
    }

    /// The RGBA frame of the grid: the bytes of each cell's color, cells in row-major order.
    pub fn render(&self) -> (r: Vec<u8>)
        requires
            self.wf(),
        ensures
            r@ == frame_of(self@, self.spec_width(), self.spec_height()),
    {
        let n: usize = self.width as usize * self.height as usize;
        let mut frame: Vec<u8> = Vec::new();
        let mut i: usize = 0;
        while i < n
            invariant
                self.wf(),
                n == self.width * self.height,
                i <= n,
                frame@.len() == 4 * i,
                forall|j: int| 0 <= j < 4 * i ==> #[trigger] frame@[j] == self.buffer@[j / 4].to_bytes()[j % 4],
            decreases n - i,
        {
            let bytes = self.buffer[i].as_u8();
            frame.push(bytes[0]);
            frame.push(bytes[1]);
            frame.push(bytes[2]);
            frame.push(bytes[3]);
            i = i + 1;
        }
        proof {
            self.lemma_view();
            let w = self.width as int;
            let h = self.height as int;
            assert forall|j: int| 0 <= j < frame@.len() implies #[trigger] frame@[j] == frame_of(
                self@,
                self.spec_width(),
                self.spec_height(),
            )[j] by {
                lemma_index_cell(w, h, j / 4);
            }
            assert(frame@ =~= frame_of(self@, self.spec_width(), self.spec_height()));
        }
        frame
    }

    /// A frame of the grid's size with every cell at the background color. The grid itself is
    /// left as it is, so a later [`render`](Canvas::render) shows the drawing again.
    pub fn clear_frame(&self) -> (r: Vec<u8>)
        requires
            self.wf(),
        ensures
            r@ == blank_frame(self.spec_width(), self.spec_height()),
    {
        let n: usize = self.width as usize * self.height as usize;
        let background = black().as_u8();
        let mut frame: Vec<u8> = Vec::new();
        let mut i: usize = 0;
        while i < n
            invariant
                n == self.width * self.height,
                fits(self.width as nat, self.height as nat),
                background@ == spec_black().to_bytes(),
                i <= n,
                frame@.len() == 4 * i,
                forall|j: int| 0 <= j < 4 * i ==> #[trigger] frame@[j] == spec_black().to_bytes()[j % 4],
            decreases n - i,
        {
            frame.push(background[0]);
            frame.push(background[1]);
            frame.push(background[2]);
            frame.push(background[3]);
            i = i + 1;
        }
        assert(frame@ =~= blank_frame(self.spec_width(), self.spec_height()));
        frame
    }

    /// Sets every cell back to the background color, dropping all that was drawn.
    pub fn reset_frame(&mut self)
        requires
            old(self).wf(),
        ensures
            final(self).wf(),
            final(self).spec_width() == old(self).spec_width(),
            final(self).spec_height() == old(self).spec_height(),
            final(self)@ == blank(old(self).spec_width(), old(self).spec_height()),
    {
        self.buffer = Self::blank_buffer(self.width, self.height);
        proof {
            self.lemma_blank();
        }
    }

    /// Gives the grid new dimensions, with every cell at the background color.
    pub fn resize(&mut self, width: u32, height: u32)
        requires
            fits(width as nat, height as nat),
        ensures
            final(self).wf(),
            final(self).spec_width() == width,
            final(self).spec_height() == height,
            final(self)@ == blank(width as nat, height as nat),
    {
        self.width = width;
        self.height = height;
        self.buffer = Self::blank_buffer(width, height);
        proof {
            self.lemma_blank();
        }
    }
}

/// Drawing a pixel outside the grid leaves the grid as it was.
pub proof fn lemma_pixel_outside_is_ignored(canvas: &Canvas, x: u32, y: u32, color: Color)
    requires
        canvas.wf(),
        x >= canvas.spec_width() || y >= canvas.spec_height(),
    ensures
        paint(canvas@, set![(x as int, y as int)], color) == canvas@,
{
    canvas.lemma_view();
    assert(paint(canvas@, set![(x as int, y as int)], color) =~= canvas@);
}

/// A blank grid renders as a frame of background bytes only: after
/// [`reset_frame`](Canvas::reset_frame) or [`resize`](Canvas::resize), a
/// [`render`](Canvas::render) shows the same frame as [`clear_frame`](Canvas::clear_frame).
pub proof fn lemma_blank_renders_blank(width: nat, height: nat)
    ensures
        frame_of(blank(width, height), width, height) == blank_frame(width, height),
{
    assert forall|j: int| 0 <= j < width * height * 4 implies #[trigger] frame_of(
        blank(width, height),
        width,
        height,
    )[j] == blank_frame(width, height)[j] by {
        lemma_index_cell(width as int, height as int, j / 4);
    }
    assert(frame_of(blank(width, height), width, height) =~= blank_frame(width, height));
}

} // verus!
