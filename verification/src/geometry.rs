//! Integer geometry of the cell grid: points, rectangles and the dimensions
//! of a window-like object.
//!
//! All coordinates are non-negative cell coordinates with the origin at the
//! bottom-left. Sums of coordinates saturate at `u32::MAX`; containment is
//! decided over the mathematical integers, so it is exact even for
//! rectangles that reach past the largest coordinate.

use vstd::prelude::*;
use crate::rows::{lemma_flatten_uniform_at, lemma_flatten_uniform_len, lemma_split_index};

verus! {

/// A 2D point with x and y both non-negative integers.
#[derive(Clone, Copy, Debug, PartialEq, Eq, Structural)]
pub struct Point {
    pub x: u32,
    pub y: u32,
}

/// The sum of two coordinates, held at `u32::MAX` where it would pass it.
pub open spec fn saturating_sum(a: u32, b: u32) -> u32 {
    if a + b <= u32::MAX {
        (a + b) as u32
    } else {
        u32::MAX
    }
}

/// Adds two coordinates, saturating.
fn add_saturating(a: u32, b: u32) -> (sum: u32)
    ensures
        sum == saturating_sum(a, b),
{
    if b <= u32::MAX - a {
        a + b
    } else {
        u32::MAX
    }
}

impl Point {
    /// Create a new Point. Origin is at bottom-left.
    pub fn new(x: u32, y: u32) -> (p: Point)
        ensures
            p == (Point { x, y }),
    {
        Point { x, y }
    }

    /// The vector sum of two points, each coordinate saturating.
    pub open spec fn spec_plus(self, other: Point) -> Point {
        Point { x: saturating_sum(self.x, other.x), y: saturating_sum(self.y, other.y) }
    }

    /// Adds points like vectors and returns a new point. Each coordinate
    /// saturates at `u32::MAX`.
    pub fn plus(&self, other: Point) -> (p: Point)
        ensures
            p == self.spec_plus(other),
            self.x + other.x <= u32::MAX ==> p.x == self.x + other.x,
            self.y + other.y <= u32::MAX ==> p.y == self.y + other.y,
    {
        Point { x: add_saturating(self.x, other.x), y: add_saturating(self.y, other.y) }
    }
}

/// A 2D rectangle in non-negative integer coordinates: the half-open cell
/// range from `bottom_left` up to, and without, `bottom_left + size`.
#[derive(Clone, Copy, Debug, PartialEq, Eq, Structural)]
pub struct Rect {
    pub bottom_left: Point,
    pub size: Point,
}

/// How many of the `len` coordinates that start at `start` are at most
/// `u32::MAX`, and so can be held by a `Point`.
pub open spec fn span(start: u32, len: u32) -> nat {
    if start + len <= u32::MAX + 1 {
        len as nat
    } else {
        (u32::MAX + 1 - start) as nat
    }
}

impl Rect {
    /// Create a new rectangle. Size is a Point(width, height).
    pub fn new(bottom_left: Point, size: Point) -> (r: Rect)
        ensures
            r == (Rect { bottom_left, size }),
    {
        Rect { bottom_left, size }
    }

    /// Create a rect with the bottom-left at the origin.
    pub fn of_size(size: Point) -> (r: Rect)
        ensures
            r == Rect::spec_of_size(size),
    {
        Rect::new(Point::new(0, 0), size)
    }

    /// The rectangle of the given size with the bottom-left at the
    /// origin.
    pub open spec fn spec_of_size(size: Point) -> Rect {
        Rect { bottom_left: Point { x: 0, y: 0 }, size }
    }

    /// A rectangle is degenerate when it has no area.
    pub open spec fn is_degenerate(self) -> bool {
        self.size.x == 0 || self.size.y == 0
    }

    /// Whether the cell `(x, y)` lies in the half-open range of this
    /// rectangle.
    pub open spec fn covers(self, x: int, y: int) -> bool {
        &&& self.bottom_left.x <= x < self.bottom_left.x + self.size.x
        &&& self.bottom_left.y <= y < self.bottom_left.y + self.size.y
    }

    /// Whether the point lies in the half-open range of this rectangle.
    pub open spec fn spec_contains_point(self, point: Point) -> bool {
        self.covers(point.x as int, point.y as int)
    }

    /// A rectangle with area lies inside this one when its bottom-left
    /// and its top-right cell both do. A degenerate rectangle lies inside
    /// none.
    pub open spec fn spec_contains_rect(self, rect: Rect) -> bool {
        &&& !rect.is_degenerate()
        &&& self.covers(rect.bottom_left.x as int, rect.bottom_left.y as int)
        &&& self.covers(
            rect.bottom_left.x + rect.size.x - 1,
            rect.bottom_left.y + rect.size.y - 1,
        )
    }

    /// The cells of column `i` of this rectangle that a `Point` can hold,
    /// bottom to top.
    pub open spec fn column(self, i: int) -> Seq<Point> {
        Seq::new(
            span(self.bottom_left.y, self.size.y),
            |j: int|
                Point { x: (self.bottom_left.x + i) as u32, y: (self.bottom_left.y + j) as u32 },
        )
    }

    /// Every cell of this rectangle that a `Point` can hold: column by
    /// column from the left, each column bottom to top.
    pub open spec fn spec_points(self) -> Seq<Point> {
        Seq::new(span(self.bottom_left.x, self.size.x), |i: int| self.column(i)).flatten()
    }

    /// Return a Vector of all the Points contained in this Rect.
    pub fn points(&self) -> (result: Vec<Point>)
        ensures
            result@ == self.spec_points(),
            forall|k: int| 0 <= k < result@.len() ==> self.spec_contains_point(#[trigger] result@[k]),
            forall|p: Point| self.spec_contains_point(p) ==> result@.contains(p),
    {
        let x0: u64 = self.bottom_left.x as u64;
        let y0: u64 = self.bottom_left.y as u64;
        let limit: u64 = 0x1_0000_0000;
        let x_end: u64 = if x0 + self.size.x as u64 <= limit {
            x0 + self.size.x as u64
        } else {
            limit
        };
        let y_end: u64 = if y0 + self.size.y as u64 <= limit {
            y0 + self.size.y as u64
        } else {
            limit
        };
        let ghost width = span(self.bottom_left.x, self.size.x);
        let ghost height = span(self.bottom_left.y, self.size.y);
        let mut result: Vec<Point> = Vec::new();
        let mut x: u64 = x0;
        assert(Seq::new(0, |i: int| self.column(i)).flatten() =~= Seq::<Point>::empty());
        while x < x_end
            invariant
                x0 == self.bottom_left.x,
                y0 == self.bottom_left.y,
                x0 <= x <= x_end <= 0x1_0000_0000,
                y0 <= y_end <= 0x1_0000_0000,
                x_end - x0 == width,
                y_end - y0 == height,
                height == span(self.bottom_left.y, self.size.y),
                result@ == Seq::new((x - x0) as nat, |i: int| self.column(i)).flatten(),
            decreases x_end - x,
        {
            let ghost done = result@;
            let mut y: u64 = y0;
            while y < y_end
                invariant
                    x0 == self.bottom_left.x,
                    y0 == self.bottom_left.y,
                    x0 <= x < x_end <= 0x1_0000_0000,
                    y0 <= y <= y_end <= 0x1_0000_0000,
                    y_end - y0 == height,
                    height == span(self.bottom_left.y, self.size.y),
                    result@ == done + self.column(x - x0).take(y - y0),
                decreases y_end - y,
            {
                result.push(Point::new(x as u32, y as u32));
                assert(self.column(x - x0).take(y - y0 + 1) =~= self.column(x - x0).take(
                    y - y0,
                ).push(self.column(x - x0)[y - y0]));
                y = y + 1;
            }
            proof {
                let rows = Seq::new((x - x0) as nat, |i: int| self.column(i));
                let more = Seq::new((x - x0 + 1) as nat, |i: int| self.column(i));
                assert(more =~= rows.push(self.column(x - x0)));
                assert(self.column(x - x0).take(y - y0) =~= self.column(x - x0));
                rows.lemma_flatten_push(self.column(x - x0));
            }
            x = x + 1;
        }
        proof {
            assert forall|k: int| 0 <= k < result@.len() implies self.spec_contains_point(
                #[trigger] result@[k],
            ) by {
                self.lemma_point_at(k);
            }
            assert forall|p: Point| self.spec_contains_point(p) implies result@.contains(p) by {
                self.lemma_index_of(p);
            }
        }
        result
    }

    /// The enumeration has one place for each cell that a `Point` can
    /// hold.
    pub proof fn lemma_points_len(self)
        ensures
            self.spec_points().len() == span(self.bottom_left.x, self.size.x) * span(
                self.bottom_left.y,
                self.size.y,
            ),
    {
        let width = span(self.bottom_left.x, self.size.x);
        let height = span(self.bottom_left.y, self.size.y);
        lemma_flatten_uniform_len(Seq::new(width, |i: int| self.column(i)), height);
    }

    /// Each point of the enumeration is contained, and stands where its
    /// column and row put it.
    pub proof fn lemma_point_at(self, k: int)
        requires
            0 <= k < self.spec_points().len(),
        ensures
            self.spec_contains_point(self.spec_points()[k]),
            self.index_of(self.spec_points()[k]) == k,
    {
        let width = span(self.bottom_left.x, self.size.x);
        let height = span(self.bottom_left.y, self.size.y);
        let rows = Seq::new(width, |i: int| self.column(i));
        self.lemma_points_len();
        let (i, j) = lemma_split_index(k, width, height);
        lemma_flatten_uniform_at(rows, height, i, j);
    }

    /// Each contained point is in the enumeration, where its column and
    /// row put it.
    pub proof fn lemma_index_of(self, p: Point)
        requires
            self.spec_contains_point(p),
        ensures
            0 <= self.index_of(p) < self.spec_points().len(),
            self.spec_points()[self.index_of(p)] == p,
            self.spec_points().contains(p),
    {
        let width = span(self.bottom_left.x, self.size.x);
        let height = span(self.bottom_left.y, self.size.y);
        let rows = Seq::new(width, |i: int| self.column(i));
        let i = p.x - self.bottom_left.x;
        let j = p.y - self.bottom_left.y;
        lemma_flatten_uniform_at(rows, height, i, j);
        assert(rows[i][j] == p);
    }

    /// Where a contained point stands in the enumeration.
    pub open spec fn index_of(self, p: Point) -> int {
        (p.x - self.bottom_left.x) * span(self.bottom_left.y, self.size.y) + (p.y
            - self.bottom_left.y)
    }

    /// Check if the given Point is contained within this Rect.
    pub fn contains_point(&self, point: Point) -> (inside: bool)
        ensures
            inside == self.spec_contains_point(point),
    {
        point.x >= self.bottom_left.x && (point.x as u64) < self.bottom_left.x as u64
            + self.size.x as u64 && point.y >= self.bottom_left.y && (point.y as u64)
            < self.bottom_left.y as u64 + self.size.y as u64
    }

    /// Check if a given Rect is fully contained inside this Rect. A Rect
    /// without area is contained in none.
    pub fn contains_rect(&self, rect: Rect) -> (inside: bool)
        ensures
            inside == self.spec_contains_rect(rect),
    {
        if rect.size.x == 0 || rect.size.y == 0 {
            return false;
        }
        let right: u64 = rect.bottom_left.x as u64 + rect.size.x as u64;
        let top: u64 = rect.bottom_left.y as u64 + rect.size.y as u64;
        rect.bottom_left.x >= self.bottom_left.x && rect.bottom_left.y >= self.bottom_left.y
            && right <= self.bottom_left.x as u64 + self.size.x as u64 && top
            <= self.bottom_left.y as u64 + self.size.y as u64
    }

    /// A point is contained only between the bottom-left corner and the
    /// corner opposite: one with a coordinate below `bottom_left`, or at
    /// or above `bottom_left + size`, is not.
    pub proof fn lemma_point_outside(self, point: Point)
        requires
            point.x < self.bottom_left.x || point.y < self.bottom_left.y || point.x
                >= self.bottom_left.x + self.size.x || point.y >= self.bottom_left.y
                + self.size.y,
        ensures
            !self.spec_contains_point(point),
            !self.spec_points().contains(point),
    {
        if self.spec_points().contains(point) {
            let k = choose|k: int|
                0 <= k < self.spec_points().len() && self.spec_points()[k] == point;
            self.lemma_point_at(k);
        }
    }

    /// To test the two corners is to test every cell: a rectangle with
    /// area lies inside this one exactly when each cell it covers is
    /// covered by this one.
    pub proof fn lemma_contains_rect_is_cellwise(self, rect: Rect)
        requires
            !rect.is_degenerate(),
        ensures
            self.spec_contains_rect(rect) <==> (forall|x: int, y: int| #[trigger]
                rect.covers(x, y) ==> self.covers(x, y)),
    {
        let x1 = rect.bottom_left.x + rect.size.x - 1;
        let y1 = rect.bottom_left.y + rect.size.y - 1;
        if forall|x: int, y: int| #[trigger] rect.covers(x, y) ==> self.covers(x, y) {
            assert(rect.covers(rect.bottom_left.x as int, rect.bottom_left.y as int));
            assert(rect.covers(x1, y1));
        }
    }
}

/// Dimensions for the creation of window-like objects.
#[derive(Clone, Copy, Debug, PartialEq, Eq, Structural)]
pub struct Dimensions {
    pub glyph_size: Point,
    pub term_size: Point,
    pub offset: Point,
}

impl Dimensions {
    /// Create a new Dimensions from simple values.
    pub fn new(
        glyph_width: u32,
        glyph_height: u32,
        term_width: u32,
        term_height: u32,
        offset_x: u32,
        offset_y: u32,
    ) -> (d: Dimensions)
        ensures
            d == (Dimensions {
                glyph_size: Point { x: glyph_width, y: glyph_height },
                term_size: Point { x: term_width, y: term_height },
                offset: Point { x: offset_x, y: offset_y },
            }),
    {
        Dimensions {
            glyph_size: Point::new(glyph_width, glyph_height),
            term_size: Point::new(term_width, term_height),
            offset: Point::new(offset_x, offset_y),
        }
    }

    /// Create a new Dimensions from Points.
    pub fn from_sizes(glyph_size: Point, term_size: Point, offset: Point) -> (d: Dimensions)
        ensures
            d == (Dimensions { glyph_size, term_size, offset }),
    {
        Dimensions { glyph_size, term_size, offset }
    }

    /// The rectangle of the size of the grid at its offset.
    pub open spec fn spec_rect(self) -> Rect {
        Rect { bottom_left: self.offset, size: self.term_size }
    }

    /// Return the Rect that these dimensions would cover on a parent's Rect.
    pub fn rect(&self) -> (r: Rect)
        ensures
            r == self.spec_rect(),
    {
        Rect::new(self.offset, self.term_size)
    }

    /// Make a copy of these Dimensions with the same glyph_size, but new
    /// term_size and offset.
    pub fn copy_for_panel(&self, term_size: Point, offset: Point) -> (d: Dimensions)
        ensures
            d == (Dimensions { glyph_size: self.glyph_size, term_size, offset }),
    {
        self.with_term_size(term_size).with_offset(offset)
    }

    /// Return a new Dimensions with a changed glyph_size.
    pub fn with_glyph_size(&self, glyph_size: Point) -> (d: Dimensions)
        ensures
            d == (Dimensions { glyph_size, ..*self }),
    {
        let mut new = *self;
        new.glyph_size = glyph_size;
        new
    }

    /// Return a new Dimensions with a changed term_size.
    pub fn with_term_size(&self, term_size: Point) -> (d: Dimensions)
        ensures
            d == (Dimensions { term_size, ..*self }),
    {
        let mut new = *self;
        new.term_size = term_size;
        new
    }

    /// Return a new Dimensions with a changed offset.
    pub fn with_offset(&self, offset: Point) -> (d: Dimensions)
        ensures
            d == (Dimensions { offset, ..*self }),
    {
        let mut new = *self;
        new.offset = offset;
        new
    }
}

} // verus!
