use vstd::prelude::*;

verus! {

/// A point of the integer plane. Coordinates are in whatever unit the
/// caller draws in; the glyph table uses a nominal letter height of 8.
#[derive(Clone, Copy, Debug, PartialEq, Eq, Structural)]
pub struct Point {
    pub x: i64,
    pub y: i64,
}

impl Point {
    pub fn new(x: i64, y: i64) -> (r: Point)
        ensures
            r == (Point { x, y }),
    {
        Point { x, y }
    }

    pub fn zero() -> (r: Point)
        ensures
            r == (Point { x: 0, y: 0 }),
    {
        Point { x: 0, y: 0 }
    }
}

/// A segment from `a` to `b`. The direction is kept but carries no meaning
/// for drawing.
#[derive(Clone, Copy, Debug, PartialEq, Eq, Structural)]
pub struct Line {
    pub a: Point,
    pub b: Point,
}

/// The four numbers of a packed segment record: `(ax, ay, bx, by)`.
pub open spec fn record_of(l: Line) -> Seq<i64> {
    seq![l.a.x, l.a.y, l.b.x, l.b.y]
}

impl Line {
    pub fn new(a: Point, b: Point) -> (r: Line)
        ensures
            r == (Line { a, b }),
    {
        Line { a, b }
    }

    /// The segment as one packed record `(ax, ay, bx, by)`.
    pub fn as_vec4(&self) -> (r: [i64; 4])
        ensures
            r@ == record_of(*self),
    {
        let r = [self.a.x, self.a.y, self.b.x, self.b.y];
        assert(r@ =~= record_of(*self));
        r
    }
}

} // verus!
