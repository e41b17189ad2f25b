use vstd::prelude::*;
use crate::line::{Line, Point};
use crate::line_group::{points_of, LineGroup};
use crate::transform::{fits, offset_fits, offset_seq, shift, shift_fits};

verus! {

/// An axis-aligned box given by its two extreme corners.
#[derive(Clone, Copy, Debug, PartialEq, Eq, Structural)]
pub struct BoundingBox {
    pub min: Point,
    pub max: Point,
}

/// `b` is the smallest axis-aligned box holding every point of `ps`: each of
/// its four sides touches a point.
pub open spec fn is_bounding_box(ps: Seq<Point>, b: BoundingBox) -> bool {
    &&& forall|i: int|
        0 <= i < ps.len() ==> b.min.x <= (#[trigger] ps[i]).x <= b.max.x && b.min.y <= ps[i].y
            <= b.max.y
    &&& exists|i: int| 0 <= i < ps.len() && (#[trigger] ps[i]).x == b.min.x
    &&& exists|i: int| 0 <= i < ps.len() && (#[trigger] ps[i]).x == b.max.x
    &&& exists|i: int| 0 <= i < ps.len() && (#[trigger] ps[i]).y == b.min.y
    &&& exists|i: int| 0 <= i < ps.len() && (#[trigger] ps[i]).y == b.max.y
}

/// The bounding box of the endpoints of `s` (the one box that
/// `is_bounding_box` admits, for a group that has segments).
pub open spec fn bounding_box_of(s: Seq<Line>) -> BoundingBox {
    choose|b: BoundingBox| is_bounding_box(points_of(s), b)
}

/// The offset that brings the bounding-box center of `s` to the origin.
pub open spec fn to_center(s: Seq<Line>) -> Point {
    Point {
        x: (-center_of(bounding_box_of(s)).x) as i64,
        y: (-center_of(bounding_box_of(s)).y) as i64,
    }
}

proof fn lemma_bounding_box_unique(ps: Seq<Point>, b: BoundingBox, c: BoundingBox)
    requires
        is_bounding_box(ps, b),
        is_bounding_box(ps, c),
    ensures
        b == c,
{
    let i = choose|i: int| 0 <= i < ps.len() && (#[trigger] ps[i]).x == b.min.x;
    let j = choose|i: int| 0 <= i < ps.len() && (#[trigger] ps[i]).x == c.min.x;
    assert(c.min.x <= ps[i].x && b.min.x <= ps[j].x);
    let i = choose|i: int| 0 <= i < ps.len() && (#[trigger] ps[i]).x == b.max.x;
    let j = choose|i: int| 0 <= i < ps.len() && (#[trigger] ps[i]).x == c.max.x;
    assert(c.max.x >= ps[i].x && b.max.x >= ps[j].x);
    let i = choose|i: int| 0 <= i < ps.len() && (#[trigger] ps[i]).y == b.min.y;
    let j = choose|i: int| 0 <= i < ps.len() && (#[trigger] ps[i]).y == c.min.y;
    assert(c.min.y <= ps[i].y && b.min.y <= ps[j].y);
    let i = choose|i: int| 0 <= i < ps.len() && (#[trigger] ps[i]).y == b.max.y;
    let j = choose|i: int| 0 <= i < ps.len() && (#[trigger] ps[i]).y == c.max.y;
    assert(c.max.y >= ps[i].y && b.max.y >= ps[j].y);
}

/// Every non-empty set of points has a bounding box.
proof fn lemma_bounding_box_exists(ps: Seq<Point>)
    requires
        ps.len() > 0,
    ensures
        is_bounding_box(ps, choose|b: BoundingBox| is_bounding_box(ps, b)),
    decreases ps.len(),
{
    let p = ps.last();
    let t = ps.drop_last();
    let b = if t.len() == 0 {
        BoundingBox { min: p, max: p }
    } else {
        lemma_bounding_box_exists(t);
        let c = choose|b: BoundingBox| is_bounding_box(t, b);
        let i0 = choose|i: int| 0 <= i < t.len() && (#[trigger] t[i]).x == c.min.x;
        let i1 = choose|i: int| 0 <= i < t.len() && (#[trigger] t[i]).x == c.max.x;
        let i2 = choose|i: int| 0 <= i < t.len() && (#[trigger] t[i]).y == c.min.y;
        let i3 = choose|i: int| 0 <= i < t.len() && (#[trigger] t[i]).y == c.max.y;
        assert(ps[i0] == t[i0] && ps[i1] == t[i1] && ps[i2] == t[i2] && ps[i3] == t[i3]);
        BoundingBox {
            min: Point {
                x: if p.x < c.min.x { p.x } else { c.min.x },
                y: if p.y < c.min.y { p.y } else { c.min.y },
            },
            max: Point {
                x: if p.x > c.max.x { p.x } else { c.max.x },
                y: if p.y > c.max.y { p.y } else { c.max.y },
            },
        }
    };
    assert(ps[ps.len() - 1] == p);
    assert forall|i: int| 0 <= i < ps.len() implies b.min.x <= (#[trigger] ps[i]).x <= b.max.x
        && b.min.y <= ps[i].y <= b.max.y by {
        if i < t.len() {
            assert(t[i] == ps[i]);
        }
    }
    assert(is_bounding_box(ps, b));
}

/// A found bounding box is the one that `bounding_box_of` names.
proof fn lemma_is_bounding_box_of(s: Seq<Line>, b: BoundingBox)
    requires
        is_bounding_box(points_of(s), b),
    ensures
        bounding_box_of(s) == b,
        b.min.x <= b.max.x,
        b.min.y <= b.max.y,
{
    lemma_bounding_box_unique(points_of(s), b, bounding_box_of(s));
    let i = choose|i: int| 0 <= i < points_of(s).len() && (#[trigger] points_of(s)[i]).x == b.min.x;
}

pub open spec fn abs(v: int) -> int {
    if v < 0 {
        -v
    } else {
        v
    }
}

pub open spec fn max(a: int, b: int) -> int {
    if a < b {
        b
    } else {
        a
    }
}

/// How far a point lies from the origin along the farther axis.
pub open spec fn reach(p: Point) -> int {
    max(abs(p.x as int), abs(p.y as int))
}

/// The largest `reach` of the points of `ps`; zero for none.
pub open spec fn max_reach(ps: Seq<Point>) -> int
    decreases ps.len(),
{
    if ps.len() == 0 {
        0
    } else {
        max(max_reach(ps.drop_last()), reach(ps.last()))
    }
}

/// The bounding size of a group: the largest absolute coordinate over the
/// corners of its bounding box, which is the largest over all endpoints.
pub open spec fn bounding_size_of(s: Seq<Line>) -> int {
    max_reach(points_of(s))
}

/// The middle of a box, rounded down to the lattice.
pub open spec fn center_of(b: BoundingBox) -> Point {
    Point { x: ((b.min.x + b.max.x) / 2) as i64, y: ((b.min.y + b.max.y) / 2) as i64 }
}

proof fn lemma_max_reach(ps: Seq<Point>)
    ensures
        forall|i: int| 0 <= i < ps.len() ==> reach(#[trigger] ps[i]) <= max_reach(ps),
        ps.len() > 0 ==> exists|i: int| 0 <= i < ps.len() && reach(#[trigger] ps[i]) == max_reach(ps),
        max_reach(ps) >= 0,
    decreases ps.len(),
{
    if ps.len() > 0 {
        let t = ps.drop_last();
        lemma_max_reach(t);
        assert forall|i: int| 0 <= i < ps.len() implies reach(#[trigger] ps[i]) <= max_reach(ps) by {
            if i < t.len() {
                assert(t[i] == ps[i]);
            }
        }
        if max_reach(ps) == reach(ps.last()) {
            assert(reach(ps[ps.len() - 1]) == max_reach(ps));
        } else {
            let j = choose|j: int| 0 <= j < t.len() && reach(#[trigger] t[j]) == max_reach(t);
            assert(reach(ps[j]) == max_reach(ps));
        }
    }
}

fn abs_u64(v: i64) -> (r: u64)
    ensures
        r == abs(v as int),
{
    if v >= 0 {
        v as u64
    } else {
        (-(v as i128)) as u64
    }
}

fn max_u64(a: u64, b: u64) -> (r: u64)
    ensures
        r == max(a as int, b as int),
{
    if a < b {
        b
    } else {
        a
    }
}

impl BoundingBox {
    /// The middle of the box, rounded down to the lattice.
    pub fn center(&self) -> (r: Point)
        requires
            self.min.x <= self.max.x,
            self.min.y <= self.max.y,
        ensures
            r == center_of(*self),
    {
        let dx = (self.max.x as i128 - self.min.x as i128) as u128;
        let dy = (self.max.y as i128 - self.min.y as i128) as u128;
        let x = (self.min.x as i128 + (dx / 2) as i128) as i64;
        let y = (self.min.y as i128 + (dy / 2) as i128) as i64;
        Point::new(x, y)
    }
}

impl LineGroup {
    /// The smallest axis-aligned box holding every endpoint.
    pub fn calculate_bounding_box(&self) -> (r: BoundingBox)
        requires
            self@.len() > 0,
        ensures
            is_bounding_box(points_of(self@), r),
            r == bounding_box_of(self@),
    {
        let points = self.to_points();
        let ghost ps = points@;
        let mut b = BoundingBox { min: points[0], max: points[0] };
        let mut i: usize = 1;
        assert(ps.take(1)[0] == ps[0]);
        assert(is_bounding_box(ps.take(1), b));
        while i < points.len()
            invariant
                ps == points@,
                ps.len() >= 2,
                1 <= i <= ps.len(),
                is_bounding_box(ps.take(i as int), b),
            decreases ps.len() - i,
        {
            let p = points[i];
            let ghost old_b = b;
            if p.x < b.min.x {
                b.min.x = p.x;
            }
            if p.x > b.max.x {
                b.max.x = p.x;
            }
            if p.y < b.min.y {
                b.min.y = p.y;
            }
            if p.y > b.max.y {
                b.max.y = p.y;
            }
            proof {
                let t = ps.take(i as int);
                let u = ps.take(i + 1);
                assert(u[i as int] == p);
                assert forall|j: int| 0 <= j < t.len() implies #[trigger] u[j] == t[j] by {}
                let j0 = choose|j: int| 0 <= j < t.len() && (#[trigger] t[j]).x == old_b.min.x;
                let j1 = choose|j: int| 0 <= j < t.len() && (#[trigger] t[j]).x == old_b.max.x;
                let j2 = choose|j: int| 0 <= j < t.len() && (#[trigger] t[j]).y == old_b.min.y;
                let j3 = choose|j: int| 0 <= j < t.len() && (#[trigger] t[j]).y == old_b.max.y;
                assert(u[j0] == t[j0] && u[j1] == t[j1] && u[j2] == t[j2] && u[j3] == t[j3]);
                assert forall|j: int| 0 <= j < u.len() implies b.min.x <= (#[trigger] u[j]).x
                    <= b.max.x && b.min.y <= u[j].y <= b.max.y by {
                    if j < t.len() {
                        assert(u[j] == t[j]);
                    }
                }
            }
            i += 1;
        }
        assert(ps.take(ps.len() as int) =~= ps);
        proof {
            lemma_is_bounding_box_of(self@, b);
        }
        b
    }

    /// The largest absolute coordinate over the two corners of the bounding
    /// box.
    pub fn calculate_bounding_size(&self) -> (r: u64)
        requires
            self@.len() > 0,
        ensures
            r == bounding_size_of(self@),
            r == max(
                max(abs(bounding_box_of(self@).min.x as int), abs(bounding_box_of(self@).min.y as int)),
                max(abs(bounding_box_of(self@).max.x as int), abs(bounding_box_of(self@).max.y as int)),
            ),
    {
        let b = self.calculate_bounding_box();
        let br = max_u64(abs_u64(b.min.x), abs_u64(b.min.y));
        let tr = max_u64(abs_u64(b.max.x), abs_u64(b.max.y));
        let r = max_u64(br, tr);
        proof {
            let ps = points_of(self@);
            lemma_max_reach(ps);
            assert(ps.len() > 0);
            let k = choose|k: int| 0 <= k < ps.len() && reach(#[trigger] ps[k]) == max_reach(ps);
            assert(reach(ps[k]) <= r);
            let j0 = choose|j: int| 0 <= j < ps.len() && (#[trigger] ps[j]).x == b.min.x;
            let j1 = choose|j: int| 0 <= j < ps.len() && (#[trigger] ps[j]).x == b.max.x;
            let j2 = choose|j: int| 0 <= j < ps.len() && (#[trigger] ps[j]).y == b.min.y;
            let j3 = choose|j: int| 0 <= j < ps.len() && (#[trigger] ps[j]).y == b.max.y;
            assert(reach(ps[j0]) <= max_reach(ps));
            assert(reach(ps[j1]) <= max_reach(ps));
            assert(reach(ps[j2]) <= max_reach(ps));
            assert(reach(ps[j3]) <= max_reach(ps));
        }
        r
    }

    /// The group moved so that the center of its bounding box is the origin
    /// (up to the lattice rounding of that center).
    pub fn centered(&self) -> (r: LineGroup)
        requires
            self@.len() > 0,
            fits(-center_of(bounding_box_of(self@)).x),
            fits(-center_of(bounding_box_of(self@)).y),
            offset_fits(self@, to_center(self@)),
        ensures
            r@ == offset_seq(self@, to_center(self@)),
    {
        let b = self.calculate_bounding_box();
        let c = b.center();
        self.offset(Point::new(-c.x, -c.y))
    }
}

/// Moving a group moves its bounding box by the same amount.
proof fn lemma_offset_bounding_box(s: Seq<Line>, v: Point)
    requires
        s.len() > 0,
        offset_fits(s, v),
    ensures
        bounding_box_of(offset_seq(s, v)) == (BoundingBox {
            min: shift(bounding_box_of(s).min, v),
            max: shift(bounding_box_of(s).max, v),
        }),
{
    let ps = points_of(s);
    let qs = points_of(offset_seq(s, v));
    let b = bounding_box_of(s);
    let c = BoundingBox { min: shift(b.min, v), max: shift(b.max, v) };
    assert(ps.len() > 0 && ps[0] == s[0].a);
    lemma_bounding_box_exists(ps);
    assert forall|i: int| 0 <= i < qs.len() implies #[trigger] qs[i] == shift(ps[i], v) && shift_fits(ps[i], v) by {
        let k = i / 2;
        assert(0 <= k < s.len());
        assert(shift_fits(s[k].a, v) && shift_fits(s[k].b, v));
        assert(ps[i] == if i % 2 == 0 { s[k].a } else { s[k].b });
    }
    let i0 = choose|i: int| 0 <= i < ps.len() && (#[trigger] ps[i]).x == b.min.x;
    let i1 = choose|i: int| 0 <= i < ps.len() && (#[trigger] ps[i]).x == b.max.x;
    let i2 = choose|i: int| 0 <= i < ps.len() && (#[trigger] ps[i]).y == b.min.y;
    let i3 = choose|i: int| 0 <= i < ps.len() && (#[trigger] ps[i]).y == b.max.y;
    assert(qs[i0].x == c.min.x && qs[i1].x == c.max.x && qs[i2].y == c.min.y && qs[i3].y == c.max.y);
    assert forall|i: int| 0 <= i < qs.len() implies c.min.x <= (#[trigger] qs[i]).x <= c.max.x && c.min.y
        <= qs[i].y <= c.max.y by {
        assert(qs[i] == shift(ps[i], v));
    }
    lemma_is_bounding_box_of(offset_seq(s, v), c);
}

/// After centering, the bounding box is balanced about the origin: on each
/// axis its two sides sum to zero, or to one unit where the extent is odd and
/// the lattice cannot hold the exact middle.
pub proof fn law_centered_at_origin(g: Seq<Line>)
    requires
        g.len() > 0,
        fits(-center_of(bounding_box_of(g)).x),
        fits(-center_of(bounding_box_of(g)).y),
        offset_fits(g, to_center(g)),
    ensures
        0 <= bounding_box_of(offset_seq(g, to_center(g))).min.x + bounding_box_of(
            offset_seq(g, to_center(g)),
        ).max.x <= 1,
        0 <= bounding_box_of(offset_seq(g, to_center(g))).min.y + bounding_box_of(
            offset_seq(g, to_center(g)),
        ).max.y <= 1,
{
    let b = bounding_box_of(g);
    lemma_bounding_box_exists(points_of(g));
    lemma_is_bounding_box_of(g, choose|c: BoundingBox| is_bounding_box(points_of(g), c));
    lemma_offset_bounding_box(g, to_center(g));
    let sx = b.min.x + b.max.x;
    let sy = b.min.y + b.max.y;
    assert(b.min.x <= sx / 2 <= b.max.x);
    assert(b.min.y <= sy / 2 <= b.max.y);
    assert(0 <= sx - 2 * (sx / 2) <= 1);
    assert(0 <= sy - 2 * (sy / 2) <= 1);
    let ps = points_of(g);
    let v = to_center(g);
    assert forall|i: int| 0 <= i < ps.len() implies shift_fits(#[trigger] ps[i], v) by {
        let k = i / 2;
        assert(0 <= k < g.len());
        assert(shift_fits(g[k].a, v) && shift_fits(g[k].b, v));
        assert(ps[i] == if i % 2 == 0 { g[k].a } else { g[k].b });
    }
    let i0 = choose|i: int| 0 <= i < ps.len() && (#[trigger] ps[i]).x == b.min.x;
    let i1 = choose|i: int| 0 <= i < ps.len() && (#[trigger] ps[i]).x == b.max.x;
    let i2 = choose|i: int| 0 <= i < ps.len() && (#[trigger] ps[i]).y == b.min.y;
    let i3 = choose|i: int| 0 <= i < ps.len() && (#[trigger] ps[i]).y == b.max.y;
    assert(shift_fits(ps[i0], v) && shift_fits(ps[i1], v) && shift_fits(ps[i2], v) && shift_fits(ps[i3], v));
}

} // verus!
