use vstd::prelude::*;
use crate::glyphs::pt;
use crate::line::Point;
use crate::line_group::{closed_of, LineGroup};
use crate::rand::random_vec2_range;

verus! {

/// `d` is `r / sqrt(2)` rounded down: the coordinate, on both axes, of the
/// point at 45 degrees on the circle of radius `r`.
pub open spec fn is_half_diagonal(r: nat, d: nat) -> bool {
    2 * d * d <= r * r < 2 * (d + 1) * (d + 1)
}

pub open spec fn half_diagonal(r: nat) -> nat {
    choose|d: nat| is_half_diagonal(r, d)
}

/// The signed 45-degree coordinate for `radius`.
pub open spec fn diag(radius: int) -> int {
    if radius >= 0 {
        half_diagonal(radius as nat) as int
    } else {
        -half_diagonal((-radius) as nat)
    }
}

/// The point at `k` eighths of a turn on the circle of radius `radius`.
pub open spec fn octant_point(radius: int, k: int) -> Point {
    let d = diag(radius);
    if k == 0 {
        pt(radius, 0)
    } else if k == 1 {
        pt(d, d)
    } else if k == 2 {
        pt(0, radius)
    } else if k == 3 {
        pt(-d, d)
    } else if k == 4 {
        pt(-radius, 0)
    } else if k == 5 {
        pt(-d, -d)
    } else if k == 6 {
        pt(0, -radius)
    } else {
        pt(d, -d)
    }
}

/// The vertices of a circle approximation: vertex `i` sits at the angular
/// fraction `i / 8` of a turn, whatever the resolution. The step does not
/// depend on `resolution`, so any resolution other than eight stops short
/// of a full turn or goes round again; this is probably a defect, and it is
/// kept as it stands until its intent is settled.
pub open spec fn circle_points(radius: int, resolution: nat) -> Seq<Point> {
    Seq::new(resolution, |i: int| octant_point(radius, i % 8))
}

/// Both coordinates of `p` lie between `-m` and `m`.
pub open spec fn within(p: Point, m: int) -> bool {
    -m <= p.x <= m && -m <= p.y <= m
}

/// A jitter drawn for `range`: both coordinates in `-range..range`, or none
/// at all for a range of zero.
pub open spec fn jitter_in(j: Point, range: int) -> bool {
    if range == 0 {
        j == pt(0, 0)
    } else {
        -range <= j.x < range && -range <= j.y < range
    }
}

/// Each point of `ps` moved by the matching point of `by`.
pub open spec fn moved_each(ps: Seq<Point>, by: Seq<Point>) -> Seq<Point> {
    Seq::new(ps.len(), |i: int| pt(ps[i].x + by[i].x, ps[i].y + by[i].y))
}

proof fn lemma_half_diagonal_unique(r: nat, d: nat, e: nat)
    requires
        is_half_diagonal(r, d),
        is_half_diagonal(r, e),
    ensures
        d == e,
{
    if d < e {
        assert(false) by (nonlinear_arith)
            requires
                d + 1 <= e,
                2 * e * e <= r * r,
                r * r < 2 * (d + 1) * (d + 1),
        ;
    } else if e < d {
        assert(false) by (nonlinear_arith)
            requires
                e + 1 <= d,
                2 * d * d <= r * r,
                r * r < 2 * (e + 1) * (e + 1),
        ;
    }
}

/// `r / sqrt(2)` rounded down, by bisection.
fn half_diagonal_of(r: u64) -> (d: u64)
    requires
        r <= i64::MAX,
    ensures
        d == half_diagonal(r as nat),
        d <= r,
{
    assert(r * r < 0x4000_0000_0000_0000_0000_0000_0000_0000) by (nonlinear_arith)
        requires
            r < 0x8000_0000_0000_0000,
    ;
    let rr: u128 = r as u128 * r as u128;
    let mut lo: u64 = 0;
    let mut hi: u64 = r;
    assert(r * r < 2 * (r + 1) * (r + 1)) by (nonlinear_arith);
    while lo < hi
        invariant
            lo <= hi <= r,
            r <= i64::MAX,
            rr == r * r,
            2 * lo * lo <= rr,
            rr < 2 * (hi + 1) * (hi + 1),
        decreases hi - lo,
    {
        let mid: u64 = lo + (hi - lo) / 2 + (hi - lo) % 2;
        assert(mid * mid < 0x4000_0000_0000_0000_0000_0000_0000_0000) by (nonlinear_arith)
            requires
                mid < 0x8000_0000_0000_0000,
        ;
        assert(2 * mid * mid == 2 * (mid * mid)) by (nonlinear_arith);
        if 2 * (mid as u128 * mid as u128) <= rr {
            lo = mid;
        } else {
            hi = mid - 1;
        }
    }
    proof {
        assert(is_half_diagonal(r as nat, lo as nat));
        lemma_half_diagonal_unique(r as nat, lo as nat, half_diagonal(r as nat));
    }
    lo
}

/// The vertices of a circle approximation of `resolution` points.
pub fn generate_circle_points(radius: i64, resolution: u32) -> (r: Vec<Point>)
    requires
        radius > i64::MIN,
    ensures
        r@ == circle_points(radius as int, resolution as nat),
        forall|i: int|
            0 <= i < r@.len() ==> within(#[trigger] r@[i], if radius < 0 {
                -radius
            } else {
                radius as int
            }),
{
    let magnitude: u64 = if radius < 0 { (-radius) as u64 } else { radius as u64 };
    let h = half_diagonal_of(magnitude);
    let d: i64 = if radius < 0 { -(h as i64) } else { h as i64 };
    assert(d == diag(radius as int));
    let mut points: Vec<Point> = Vec::new();
    let mut i: u32 = 0;
    while i < resolution
        invariant
            radius > i64::MIN,
            d == diag(radius as int),
            -radius <= d <= radius || radius <= d <= -radius,
            i <= resolution,
            points@ =~= circle_points(radius as int, resolution as nat).take(i as int),
            forall|j: int|
                0 <= j < points@.len() ==> within(#[trigger] points@[j], if radius < 0 {
                    -radius
                } else {
                    radius as int
                }),
        decreases resolution - i,
    {
        let k = i % 8;
        let p = if k == 0 {
            Point::new(radius, 0)
        } else if k == 1 {
            Point::new(d, d)
        } else if k == 2 {
            Point::new(0, radius)
        } else if k == 3 {
            Point::new(-d, d)
        } else if k == 4 {
            Point::new(-radius, 0)
        } else if k == 5 {
            Point::new(-d, -d)
        } else if k == 6 {
            Point::new(0, -radius)
        } else {
            Point::new(d, -d)
        };
        points.push(p);
        i += 1;
    }
    points
}

/// The closed polygon through the points of `points`, each moved by the
/// matching point of `jitter`.
fn closed_moved(points: Vec<Point>, jitter: &Vec<Point>) -> (r: LineGroup)
    requires
        jitter@.len() == points@.len(),
        forall|i: int|
            0 <= i < points@.len() ==> {
                let p = #[trigger] points@[i];
                &&& i64::MIN <= p.x + jitter@[i].x <= i64::MAX
                &&& i64::MIN <= p.y + jitter@[i].y <= i64::MAX
            },
    ensures
        r@ == closed_of(moved_each(points@, jitter@)),
{
    let ghost cp = points@;
    let mut moved: Vec<Point> = Vec::new();
    let mut i: usize = 0;
    while i < points.len()
        invariant
            points@ == cp,
            jitter@.len() == cp.len(),
            forall|j: int|
                0 <= j < cp.len() ==> {
                    let p = #[trigger] cp[j];
                    &&& i64::MIN <= p.x + jitter@[j].x <= i64::MAX
                    &&& i64::MIN <= p.y + jitter@[j].y <= i64::MAX
                },
            i <= cp.len(),
            moved@ =~= moved_each(cp, jitter@).take(i as int),
        decreases cp.len() - i,
    {
        let p = points[i];
        let v = jitter[i];
        assert(i64::MIN <= cp[i as int].x + jitter@[i as int].x <= i64::MAX);
        assert(i64::MIN <= cp[i as int].y + jitter@[i as int].y <= i64::MAX);
        moved.push(Point::new(p.x + v.x, p.y + v.y));
        i += 1;
    }
    assert(moved@ =~= moved_each(cp, jitter@));
    LineGroup::generate_continuous_closed(moved)
}

impl LineGroup {
    /// A closed polygon through the circle points of `radius` and
    /// `resolution`.
    pub fn generate_circle(radius: i64, resolution: u32) -> (r: LineGroup)
        requires
            radius > i64::MIN,
        ensures
            r@ == closed_of(circle_points(radius as int, resolution as nat)),
    {
        let points = generate_circle_points(radius, resolution);
        LineGroup::generate_continuous_closed(points)
    }

    /// The circle polygon with vertex `i` moved by `jitter[i]`.
    pub fn jittered_circle(radius: i64, resolution: u32, jitter: &Vec<Point>) -> (r: LineGroup)
        requires
            radius > i64::MIN,
            jitter@.len() == resolution,
            forall|i: int|
                0 <= i < resolution ==> {
                    let p = #[trigger] circle_points(radius as int, resolution as nat)[i];
                    &&& i64::MIN <= p.x + jitter@[i].x <= i64::MAX
                    &&& i64::MIN <= p.y + jitter@[i].y <= i64::MAX
                },
        ensures
            r@ == closed_of(moved_each(circle_points(radius as int, resolution as nat), jitter@)),
    {
        let points = generate_circle_points(radius, resolution);
        closed_moved(points, jitter)
    }

    /// The circle polygon with each vertex moved by its own random offset,
    /// both coordinates drawn from `-range..range`; a range of zero moves
    /// nothing.
    pub fn generate_random_circle(radius: i64, resolution: u32, range: i64) -> (r: LineGroup)
        requires
            radius > i64::MIN,
            0 <= range,
            (if radius < 0 { -radius } else { radius as int }) + range <= i64::MAX,
        ensures
            exists|jitter: Seq<Point>|
                {
                    &&& jitter.len() == resolution
                    &&& forall|i: int| 0 <= i < resolution ==> jitter_in(#[trigger] jitter[i], range as int)
                    &&& r@ == closed_of(moved_each(circle_points(radius as int, resolution as nat), jitter))
                },
    {
        let mut jitter: Vec<Point> = Vec::new();
        let mut i: u32 = 0;
        while i < resolution
            invariant
                0 <= range,
                i <= resolution,
                jitter@.len() == i,
                forall|j: int| 0 <= j < i ==> jitter_in(#[trigger] jitter@[j], range as int),
            decreases resolution - i,
        {
            if range == 0 {
                jitter.push(Point::zero());
            } else {
                jitter.push(random_vec2_range(-range..range));
            }
            i += 1;
        }
        let points = generate_circle_points(radius, resolution);
        assert forall|j: int| 0 <= j < points@.len() implies {
            let p = #[trigger] points@[j];
            &&& i64::MIN <= p.x + jitter@[j].x <= i64::MAX
            &&& i64::MIN <= p.y + jitter@[j].y <= i64::MAX
        } by {
            assert(jitter_in(jitter@[j], range as int));
        }
        closed_moved(points, &jitter)
    }
}

} // verus!
