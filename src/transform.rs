use vstd::prelude::*;
use crate::line::{Line, Point};
use crate::line_group::LineGroup;
use crate::settings::Ratio;
use vstd::arithmetic::div_mod::{lemma_fundamental_div_mod, lemma_fundamental_div_mod_converse, lemma_mod_pos_bound};

verus! {

/// `v` is a value that an `i64` can hold.
pub open spec fn fits(v: int) -> bool {
    i64::MIN <= v <= i64::MAX
}

pub open spec fn shift(p: Point, v: Point) -> Point {
    Point { x: (p.x + v.x) as i64, y: (p.y + v.y) as i64 }
}

pub open spec fn shift_fits(p: Point, v: Point) -> bool {
    fits(p.x + v.x) && fits(p.y + v.y)
}

pub open spec fn scale(p: Point, f: int) -> Point {
    Point { x: (p.x * f) as i64, y: (p.y * f) as i64 }
}

pub open spec fn scale_fits(p: Point, f: int) -> bool {
    fits(p.x * f) && fits(p.y * f)
}

pub open spec fn flip(p: Point) -> Point {
    Point { x: p.x, y: (-p.y) as i64 }
}

/// `v * num / den`, rounded down.
pub open spec fn scale_coord(v: int, num: int, den: int) -> int {
    (v * num) / den
}

pub open spec fn scale_by(p: Point, f: Ratio) -> Point {
    Point {
        x: scale_coord(p.x as int, f.num as int, f.den as int) as i64,
        y: scale_coord(p.y as int, f.num as int, f.den as int) as i64,
    }
}

pub open spec fn scale_by_fits(p: Point, f: Ratio) -> bool {
    fits(scale_coord(p.x as int, f.num as int, f.den as int)) && fits(
        scale_coord(p.y as int, f.num as int, f.den as int),
    )
}

/// A factor whose products with any `i64` stay well within `i128`.
pub open spec fn factor_in_range(f: Ratio) -> bool {
    0 < f.den <= i64::MAX && i64::MIN < f.num <= i64::MAX
}

/// Every endpoint of `s` multiplied by the fraction `f`, rounded down.
pub open spec fn scaled_by_seq(s: Seq<Line>, f: Ratio) -> Seq<Line> {
    s.map_values(|l: Line| Line { a: scale_by(l.a, f), b: scale_by(l.b, f) })
}

pub open spec fn scaled_by_fits(s: Seq<Line>, f: Ratio) -> bool {
    forall|i: int| 0 <= i < s.len() ==> scale_by_fits(#[trigger] s[i].a, f) && scale_by_fits(s[i].b, f)
}

/// `v * num / den` rounded down, for a positive `den`.
fn scale_coord_exec(v: i64, num: i128, den: i128) -> (r: i128)
    requires
        0 < den <= i64::MAX,
        i64::MIN < num <= i64::MAX,
    ensures
        r == scale_coord(v as int, num as int, den as int),
{
    assert(-0x4000_0000_0000_0000_0000_0000_0000_0000 <= v * num <= 0x4000_0000_0000_0000_0000_0000_0000_0000) by (nonlinear_arith)
        requires
            -0x8000_0000_0000_0000 <= v <= 0x8000_0000_0000_0000,
            -0x8000_0000_0000_0000 <= num <= 0x8000_0000_0000_0000,
    ;
    let n: i128 = v as i128 * num;
    let d: u128 = den as u128;
    if n >= 0 {
        let q: u128 = n as u128 / d;
        proof {
            lemma_fundamental_div_mod(n as int, d as int);
            lemma_mod_pos_bound(n as int, d as int);
            assert(d * q == q * d) by (nonlinear_arith);
            lemma_fundamental_div_mod_converse(n as int, den as int, q as int, n - q * d);
        }
        q as i128
    } else {
        let m: u128 = (-n) as u128;
        let t: u128 = (m + d - 1) / d;
        proof {
            let x = (m + d - 1) as int;
            lemma_fundamental_div_mod(x, d as int);
            lemma_mod_pos_bound(x, d as int);
            assert(d * t == t * d) by (nonlinear_arith);
            assert(t * d <= x < t * d + d);
            assert((-t) * d == -(t * d)) by (nonlinear_arith);
            assert(n == (-t) * d + (n + t * d));
            lemma_fundamental_div_mod_converse(n as int, den as int, -t, n + t * d);
        }
        -(t as i128)
    }
}

/// Every segment of `s` moved by `v`.
pub open spec fn offset_seq(s: Seq<Line>, v: Point) -> Seq<Line> {
    s.map_values(|l: Line| Line { a: shift(l.a, v), b: shift(l.b, v) })
}

/// Moving every segment of `s` by `v` stays within `i64`.
pub open spec fn offset_fits(s: Seq<Line>, v: Point) -> bool {
    forall|i: int| 0 <= i < s.len() ==> shift_fits(#[trigger] s[i].a, v) && shift_fits(s[i].b, v)
}

/// Every endpoint of `s` multiplied by `f`.
pub open spec fn scaled_seq(s: Seq<Line>, f: int) -> Seq<Line> {
    s.map_values(|l: Line| Line { a: scale(l.a, f), b: scale(l.b, f) })
}

pub open spec fn scaled_fits(s: Seq<Line>, f: int) -> bool {
    forall|i: int| 0 <= i < s.len() ==> scale_fits(#[trigger] s[i].a, f) && scale_fits(s[i].b, f)
}

/// Every endpoint of `s` with its `y` negated.
pub open spec fn flipped_seq(s: Seq<Line>) -> Seq<Line> {
    s.map_values(|l: Line| Line { a: flip(l.a), b: flip(l.b) })
}

pub open spec fn flip_fits(s: Seq<Line>) -> bool {
    forall|i: int| 0 <= i < s.len() ==> fits(-(#[trigger] s[i]).a.y) && fits(-s[i].b.y)
}

impl LineGroup {
    /// Every endpoint multiplied by `factor`.
    pub fn scaled(&self, factor: i64) -> (r: LineGroup)
        requires
            scaled_fits(self@, factor as int),
        ensures
            r@ == scaled_seq(self@, factor as int),
    {
        let lines = self.get_lines();
        let mut res = LineGroup::default();
        let mut i: usize = 0;
        while i < lines.len()
            invariant
                lines@ == self@,
                scaled_fits(self@, factor as int),
                i <= lines@.len(),
                res@ =~= scaled_seq(self@, factor as int).take(i as int),
            decreases lines@.len() - i,
        {
            let line = lines[i];
            assert(scale_fits(self@[i as int].a, factor as int));
            let a = Point::new(line.a.x * factor, line.a.y * factor);
            let b = Point::new(line.b.x * factor, line.b.y * factor);
            res.add_line(Line::new(a, b));
            i += 1;
        }
        assert(scaled_seq(self@, factor as int).take(lines@.len() as int) =~= scaled_seq(self@, factor as int));
        res
    }

    /// Every endpoint multiplied by the fraction `factor` and rounded down
    /// onto the lattice.
    pub fn scaled_by(&self, factor: Ratio) -> (r: LineGroup)
        requires
            factor_in_range(factor),
            scaled_by_fits(self@, factor),
        ensures
            r@ == scaled_by_seq(self@, factor),
    {
        let lines = self.get_lines();
        let mut res = LineGroup::default();
        let mut i: usize = 0;
        while i < lines.len()
            invariant
                lines@ == self@,
                factor_in_range(factor),
                scaled_by_fits(self@, factor),
                i <= lines@.len(),
                res@ =~= scaled_by_seq(self@, factor).take(i as int),
            decreases lines@.len() - i,
        {
            let line = lines[i];
            assert(scale_by_fits(self@[i as int].a, factor) && scale_by_fits(self@[i as int].b, factor));
            let ax = scale_coord_exec(line.a.x, factor.num, factor.den) as i64;
            let ay = scale_coord_exec(line.a.y, factor.num, factor.den) as i64;
            let bx = scale_coord_exec(line.b.x, factor.num, factor.den) as i64;
            let by = scale_coord_exec(line.b.y, factor.num, factor.den) as i64;
            res.add_line(Line::new(Point::new(ax, ay), Point::new(bx, by)));
            i += 1;
        }
        assert(scaled_by_seq(self@, factor).take(lines@.len() as int) =~= scaled_by_seq(self@, factor));
        res
    }

    /// Every endpoint moved by `offset`.
    pub fn offset(&self, offset: Point) -> (r: LineGroup)
        requires
            offset_fits(self@, offset),
        ensures
            r@ == offset_seq(self@, offset),
    {
        let lines = self.get_lines();
        let mut res = LineGroup::default();
        let mut i: usize = 0;
        while i < lines.len()
            invariant
                lines@ == self@,
                offset_fits(self@, offset),
                i <= lines@.len(),
                res@ =~= offset_seq(self@, offset).take(i as int),
            decreases lines@.len() - i,
        {
            let line = lines[i];
            assert(shift_fits(self@[i as int].a, offset));
            let a = Point::new(line.a.x + offset.x, line.a.y + offset.y);
            let b = Point::new(line.b.x + offset.x, line.b.y + offset.y);
            res.add_line(Line::new(a, b));
            i += 1;
        }
        assert(offset_seq(self@, offset).take(lines@.len() as int) =~= offset_seq(self@, offset));
        res
    }

    /// Every endpoint with its `y` negated.
    pub fn flipped_vertically(&self) -> (r: LineGroup)
        requires
            flip_fits(self@),
        ensures
            r@ == flipped_seq(self@),
    {
        let lines = self.get_lines();
        let mut res = LineGroup::default();
        let mut i: usize = 0;
        while i < lines.len()
            invariant
                lines@ == self@,
                flip_fits(self@),
                i <= lines@.len(),
                res@ =~= flipped_seq(self@).take(i as int),
            decreases lines@.len() - i,
        {
            let line = lines[i];
            assert(fits(-self@[i as int].a.y));
            let a = Point::new(line.a.x, -line.a.y);
            let b = Point::new(line.b.x, -line.b.y);
            res.add_line(Line::new(a, b));
            i += 1;
        }
        assert(flipped_seq(self@).take(lines@.len() as int) =~= flipped_seq(self@));
        res
    }
}

/// Scaling by one leaves every group as it is.
pub proof fn law_scaled_by_one(g: Seq<Line>)
    ensures
        scaled_seq(g, 1) == g,
{
    assert(scaled_seq(g, 1) =~= g);
}

/// Scaling by `a` and then by `b` is scaling once by `a * b`.
pub proof fn law_scaled_twice(g: Seq<Line>, a: i64, b: i64)
    requires
        fits(a * b),
        scaled_fits(g, a as int),
        scaled_fits(scaled_seq(g, a as int), b as int),
    ensures
        scaled_fits(g, a * b),
        scaled_seq(scaled_seq(g, a as int), b as int) == scaled_seq(g, a * b),
{
    assert forall|i: int| 0 <= i < g.len() implies scale_fits(#[trigger] g[i].a, a * b) && scale_fits(
        g[i].b,
        a * b,
    ) && scale(scale(g[i].a, a as int), b as int) == scale(g[i].a, a * b) && scale(
        scale(g[i].b, a as int),
        b as int,
    ) == scale(g[i].b, a * b) by {
        assert(scale_fits(scaled_seq(g, a as int)[i].a, b as int));
        assert(scale_fits(scaled_seq(g, a as int)[i].b, b as int));
        let (ax, ay, bx, by) = (g[i].a.x as int, g[i].a.y as int, g[i].b.x as int, g[i].b.y as int);
        assert(ax * a * b == ax * (a * b)) by (nonlinear_arith);
        assert(ay * a * b == ay * (a * b)) by (nonlinear_arith);
        assert(bx * a * b == bx * (a * b)) by (nonlinear_arith);
        assert(by * a * b == by * (a * b)) by (nonlinear_arith);
    }
    assert(scaled_seq(scaled_seq(g, a as int), b as int) =~= scaled_seq(g, a * b));
}

/// Moving by `v1` and then by `v2` is moving once by `v1 + v2`.
pub proof fn law_offset_twice(g: Seq<Line>, v1: Point, v2: Point)
    requires
        shift_fits(v1, v2),
        offset_fits(g, v1),
        offset_fits(offset_seq(g, v1), v2),
    ensures
        offset_fits(g, shift(v1, v2)),
        offset_seq(offset_seq(g, v1), v2) == offset_seq(g, shift(v1, v2)),
{
    assert forall|i: int| 0 <= i < g.len() implies shift_fits(#[trigger] g[i].a, shift(v1, v2))
        && shift_fits(g[i].b, shift(v1, v2)) by {
        assert(shift_fits(offset_seq(g, v1)[i].a, v2));
        assert(shift_fits(offset_seq(g, v1)[i].b, v2));
    }
    assert(offset_seq(offset_seq(g, v1), v2) =~= offset_seq(g, shift(v1, v2)));
}

} // verus!
