use vstd::prelude::*;
use crate::line::{Line, Point};
use itertools::Itertools;

verus! {

/// Every endpoint of `s` in traversal order: `a` then `b` of each segment.
pub open spec fn points_of(s: Seq<Line>) -> Seq<Point> {
    Seq::new(2 * s.len(), |i: int| if i % 2 == 0 { s[i / 2].a } else { s[i / 2].b })
}

/// The points of `s` with repeats removed, each kept where it is first seen.
pub open spec fn first_seen(s: Seq<Point>) -> Seq<Point>
    decreases s.len(),
{
    if s.len() == 0 {
        seq![]
    } else {
        let d = first_seen(s.drop_last());
        if d.contains(s.last()) {
            d
        } else {
            d.push(s.last())
        }
    }
}

/// The segments joining each point of `p` to the next one.
pub open spec fn continuous_of(p: Seq<Point>) -> Seq<Line> {
    Seq::new(
        if p.len() == 0 { 0 } else { (p.len() - 1) as nat },
        |i: int| Line { a: p[i], b: p[i + 1] },
    )
}

/// `continuous_of(p)` closed by a segment from the last point back to the
/// first, when there is at least one segment to close.
pub open spec fn closed_of(p: Seq<Point>) -> Seq<Line> {
    if p.len() >= 2 {
        continuous_of(p).push(Line { a: p[p.len() - 1], b: p[0] })
    } else {
        continuous_of(p)
    }
}

proof fn lemma_first_seen_contains(s: Seq<Point>)
    ensures
        forall|x: Point| first_seen(s).contains(x) <==> s.contains(x),
    decreases s.len(),
{
    if s.len() > 0 {
        lemma_first_seen_contains(s.drop_last());
        assert forall|x: Point| s.contains(x) <==> (s.drop_last().contains(x) || x == s.last()) by {
            if s.contains(x) {
                let i = choose|i: int| 0 <= i < s.len() && s[i] == x;
                if i < s.len() - 1 {
                    assert(s.drop_last()[i] == x);
                }
            }
            if s.drop_last().contains(x) {
                let i = choose|i: int| 0 <= i < s.drop_last().len() && s.drop_last()[i] == x;
                assert(s[i] == x);
            }
            if x == s.last() {
                assert(s[s.len() - 1] == x);
            }
        }
        let d = first_seen(s.drop_last());
        assert forall|x: Point| d.push(s.last()).contains(x) <==> (d.contains(x) || x == s.last()) by {
            if d.push(s.last()).contains(x) {
                let i = choose|i: int| 0 <= i < d.push(s.last()).len() && d.push(s.last())[i] == x;
                if i < d.len() {
                    assert(d[i] == x);
                }
            }
            if d.contains(x) {
                let i = choose|i: int| 0 <= i < d.len() && d[i] == x;
                assert(d.push(s.last())[i] == x);
            }
            if x == s.last() {
                assert(d.push(s.last())[d.len() as int] == x);
            }
        }
    }
}

proof fn lemma_first_seen_shape(s: Seq<Point>)
    ensures
        first_seen(s).no_duplicates(),
        s.len() > 0 ==> first_seen(s).len() > 0 && first_seen(s)[0] == s[0],
    decreases s.len(),
{
    if s.len() > 0 {
        let t = s.drop_last();
        lemma_first_seen_shape(t);
        let d = first_seen(t);
        if !d.contains(s.last()) {
            let e = d.push(s.last());
            assert forall|i: int, j: int| 0 <= i < e.len() && 0 <= j < e.len() && i != j implies e[i]
                != e[j] by {
                if i < d.len() && j < d.len() {
                    assert(d[i] != d[j]);
                } else if i < d.len() {
                    assert(d.contains(d[i]));
                } else if j < d.len() {
                    assert(d.contains(d[j]));
                }
            }
        }
        if t.len() == 0 {
            assert(d.len() == 0);
            assert(!d.contains(s.last()));
            assert(d.push(s.last())[0] == s[0]);
        } else {
            assert(t[0] == s[0]);
            if !d.contains(s.last()) {
                assert(d.push(s.last())[0] == d[0]);
            }
        }
    }
}

/// An ordered collection of segments. Repeats are allowed and kept.
pub struct LineGroup {
    lines: Vec<Line>,
}

impl View for LineGroup {
    type V = Seq<Line>;

    closed spec fn view(&self) -> Seq<Line> {
        self.lines@
    }
}

impl Clone for LineGroup {
    fn clone(&self) -> (r: Self)
        ensures
            r@ == self@,
    {
        let lines = self.lines.clone();
        assert(lines@ =~= self.lines@);
        LineGroup { lines }
    }
}

impl Default for LineGroup {
    fn default() -> (r: Self)
        ensures
            r@ == Seq::<Line>::empty(),
    {
        LineGroup { lines: Vec::new() }
    }
}

/// Relies on itertools' `tuple_windows` over pairs: each point with the one
/// that follows it, in order.
#[verifier::external_body]
fn neighbour_pairs(points: &Vec<Point>) -> (r: Vec<(Point, Point)>)
    ensures
        r@.len() == if points@.len() == 0 { 0 } else { points@.len() - 1 },
        forall|i: int| 0 <= i < r@.len() ==> #[trigger] r@[i] == (points@[i], points@[i + 1]),
{
    points.iter().tuple_windows().map(|(a, b): (&Point, &Point)| (*a, *b)).collect()
}

fn contains_point(v: &Vec<Point>, p: Point) -> (r: bool)
    ensures
        r == v@.contains(p),
{
    let mut i: usize = 0;
    while i < v.len()
        invariant
            i <= v@.len(),
            forall|j: int| 0 <= j < i ==> v@[j] != p,
        decreases v@.len() - i,
    {
        if v[i] == p {
            assert(v@[i as int] == p);
            return true;
        }
        i += 1;
    }
    false
}

impl LineGroup {
    pub fn new(lines: Vec<Line>) -> (r: LineGroup)
        ensures
            r@ == lines@,
    {
        LineGroup { lines }
    }

    pub fn get_lines(&self) -> (r: &Vec<Line>)
        ensures
            r@ == self@,
    {
        &self.lines
    }

    pub fn from_line(line: Line) -> (r: LineGroup)
        ensures
            r@ == seq![line],
    {
        let r = LineGroup::new(vec![line]);
        assert(r@ =~= seq![line]);
        r
    }

    pub fn add_line(&mut self, line: Line)
        ensures
            final(self)@ == old(self)@.push(line),
    {
        self.lines.push(line);
    }

    /// Every endpoint in traversal order, repeats included.
    pub fn to_points(&self) -> (r: Vec<Point>)
        ensures
            r@ == points_of(self@),
    {
        let mut points: Vec<Point> = Vec::new();
        let mut i: usize = 0;
        while i < self.lines.len()
            invariant
                i <= self@.len(),
                points@.len() == 2 * i,
                forall|j: int| 0 <= j < 2 * i ==> points@[j] == #[trigger] points_of(self@)[j],
            decreases self@.len() - i,
        {
            let line = self.lines[i];
            points.push(line.a);
            points.push(line.b);
            proof {
                assert(points_of(self@)[2 * i as int] == line.a);
                assert(points_of(self@)[2 * i + 1] == line.b);
            }
            i += 1;
        }
        assert(points@ =~= points_of(self@));
        points
    }

    /// Every endpoint once, in the order in which it is first met.
    pub fn to_unique_points(&self) -> (r: Vec<Point>)
        ensures
            r@ == first_seen(points_of(self@)),
    {
        let all = self.to_points();
        let mut points: Vec<Point> = Vec::new();
        let mut k: usize = 0;
        while k < all.len()
            invariant
                k <= all@.len(),
                all@ == points_of(self@),
                points@ == first_seen(all@.take(k as int)),
            decreases all@.len() - k,
        {
            let p = all[k];
            proof {
                assert(all@.take(k + 1).drop_last() =~= all@.take(k as int));
                assert(all@.take(k + 1).last() == p);
            }
            if !contains_point(&points, p) {
                points.push(p);
            }
            k += 1;
        }
        assert(all@.take(all@.len() as int) =~= all@);
        points
    }

    /// The unique endpoints with the first one repeated at the end: a closed
    /// outline.
    pub fn to_unique_points_looped(&self) -> (r: Vec<Point>)
        requires
            self@.len() > 0,
        ensures
            r@ == first_seen(points_of(self@)).push(first_seen(points_of(self@))[0]),
            r@.len() >= 2,
            r@[0] == r@.last(),
            r@.drop_last().no_duplicates(),
    {
        let mut points = self.to_unique_points();
        proof {
            lemma_first_seen_shape(points_of(self@));
            assert(points_of(self@).len() > 0);
        }
        let first = points[0];
        points.push(first);
        assert(points@.drop_last() =~= first_seen(points_of(self@)));
        points
    }

    /// The segments of `self` followed by those of `other`.
    pub fn concat(&self, other: LineGroup) -> (r: LineGroup)
        ensures
            r@ == self@ + other@,
    {
        let mut new = self.clone();
        new.extend(other);
        new
    }

    /// Appends the segments of `other` after those of `self`.
    pub fn extend(&mut self, other: LineGroup)
        ensures
            final(self)@ == old(self)@ + other@,
    {
        let mut other = other;
        self.lines.append(&mut other.lines);
    }

    /// One segment from each point to the next: `k - 1` segments for `k`
    /// points, none for fewer than two.
    pub fn generate_continuous(points: Vec<Point>) -> (r: LineGroup)
        ensures
            r@ == continuous_of(points@),
    {
        let pairs = neighbour_pairs(&points);
        let mut lines: Vec<Line> = Vec::new();
        let mut i: usize = 0;
        while i < pairs.len()
            invariant
                i <= pairs@.len(),
                pairs@.len() == continuous_of(points@).len(),
                forall|j: int| 0 <= j < pairs@.len() ==> #[trigger] pairs@[j] == (points@[j], points@[j + 1]),
                lines@ =~= continuous_of(points@).take(i as int),
            decreases pairs@.len() - i,
        {
            let (a, b) = pairs[i];
            assert(pairs@[i as int] == (points@[i as int], points@[i + 1]));
            lines.push(Line::new(a, b));
            i += 1;
        }
        assert(continuous_of(points@).take(pairs@.len() as int) =~= continuous_of(points@));
        LineGroup::new(lines)
    }

    /// The continuous path through `points`, closed by a segment from the
    /// last point to the first when the path has a segment at all.
    pub fn generate_continuous_closed(points: Vec<Point>) -> (r: LineGroup)
        ensures
            r@ == closed_of(points@),
            r@.len() == if points@.len() >= 2 { points@.len() } else { 0 },
    {
        let mut line_group = LineGroup::generate_continuous(points);
        if line_group.lines.len() > 0 {
            let first = line_group.lines[0];
            let last = line_group.lines[line_group.lines.len() - 1];
            line_group.add_line(Line::new(last.b, first.a));
        }
        line_group
    }
}

} // verus!
