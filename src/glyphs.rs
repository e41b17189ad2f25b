use vstd::prelude::*;
use crate::line::{Line, Point};
use crate::line_group::{closed_of, continuous_of, LineGroup};
use crate::transform::offset_seq;
use vstd::std_specs::iter::IteratorSpec;

verus! {

/// Horizontal distance from one letter to the next in composed text.
pub const ADVANCE: i64 = 10;

pub open spec fn pt(x: int, y: int) -> Point {
    Point { x: x as i64, y: y as i64 }
}

pub open spec fn seg(ax: int, ay: int, bx: int, by: int) -> Line {
    Line { a: pt(ax, ay), b: pt(bx, by) }
}

/// The segments of each supported letter, drawn in a box from -4 to 4 on
/// both axes; any other character has no segments.
pub open spec fn glyph_of(c: char) -> Seq<Line> {
    if c == 'A' {
        continuous_of(seq![pt(-4, -4), pt(0, 4), pt(4, -4)]) + seq![seg(-3, 0, 3, 0)]
    } else if c == 'E' {
        continuous_of(seq![pt(3, -4), pt(-4, -4), pt(-4, 4), pt(3, 4)]) + seq![seg(-4, 0, 2, 0)]
    } else if c == 'F' {
        continuous_of(seq![pt(-4, -4), pt(-4, 4), pt(3, 4)]) + seq![seg(-4, 0, 2, 0)]
    } else if c == 'G' {
        continuous_of(seq![pt(4, 4), pt(-4, 3), pt(-4, -3), pt(4, -4), pt(4, 0), pt(0, 0)])
    } else if c == 'I' {
        seq![seg(0, -4, 0, 4)]
    } else if c == 'L' {
        continuous_of(seq![pt(-4, 4), pt(-4, -4), pt(2, -4)])
    } else if c == 'M' {
        continuous_of(seq![pt(-4, -4), pt(-2, 4), pt(0, 0), pt(2, 4), pt(4, -4)])
    } else if c == 'N' {
        continuous_of(seq![pt(-4, -4), pt(-4, 4), pt(4, -4), pt(4, 4)])
    } else if c == 'O' {
        closed_of(seq![pt(-2, -4), pt(2, -4), pt(4, 0), pt(2, 4), pt(-2, 4), pt(-4, 0)])
    } else if c == 'P' {
        continuous_of(seq![pt(-3, -4), pt(-3, 4), pt(2, 4), pt(3, 2), pt(2, 0), pt(-3, 0)])
    } else if c == 'R' {
        continuous_of(
            seq![pt(-3, -4), pt(-3, 4), pt(2, 4), pt(3, 2), pt(2, 0), pt(-3, 0), pt(3, -4)],
        )
    } else if c == 'S' {
        continuous_of(seq![pt(3, 4), pt(-4, 4), pt(-4, 0), pt(3, 0), pt(3, -4), pt(-4, -4)])
    } else if c == 'T' {
        seq![seg(0, -4, 0, 4), seg(-4, 4, 4, 4)]
    } else if c == 'U' {
        continuous_of(seq![pt(-4, 4), pt(-4, -2), pt(-2, -4), pt(2, -4), pt(4, -2), pt(4, 4)])
    } else if c == 'V' {
        continuous_of(seq![pt(-3, 4), pt(0, -4), pt(3, 4)])
    } else if c == 'Y' {
        continuous_of(seq![pt(-3, 4), pt(0, 0), pt(3, 4)]) + seq![seg(0, 0, 0, -4)]
    } else {
        seq![]
    }
}

/// The letters of `cs` side by side: the glyph of the `i`-th character moved
/// right by `i` advances, all in order.
pub open spec fn text_of(cs: Seq<char>) -> Seq<Line>
    decreases cs.len(),
{
    if cs.len() == 0 {
        seq![]
    } else {
        text_of(cs.drop_last()) + offset_seq(
            glyph_of(cs.last()),
            pt(ADVANCE * (cs.len() - 1), 0),
        )
    }
}

fn path(points: Vec<Point>) -> (r: LineGroup)
    ensures
        r@ == continuous_of(points@),
{
    LineGroup::generate_continuous(points)
}

fn stroke(ax: i64, ay: i64, bx: i64, by: i64) -> (r: LineGroup)
    ensures
        r@ == seq![seg(ax as int, ay as int, bx as int, by as int)],
{
    LineGroup::from_line(Line::new(Point::new(ax, ay), Point::new(bx, by)))
}

impl LineGroup {
    /// The glyph of one character; an empty group for unsupported ones.
    pub fn letter(letter: char) -> (r: LineGroup)
        ensures
            r@ == glyph_of(letter),
    {
        let p = |x: i64, y: i64| -> (r: Point)
            ensures
                r == pt(x as int, y as int),
            { Point::new(x, y) };
        match letter {
            'A' => {
                let v = vec![p(-4, -4), p(0, 4), p(4, -4)];
                assert(v@ =~= seq![pt(-4, -4), pt(0, 4), pt(4, -4)]);
                path(v).concat(stroke(-3, 0, 3, 0))
            },
            'E' => {
                let v = vec![p(3, -4), p(-4, -4), p(-4, 4), p(3, 4)];
                assert(v@ =~= seq![pt(3, -4), pt(-4, -4), pt(-4, 4), pt(3, 4)]);
                path(v).concat(stroke(-4, 0, 2, 0))
            },
            'F' => {
                let v = vec![p(-4, -4), p(-4, 4), p(3, 4)];
                assert(v@ =~= seq![pt(-4, -4), pt(-4, 4), pt(3, 4)]);
                path(v).concat(stroke(-4, 0, 2, 0))
            },
            'G' => {
                let v = vec![p(4, 4), p(-4, 3), p(-4, -3), p(4, -4), p(4, 0), p(0, 0)];
                assert(v@ =~= seq![pt(4, 4), pt(-4, 3), pt(-4, -3), pt(4, -4), pt(4, 0), pt(0, 0)]);
                path(v)
            },
            'I' => {
                stroke(0, -4, 0, 4)
            },
            'L' => {
                let v = vec![p(-4, 4), p(-4, -4), p(2, -4)];
                assert(v@ =~= seq![pt(-4, 4), pt(-4, -4), pt(2, -4)]);
                path(v)
            },
            'M' => {
                let v = vec![p(-4, -4), p(-2, 4), p(0, 0), p(2, 4), p(4, -4)];
                assert(v@ =~= seq![pt(-4, -4), pt(-2, 4), pt(0, 0), pt(2, 4), pt(4, -4)]);
                path(v)
            },
            'N' => {
                let v = vec![p(-4, -4), p(-4, 4), p(4, -4), p(4, 4)];
                assert(v@ =~= seq![pt(-4, -4), pt(-4, 4), pt(4, -4), pt(4, 4)]);
                path(v)
            },
            'O' => {
                let v = vec![p(-2, -4), p(2, -4), p(4, 0), p(2, 4), p(-2, 4), p(-4, 0)];
                assert(v@ =~= seq![pt(-2, -4), pt(2, -4), pt(4, 0), pt(2, 4), pt(-2, 4), pt(-4, 0)]);
                LineGroup::generate_continuous_closed(v)
            },
            'P' => {
                let v = vec![p(-3, -4), p(-3, 4), p(2, 4), p(3, 2), p(2, 0), p(-3, 0)];
                assert(v@ =~= seq![pt(-3, -4), pt(-3, 4), pt(2, 4), pt(3, 2), pt(2, 0), pt(-3, 0)]);
                path(v)
            },
            'R' => {
                let v = vec![p(-3, -4), p(-3, 4), p(2, 4), p(3, 2), p(2, 0), p(-3, 0), p(3, -4)];
                assert(v@ =~= seq![pt(-3, -4), pt(-3, 4), pt(2, 4), pt(3, 2), pt(2, 0), pt(-3, 0), pt(3, -4)]);
                path(v)
            },
            'S' => {
                let v = vec![p(3, 4), p(-4, 4), p(-4, 0), p(3, 0), p(3, -4), p(-4, -4)];
                assert(v@ =~= seq![pt(3, 4), pt(-4, 4), pt(-4, 0), pt(3, 0), pt(3, -4), pt(-4, -4)]);
                path(v)
            },
            'T' => {
                stroke(0, -4, 0, 4).concat(stroke(-4, 4, 4, 4))
            },
            'U' => {
                let v = vec![p(-4, 4), p(-4, -2), p(-2, -4), p(2, -4), p(4, -2), p(4, 4)];
                assert(v@ =~= seq![pt(-4, 4), pt(-4, -2), pt(-2, -4), pt(2, -4), pt(4, -2), pt(4, 4)]);
                path(v)
            },
            'V' => {
                let v = vec![p(-3, 4), p(0, -4), p(3, 4)];
                assert(v@ =~= seq![pt(-3, 4), pt(0, -4), pt(3, 4)]);
                path(v)
            },
            'Y' => {
                let v = vec![p(-3, 4), p(0, 0), p(3, 4)];
                assert(v@ =~= seq![pt(-3, 4), pt(0, 0), pt(3, 4)]);
                path(v).concat(stroke(0, 0, 0, -4))
            },
            _ => LineGroup::default(),
        }
    }
}

/// Every coordinate of a glyph lies between -4 and 4.
pub open spec fn in_glyph_box(l: Line) -> bool {
    -4 <= l.a.x <= 4 && -4 <= l.a.y <= 4 && -4 <= l.b.x <= 4 && -4 <= l.b.y <= 4
}

proof fn lemma_glyph_in_box(c: char)
    ensures
        forall|i: int| 0 <= i < glyph_of(c).len() ==> in_glyph_box(#[trigger] glyph_of(c)[i]),
{
    let g = glyph_of(c);
    assert forall|i: int| 0 <= i < g.len() implies in_glyph_box(#[trigger] g[i]) by {
        if c == 'A' || c == 'E' || c == 'F' || c == 'Y' {
            let k = (g.len() - 1) as int;
            if i < k {
                assert(g[i] == g.take(k)[i]);
            }
        }
    }
}

impl LineGroup {
    /// The glyphs of the characters of `text` side by side, each one advance
    /// to the right of the previous one.
    pub fn text(text: &str) -> (r: LineGroup)
        requires
            text@.len() <= 900_000_000_000_000_000,
        ensures
            r@ == text_of(text@),
    {
        let mut res = LineGroup::default();
        let mut offset: i64 = 0;
        let mut chars = text.chars();
        let ghost mut i: int = 0;
        assert(text@.take(0) =~= Seq::<char>::empty());
        loop
            invariant
                0 <= i <= text@.len(),
                text@.len() <= 900_000_000_000_000_000,
                chars.remaining() == text@.skip(i),
                offset == ADVANCE * i,
                res@ == text_of(text@.take(i)),
            ensures
                res@ == text_of(text@),
            decreases text@.len() - i,
        {
            match chars.next() {
                None => {
                    assert(text@.take(i) =~= text@);
                    break ;
                },
                Some(c) => {
                    assert(c == text@[i]);
                    let g = LineGroup::letter(c);
                    proof {
                        lemma_glyph_in_box(c);
                    }
                    let moved = g.offset(Point::new(offset, 0));
                    res.extend(moved);
                    proof {
                        let t = text@.take(i + 1);
                        assert(t.drop_last() =~= text@.take(i));
                        assert(t.last() == c);
                        i = i + 1;
                    }
                    offset = offset + ADVANCE;
                },
            }
        }
        res
    }
}

/// Two letters of text are the first glyph followed by the second one moved
/// one advance to the right.
pub proof fn law_text_two_letters(first: char, second: char)
    ensures
        text_of(seq![first, second]) == glyph_of(first) + offset_seq(glyph_of(second), pt(ADVANCE as int, 0)),
{
    let s = seq![first, second];
    assert(s.drop_last() =~= seq![first]);
    assert(seq![first].drop_last() =~= Seq::<char>::empty());
    let g = glyph_of(first);
    assert(offset_seq(g, pt(0, 0)) =~= g);
    assert(text_of(Seq::<char>::empty()) == Seq::<Line>::empty());
    assert(seq![first].last() == first);
    assert(Seq::<Line>::empty() + g =~= g);
    assert(text_of(seq![first]) == Seq::<Line>::empty() + offset_seq(g, pt(ADVANCE * 0, 0)));
}

} // verus!
