use vstd::prelude::*;
use crate::line::{record_of, Line, Point};
use crate::line_group::LineGroup;

verus! {

/// How many segments a packed buffer holds.
pub const LINE_NUMBER: usize = 256;

/// An exact fraction `num / den`.
#[derive(Clone, Copy, Debug, PartialEq, Eq, Structural)]
pub struct Ratio {
    pub num: i128,
    pub den: i128,
}

impl Ratio {
    pub open spec fn wf(&self) -> bool {
        self.den > 0
    }

    pub fn new(num: i128, den: i128) -> (r: Ratio)
        requires
            den > 0,
        ensures
            r == (Ratio { num, den }),
            r.wf(),
    {
        Ratio { num, den }
    }
}

/// Why a shape could not be packed for drawing.
#[derive(Clone, Copy, Debug, PartialEq, Eq, Structural)]
pub enum PackError {
    /// The shape has more segments than a packed buffer holds.
    CapacityExceeded,
    /// The shape has no segments, or no extent to normalize by.
    EmptyShape,
}

/// Record `i` of the buffer that packs `g`: the segment itself, or a
/// degenerate segment at the origin past the end of `g`.
pub open spec fn packed_record(g: Seq<Line>, i: int) -> Seq<i64> {
    if i < g.len() {
        record_of(g[i])
    } else {
        seq![0i64, 0i64, 0i64, 0i64]
    }
}

/// The segment that a packed record stands for.
pub open spec fn line_of_record(rec: Seq<i64>) -> Line {
    Line { a: Point { x: rec[0], y: rec[1] }, b: Point { x: rec[2], y: rec[3] } }
}

/// A fixed-capacity buffer of segment records and the stroke width, as the
/// stroke-drawing stage takes them.
#[derive(Clone, Copy, Debug)]
pub struct LineRendererSettings {
    pub lines: [[i64; 4]; LINE_NUMBER],
    pub width: Ratio,
}

impl LineRendererSettings {
    /// Packs the segments of `line_group` in order, filling the rest of the
    /// buffer with degenerate segments at the origin. Fails when there are
    /// more segments than the buffer holds.
    pub fn new(line_group: LineGroup, width: Ratio) -> (r: Result<LineRendererSettings, PackError>)
        ensures
            r is Err <==> line_group@.len() > LINE_NUMBER,
            r is Err ==> r == Err::<LineRendererSettings, PackError>(PackError::CapacityExceeded),
            r matches Ok(s) ==> s.width == width && forall|i: int|
                0 <= i < LINE_NUMBER ==> (#[trigger] s.lines@[i])@ == packed_record(line_group@, i),
    {
        let lines = line_group.get_lines();
        let line_amount = lines.len();
        if line_amount > LINE_NUMBER {
            return Err(PackError::CapacityExceeded);
        }
        let mut lines_array: [[i64; 4]; LINE_NUMBER] = [[0i64; 4]; LINE_NUMBER];
        let mut i: usize = 0;
        while i < line_amount
            invariant
                line_amount == lines@.len() <= LINE_NUMBER,
                lines@ == line_group@,
                i <= line_amount,
                forall|j: int| 0 <= j < LINE_NUMBER ==> (#[trigger] lines_array@[j])@ == if j < i {
                    record_of(lines@[j])
                } else {
                    seq![0i64, 0i64, 0i64, 0i64]
                },
            decreases line_amount - i,
        {
            lines_array[i] = lines[i].as_vec4();
            i += 1;
        }
        Ok(LineRendererSettings { lines: lines_array, width })
    }

    /// All the records of the buffer as segments, unused slots included.
    pub fn get_lines(&self) -> (r: LineGroup)
        ensures
            r@.len() == LINE_NUMBER,
            forall|i: int| 0 <= i < LINE_NUMBER ==> #[trigger] r@[i] == line_of_record(self.lines@[i]@),
    {
        let mut res = LineGroup::default();
        let mut i: usize = 0;
        while i < LINE_NUMBER
            invariant
                i <= LINE_NUMBER,
                res@.len() == i,
                forall|j: int| 0 <= j < i ==> #[trigger] res@[j] == line_of_record(self.lines@[j]@),
            decreases LINE_NUMBER - i,
        {
            let rec = self.lines[i];
            res.add_line(Line::new(Point::new(rec[0], rec[1]), Point::new(rec[2], rec[3])));
            i += 1;
        }
        res
    }
}

/// What the stroke-drawing material is made from.
#[derive(Clone, Copy, Debug)]
pub struct LineRendererMaterial {
    pub settings: LineRendererSettings,
}

impl LineRendererMaterial {
    pub fn new(settings: LineRendererSettings) -> (r: LineRendererMaterial)
        ensures
            r.settings == settings,
    {
        LineRendererMaterial { settings }
    }
}

/// The stroke width asked of every shape.
#[derive(Clone, Copy, Debug, PartialEq, Eq, Structural)]
pub struct LineRendererWidth(pub Ratio);

} // verus!
