use vstd::prelude::*;
use crate::bounds::bounding_size_of;
use crate::line::Line;
use crate::line_group::LineGroup;
use crate::settings::{
    packed_record, LineRendererMaterial, LineRendererSettings, PackError, Ratio, LINE_NUMBER,
};
use crate::transform::{flip_fits, flipped_seq};

verus! {

/// Room left around a shape inside its quad, as the fraction 6/5.
pub const PADDING_NUM: i128 = 6;

pub const PADDING_DEN: i128 = 5;

/// The bounding size at which a stroke is drawn at the width asked for.
pub const REFERENCE_SIZE: i128 = 100;

/// A shape made ready for drawing: a square quad of half-size `half_size`,
/// and a material whose records hold the shape's segments flipped
/// vertically. A record's numbers times `scale` are its coordinates in the
/// quad's unit square.
#[derive(Clone, Copy, Debug)]
pub struct LineQuad {
    pub half_size: Ratio,
    pub scale: Ratio,
    pub material: LineRendererMaterial,
}

/// A width that the normalizer can rescale without leaving `i128`.
pub open spec fn width_in_range(w: Ratio) -> bool {
    0 < w.den <= i64::MAX && i64::MIN < w.num <= i64::MAX
}

/// What packing the shape `lines` at stroke width `line_width` gives.
pub open spec fn is_packing(lines: Seq<Line>, line_width: Ratio, r: Result<LineQuad, PackError>) -> bool {
    &&& (r == Err::<LineQuad, PackError>(PackError::EmptyShape) <==> (lines.len() == 0
        || bounding_size_of(lines) == 0))
    &&& (r == Err::<LineQuad, PackError>(PackError::CapacityExceeded) <==> (lines.len() > 0
        && bounding_size_of(lines) > 0 && lines.len() > LINE_NUMBER))
    &&& (r matches Ok(q) ==> {
        let size = bounding_size_of(lines);
        &&& q.half_size == (Ratio { num: (PADDING_NUM * size) as i128, den: PADDING_DEN })
        &&& q.scale == (Ratio { num: PADDING_DEN, den: (PADDING_NUM * size) as i128 })
        &&& q.material.settings.width == (Ratio {
            num: (REFERENCE_SIZE * line_width.num) as i128,
            den: (size * line_width.den) as i128,
        })
        &&& forall|i: int|
            0 <= i < LINE_NUMBER ==> (#[trigger] q.material.settings.lines@[i])@ == packed_record(
                flipped_seq(lines),
                i,
            )
    })
}

/// Packs `lines` for drawing at stroke width `line_width`. With `R` the
/// bounding size of the shape, the quad's half-size is `R * 6/5`, the
/// segments are scaled by `1 / (R * 6/5)` into the quad's unit square and
/// flipped vertically, and the width becomes `line_width / (R / 100)`, so
/// that strokes look equally thick whatever the size of the shape.
pub fn lines_to_mesh(lines: &LineGroup, line_width: Ratio) -> (r: Result<LineQuad, PackError>)
    requires
        width_in_range(line_width),
        flip_fits(lines@),
    ensures
        is_packing(lines@, line_width, r),
{
    if lines.get_lines().len() == 0 {
        return Err(PackError::EmptyShape);
    }
    let bounding_size = lines.calculate_bounding_size();
    if bounding_size == 0 {
        return Err(PackError::EmptyShape);
    }
    let size = bounding_size as i128;
    let half_size = Ratio::new(PADDING_NUM * size, PADDING_DEN);
    let scale = Ratio::new(PADDING_DEN, PADDING_NUM * size);
    assert(0 < size * line_width.den <= u64::MAX * i64::MAX) by (nonlinear_arith)
        requires
            0 < size <= u64::MAX,
            0 < line_width.den <= i64::MAX,
    ;
    let adjusted_width = Ratio::new(REFERENCE_SIZE * line_width.num, size * line_width.den);
    let flipped_lines = lines.flipped_vertically();
    match LineRendererSettings::new(flipped_lines, adjusted_width) {
        Ok(settings) => Ok(
            LineQuad { half_size, scale, material: LineRendererMaterial::new(settings) },
        ),
        Err(e) => Err(e),
    }
}

} // verus!
