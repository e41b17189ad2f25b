use vstd::prelude::*;
use std::collections::HashMap;
use crate::line::Line;
use crate::line_group::LineGroup;
use crate::line_mesh::{is_packing, lines_to_mesh, width_in_range, LineQuad};
use crate::settings::{LineRendererWidth, PackError, Ratio};
use crate::transform::flip_fits;

verus! {

broadcast use vstd::std_specs::hash::group_hash_axioms;

/// The shape last submitted for one identity, as it was given, before any
/// normalization.
pub struct LineHistory {
    pub lines: LineGroup,
}

impl LineHistory {
    pub fn new(lines: LineGroup) -> (r: LineHistory)
        ensures
            r.lines@ == lines@,
    {
        LineHistory { lines }
    }
}

impl Clone for LineHistory {
    fn clone(&self) -> (r: Self)
        ensures
            r.lines@ == self.lines@,
    {
        LineHistory { lines: self.lines.clone() }
    }
}

/// No shape has been recorded for an identity.
#[derive(Clone, Copy, Debug, PartialEq, Eq, Structural)]
pub enum HistoryError {
    UnknownId,
}

/// Packs shapes for drawing and keeps, for each identity, the shape that
/// was last submitted for it. Identities are issued and retired by the
/// caller; an entry stays until `remove` is called for it.
pub struct LineRenderer {
    line_width: Ratio,
    history: HashMap<u64, LineHistory>,
}

impl LineRenderer {
    /// The recorded shape of each identity.
    pub closed spec fn shapes(&self) -> Map<u64, Seq<Line>> {
        self.history@.map_values(|h: LineHistory| h.lines@)
    }

    /// The stroke width asked of every shape.
    pub closed spec fn width(&self) -> Ratio {
        self.line_width
    }

    pub open spec fn wf(&self) -> bool {
        width_in_range(self.width())
    }

    /// A renderer that has recorded nothing yet.
    pub fn new(line_width: LineRendererWidth) -> (r: LineRenderer)
        requires
            width_in_range(line_width.0),
        ensures
            r.wf(),
            r.width() == line_width.0,
            r.shapes() == Map::<u64, Seq<Line>>::empty(),
    {
        let r = LineRenderer { line_width: line_width.0, history: HashMap::new() };
        assert(r.shapes() =~= Map::<u64, Seq<Line>>::empty());
        r
    }

    /// Records `lines` as the shape of `id`, in place of any earlier one, and
    /// packs them for drawing. The shape is recorded whether or not it packs:
    /// the record is the caller's logical shape, not its drawing.
    pub fn submit(&mut self, id: u64, lines: LineGroup) -> (r: Result<LineQuad, PackError>)
        requires
            old(self).wf(),
            flip_fits(lines@),
        ensures
            final(self).wf(),
            final(self).width() == old(self).width(),
            is_packing(lines@, old(self).width(), r),
            final(self).shapes() == old(self).shapes().insert(id, lines@),
    {
        let r = lines_to_mesh(&lines, self.line_width);
        let ghost before = self.shapes();
        self.history.insert(id, LineHistory::new(lines));
        assert(self.shapes() =~= before.insert(id, lines@));
        r
    }

    /// Records the shape of a new object and packs it for drawing.
    pub fn spawn(&mut self, id: u64, lines: LineGroup) -> (r: Result<LineQuad, PackError>)
        requires
            old(self).wf(),
            flip_fits(lines@),
        ensures
            final(self).wf(),
            final(self).width() == old(self).width(),
            is_packing(lines@, old(self).width(), r),
            final(self).shapes() == old(self).shapes().insert(id, lines@),
    {
        self.submit(id, lines)
    }

    /// Replaces the shape of an object and packs the new one for drawing.
    pub fn update(&mut self, id: u64, lines: LineGroup) -> (r: Result<LineQuad, PackError>)
        requires
            old(self).wf(),
            flip_fits(lines@),
        ensures
            final(self).wf(),
            final(self).width() == old(self).width(),
            is_packing(lines@, old(self).width(), r),
            final(self).shapes() == old(self).shapes().insert(id, lines@),
    {
        self.submit(id, lines)
    }

    /// The shape last recorded for `id`.
    pub fn get_lines(&self, id: u64) -> (r: Result<LineGroup, HistoryError>)
        ensures
            r is Ok <==> self.shapes().contains_key(id),
            r matches Ok(g) ==> g@ == self.shapes()[id],
            r is Err ==> r == Err::<LineGroup, HistoryError>(HistoryError::UnknownId),
    {
        match self.history.get(&id) {
            Some(h) => Ok(h.lines.clone()),
            None => Err(HistoryError::UnknownId),
        }
    }

    /// Forgets the shape of `id`, once its object is gone.
    pub fn remove(&mut self, id: u64)
        ensures
            final(self).wf() == old(self).wf(),
            final(self).width() == old(self).width(),
            final(self).shapes() == old(self).shapes().remove(id),
    {
        let ghost before = self.shapes();
        self.history.remove(&id);
        assert(self.shapes() =~= before.remove(id));
    }
}

/// After two submissions for one identity, the second shape is the one
/// recorded for it, and every other identity keeps what it had.
pub proof fn law_last_submission_wins(
    shapes: Map<u64, Seq<Line>>,
    id: u64,
    first: Seq<Line>,
    second: Seq<Line>,
)
    ensures
        shapes.insert(id, first).insert(id, second)[id] == second,
        shapes.insert(id, first).insert(id, second) == shapes.insert(id, second),
        forall|other: u64|
            other != id ==> (#[trigger] shapes.insert(id, first).insert(id, second).contains_key(other)
                <==> shapes.contains_key(other)) && (shapes.contains_key(other) ==> shapes.insert(
                id,
                first,
            ).insert(id, second)[other] == shapes[other]),
{
    assert(shapes.insert(id, first).insert(id, second) =~= shapes.insert(id, second));
}

} // verus!
