use line_renderer::line::{Line, Point};
use line_renderer::line_group::LineGroup;
use line_renderer::line_mesh::lines_to_mesh;
use line_renderer::system_param::{HistoryError, LineRenderer};
use line_renderer::{LineRendererSettings, LineRendererWidth, PackError, Ratio, LINE_NUMBER};

fn p(x: i64, y: i64) -> Point {
    Point::new(x, y)
}

fn l(ax: i64, ay: i64, bx: i64, by: i64) -> Line {
    Line::new(p(ax, ay), p(bx, by))
}

fn many(n: usize) -> LineGroup {
    let mut g = LineGroup::default();
    for i in 0..n {
        g.add_line(l(i as i64, 0, i as i64, 1));
    }
    g
}

fn triangle() -> LineGroup {
    LineGroup::generate_continuous_closed(vec![p(-10, -5), p(0, 10), p(8, -5)])
}

#[test]
fn packing_256_segments_succeeds() {
    let s = LineRendererSettings::new(many(256), Ratio::new(1, 1)).unwrap();
    assert_eq!(s.lines[255], [255, 0, 255, 1]);
    assert_eq!(s.width, Ratio::new(1, 1));
}

#[test]
fn packing_257_segments_fails() {
    let r = LineRendererSettings::new(many(257), Ratio::new(1, 1));
    assert_eq!(r.err(), Some(PackError::CapacityExceeded));
}

#[test]
fn packing_fills_unused_slots_with_origin_segments() {
    let s = LineRendererSettings::new(many(3), Ratio::new(1, 2)).unwrap();
    assert_eq!(s.lines[2], [2, 0, 2, 1]);
    for i in 3..LINE_NUMBER {
        assert_eq!(s.lines[i], [0, 0, 0, 0]);
    }
    let back = s.get_lines();
    assert_eq!(back.get_lines().len(), LINE_NUMBER);
    assert_eq!(back.get_lines()[1], l(1, 0, 1, 1));
    assert_eq!(back.get_lines()[200], l(0, 0, 0, 0));
}

#[test]
fn triangle_packs_to_width_ten_and_half_size_twelve() {
    let t = triangle();
    assert_eq!(t.get_lines().len(), 3);
    assert_eq!(t.calculate_bounding_size(), 10);
    let q = lines_to_mesh(&t, Ratio::new(1, 1)).unwrap();
    let w = q.material.settings.width;
    assert_eq!(w.num, 10 * w.den);
    assert_eq!(q.half_size.num, 12 * q.half_size.den);
    assert_eq!(q.half_size, Ratio::new(60, 5));
    assert_eq!(q.scale, Ratio::new(5, 60));
}

#[test]
fn mesh_records_are_flipped() {
    let q = lines_to_mesh(&triangle(), Ratio::new(1, 100)).unwrap();
    assert_eq!(q.material.settings.lines[0], [-10, 5, 0, -10]);
    assert_eq!(q.material.settings.lines[2], [8, 5, -10, 5]);
    assert_eq!(q.material.settings.lines[3], [0, 0, 0, 0]);
    assert_eq!(q.material.settings.width, Ratio::new(100, 1000));
}

#[test]
fn mesh_of_empty_or_pointlike_shape_fails() {
    assert_eq!(lines_to_mesh(&LineGroup::default(), Ratio::new(1, 1)).err(), Some(PackError::EmptyShape));
    let dot = LineGroup::from_line(l(0, 0, 0, 0));
    assert_eq!(lines_to_mesh(&dot, Ratio::new(1, 1)).err(), Some(PackError::EmptyShape));
}

#[test]
fn mesh_of_too_many_segments_fails() {
    assert_eq!(lines_to_mesh(&many(257), Ratio::new(1, 1)).err(), Some(PackError::CapacityExceeded));
    assert!(lines_to_mesh(&many(256), Ratio::new(1, 1)).is_ok());
}

#[test]
fn later_submission_replaces_earlier_one() {
    let mut r = LineRenderer::new(LineRendererWidth(Ratio::new(1, 100)));
    let a = triangle();
    let b = LineGroup::letter('A');
    assert!(r.spawn(7, a).is_ok());
    assert!(r.update(7, b.clone()).is_ok());
    assert_eq!(r.get_lines(7).unwrap().get_lines(), b.get_lines());
}

#[test]
fn history_keeps_the_shape_before_normalization() {
    let mut r = LineRenderer::new(LineRendererWidth(Ratio::new(1, 1)));
    let a = triangle();
    assert!(r.submit(1, a.clone()).is_ok());
    assert_eq!(r.get_lines(1).unwrap().get_lines(), a.get_lines());
}

#[test]
fn unknown_or_removed_identity_fails() {
    let mut r = LineRenderer::new(LineRendererWidth(Ratio::new(1, 1)));
    assert_eq!(r.get_lines(3).err(), Some(HistoryError::UnknownId));
    assert!(r.spawn(3, triangle()).is_ok());
    r.remove(3);
    assert_eq!(r.get_lines(3).err(), Some(HistoryError::UnknownId));
}

#[test]
fn every_submission_is_recorded() {
    let mut r = LineRenderer::new(LineRendererWidth(Ratio::new(1, 1)));
    assert_eq!(r.spawn(4, many(300)).err(), Some(PackError::CapacityExceeded));
    assert_eq!(r.get_lines(4).unwrap().get_lines().len(), 300);
    assert!(r.spawn(5, triangle()).is_ok());
    assert_eq!(r.update(4, triangle()).err(), None);
    let dot = LineGroup::from_line(l(0, 0, 0, 0));
    assert_eq!(r.update(4, dot.clone()).err(), Some(PackError::EmptyShape));
    assert_eq!(r.get_lines(4).unwrap().get_lines(), dot.get_lines());
    assert_eq!(r.get_lines(5).unwrap().get_lines(), triangle().get_lines());
}
