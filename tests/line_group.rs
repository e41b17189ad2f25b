use line_renderer::bounds::BoundingBox;
use line_renderer::line::{Line, Point};
use line_renderer::line_group::LineGroup;

fn p(x: i64, y: i64) -> Point {
    Point::new(x, y)
}

fn l(ax: i64, ay: i64, bx: i64, by: i64) -> Line {
    Line::new(p(ax, ay), p(bx, by))
}

fn triangle() -> LineGroup {
    LineGroup::generate_continuous_closed(vec![p(0, 0), p(4, 0), p(0, 3)])
}

#[test]
fn line_as_vec4_packs_both_ends() {
    assert_eq!(l(1, -2, 3, -4).as_vec4(), [1, -2, 3, -4]);
}

#[test]
fn from_line_and_add_line_keep_order() {
    let mut g = LineGroup::from_line(l(0, 0, 1, 1));
    g.add_line(l(1, 1, 2, 2));
    assert_eq!(g.get_lines(), &vec![l(0, 0, 1, 1), l(1, 1, 2, 2)]);
}

#[test]
fn default_group_is_empty() {
    assert!(LineGroup::default().get_lines().is_empty());
}

#[test]
fn to_points_lists_every_endpoint() {
    let g = LineGroup::new(vec![l(0, 0, 1, 0), l(1, 0, 0, 0)]);
    assert_eq!(g.to_points(), vec![p(0, 0), p(1, 0), p(1, 0), p(0, 0)]);
}

#[test]
fn to_unique_points_keeps_first_seen_order() {
    let g = LineGroup::new(vec![l(5, 5, 1, 0), l(1, 0, 5, 5), l(2, 2, 1, 0)]);
    assert_eq!(g.to_unique_points(), vec![p(5, 5), p(1, 0), p(2, 2)]);
}

#[test]
fn unique_looped_points_close_the_outline() {
    let pts = triangle().to_unique_points_looped();
    assert_eq!(pts, vec![p(0, 0), p(4, 0), p(0, 3), p(0, 0)]);
    assert_eq!(pts.first(), pts.last());
    let interior = &pts[..pts.len() - 1];
    for i in 0..interior.len() {
        for j in i + 1..interior.len() {
            assert_ne!(interior[i], interior[j]);
        }
    }
}

#[test]
fn unique_looped_points_of_a_degenerate_segment() {
    let g = LineGroup::from_line(l(3, 3, 3, 3));
    assert_eq!(g.to_unique_points_looped(), vec![p(3, 3), p(3, 3)]);
}

#[test]
fn concat_and_extend_append_in_order() {
    let a = LineGroup::from_line(l(0, 0, 1, 0));
    let b = LineGroup::new(vec![l(2, 0, 3, 0), l(4, 0, 5, 0)]);
    let c = a.concat(b.clone());
    assert_eq!(c.get_lines(), &vec![l(0, 0, 1, 0), l(2, 0, 3, 0), l(4, 0, 5, 0)]);
    let mut d = a.clone();
    d.extend(b);
    assert_eq!(d.get_lines(), c.get_lines());
    assert_eq!(a.get_lines().len(), 1);
}

#[test]
fn continuous_path_joins_neighbours() {
    let g = LineGroup::generate_continuous(vec![p(0, 0), p(1, 0), p(1, 1)]);
    assert_eq!(g.get_lines(), &vec![l(0, 0, 1, 0), l(1, 0, 1, 1)]);
    assert!(LineGroup::generate_continuous(vec![p(1, 1)]).get_lines().is_empty());
    assert!(LineGroup::generate_continuous(vec![]).get_lines().is_empty());
}

#[test]
fn closed_path_segment_counts() {
    assert_eq!(LineGroup::generate_continuous_closed(vec![]).get_lines().len(), 0);
    assert_eq!(LineGroup::generate_continuous_closed(vec![p(1, 2)]).get_lines().len(), 0);
    let two = LineGroup::generate_continuous_closed(vec![p(0, 0), p(1, 0)]);
    assert_eq!(two.get_lines(), &vec![l(0, 0, 1, 0), l(1, 0, 0, 0)]);
    let four = LineGroup::generate_continuous_closed(vec![p(0, 0), p(1, 0), p(1, 1), p(0, 1)]);
    assert_eq!(four.get_lines().len(), 4);
    assert_eq!(four.get_lines()[3], l(0, 1, 0, 0));
}

#[test]
fn bounding_box_and_size() {
    let g = LineGroup::new(vec![l(-3, 2, 5, -7), l(1, 1, 2, 4)]);
    let b = g.calculate_bounding_box();
    assert_eq!(b, BoundingBox { min: p(-3, -7), max: p(5, 4) });
    assert_eq!(g.calculate_bounding_size(), 7);
    assert_eq!(b.center(), p(1, -2));
}

#[test]
fn bounding_size_uses_the_farther_corner() {
    let g = LineGroup::new(vec![l(-10, 0, 2, 3)]);
    assert_eq!(g.calculate_bounding_size(), 10);
    let extreme = LineGroup::from_line(l(i64::MIN, 0, 0, 0));
    assert_eq!(extreme.calculate_bounding_size(), 1u64 << 63);
}

#[test]
fn scaling_by_one_keeps_the_group() {
    let g = triangle();
    assert_eq!(g.scaled(1).get_lines(), g.get_lines());
}

#[test]
fn scaling_twice_is_scaling_by_the_product() {
    let g = triangle();
    assert_eq!(g.scaled(3).scaled(-2).get_lines(), g.scaled(-6).get_lines());
    assert_eq!(g.scaled(3).get_lines()[0], l(0, 0, 12, 0));
}

#[test]
fn offset_twice_is_offset_by_the_sum() {
    let g = triangle();
    let once = g.offset(p(1, 2)).offset(p(-4, 6));
    assert_eq!(once.get_lines(), g.offset(p(-3, 8)).get_lines());
    assert_eq!(once.get_lines()[0], l(-3, 8, 1, 8));
}

#[test]
fn flipped_vertically_negates_y() {
    let g = LineGroup::new(vec![l(1, 2, -3, -4)]);
    assert_eq!(g.flipped_vertically().get_lines(), &vec![l(1, -2, -3, 4)]);
}

#[test]
fn centered_box_is_balanced_about_the_origin() {
    let g = LineGroup::new(vec![l(10, 20, 14, 30)]);
    let c = g.centered();
    let b = c.calculate_bounding_box();
    assert_eq!(b, BoundingBox { min: p(-2, -5), max: p(2, 5) });
    let odd = LineGroup::new(vec![l(1, -4, 4, 3)]).centered();
    let b = odd.calculate_bounding_box();
    let (sx, sy) = (b.min.x + b.max.x, b.min.y + b.max.y);
    assert!((0..=1).contains(&sx) && (0..=1).contains(&sy));
    assert_eq!(b, BoundingBox { min: p(-1, -3), max: p(2, 4) });
}
