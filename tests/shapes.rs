use line_renderer::circle::generate_circle_points;
use line_renderer::line::{Line, Point};
use line_renderer::line_group::LineGroup;
use line_renderer::rand::{random_range, random_vec2_range};
use line_renderer::scatter::{generate_new_offset, is_valid_offset, pick_offset, scatter_offsets};
use line_renderer::Ratio;

fn p(x: i64, y: i64) -> Point {
    Point::new(x, y)
}

fn l(ax: i64, ay: i64, bx: i64, by: i64) -> Line {
    Line::new(p(ax, ay), p(bx, by))
}

fn dist2(a: Point, b: Point) -> i128 {
    let dx = (a.x - b.x) as i128;
    let dy = (a.y - b.y) as i128;
    dx * dx + dy * dy
}

#[test]
fn letter_a_is_two_strokes_and_a_bar() {
    let a = LineGroup::letter('A');
    assert_eq!(a.get_lines(), &vec![l(-4, -4, 0, 4), l(0, 4, 4, -4), l(-3, 0, 3, 0)]);
}

#[test]
fn letter_o_is_closed() {
    let o = LineGroup::letter('O');
    assert_eq!(o.get_lines().len(), 6);
    assert_eq!(o.get_lines()[5], l(-4, 0, -2, -4));
}

#[test]
fn letter_t_and_i() {
    assert_eq!(LineGroup::letter('I').get_lines(), &vec![l(0, -4, 0, 4)]);
    assert_eq!(LineGroup::letter('T').get_lines(), &vec![l(0, -4, 0, 4), l(-4, 4, 4, 4)]);
}

#[test]
fn unsupported_letters_are_empty() {
    assert!(LineGroup::letter('Z').get_lines().is_empty());
    assert!(LineGroup::letter(' ').get_lines().is_empty());
    assert!(LineGroup::letter('a').get_lines().is_empty());
}

#[test]
fn glyphs_fit_in_the_letter_box() {
    for c in "AEFGILMNOPRSTUVY".chars() {
        let g = LineGroup::letter(c);
        assert!(!g.get_lines().is_empty());
        assert!(g.calculate_bounding_size() <= 4);
    }
}

#[test]
fn text_ai_is_a_then_i_one_advance_right() {
    let text = LineGroup::text("AI");
    let expected = LineGroup::letter('A').concat(LineGroup::letter('I').offset(p(10, 0)));
    assert_eq!(text.get_lines(), expected.get_lines());
    assert_eq!(text.get_lines()[3], l(10, -4, 10, 4));
}

#[test]
fn text_spaces_still_advance() {
    let text = LineGroup::text("I I");
    assert_eq!(text.get_lines(), &vec![l(0, -4, 0, 4), l(20, -4, 20, 4)]);
    assert!(LineGroup::text("").get_lines().is_empty());
}

#[test]
fn circle_points_at_eighths_of_a_turn() {
    assert_eq!(
        generate_circle_points(10, 8),
        vec![p(10, 0), p(7, 7), p(0, 10), p(-7, 7), p(-10, 0), p(-7, -7), p(0, -10), p(7, -7)]
    );
}

#[test]
fn circle_step_ignores_the_resolution() {
    let pts = generate_circle_points(2, 10);
    assert_eq!(pts[8], p(2, 0));
    assert_eq!(pts[9], p(1, 1));
    let neg = generate_circle_points(-10, 2);
    assert_eq!(neg, vec![p(-10, 0), p(-7, -7)]);
}

#[test]
fn circle_is_a_closed_polygon() {
    let c = LineGroup::generate_circle(4, 3);
    assert_eq!(c.get_lines(), &vec![l(4, 0, 2, 2), l(2, 2, 0, 4), l(0, 4, 4, 0)]);
    assert!(LineGroup::generate_circle(4, 1).get_lines().is_empty());
}

#[test]
fn jittered_circle_moves_each_vertex() {
    let c = LineGroup::jittered_circle(10, 2, &vec![p(1, -1), p(0, 3)]);
    assert_eq!(c.get_lines(), &vec![l(11, -1, 7, 10), l(7, 10, 11, -1)]);
}

#[test]
fn random_circle_stays_within_the_jitter() {
    let c = LineGroup::generate_random_circle(30, 8, 5);
    let lines = c.get_lines();
    assert_eq!(lines.len(), 8);
    let exact = generate_circle_points(30, 8);
    for (i, line) in lines.iter().enumerate() {
        let dx = line.a.x - exact[i].x;
        let dy = line.a.y - exact[i].y;
        assert!((-5..5).contains(&dx) && (-5..5).contains(&dy));
        assert_eq!(line.b, lines[(i + 1) % 8].a);
    }
}

#[test]
fn random_range_stays_in_range() {
    for _ in 0..200 {
        let v = random_range(10..20);
        assert!((10..20).contains(&v));
    }
    assert_eq!(random_range(-3..-2), -3);
    let q = random_vec2_range(-2..3);
    assert!((-2..3).contains(&q.x) && (-2..3).contains(&q.y));
}

#[test]
fn valid_offset_needs_disk_and_distance() {
    let prev = vec![p(0, 0)];
    assert!(is_valid_offset(p(3, 4), &prev, 5, 5));
    assert!(!is_valid_offset(p(3, 4), &prev, 5, 6));
    assert!(!is_valid_offset(p(4, 4), &prev, 5, 1));
    assert!(is_valid_offset(p(0, 0), &vec![], 0, 100));
}

#[test]
fn new_offset_respects_earlier_ones() {
    let prev = vec![p(0, 0)];
    for _ in 0..20 {
        if let Some(o) = generate_new_offset(&prev, 20, 10) {
            assert!(dist2(o, p(0, 0)) >= 100);
            assert!(o.x * o.x + o.y * o.y <= 400);
        }
    }
    assert_eq!(generate_new_offset(&vec![p(0, 0)], 0, 1), None);
}

#[test]
fn scatter_offsets_are_spread() {
    let offs = scatter_offsets(100, 12, 15);
    assert!(offs.len() <= 12);
    for i in 0..offs.len() {
        assert!(offs[i].x * offs[i].x + offs[i].y * offs[i].y <= 100 * 100);
        for j in i + 1..offs.len() {
            assert!(dist2(offs[i], offs[j]) >= 15 * 15);
        }
    }
}

#[test]
fn place_at_copies_in_order() {
    let t = LineGroup::from_line(l(0, 0, 1, 0));
    let g = t.place_at(&vec![p(5, 5), p(-1, 0)]);
    assert_eq!(g.get_lines(), &vec![l(5, 5, 6, 5), l(-1, 0, 0, 0)]);
}

#[test]
fn scatter_copies_the_template() {
    let t = LineGroup::from_line(l(-2, 0, 2, 0));
    let g = t.scatter(50, 5);
    let lines = g.get_lines();
    assert!(lines.len() <= 5);
    for i in 0..lines.len() {
        assert_eq!(lines[i].b.x - lines[i].a.x, 4);
        assert_eq!(lines[i].b.y, lines[i].a.y);
        for j in i + 1..lines.len() {
            let ci = p(lines[i].a.x + 2, lines[i].a.y);
            let cj = p(lines[j].a.x + 2, lines[j].a.y);
            assert!(dist2(ci, cj) >= 4);
        }
    }
}

#[test]
fn scatter_in_a_point_disk_fits_one_copy() {
    let t = LineGroup::from_line(l(-1, 0, 1, 0));
    let g = t.scatter(0, 3);
    assert_eq!(g.get_lines(), &vec![l(-1, 0, 1, 0)]);
}

#[test]
fn pick_offset_takes_the_first_valid_candidate() {
    let prev = vec![p(0, 0)];
    let cands = vec![p(1, 1), p(11, 0), p(0, -7), p(4, 4), p(0, 8)];
    assert_eq!(pick_offset(&cands, &prev, 10, 5), Some(p(0, -7)));
    assert_eq!(pick_offset(&cands, &vec![], 10, 5), Some(p(1, 1)));
    assert_eq!(pick_offset(&vec![p(1, 1), p(8, 8)], &prev, 10, 5), None);
    assert_eq!(pick_offset(&vec![], &prev, 10, 5), None);
}

#[test]
fn new_offset_in_a_free_disk_is_found() {
    assert!(generate_new_offset(&vec![], 30, 1).is_some());
    assert_eq!(generate_new_offset(&vec![], 0, 5), Some(p(0, 0)));
}

#[test]
fn scaled_by_a_fraction_rounds_down() {
    let g = LineGroup::new(vec![l(10, -10, 3, -3)]);
    assert_eq!(g.scaled_by(Ratio::new(1, 2)).get_lines(), &vec![l(5, -5, 1, -2)]);
    assert_eq!(g.scaled_by(Ratio::new(11, 10)).get_lines(), &vec![l(11, -11, 3, -4)]);
    assert_eq!(g.scaled_by(Ratio::new(1, 1)).get_lines(), g.get_lines());
    assert_eq!(g.scaled_by(Ratio::new(-3, 1)).get_lines(), g.scaled(-3).get_lines());
}

#[test]
fn random_circle_without_jitter_is_the_circle() {
    let c = LineGroup::generate_random_circle(10, 8, 0);
    assert_eq!(c.get_lines(), LineGroup::generate_circle(10, 8).get_lines());
}
