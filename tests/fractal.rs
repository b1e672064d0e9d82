use walk_the_dog::fractal::{color_count, render, render_with_colors};
use walk_the_dog::geometry::{can_subdivide, Color, Point, Triangle};
use walk_the_dog::surface::{DrawList, DrawOp};

fn pt(x: i64, y: i64, shift: u32) -> Point {
    Point { x, y, shift }
}

fn outer() -> Triangle {
    Triangle { p0: pt(0, 600, 0), p1: pt(300, 0, 0), p2: pt(600, 600, 0) }
}

fn gray(v: u8) -> Color {
    Color { r: v, g: v, b: v }
}

fn fills(list: &DrawList) -> usize {
    list.ops().iter().filter(|op| **op == DrawOp::Fill).count()
}

fn fill_colors(list: &DrawList) -> Vec<Color> {
    list.ops()
        .iter()
        .filter_map(|op| match op {
            DrawOp::SetFillColor(c) => Some(*c),
            _ => None,
        })
        .collect()
}

#[test]
fn depth_zero_draws_nothing() {
    let mut list = DrawList::new();
    render(&mut list, 0, &outer(), gray(0));
    assert_eq!(list.len(), 0);
    let mut list = DrawList::new();
    render_with_colors(&mut list, 0, &outer(), gray(0), &Vec::new());
    assert_eq!(list.len(), 0);
}

#[test]
fn depth_one_draws_inner_triangle_in_order() {
    let mut list = DrawList::new();
    let c = Color { r: 255, g: 0, b: 0 };
    render_with_colors(&mut list, 1, &outer(), c, &vec![gray(1), gray(2), gray(3)]);
    let m0 = pt(300, 600, 1);
    let m1 = pt(900, 600, 1);
    let m2 = pt(600, 1200, 1);
    let expected = vec![
        DrawOp::MoveTo(m0),
        DrawOp::BeginPath,
        DrawOp::LineTo(m1),
        DrawOp::LineTo(m2),
        DrawOp::LineTo(m0),
        DrawOp::ClosePath,
        DrawOp::Stroke,
        DrawOp::SetFillColor(c),
        DrawOp::Fill,
    ];
    assert_eq!(list.ops(), &expected);
}

#[test]
fn midpoints_are_exact_halves() {
    // (1, 2), (4, 7), (10, 3): odd sums stay exact in halves
    let t = Triangle { p0: pt(1, 2, 0), p1: pt(4, 7, 0), p2: pt(10, 3, 0) };
    let mut list = DrawList::new();
    render_with_colors(&mut list, 1, &t, gray(0), &vec![gray(1), gray(2), gray(3)]);
    let ops = list.ops();
    assert_eq!(ops[0], DrawOp::MoveTo(pt(5, 9, 1)));
    assert_eq!(ops[2], DrawOp::LineTo(pt(14, 10, 1)));
    assert_eq!(ops[3], DrawOp::LineTo(pt(11, 5, 1)));
    for op in ops.iter() {
        if let DrawOp::LineTo(p) | DrawOp::MoveTo(p) = op {
            let x = p.x as f64 / (1u64 << p.shift) as f64;
            assert!(x == 2.5 || x == 7.0 || x == 5.5);
        }
    }
}

#[test]
fn depth_two_corner_triangles_use_their_own_colors() {
    let mut list = DrawList::new();
    let colors: Vec<Color> = (1..=12).map(gray).collect();
    render_with_colors(&mut list, 2, &outer(), gray(0), &colors);
    assert_eq!(list.len(), 36);
    assert_eq!(fill_colors(&list), vec![gray(0), gray(1), gray(2), gray(3)]);
    // corner 0 keeps P0 = (0, 600) refined, and its first midpoint halves P0 M0
    assert_eq!(list.ops()[9], DrawOp::MoveTo(pt(300, 1800, 2)));
}

#[test]
fn depth_three_reads_colors_block_by_block() {
    let mut list = DrawList::new();
    let colors: Vec<Color> = (1..=39).map(gray).collect();
    render_with_colors(&mut list, 3, &outer(), gray(0), &colors);
    // parent, corner 0 with its own three children, then corner 1 ...
    let expected: Vec<Color> = [0, 1, 4, 5, 6, 2, 16, 17, 18, 3, 28, 29, 30].iter().map(|v| gray(*v)).collect();
    assert_eq!(fill_colors(&list), expected);
}

#[test]
fn fill_count_follows_ternary_tree() {
    for depth in 0..6u32 {
        let mut list = DrawList::new();
        render(&mut list, depth, &outer(), gray(9));
        let regions = fills(&list);
        assert_eq!(2 * regions + 1, 3usize.pow(depth));
        assert_eq!(list.len(), 9 * regions);
    }
}

#[test]
fn random_render_draws_three_colors_per_region() {
    let mut list = DrawList::new();
    render(&mut list, 4, &outer(), gray(9));
    let colors = fill_colors(&list);
    assert_eq!(colors.len(), 40);
    assert_eq!(colors[0], gray(9));
    assert_eq!(color_count(4), Some(120));
}

#[test]
fn color_count_values() {
    assert_eq!(color_count(0), Some(0));
    assert_eq!(color_count(1), Some(3));
    assert_eq!(color_count(2), Some(12));
    assert_eq!(color_count(3), Some(39));
    assert_eq!(color_count(10), Some(88572));
    assert_eq!(color_count(200), None);
}

#[test]
fn parent_color_changes_only_its_own_fill() {
    let colors: Vec<Color> = (1..=12).map(gray).collect();
    let mut a = DrawList::new();
    let mut b = DrawList::new();
    render_with_colors(&mut a, 2, &outer(), gray(100), &colors);
    render_with_colors(&mut b, 2, &outer(), gray(200), &colors);
    let diffs: Vec<usize> = (0..a.len()).filter(|i| a.ops()[*i] != b.ops()[*i]).collect();
    assert_eq!(diffs, vec![7]);
}

#[test]
fn can_subdivide_checks_limits() {
    assert!(can_subdivide(&outer(), 10));
    assert!(can_subdivide(&outer(), 53));
    // 600 * 2^54 exceeds i64
    assert!(!can_subdivide(&outer(), 54));
    let mixed = Triangle { p0: pt(0, 0, 0), p1: pt(1, 1, 1), p2: pt(2, 2, 0) };
    assert!(!can_subdivide(&mixed, 0));
    let edge = Triangle { p0: pt(i64::MIN, 0, 0), p1: pt(0, 0, 0), p2: pt(0, 0, 0) };
    assert!(!can_subdivide(&edge, 0));
    let top = Triangle { p0: pt(0, 0, u32::MAX), p1: pt(0, 0, u32::MAX), p2: pt(0, 0, u32::MAX) };
    assert!(can_subdivide(&top, 0));
    assert!(!can_subdivide(&top, 1));
}
