use vstd::prelude::*;
use rand::Rng;
use crate::geometry::{
    corner, fits, lemma_corners_fit, mid, midpoints, refine, Color, Point, Triangle,
};
use crate::surface::{DrawList, DrawOp};

verus! {

/// How many fill colors a subdivision `depth` levels deep draws: three per
/// subdivided triangle, one for each corner branch.
pub open spec fn colors_needed(depth: nat) -> nat
    decreases depth,
{
    if depth == 0 {
        0
    } else {
        3 + 3 * colors_needed((depth - 1) as nat)
    }
}

/// How many inner triangles a subdivision `depth` levels deep fills.
pub open spec fn region_count(depth: nat) -> nat
    decreases depth,
{
    if depth == 0 {
        0
    } else {
        1 + 3 * region_count((depth - 1) as nat)
    }
}

/// `3^n`.
pub open spec fn pow3(n: nat) -> nat
    decreases n,
{
    if n == 0 {
        1
    } else {
        3 * pow3((n - 1) as nat)
    }
}

/// Outline the inner triangle of `t` (its three edge midpoints), then fill it
/// with `c`.
pub open spec fn inner_ops(t: Triangle, c: Color) -> Seq<DrawOp> {
    let (m0, m1, m2) = midpoints(t);
    seq![
        DrawOp::MoveTo(m0),
        DrawOp::BeginPath,
        DrawOp::LineTo(m1),
        DrawOp::LineTo(m2),
        DrawOp::LineTo(m0),
        DrawOp::ClosePath,
        DrawOp::Stroke,
        DrawOp::SetFillColor(c),
        DrawOp::Fill,
    ]
}

/// What drawing `t` `depth` levels deep with fill color `c` issues, where
/// `cs` supplies the branch colors: the first three color corners 0, 1 and 2,
/// and three consecutive blocks of `colors_needed(depth - 1)` follow, one
/// feeding each corner's own subdivision.
pub open spec fn fractal_ops(depth: nat, t: Triangle, c: Color, cs: Seq<Color>) -> Seq<DrawOp>
    decreases depth,
{
    if depth == 0 {
        Seq::empty()
    } else {
        let d = (depth - 1) as nat;
        let n = colors_needed(d) as int;
        inner_ops(t, c)
            + fractal_ops(d, corner(t, 0), cs[0], cs.subrange(3, 3 + n))
            + fractal_ops(d, corner(t, 1), cs[1], cs.subrange(3 + n, 3 + 2 * n))
            + fractal_ops(d, corner(t, 2), cs[2], cs.subrange(3 + 2 * n, 3 + 3 * n))
    }
}

/// How many `Fill` operations `ops` holds.
pub open spec fn fill_count(ops: Seq<DrawOp>) -> nat
    decreases ops.len(),
{
    if ops.len() == 0 {
        0
    } else {
        fill_count(ops.drop_last()) + if ops.last() == DrawOp::Fill {
            1nat
        } else {
            0nat
        }
    }
}

fn midpoint(p: Point, q: Point) -> (r: Point)
    requires
        p.shift == q.shift,
        p.shift < u32::MAX,
        i64::MIN <= p.x + q.x <= i64::MAX,
        i64::MIN <= p.y + q.y <= i64::MAX,
    ensures
        r == mid(p, q),
{
    Point { x: p.x + q.x, y: p.y + q.y, shift: p.shift + 1 }
}

fn refined(p: Point) -> (r: Point)
    requires
        p.shift < u32::MAX,
        i64::MIN <= 2 * p.x <= i64::MAX,
        i64::MIN <= 2 * p.y <= i64::MAX,
    ensures
        r == refine(p),
{
    Point { x: 2 * p.x, y: 2 * p.y, shift: p.shift + 1 }
}

/// Draws `t` `depth` levels deep from the colors `colors[start..start + span]`.
fn draw_level(
    surface: &mut DrawList,
    depth: u32,
    t: Triangle,
    color: Color,
    colors: &Vec<Color>,
    start: usize,
    span: usize,
)
    requires
        fits(t, depth as nat),
        span == colors_needed(depth as nat),
        start + span <= colors@.len(),
    ensures
        final(surface)@ == old(surface)@ + fractal_ops(
            depth as nat,
            t,
            color,
            colors@.subrange(start as int, start + span),
        ),
    decreases depth,
{
    let ghost cs = colors@.subrange(start as int, start + span);
    if depth == 0 {
        assert(final(surface)@ =~= old(surface)@ + fractal_ops(0, t, color, cs));
        return;
    }
    proof {
        lemma_corners_fit(t, depth as nat);
    }
    let m0 = midpoint(t.p0, t.p1);
    let m1 = midpoint(t.p1, t.p2);
    let m2 = midpoint(t.p2, t.p0);
    surface.move_to(m0);
    surface.begin_path();
    surface.line_to(m1);
    surface.line_to(m2);
    surface.line_to(m0);
    surface.close_path();
    surface.stroke();
    surface.set_fill_color(color);
    surface.fill();
    let ghost after_inner = surface@;
    assert(after_inner =~= old(surface)@ + inner_ops(t, color));

    let c0 = Triangle { p0: refined(t.p0), p1: m0, p2: m2 };
    let c1 = Triangle { p0: m0, p1: refined(t.p1), p2: m1 };
    let c2 = Triangle { p0: m2, p1: m1, p2: refined(t.p2) };
    assert(c0 == corner(t, 0));
    assert(c1 == corner(t, 1));
    assert(c2 == corner(t, 2));

    let total = colors.len();
    let ghost d = (depth - 1) as nat;
    assert(start + span <= total);
    assert(span == 3 + 3 * colors_needed(d));
    let sub = (span - 3) / 3;
    let ghost n = sub as int;
    assert(n == colors_needed(d));
    let s0 = start + 3;
    let s1 = s0 + sub;
    let s2 = s1 + sub;
    assert(cs.subrange(3, 3 + n) =~= colors@.subrange(s0 as int, s0 + n));
    assert(cs.subrange(3 + n, 3 + 2 * n) =~= colors@.subrange(s1 as int, s1 + n));
    assert(cs.subrange(3 + 2 * n, 3 + 3 * n) =~= colors@.subrange(s2 as int, s2 + n));

    draw_level(surface, depth - 1, c0, colors[start], colors, s0, sub);
    draw_level(surface, depth - 1, c1, colors[start + 1], colors, s1, sub);
    draw_level(surface, depth - 1, c2, colors[start + 2], colors, s2, sub);
    assert(final(surface)@ =~= old(surface)@ + fractal_ops(depth as nat, t, color, cs));
}

/// Draws `t` `depth` levels deep, filling its inner triangle with `color` and
/// taking the branch colors from `colors` in the order `fractal_ops` reads
/// them. Depth 0 draws nothing.
pub fn render_with_colors(
    surface: &mut DrawList,
    depth: u32,
    t: &Triangle,
    color: Color,
    colors: &Vec<Color>,
)
    requires
        fits(*t, depth as nat),
        colors@.len() >= colors_needed(depth as nat),
    ensures
        final(surface)@ == old(surface)@ + fractal_ops(depth as nat, *t, color, colors@),
{
    let span = color_count(depth);
    match span {
        Some(n) => {
            draw_level(surface, depth, *t, color, colors, 0, n);
            proof {
                lemma_ops_use_prefix(depth as nat, *t, color, colors@, n as nat);
            }
        },
        None => {
            // a vector's length is a `usize`, so enough colors rule this out
            assert(colors@.len() == colors.len());
        },
    }
}

/// `colors_needed(depth)` when it fits in `usize`.
pub fn color_count(depth: u32) -> (r: Option<usize>)
    ensures
        r matches Some(n) ==> n == colors_needed(depth as nat),
        r is None <==> colors_needed(depth as nat) > usize::MAX,
{
    let mut n: usize = 0;
    let mut k: u32 = 0;
    while k < depth
        invariant
            k <= depth,
            n == colors_needed(k as nat),
        decreases depth - k,
    {
        if n > (usize::MAX - 3) / 3 {
            proof {
                lemma_colors_needed_grows(k as nat, depth as nat);
            }
            return None;
        }
        n = 3 * n + 3;
        k = k + 1;
    }
    Some(n)
}

proof fn lemma_colors_needed_grows(k: nat, d: nat)
    requires
        k < d,
    ensures
        colors_needed(d) > colors_needed(k) * 3 + 2,
    decreases d - k,
{
    if k + 1 < d {
        lemma_colors_needed_grows(k + 1, d);
    }
}

/// Only the first `colors_needed(depth)` colors are read.
proof fn lemma_ops_use_prefix(depth: nat, t: Triangle, c: Color, cs: Seq<Color>, n: nat)
    requires
        n == colors_needed(depth),
        cs.len() >= n,
    ensures
        fractal_ops(depth, t, c, cs.subrange(0, n as int)) == fractal_ops(depth, t, c, cs),
{
    if depth > 0 {
        let m = colors_needed((depth - 1) as nat) as int;
        let p = cs.subrange(0, n as int);
        assert(p.subrange(3, 3 + m) =~= cs.subrange(3, 3 + m));
        assert(p.subrange(3 + m, 3 + 2 * m) =~= cs.subrange(3 + m, 3 + 2 * m));
        assert(p.subrange(3 + 2 * m, 3 + 3 * m) =~= cs.subrange(3 + 2 * m, 3 + 3 * m));
    }
}

/// Relies on rand's `thread_rng` and `Rng::gen_range`: one byte drawn
/// uniformly from `0..=255`. Nothing is promised of its value.
#[verifier::external_body]
fn random_byte() -> (r: u8) {
    rand::thread_rng().gen_range(0..=255u8)
}

/// A fresh color, each channel drawn independently.
fn random_color() -> (r: Color) {
    Color { r: random_byte(), g: random_byte(), b: random_byte() }
}

/// Draws `t` `depth` levels deep, filling its inner triangle with `color`;
/// every corner branch gets a freshly drawn random color. Whatever colors
/// come out, exactly `colors_needed(depth)` are drawn and the drawing is the
/// one `fractal_ops` gives for them.
pub fn render(surface: &mut DrawList, depth: u32, t: &Triangle, color: Color)
    requires
        fits(*t, depth as nat),
        colors_needed(depth as nat) <= usize::MAX,
    ensures
        exists|cs: Seq<Color>|
            cs.len() == colors_needed(depth as nat) && final(surface)@ == old(surface)@
                + fractal_ops(depth as nat, *t, color, cs),
{
    let n = match color_count(depth) {
        Some(n) => n,
        None => 0,
    };
    let mut colors: Vec<Color> = Vec::new();
    let mut i: usize = 0;
    while i < n
        invariant
            i <= n,
            colors@.len() == i,
        decreases n - i,
    {
        colors.push(random_color());
        i = i + 1;
    }
    render_with_colors(surface, depth, t, color, &colors);
}

/// Depth 0 issues no drawing operation at all.
pub proof fn lemma_depth_zero_draws_nothing(t: Triangle, c: Color, cs: Seq<Color>)
    ensures
        fractal_ops(0, t, c, cs) == Seq::<DrawOp>::empty(),
{
}

/// Each filled region costs nine operations: five path steps, the stroke,
/// the fill color, the fill and the move that starts the path.
pub proof fn lemma_ops_len(depth: nat, t: Triangle, c: Color, cs: Seq<Color>)
    ensures
        fractal_ops(depth, t, c, cs).len() == 9 * region_count(depth),
    decreases depth,
{
    if depth > 0 {
        let d = (depth - 1) as nat;
        let n = colors_needed(d) as int;
        lemma_ops_len(d, corner(t, 0), cs[0], cs.subrange(3, 3 + n));
        lemma_ops_len(d, corner(t, 1), cs[1], cs.subrange(3 + n, 3 + 2 * n));
        lemma_ops_len(d, corner(t, 2), cs[2], cs.subrange(3 + 2 * n, 3 + 3 * n));
    }
}

proof fn lemma_fill_count_append(a: Seq<DrawOp>, b: Seq<DrawOp>)
    ensures
        fill_count(a + b) == fill_count(a) + fill_count(b),
    decreases b.len(),
{
    if b.len() > 0 {
        lemma_fill_count_append(a, b.drop_last());
        assert((a + b).drop_last() =~= a + b.drop_last());
    }
}

proof fn lemma_no_fill_prefix(s: Seq<DrawOp>, k: int)
    requires
        0 <= k <= s.len(),
        forall|i: int| 0 <= i < k ==> s[i] != DrawOp::Fill,
    ensures
        fill_count(s.subrange(0, k)) == 0,
    decreases k,
{
    if k > 0 {
        assert(s.subrange(0, k).drop_last() =~= s.subrange(0, k - 1));
        lemma_no_fill_prefix(s, k - 1);
    }
}

proof fn lemma_inner_fills_once(t: Triangle, c: Color)
    ensures
        fill_count(inner_ops(t, c)) == 1,
{
    let s = inner_ops(t, c);
    lemma_no_fill_prefix(s, 8);
    assert(s.drop_last() =~= s.subrange(0, 8));
}

/// Counting fills: a drawing `depth` levels deep fills exactly
/// `region_count(depth)` inner triangles.
pub proof fn lemma_fill_count(depth: nat, t: Triangle, c: Color, cs: Seq<Color>)
    ensures
        fill_count(fractal_ops(depth, t, c, cs)) == region_count(depth),
    decreases depth,
{
    if depth > 0 {
        let d = (depth - 1) as nat;
        let n = colors_needed(d) as int;
        let a = fractal_ops(d, corner(t, 0), cs[0], cs.subrange(3, 3 + n));
        let b = fractal_ops(d, corner(t, 1), cs[1], cs.subrange(3 + n, 3 + 2 * n));
        let e = fractal_ops(d, corner(t, 2), cs[2], cs.subrange(3 + 2 * n, 3 + 3 * n));
        lemma_fill_count(d, corner(t, 0), cs[0], cs.subrange(3, 3 + n));
        lemma_fill_count(d, corner(t, 1), cs[1], cs.subrange(3 + n, 3 + 2 * n));
        lemma_fill_count(d, corner(t, 2), cs[2], cs.subrange(3 + 2 * n, 3 + 3 * n));
        lemma_inner_fills_once(t, c);
        lemma_fill_count_append(inner_ops(t, c), a);
        lemma_fill_count_append(inner_ops(t, c) + a, b);
        lemma_fill_count_append(inner_ops(t, c) + a + b, e);
    }
}

/// The subdivision is a full ternary tree: `depth` levels fill
/// `1 + 3 + ... + 3^(depth - 1)` regions, so twice the count plus one is
/// `3^depth`, the number of smallest corner triangles it ends in.
pub proof fn lemma_region_count_closed_form(depth: nat)
    ensures
        2 * region_count(depth) + 1 == pow3(depth),
    decreases depth,
{
    if depth > 0 {
        lemma_region_count_closed_form((depth - 1) as nat);
    }
}

/// Exactly three branch colors are drawn per filled region, one for each
/// corner.
pub proof fn lemma_three_colors_per_region(depth: nat)
    ensures
        colors_needed(depth) == 3 * region_count(depth),
    decreases depth,
{
    if depth > 0 {
        lemma_three_colors_per_region((depth - 1) as nat);
    }
}

/// The parent's color fills its own inner triangle and nothing else: drawing
/// with another parent color changes that one operation only.
pub proof fn lemma_parent_color_only_fills_inner(
    depth: nat,
    t: Triangle,
    c1: Color,
    c2: Color,
    cs: Seq<Color>,
)
    requires
        depth > 0,
    ensures
        fractal_ops(depth, t, c1, cs)[7] == DrawOp::SetFillColor(c1),
        fractal_ops(depth, t, c1, cs).len() == fractal_ops(depth, t, c2, cs).len(),
        forall|i: int|
            0 <= i < fractal_ops(depth, t, c1, cs).len() && i != 7 ==> #[trigger] fractal_ops(
                depth,
                t,
                c1,
                cs,
            )[i] == fractal_ops(depth, t, c2, cs)[i],
{
    lemma_ops_len(depth, t, c1, cs);
    lemma_ops_len(depth, t, c2, cs);
}

/// The three corner branches are filled with three separately drawn colors:
/// corner `i` fills its inner triangle with `cs[i]`.
pub proof fn lemma_corner_colors(depth: nat, t: Triangle, c: Color, cs: Seq<Color>)
    requires
        depth >= 2,
    ensures
        ({
            let ops = fractal_ops(depth, t, c, cs);
            let k = (9 * region_count((depth - 1) as nat)) as int;
            let first = 16int;
            &&& ops[first] == DrawOp::SetFillColor(cs[0])
            &&& ops[first + k] == DrawOp::SetFillColor(cs[1])
            &&& ops[first + 2 * k] == DrawOp::SetFillColor(cs[2])
        }),
{
    let d = (depth - 1) as nat;
    let n = colors_needed(d) as int;
    let a = fractal_ops(d, corner(t, 0), cs[0], cs.subrange(3, 3 + n));
    let b = fractal_ops(d, corner(t, 1), cs[1], cs.subrange(3 + n, 3 + 2 * n));
    let e = fractal_ops(d, corner(t, 2), cs[2], cs.subrange(3 + 2 * n, 3 + 3 * n));
    lemma_ops_len(d, corner(t, 0), cs[0], cs.subrange(3, 3 + n));
    lemma_ops_len(d, corner(t, 1), cs[1], cs.subrange(3 + n, 3 + 2 * n));
    lemma_ops_len(d, corner(t, 2), cs[2], cs.subrange(3 + 2 * n, 3 + 3 * n));
    assert(region_count(d) >= 1);
    assert(a[7] == DrawOp::SetFillColor(cs[0]));
    assert(b[7] == DrawOp::SetFillColor(cs[1]));
    assert(e[7] == DrawOp::SetFillColor(cs[2]));
}

} // verus!
