//! The pixel canvas, an outside collaborator.
//!
//! Charts draw through `drawille::Canvas`, a grid of dots addressed by
//! integer (column, row) coordinates and rendered as braille text. The
//! canvas is modelled by the set of its lit dots, [`dots`]; setting a dot
//! inserts its coordinates, and drawing a line adds [`line_dots`], the
//! exact point set of the collaborator's stepping rule.
//!
//! The coordinate bound [`COORD_MAX`] keeps the model faithful: the
//! canvas stores dots in character cells addressed by 16-bit indices, so
//! two dots only ever share a cell bit when a coordinate goes beyond it,
//! and the line stepper multiplies two coordinate differences inside
//! `u32`.

use vstd::arithmetic::div_mod::{lemma_div_is_ordered, lemma_div_multiples_vanish};
use vstd::arithmetic::mul::lemma_mul_inequality;
use vstd::prelude::*;

verus! {

/// Largest coordinate the model covers.
pub const COORD_MAX: u32 = 0xFFFF;

#[verifier::external_type_specification]
#[verifier::external_body]
pub struct ExCanvas(drawille::Canvas);

/// The set of lit dots of a canvas.
pub uninterp spec fn dots(c: drawille::Canvas) -> Set<(u32, u32)>;

/// Relies on `drawille::Canvas::new`: a fresh canvas has no lit dot.
pub assume_specification [ drawille::Canvas::new ](width: u32, height: u32) -> (c:
    drawille::Canvas)
    ensures
        dots(c) == Set::<(u32, u32)>::empty(),
;

/// Relies on `drawille::Canvas::set`: it lights the one addressed dot,
/// leaving every other dot as it was.
pub assume_specification [ drawille::Canvas::set ](c: &mut drawille::Canvas, x: u32, y: u32)
    requires
        x <= COORD_MAX,
        y <= COORD_MAX,
    ensures
        dots(*final(c)) == dots(*old(c)).insert((x, y)),
;

/// How far apart two coordinates are.
pub open spec fn span(a: u32, b: u32) -> int {
    if a <= b {
        b - a
    } else {
        a - b
    }
}

/// How many steps the line stepper takes between two dots: the larger of
/// the two coordinate spans.
pub open spec fn steps(x1: u32, y1: u32, x2: u32, y2: u32) -> int {
    if span(x1, x2) >= span(y1, y2) {
        span(x1, x2)
    } else {
        span(y1, y2)
    }
}

/// Where one coordinate of step `i` of `r` falls on the way from `a`
/// to `b`: `a` moved towards `b` by the rounded-down share `i * d / r`
/// of the span `d`.
pub open spec fn axis_point(a: u32, b: u32, i: int, r: int) -> int {
    let d = span(a, b);
    if d == 0 {
        a as int
    } else if a <= b {
        a + (i * d) / r
    } else {
        a - (i * d) / r
    }
}

/// The dots a line between two coordinates lights: one per step.
pub open spec fn line_dots(x1: u32, y1: u32, x2: u32, y2: u32) -> Set<(u32, u32)> {
    let r = steps(x1, y1, x2, y2);
    Set::new(
        |p: (u32, u32)|
            exists|i: int|
                0 <= i <= r && p.0 == axis_point(x1, x2, i, r) && p.1 == axis_point(y1, y2, i, r),
    )
}

/// Relies on `drawille::Canvas::line`: it steps from the first dot to the
/// second, lighting one dot per step, and touches nothing else.
pub assume_specification [ drawille::Canvas::line ](
    c: &mut drawille::Canvas,
    x1: u32,
    y1: u32,
    x2: u32,
    y2: u32,
)
    requires
        x1 <= COORD_MAX,
        y1 <= COORD_MAX,
        x2 <= COORD_MAX,
        y2 <= COORD_MAX,
    ensures
        dots(*final(c)) == dots(*old(c)).union(line_dots(x1, y1, x2, y2)),
;

proof fn lemma_axis_point_ends(a: u32, b: u32, r: int)
    requires
        span(a, b) <= r,
    ensures
        axis_point(a, b, 0, r) == a,
        axis_point(a, b, r, r) == b,
{
    let d = span(a, b);
    if d != 0 {
        lemma_div_multiples_vanish(0, r);
        lemma_div_multiples_vanish(d, r);
        assert(0 * d == r * 0) by (nonlinear_arith);
    }
}

/// Both ends of a line are among its dots.
pub proof fn lemma_line_dots_ends(x1: u32, y1: u32, x2: u32, y2: u32)
    ensures
        line_dots(x1, y1, x2, y2).contains((x1, y1)),
        line_dots(x1, y1, x2, y2).contains((x2, y2)),
{
    let r = steps(x1, y1, x2, y2);
    lemma_axis_point_ends(x1, x2, r);
    lemma_axis_point_ends(y1, y2, r);
    assert(0 <= 0 <= r && (x1, y1).0 == axis_point(x1, x2, 0, r) && (x1, y1).1 == axis_point(
        y1,
        y2,
        0,
        r,
    ));
    assert(0 <= r <= r && (x2, y2).0 == axis_point(x1, x2, r, r) && (x2, y2).1 == axis_point(
        y1,
        y2,
        r,
        r,
    ));
}

proof fn lemma_axis_point_between(a: u32, b: u32, i: int, r: int)
    requires
        span(a, b) <= r,
        0 <= i <= r,
    ensures
        a <= b ==> a <= axis_point(a, b, i, r) <= b,
        b <= a ==> b <= axis_point(a, b, i, r) <= a,
{
    let d = span(a, b);
    if d != 0 {
        lemma_mul_inequality(i, r, d);
        lemma_div_is_ordered(i * d, r * d, r);
        lemma_div_is_ordered(0, i * d, r);
        assert((r * d) / r == d) by {
            lemma_div_multiples_vanish(d, r);
        }
        assert(0int / r == 0);
    }
}

/// Every dot of a line lies in the rectangle its two ends span.
pub proof fn lemma_line_dots_box(x1: u32, y1: u32, x2: u32, y2: u32)
    ensures
        forall|p: (u32, u32)|
            line_dots(x1, y1, x2, y2).contains(p) ==> {
                &&& span(x1, p.0) <= span(x1, x2)
                &&& span(x2, p.0) <= span(x1, x2)
                &&& span(y1, p.1) <= span(y1, y2)
                &&& span(y2, p.1) <= span(y1, y2)
            },
{
    let r = steps(x1, y1, x2, y2);
    assert forall|p: (u32, u32)| line_dots(x1, y1, x2, y2).contains(p) implies {
        &&& span(x1, p.0) <= span(x1, x2)
        &&& span(x2, p.0) <= span(x1, x2)
        &&& span(y1, p.1) <= span(y1, y2)
        &&& span(y2, p.1) <= span(y1, y2)
    } by {
        let i = choose|i: int|
            0 <= i <= r && p.0 == axis_point(x1, x2, i, r) && p.1 == axis_point(y1, y2, i, r);
        lemma_axis_point_between(x1, x2, i, r);
        lemma_axis_point_between(y1, y2, i, r);
    }
}

} // verus!
