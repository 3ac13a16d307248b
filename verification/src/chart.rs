//! The chart: a pixel surface, a fixed x-domain, and an accumulated
//! y-range.
//!
//! One plot call draws the four borders, widens the running y-range to
//! cover the new samples, places the two dotted axis guide lines, and
//! joins neighbouring normal samples with line segments. The caller
//! evaluates the plotted function (the samples arrive as bit patterns,
//! see [`crate::sample`]) and maps each sample to a raw row index; the
//! chart owns everything else: which samples are dropped, how rows are
//! clamped and inverted, and what reaches the canvas.

use crate::canvas::{dots, line_dots, span, COORD_MAX};
use crate::sample::{
    is_finite, is_normal, key, max_bits, min_bits, seq_max, seq_min, ZERO_BITS,
};
use crate::sample;
use vstd::prelude::*;

verus! {

/// A line chart. The domain bounds `xmin`/`xmax` and the range bounds
/// `ymin`/`ymax` hold IEEE-754 single-precision bit patterns; the range
/// starts at 0.0 on both ends and only ever widens.
pub struct Chart {
    pub width: u32,
    pub height: u32,
    pub xmin: u32,
    pub xmax: u32,
    pub ymin: u32,
    pub ymax: u32,
    pub canvas: drawille::Canvas,
}

/// The dots of the four border edges: full-height left and right
/// columns, full-width top and bottom rows.
pub open spec fn border_dots(w: u32, h: u32) -> Set<(u32, u32)> {
    line_dots(0, 0, 0, h).union(line_dots(0, 0, w, 0)).union(line_dots(0, h, w, h)).union(
        line_dots(w, 0, w, h),
    )
}

/// The dots of the vertical guide line at column `i`: every third row,
/// drawn only strictly inside the chart.
pub open spec fn iref_dots(i: u32, w: u32, h: u32) -> Set<(u32, u32)> {
    if 0 < i < w {
        Set::new(|p: (u32, u32)| p.0 == i && p.1 < h && p.1 % 3 == 0)
    } else {
        Set::empty()
    }
}

/// The dots of the horizontal guide line `j` rows above the bottom edge:
/// every third column, drawn only strictly inside the chart.
pub open spec fn jref_dots(j: u32, w: u32, h: u32) -> Set<(u32, u32)> {
    if 0 < j < h {
        Set::new(|p: (u32, u32)| p.1 == h - j && p.0 < w && p.0 % 3 == 0)
    } else {
        Set::empty()
    }
}

/// The row a raw row index lands on: clamped below by 0 and above by the
/// chart width (kept as the collaborating renderer had it), then counted
/// from the top edge. A clamped index above the height, possible only
/// when the width exceeds the height, saturates at the top edge rather
/// than leaving the surface.
pub open spec fn screen_row(j: int, w: u32, h: u32) -> u32 {
    let c = if j < 0 {
        0int
    } else if j > w {
        w as int
    } else {
        j
    };
    if c <= h {
        (h - c) as u32
    } else {
        0u32
    }
}

/// The sample at column `i` is rasterized: only normal values are.
pub open spec fn retained(ys: Seq<u32>, i: int) -> bool {
    0 <= i < ys.len() && is_normal(ys[i])
}

/// A segment is drawn from column `i` to column `i + 1` exactly when
/// both samples are retained: a dropped sample breaks the polyline, and
/// nothing is interpolated across the gap.
pub open spec fn seg_drawn(ys: Seq<u32>, i: int) -> bool {
    retained(ys, i) && retained(ys, i + 1)
}

/// The dots of the segment from column `i` to column `i + 1`.
pub open spec fn seg_dots(ys: Seq<u32>, js: Seq<i32>, w: u32, h: u32, i: int) -> Set<(u32, u32)> {
    line_dots(i as u32, screen_row(js[i] as int, w, h), (i + 1) as u32, screen_row(
        js[i + 1] as int,
        w,
        h,
    ))
}

/// The dots of every drawn segment among the first `n` columns.
pub open spec fn curve_dots_upto(ys: Seq<u32>, js: Seq<i32>, w: u32, h: u32, n: int) -> Set<
    (u32, u32),
>
    decreases n,
{
    if n <= 1 {
        Set::empty()
    } else {
        curve_dots_upto(ys, js, w, h, n - 1).union(
            if seg_drawn(ys, n - 2) {
                seg_dots(ys, js, w, h, n - 2)
            } else {
                Set::empty()
            },
        )
    }
}

/// The dots the plotted curve lights.
pub open spec fn curve_dots(ys: Seq<u32>, js: Seq<i32>, w: u32, h: u32) -> Set<(u32, u32)> {
    curve_dots_upto(ys, js, w, h, ys.len() as int)
}

impl Chart {
    /// A chart the canvas can hold faithfully, whose range bounds are
    /// finite and ordered.
    pub open spec fn wf(self) -> bool {
        &&& self.width <= COORD_MAX
        &&& self.height <= COORD_MAX
        &&& is_finite(self.ymin)
        &&& is_finite(self.ymax)
        &&& key(self.ymin) <= key(self.ymax)
    }

    /// The pixel surface and the domain bounds never change.
    pub open spec fn same_shape(self, other: Chart) -> bool {
        &&& self.width == other.width
        &&& self.height == other.height
        &&& self.xmin == other.xmin
        &&& self.xmax == other.xmax
    }

    /// A fresh chart over the given domain: an unset y-range and an
    /// empty canvas.
    pub fn new(width: u32, height: u32, xmin: u32, xmax: u32) -> (c: Chart)
        requires
            width <= COORD_MAX,
            height <= COORD_MAX,
        ensures
            c.width == width,
            c.height == height,
            c.xmin == xmin,
            c.xmax == xmax,
            c.ymin == ZERO_BITS,
            c.ymax == ZERO_BITS,
            dots(c.canvas) == Set::<(u32, u32)>::empty(),
            c.wf(),
    {
        Chart {
            width,
            height,
            xmin,
            xmax,
            ymin: ZERO_BITS,
            ymax: ZERO_BITS,
            canvas: drawille::Canvas::new(width, height),
        }
    }

    /// Draws the four border edges. Drawing them again adds nothing:
    /// see [`lemma_borders_idempotent`].
    pub fn borders(&mut self)
        requires
            old(self).wf(),
        ensures
            final(self).wf(),
            final(self).same_shape(*old(self)),
            final(self).ymin == old(self).ymin,
            final(self).ymax == old(self).ymax,
            dots(final(self).canvas) == dots(old(self).canvas).union(
                border_dots(old(self).width, old(self).height),
            ),
    {
        let w = self.width;
        let h = self.height;
        self.canvas.line(0, 0, 0, h);
        self.canvas.line(0, 0, w, 0);
        self.canvas.line(0, h, w, h);
        self.canvas.line(w, 0, w, h);
        proof {
            assert(dots(self.canvas) =~= dots(old(self).canvas).union(border_dots(w, h)));
        }
    }

    /// Vertical guide line: every third row of column `i`, when `i` is
    /// strictly inside the chart; a no-op on or outside the borders.
    #[verifier::loop_isolation(false)]
    pub fn i_reference(&mut self, i: u32)
        requires
            old(self).wf(),
        ensures
            final(self).wf(),
            final(self).same_shape(*old(self)),
            final(self).ymin == old(self).ymin,
            final(self).ymax == old(self).ymax,
            dots(final(self).canvas) == dots(old(self).canvas).union(
                iref_dots(i, old(self).width, old(self).height),
            ),
    {
        if i > 0 && i < self.width {
            let h = self.height;
            for j in 0..h
                invariant
                    self.wf(),
                    self.same_shape(*old(self)),
                    self.ymin == old(self).ymin,
                    self.ymax == old(self).ymax,
                    h == self.height,
                    dots(self.canvas) == dots(old(self).canvas).union(
                        Set::new(|p: (u32, u32)| p.0 == i && p.1 < j && p.1 % 3 == 0),
                    ),
            {
                if j % 3 == 0 {
                    self.canvas.set(i, j);
                }
                proof {
                    assert(dots(self.canvas) =~= dots(old(self).canvas).union(
                        Set::new(|p: (u32, u32)| p.0 == i && p.1 < j + 1 && p.1 % 3 == 0),
                    ));
                }
            }
        } else {
            proof {
                assert(dots(self.canvas) =~= dots(old(self).canvas).union(
                    iref_dots(i, old(self).width, old(self).height),
                ));
            }
        }
    }

    /// Horizontal guide line: every third column, `j` rows above the
    /// bottom edge, when `j` is strictly inside the chart; a no-op on or
    /// outside the borders.
    #[verifier::loop_isolation(false)]
    pub fn j_reference(&mut self, j: u32)
        requires
            old(self).wf(),
        ensures
            final(self).wf(),
            final(self).same_shape(*old(self)),
            final(self).ymin == old(self).ymin,
            final(self).ymax == old(self).ymax,
            dots(final(self).canvas) == dots(old(self).canvas).union(
                jref_dots(j, old(self).width, old(self).height),
            ),
    {
        if j > 0 && j < self.height {
            let w = self.width;
            let row = self.height - j;
            for x in 0..w
                invariant
                    self.wf(),
                    self.same_shape(*old(self)),
                    self.ymin == old(self).ymin,
                    self.ymax == old(self).ymax,
                    w == self.width,
                    row == self.height - j,
                    dots(self.canvas) == dots(old(self).canvas).union(
                        Set::new(|p: (u32, u32)| p.1 == row && p.0 < x && p.0 % 3 == 0),
                    ),
            {
                if x % 3 == 0 {
                    self.canvas.set(x, row);
                }
                proof {
                    assert(dots(self.canvas) =~= dots(old(self).canvas).union(
                        Set::new(|p: (u32, u32)| p.1 == row && p.0 < x + 1 && p.0 % 3 == 0),
                    ));
                }
            }
        } else {
            proof {
                assert(dots(self.canvas) =~= dots(old(self).canvas).union(
                    jref_dots(j, old(self).width, old(self).height),
                ));
            }
        }
    }

    /// The range bounds a plot call over these samples would leave: the
    /// stored bounds widened to cover every finite sample.
    pub fn merged_range(&self, ys: &Vec<u32>) -> (r: (u32, u32))
        ensures
            r.0 == min_bits(self.ymin, seq_min(ys@)),
            r.1 == max_bits(self.ymax, seq_max(ys@)),
    {
        let (lo, hi) = sample::range_values(ys);
        (sample::min_value(self.ymin, lo), sample::max_value(self.ymax, hi))
    }

    /// Widens the stored range to cover every finite sample; the range
    /// never narrows.
    fn update_range(&mut self, ys: &Vec<u32>)
        requires
            old(self).wf(),
        ensures
            final(self).wf(),
            final(self).same_shape(*old(self)),
            final(self).ymin == min_bits(old(self).ymin, seq_min(ys@)),
            final(self).ymax == max_bits(old(self).ymax, seq_max(ys@)),
            final(self).canvas == old(self).canvas,
    {
        let (lo, hi) = self.merged_range(ys);
        self.ymin = lo;
        self.ymax = hi;
        proof {
            sample::lemma_finite_min_is_finite(ys@);
            sample::lemma_seq_min_le_seq_max(ys@);
        }
    }

    /// Rasterizes the samples: joins each pair of neighbouring retained
    /// samples with a line segment. A sample that is not normal is
    /// dropped, and no segment touches its column.
    #[verifier::loop_isolation(false)]
    fn draw_curve(&mut self, ys: &Vec<u32>, js: &Vec<i32>)
        requires
            old(self).wf(),
            ys@.len() == old(self).width as int,
            js@.len() == old(self).width as int,
        ensures
            final(self).wf(),
            final(self).same_shape(*old(self)),
            final(self).ymin == old(self).ymin,
            final(self).ymax == old(self).ymax,
            dots(final(self).canvas) == dots(old(self).canvas).union(
                curve_dots(ys@, js@, old(self).width, old(self).height),
            ),
            forall|i: int|
                seg_drawn(ys@, i) ==> dots(final(self).canvas).contains(
                    (i as u32, screen_row(js@[i] as int, old(self).width, old(self).height)),
                ) && dots(final(self).canvas).contains(
                    (
                        (i + 1) as u32,
                        screen_row(js@[i + 1] as int, old(self).width, old(self).height),
                    ),
                ),
    {
        let w = self.width;
        let h = self.height;
        for k in 0..w
            invariant
                self.wf(),
                self.same_shape(*old(self)),
                self.ymin == old(self).ymin,
                self.ymax == old(self).ymax,
                w == self.width,
                h == self.height,
                dots(self.canvas) == dots(old(self).canvas).union(
                    curve_dots_upto(ys@, js@, w, h, k as int),
                ),
                forall|i: int|
                    i + 1 < k && seg_drawn(ys@, i) ==> dots(self.canvas).contains(
                        (i as u32, screen_row(js@[i] as int, w, h)),
                    ) && dots(self.canvas).contains(
                        ((i + 1) as u32, screen_row(js@[i + 1] as int, w, h)),
                    ),
        {
            if k >= 1 {
                let a_ok = sample::is_normal_value(ys[(k - 1) as usize]);
                let b_ok = sample::is_normal_value(ys[k as usize]);
                if a_ok && b_ok {
                    let r1 = row_value(js[(k - 1) as usize], w, h);
                    let r2 = row_value(js[k as usize], w, h);
                    self.canvas.line(k - 1, r1, k, r2);
                    proof {
                        crate::canvas::lemma_line_dots_ends((k - 1) as u32, r1, k, r2);
                        assert(dots(self.canvas) =~= dots(old(self).canvas).union(
                            curve_dots_upto(ys@, js@, w, h, k + 1),
                        ));
                    }
                } else {
                    proof {
                        assert(dots(self.canvas) =~= dots(old(self).canvas).union(
                            curve_dots_upto(ys@, js@, w, h, k + 1),
                        ));
                    }
                }
            } else {
                proof {
                    assert(dots(self.canvas) =~= dots(old(self).canvas).union(
                        curve_dots_upto(ys@, js@, w, h, k + 1),
                    ));
                }
            }
        }
        proof {
            if w == 0 {
                assert(dots(self.canvas) =~= dots(old(self).canvas).union(
                    curve_dots(ys@, js@, w, h),
                ));
            }
        }
    }

    /// One plot call. The samples `ys` (one bit pattern per column) have
    /// already been taken by the caller, `js` holds each sample's raw
    /// row index on the render range, and `i_center`/`j_center` say
    /// where the axis guide lines fall. The call draws the borders,
    /// widens the y-range to cover every finite sample, places the guide
    /// lines, and joins neighbouring retained samples; both ends of
    /// every drawn segment are lit, so a finite curve spans its columns
    /// without gaps.
    pub fn lineplot(&mut self, ys: &Vec<u32>, i_center: u32, j_center: u32, js: &Vec<i32>)
        requires
            old(self).wf(),
            ys@.len() == old(self).width as int,
            js@.len() == old(self).width as int,
        ensures
            final(self).wf(),
            final(self).same_shape(*old(self)),
            final(self).ymin == min_bits(old(self).ymin, seq_min(ys@)),
            final(self).ymax == max_bits(old(self).ymax, seq_max(ys@)),
            dots(final(self).canvas) == dots(old(self).canvas).union(
                border_dots(old(self).width, old(self).height),
            ).union(iref_dots(i_center, old(self).width, old(self).height)).union(
                jref_dots(j_center, old(self).width, old(self).height),
            ).union(curve_dots(ys@, js@, old(self).width, old(self).height)),
            forall|i: int|
                seg_drawn(ys@, i) ==> dots(final(self).canvas).contains(
                    (i as u32, screen_row(js@[i] as int, old(self).width, old(self).height)),
                ) && dots(final(self).canvas).contains(
                    (
                        (i + 1) as u32,
                        screen_row(js@[i + 1] as int, old(self).width, old(self).height),
                    ),
                ),
    {
        self.borders();
        self.update_range(ys);
        self.i_reference(i_center);
        self.j_reference(j_center);
        self.draw_curve(ys, js);
    }
}

/// The executable counterpart of [`screen_row`].
fn row_value(j: i32, w: u32, h: u32) -> (r: u32)
    ensures
        r == screen_row(j as int, w, h),
{
    let c: u32 = if j < 0 {
        0
    } else if j as u32 > w {
        w
    } else {
        j as u32
    };
    if c <= h {
        h - c
    } else {
        0
    }
}

impl Default for Chart {
    /// The default chart: 120 by 60 pixels over the domain from -10.0
    /// to 10.0 (the bit patterns of those two values), with the y-range
    /// unset at 0.0.
    fn default() -> (c: Chart)
        ensures
            c.width == 120,
            c.height == 60,
            c.xmin == 0xC120_0000u32,
            c.xmax == 0x4120_0000u32,
            c.ymin == ZERO_BITS,
            c.ymax == ZERO_BITS,
            dots(c.canvas) == Set::<(u32, u32)>::empty(),
            c.wf(),
    {
        Chart::new(120, 60, 0xC120_0000, 0x4120_0000)
    }
}

/// Drawing the borders a second time leaves the dot set as it was:
/// border drawing is idempotent.
pub proof fn lemma_borders_idempotent(base: Set<(u32, u32)>, w: u32, h: u32)
    ensures
        base.union(border_dots(w, h)).union(border_dots(w, h)) == base.union(border_dots(w, h)),
{
    assert(base.union(border_dots(w, h)).union(border_dots(w, h)) =~= base.union(
        border_dots(w, h),
    ));
}

/// Plot calls widen the range and never narrow it, and the order of two
/// calls does not matter: after both, each bound is (as a value) the
/// outermost of the starting bound and the two discovered bounds.
pub proof fn lemma_range_union(y0min: u32, y0max: u32, ys1: Seq<u32>, ys2: Seq<u32>)
    ensures
        key(min_bits(min_bits(y0min, seq_min(ys1)), seq_min(ys2))) == key(
            min_bits(min_bits(y0min, seq_min(ys2)), seq_min(ys1)),
        ),
        key(max_bits(max_bits(y0max, seq_max(ys1)), seq_max(ys2))) == key(
            max_bits(max_bits(y0max, seq_max(ys2)), seq_max(ys1)),
        ),
        key(min_bits(min_bits(y0min, seq_min(ys1)), seq_min(ys2))) <= key(
            min_bits(y0min, seq_min(ys1)),
        ),
        key(min_bits(min_bits(y0min, seq_min(ys1)), seq_min(ys2))) <= key(seq_min(ys1)),
        key(min_bits(min_bits(y0min, seq_min(ys1)), seq_min(ys2))) <= key(seq_min(ys2)),
        key(min_bits(min_bits(y0min, seq_min(ys1)), seq_min(ys2))) <= key(y0min),
        key(max_bits(max_bits(y0max, seq_max(ys1)), seq_max(ys2))) >= key(
            max_bits(y0max, seq_max(ys1)),
        ),
        key(max_bits(max_bits(y0max, seq_max(ys1)), seq_max(ys2))) >= key(seq_max(ys1)),
        key(max_bits(max_bits(y0max, seq_max(ys1)), seq_max(ys2))) >= key(seq_max(ys2)),
        key(max_bits(max_bits(y0max, seq_max(ys1)), seq_max(ys2))) >= key(y0max),
{
}

proof fn lemma_curve_upto_avoids_column(
    ys: Seq<u32>,
    js: Seq<i32>,
    w: u32,
    h: u32,
    n: int,
    k: int,
)
    requires
        ys.len() <= u32::MAX,
        0 <= k < ys.len(),
        !is_normal(ys[k]),
    ensures
        forall|p: (u32, u32)| curve_dots_upto(ys, js, w, h, n).contains(p) ==> p.0 != k,
    decreases n,
{
    if n > 1 {
        lemma_curve_upto_avoids_column(ys, js, w, h, n - 1, k);
        if seg_drawn(ys, n - 2) {
            assert(0 <= n - 2 && n - 1 < ys.len());
            assert(k != n - 2 && k != n - 1);
            let x1 = (n - 2) as u32;
            let x2 = (n - 1) as u32;
            let r1 = screen_row(js[n - 2] as int, w, h);
            let r2 = screen_row(js[n - 1] as int, w, h);
            crate::canvas::lemma_line_dots_box(x1, r1, x2, r2);
            assert(span(x1, x2) == 1);
            assert forall|p: (u32, u32)| seg_dots(ys, js, w, h, n - 2).contains(p) implies p.0
                != k by {
                assert(span(x1, p.0) <= 1);
                assert(span(x2, p.0) <= 1);
                assert(p.0 == x1 || p.0 == x2);
            }
        }
        assert forall|p: (u32, u32)| curve_dots_upto(ys, js, w, h, n).contains(p) implies p.0
            != k by {
            assert(curve_dots_upto(ys, js, w, h, n - 1).contains(p) || (seg_drawn(ys, n - 2)
                && seg_dots(ys, js, w, h, n - 2).contains(p)));
        }
    }
}

/// A dropped sample leaves its column untouched by the curve: no segment
/// is drawn into it, and none is drawn across it to join its two
/// neighbours.
pub proof fn lemma_gap_isolates_column(ys: Seq<u32>, js: Seq<i32>, w: u32, h: u32, k: int)
    requires
        ys.len() <= u32::MAX,
        0 <= k < ys.len(),
        !is_normal(ys[k]),
    ensures
        forall|p: (u32, u32)| curve_dots(ys, js, w, h).contains(p) ==> p.0 != k,
        forall|i: int| seg_drawn(ys, i) ==> i != k && i + 1 != k,
{
    lemma_curve_upto_avoids_column(ys, js, w, h, ys.len() as int, k);
}

proof fn lemma_full_curve_upto(ys: Seq<u32>, js: Seq<i32>, w: u32, h: u32, n: int)
    requires
        ys.len() <= u32::MAX,
        2 <= n <= ys.len(),
        forall|i: int| 0 <= i < ys.len() ==> is_normal(ys[i]),
    ensures
        forall|i: int|
            0 <= i < n ==> curve_dots_upto(ys, js, w, h, n).contains(
                (i as u32, screen_row(js[i] as int, w, h)),
            ),
    decreases n,
{
    if n > 2 {
        lemma_full_curve_upto(ys, js, w, h, n - 1);
    }
    assert(seg_drawn(ys, n - 2));
    crate::canvas::lemma_line_dots_ends(
        (n - 2) as u32,
        screen_row(js[n - 2] as int, w, h),
        (n - 1) as u32,
        screen_row(js[n - 1] as int, w, h),
    );
}

/// A curve with no dropped sample spans its columns without a gap: every
/// column's own dot is lit (a lone column draws no segment, so at least
/// two are asked for).
pub proof fn lemma_full_curve_spans_columns(ys: Seq<u32>, js: Seq<i32>, w: u32, h: u32)
    requires
        ys.len() <= u32::MAX,
        2 <= ys.len(),
        forall|i: int| 0 <= i < ys.len() ==> is_normal(ys[i]),
    ensures
        forall|i: int|
            0 <= i < ys.len() ==> curve_dots(ys, js, w, h).contains(
                (i as u32, screen_row(js[i] as int, w, h)),
            ),
{
    lemma_full_curve_upto(ys, js, w, h, ys.len() as int);
}

/// A dot of a line stays between the line's two end coordinates.
proof fn lemma_line_dots_within(x1: u32, y1: u32, x2: u32, y2: u32, xlo: u32, xhi: u32, yhi: u32)
    requires
        xlo <= x1 <= xhi,
        xlo <= x2 <= xhi,
        y1 <= yhi,
        y2 <= yhi,
    ensures
        forall|p: (u32, u32)|
            line_dots(x1, y1, x2, y2).contains(p) ==> xlo <= p.0 <= xhi && p.1 <= yhi,
{
    crate::canvas::lemma_line_dots_box(x1, y1, x2, y2);
    assert forall|p: (u32, u32)| line_dots(x1, y1, x2, y2).contains(p) implies xlo <= p.0 <= xhi
        && p.1 <= yhi by {
        assert(span(x1, p.0) <= span(x1, x2));
        assert(span(x2, p.0) <= span(x1, x2));
        assert(span(y1, p.1) <= span(y1, y2));
        assert(span(y2, p.1) <= span(y1, y2));
    }
}

proof fn lemma_curve_upto_on_surface(ys: Seq<u32>, js: Seq<i32>, w: u32, h: u32, n: int)
    requires
        ys.len() <= w,
    ensures
        forall|p: (u32, u32)|
            curve_dots_upto(ys, js, w, h, n).contains(p) ==> p.0 <= w && p.1 <= h,
    decreases n,
{
    if n > 1 {
        lemma_curve_upto_on_surface(ys, js, w, h, n - 1);
        if seg_drawn(ys, n - 2) {
            let x1 = (n - 2) as u32;
            let x2 = (n - 1) as u32;
            let r1 = screen_row(js[n - 2] as int, w, h);
            let r2 = screen_row(js[n - 1] as int, w, h);
            lemma_line_dots_within(x1, r1, x2, r2, 0, w, h);
        }
        assert forall|p: (u32, u32)| curve_dots_upto(ys, js, w, h, n).contains(p) implies p.0 <= w
            && p.1 <= h by {
            assert(curve_dots_upto(ys, js, w, h, n - 1).contains(p) || (seg_drawn(ys, n - 2)
                && seg_dots(ys, js, w, h, n - 2).contains(p)));
        }
    }
}

/// Every dot a plot call lights lies on the chart surface: its column is
/// at most the width and its row at most the height.
pub proof fn lemma_plot_dots_on_surface(
    ys: Seq<u32>,
    js: Seq<i32>,
    w: u32,
    h: u32,
    i_center: u32,
    j_center: u32,
)
    requires
        ys.len() <= w,
    ensures
        forall|p: (u32, u32)| border_dots(w, h).contains(p) ==> p.0 <= w && p.1 <= h,
        forall|p: (u32, u32)| iref_dots(i_center, w, h).contains(p) ==> p.0 <= w && p.1 <= h,
        forall|p: (u32, u32)| jref_dots(j_center, w, h).contains(p) ==> p.0 <= w && p.1 <= h,
        forall|p: (u32, u32)| curve_dots(ys, js, w, h).contains(p) ==> p.0 <= w && p.1 <= h,
{
    lemma_line_dots_within(0, 0, 0, h, 0, w, h);
    lemma_line_dots_within(0, 0, w, 0, 0, w, h);
    lemma_line_dots_within(0, h, w, h, 0, w, h);
    lemma_line_dots_within(w, 0, w, h, 0, w, h);
    lemma_curve_upto_on_surface(ys, js, w, h, ys.len() as int);
}

} // verus!
