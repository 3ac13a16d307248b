use textplots::Chart;

/// Replicates the floating-point half of a plot call: samples `f` at one
/// point per column and maps each sample to its raw row index on the
/// render range (merged range plus the 10% margin).
fn samples_for(c: &Chart, f: impl Fn(f32) -> f32) -> (Vec<u32>, Vec<i32>) {
    let width = c.width;
    let height = c.height;
    let xmin = f32::from_bits(c.xmin);
    let xmax = f32::from_bits(c.xmax);
    let xrange = (xmax - xmin).abs();
    let xstep = xrange / width as f32;
    let ys: Vec<u32> = (0..width)
        .map(|i| f(xmin + (i as f32) * xstep).to_bits())
        .collect();
    let (lo, hi) = c.merged_range(&ys);
    let ymin = f32::from_bits(lo);
    let ymax = f32::from_bits(hi);
    let margin = (ymax - ymin) * 0.10;
    let ymin = ymin - margin;
    let ymax = ymax + margin;
    let yrange = ymax - ymin;
    let js: Vec<i32> = ys
        .iter()
        .map(|&y| (((f32::from_bits(y) - ymin) / yrange) * height as f32) as i32)
        .collect();
    (ys, js)
}

/// The row a raw row index lands on, as the engine maps it.
fn expected_row(j: i32, w: u32, h: u32) -> u32 {
    let c = (j.max(0) as u32).min(w);
    if c <= h {
        h - c
    } else {
        0
    }
}

/// The range bounds left after merging one sample sequence.
fn folded_range(ys: &[u32], start_min: f32, start_max: f32) -> (f32, f32) {
    let mut mn: Option<f32> = None;
    let mut mx: Option<f32> = None;
    for &b in ys {
        let v = f32::from_bits(b);
        if v.is_finite() {
            mn = Some(mn.map_or(v, |m| m.min(v)));
            mx = Some(mx.map_or(v, |m| m.max(v)));
        }
    }
    (
        start_min.min(mn.unwrap_or(0.0)),
        start_max.max(mx.unwrap_or(0.0)),
    )
}

#[test]
fn default_chart() {
    let c = Chart::default();
    assert_eq!(c.width, 120);
    assert_eq!(c.height, 60);
    assert_eq!(f32::from_bits(c.xmin), -10.0);
    assert_eq!(f32::from_bits(c.xmax), 10.0);
    assert_eq!(c.ymin, 0.0f32.to_bits());
    assert_eq!(c.ymax, 0.0f32.to_bits());
}

#[test]
fn new_sets_fields() {
    let c = Chart::new(32, 16, (-2.5f32).to_bits(), 4.0f32.to_bits());
    assert_eq!(c.width, 32);
    assert_eq!(c.height, 16);
    assert_eq!(f32::from_bits(c.xmin), -2.5);
    assert_eq!(f32::from_bits(c.xmax), 4.0);
    assert_eq!(f32::from_bits(c.ymin), 0.0);
    assert_eq!(f32::from_bits(c.ymax), 0.0);
    assert!(c.canvas.frame().chars().all(|ch| ch == ' ' || ch == '\n'));
}

#[test]
fn borders_touch_all_edges() {
    let mut c = Chart::new(40, 20, (-1.0f32).to_bits(), 1.0f32.to_bits());
    c.borders();
    for &(x, y) in &[
        (0, 0),
        (40, 0),
        (0, 20),
        (40, 20),
        (0, 10),
        (40, 10),
        (20, 0),
        (20, 20),
    ] {
        assert!(c.canvas.get(x, y), "border dot ({}, {}) missing", x, y);
    }
    assert!(!c.canvas.get(20, 10));
}

#[test]
fn borders_idempotent() {
    let mut c = Chart::new(40, 20, (-1.0f32).to_bits(), 1.0f32.to_bits());
    c.borders();
    let once = c.canvas.frame();
    c.borders();
    assert_eq!(c.canvas.frame(), once);
}

#[test]
fn i_reference_boundary_noop() {
    let mut c = Chart::new(20, 12, (-1.0f32).to_bits(), 1.0f32.to_bits());
    let untouched = c.canvas.frame();
    c.i_reference(0);
    assert_eq!(c.canvas.frame(), untouched);
    c.i_reference(20);
    assert_eq!(c.canvas.frame(), untouched);
    c.i_reference(33);
    assert_eq!(c.canvas.frame(), untouched);
}

#[test]
fn i_reference_center_marks_every_third_row() {
    let mut c = Chart::new(20, 12, (-1.0f32).to_bits(), 1.0f32.to_bits());
    c.i_reference(10);
    for j in 0..12 {
        assert_eq!(c.canvas.get(10, j), j % 3 == 0, "row {}", j);
    }
    for x in 0..=20 {
        if x != 10 {
            for j in 0..=12 {
                assert!(!c.canvas.get(x, j));
            }
        }
    }
}

#[test]
fn j_reference_boundary_noop() {
    let mut c = Chart::new(20, 12, (-1.0f32).to_bits(), 1.0f32.to_bits());
    let untouched = c.canvas.frame();
    c.j_reference(0);
    assert_eq!(c.canvas.frame(), untouched);
    c.j_reference(12);
    assert_eq!(c.canvas.frame(), untouched);
}

#[test]
fn j_reference_marks_every_third_column() {
    let mut c = Chart::new(20, 12, (-1.0f32).to_bits(), 1.0f32.to_bits());
    c.j_reference(5);
    for x in 0..20 {
        assert_eq!(c.canvas.get(x, 7), x % 3 == 0, "column {}", x);
    }
    for j in 0..=12 {
        if j != 7 {
            for x in 0..=20 {
                assert!(!c.canvas.get(x, j));
            }
        }
    }
}

#[test]
fn identity_spans_all_columns() {
    // f(x) = x is finite everywhere, but the sample at x = 0 evaluates
    // to 0.0, which the normality rule drops; every other column keeps
    // its sample and joins its neighbours without gaps.
    let mut c = Chart::default();
    let (ys, js) = samples_for(&c, |x| x);
    let retained: Vec<bool> = ys.iter().map(|&y| f32::from_bits(y).is_normal()).collect();
    for (i, &kept) in retained.iter().enumerate() {
        assert!(
            kept || f32::from_bits(ys[i]) == 0.0,
            "column {} dropped for another reason",
            i
        );
    }
    assert!(retained.iter().filter(|&&k| !k).count() <= 1);
    c.lineplot(&ys, 0, 0, &js);
    let rows: Vec<u32> = js.iter().map(|&j| expected_row(j, 120, 60)).collect();
    for i in 0..119usize {
        if retained[i] && retained[i + 1] {
            assert!(c.canvas.get(i as u32, rows[i]), "column {} misses its dot", i);
            assert!(
                c.canvas.get((i + 1) as u32, rows[i + 1]),
                "column {} misses its dot",
                i + 1
            );
        }
    }
    for i in 1..120usize {
        assert!(rows[i] <= rows[i - 1], "curve is not ascending at {}", i);
    }
}

#[test]
fn infinite_sample_breaks_the_curve() {
    let mut c = Chart::new(8, 8, (-2.0f32).to_bits(), 2.0f32.to_bits());
    let (ys, js) = samples_for(&c, |x| 1.0 / x);
    assert!(f32::from_bits(ys[4]).is_infinite());
    c.lineplot(&ys, 0, 0, &js);
    for row in 1..8 {
        assert!(
            !c.canvas.get(4, row),
            "dropped column holds a dot at row {}",
            row
        );
    }
    assert!(c.canvas.get(3, expected_row(js[3], 8, 8)));
    assert!(c.canvas.get(5, expected_row(js[5], 8, 8)));
}

#[test]
fn range_widens_to_union() {
    let mut c = Chart::new(16, 16, (-2.0f32).to_bits(), 2.0f32.to_bits());
    let (ys1, js1) = samples_for(&c, |x| x * 0.5);
    let (want_min1, want_max1) = folded_range(&ys1, 0.0, 0.0);
    c.lineplot(&ys1, 0, 0, &js1);
    assert_eq!(f32::from_bits(c.ymin), want_min1);
    assert_eq!(f32::from_bits(c.ymax), want_max1);

    let (ys2, js2) = samples_for(&c, |x| x * 2.0);
    let (want_min2, want_max2) = folded_range(&ys2, want_min1, want_max1);
    c.lineplot(&ys2, 0, 0, &js2);
    assert_eq!(f32::from_bits(c.ymin), want_min2);
    assert_eq!(f32::from_bits(c.ymax), want_max2);
    assert!(f32::from_bits(c.ymin) <= want_min1);
    assert!(f32::from_bits(c.ymax) >= want_max1);

    // The other order of the same two plots leaves the same range.
    let mut d = Chart::new(16, 16, (-2.0f32).to_bits(), 2.0f32.to_bits());
    let (dys2, djs2) = samples_for(&d, |x| x * 2.0);
    d.lineplot(&dys2, 0, 0, &djs2);
    let (dys1, djs1) = samples_for(&d, |x| x * 0.5);
    d.lineplot(&dys1, 0, 0, &djs1);
    assert_eq!(d.ymin, c.ymin);
    assert_eq!(d.ymax, c.ymax);
}

#[test]
fn all_non_finite_leaves_range_unset() {
    let mut c = Chart::new(8, 8, (-1.0f32).to_bits(), 1.0f32.to_bits());
    let ys: Vec<u32> = (0..8).map(|_| f32::NAN.to_bits()).collect();
    let js: Vec<i32> = vec![0; 8];
    c.lineplot(&ys, 0, 0, &js);
    assert_eq!(c.ymin, 0.0f32.to_bits());
    assert_eq!(c.ymax, 0.0f32.to_bits());

    let mut only_borders = Chart::new(8, 8, (-1.0f32).to_bits(), 1.0f32.to_bits());
    only_borders.borders();
    assert_eq!(c.canvas.frame(), only_borders.canvas.frame());
}

#[test]
fn zero_width_chart_degrades_gracefully() {
    let mut c = Chart::new(0, 10, (-1.0f32).to_bits(), 1.0f32.to_bits());
    let ys: Vec<u32> = Vec::new();
    let js: Vec<i32> = Vec::new();
    c.lineplot(&ys, 0, 0, &js);
    assert_eq!(c.ymin, 0.0f32.to_bits());
    assert_eq!(c.ymax, 0.0f32.to_bits());
    let _ = c.canvas.frame();
}

#[test]
fn raw_rows_clamp_at_width() {
    // The clamp bounds the raw row index by the width, as the renderer
    // always has; with width 4 and height 8 an overshooting index stops
    // at 4, which lands 4 rows above the bottom edge.
    let mut c = Chart::new(4, 8, (-1.0f32).to_bits(), 1.0f32.to_bits());
    let ys: Vec<u32> = (0..4).map(|_| 1.0f32.to_bits()).collect();
    let js: Vec<i32> = vec![100; 4];
    c.lineplot(&ys, 0, 0, &js);
    for i in 0..4 {
        assert!(c.canvas.get(i, 4), "column {} misses the clamped row", i);
    }
}

#[test]
fn axis_guides_land_where_zero_falls() {
    // Domain [-2, 2] on 16 columns puts the x = 0 guide at column 8;
    // f(x) = -1 gives a render range of [-1.1, 0.1], putting the y = 0
    // guide 7 rows above the bottom of an 8-row chart.
    let mut c = Chart::new(16, 8, (-2.0f32).to_bits(), 2.0f32.to_bits());
    let (ys, js) = samples_for(&c, |_| -1.0);
    let xmin = f32::from_bits(c.xmin);
    let xmax = f32::from_bits(c.xmax);
    let xrange = (xmax - xmin).abs();
    let i_center = (((xrange - xmax) / xrange) * c.width as f32) as u32;
    let (lo, hi) = c.merged_range(&ys);
    let margin = (f32::from_bits(hi) - f32::from_bits(lo)) * 0.10;
    let ymax = f32::from_bits(hi) + margin;
    let yrange = ymax - (f32::from_bits(lo) - margin);
    let j_center = (((yrange - ymax) / yrange) * c.height as f32) as u32;
    assert_eq!(i_center, 8);
    assert_eq!(j_center, 7);
    c.lineplot(&ys, i_center, j_center, &js);
    assert!(c.canvas.get(8, 3), "vertical guide missing");
    assert!(c.canvas.get(3, 1) && c.canvas.get(6, 1), "horizontal guide missing");
    assert!(!c.canvas.get(4, 1));
}

#[test]
fn merged_range_previews_lineplot() {
    let c = Chart::new(8, 8, (-2.0f32).to_bits(), 2.0f32.to_bits());
    let (ys, js) = samples_for(&c, |x| x * x);
    let (lo, hi) = c.merged_range(&ys);
    let mut d = c;
    d.lineplot(&ys, 0, 0, &js);
    assert_eq!(d.ymin, lo);
    assert_eq!(d.ymax, hi);
}
