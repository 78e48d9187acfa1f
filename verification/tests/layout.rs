//! Regions, spans and hits.
use tiny_dfr::layout::{
    button_extents, controls_region, hit_in_spans, hit_index, owner, strip_layout, strip_region,
    Edges, Finger, RegionGeometry, CONTROL_RIGHT_MARGIN_PX, CONTROL_SPACING_PX, CONTROL_UNIT_PX,
    STRIP_BUTTON_WIDTH_PX, STRIP_LEFT_MARGIN_PX, STRIP_SPACING_PX,
};
use tiny_dfr::scalar::Scalar;

const SPACING: i32 = 10;

fn scalar(x: f64) -> Scalar {
    Scalar::from_bits(x.to_bits())
}

fn float(s: Scalar) -> f64 {
    f64::from_bits(s.bits)
}

struct Span {
    virtual_start: usize,
    virtual_end: usize,
    left_edge: f64,
    width: f64,
}

fn column_width(columns: usize, total_width: i32) -> f64 {
    (total_width - SPACING * (columns - 1) as i32) as f64 / columns as f64
}

fn spans(starts: &[usize], columns: usize, total_width: i32, x_offset: f64) -> Vec<Span> {
    let unit = column_width(columns, total_width);
    let step = unit + SPACING as f64;
    button_extents(&starts.to_vec(), columns)
        .iter()
        .map(|e| Span {
            virtual_start: e.virtual_start,
            virtual_end: e.virtual_end,
            left_edge: (e.virtual_start as f64 * step).floor() + x_offset,
            width: unit + ((e.virtual_end - e.virtual_start - 1) as f64 * step).floor(),
        })
        .collect()
}

fn hit(
    starts: &[usize],
    columns: usize,
    total_width: i32,
    height: u16,
    x: f64,
    y: f64,
    constrained: Option<usize>,
) -> Option<usize> {
    let edges = spans(starts, columns, total_width, 0.0)
        .iter()
        .map(|s| Edges { left: scalar(s.left_edge), right: scalar(s.left_edge + s.width) })
        .collect();
    let finger = Finger {
        x: scalar(x),
        y: scalar(y),
        low: scalar(0.1 * height as f64),
        high: scalar(0.9 * height as f64),
    };
    let column = (x / (total_width as f64 / columns as f64)) as usize;
    hit_index(&starts.to_vec(), &edges, finger, column, constrained)
}

fn region(columns: usize, bar_width: i32, min_origin: i32, anchor: Option<f64>) -> RegionGeometry {
    controls_region(columns, bar_width, min_origin, anchor.map(scalar))
}

#[test]
fn button_spans_include_stretched_widths_and_spacers() {
    let spans = spans(&[0, 1, 3], 4, 100, 0.0);

    assert_eq!(spans.len(), 3);
    assert_eq!(spans[0].virtual_start, 0);
    assert_eq!(spans[0].virtual_end, 1);
    assert_eq!(spans[0].left_edge, 0.0);
    assert_eq!(spans[0].width, 17.5);

    assert_eq!(spans[1].virtual_start, 1);
    assert_eq!(spans[1].virtual_end, 3);
    assert_eq!(spans[1].left_edge, 27.0);
    assert_eq!(spans[1].width, 44.5);

    assert_eq!(spans[2].virtual_start, 3);
    assert_eq!(spans[2].virtual_end, 4);
    assert_eq!(spans[2].left_edge, 82.0);
    assert_eq!(spans[2].width, 17.5);
}

#[test]
fn button_spans_apply_x_offset_without_changing_widths() {
    let spans = spans(&[0, 2], 3, 120, 12.5);

    assert_eq!(spans[0].left_edge, 12.5);
    assert_eq!(spans[0].width, 76.33333333333334);
    assert_eq!(spans[1].left_edge, 98.5);
    assert_eq!(spans[1].width, 33.333333333333336);
}

#[test]
fn hit_index_accepts_first_and_last_button_bounds() {
    let starts = [0, 1, 3];

    assert_eq!(hit(&starts, 4, 100, 20, 0.0, 10.0, None), Some(0));
    assert_eq!(hit(&starts, 4, 100, 20, 99.5, 10.0, None), Some(2));
}

#[test]
fn hit_index_rejects_spacing_and_vertical_misses() {
    let starts = [0, 1, 3];

    assert_eq!(hit(&starts, 4, 100, 20, 20.0, 10.0, None), None);
    assert_eq!(hit(&starts, 4, 100, 20, 50.0, 1.0, None), None);
    assert_eq!(hit(&starts, 4, 100, 20, 50.0, 19.0, None), None);
}

#[test]
fn constrained_hit_only_checks_the_original_button() {
    let starts = [0, 1, 3];

    assert_eq!(hit(&starts, 4, 100, 20, 50.0, 10.0, Some(0)), None);
    assert_eq!(hit(&starts, 4, 100, 20, 50.0, 10.0, Some(1)), Some(1));
    assert_eq!(hit(&starts, 4, 100, 20, 50.0, 10.0, Some(9)), None);
}

#[test]
fn columns_belong_to_the_button_that_covers_them() {
    let starts = vec![0, 1, 3];
    assert_eq!(owner(&starts, 0), 0);
    assert_eq!(owner(&starts, 1), 1);
    assert_eq!(owner(&starts, 2), 1);
    assert_eq!(owner(&starts, 3), 2);
    assert_eq!(owner(&starts, 99), 2);
}

#[test]
fn strip_region_width_scales_with_button_count() {
    let one = strip_region(1);
    let four = strip_region(4);

    assert_eq!(float(one.origin), STRIP_LEFT_MARGIN_PX as f64);
    assert_eq!(one.width, STRIP_BUTTON_WIDTH_PX);
    assert_eq!(float(four.origin), STRIP_LEFT_MARGIN_PX as f64);
    assert_eq!(four.width, 4 * STRIP_BUTTON_WIDTH_PX + 3 * STRIP_SPACING_PX);
    assert_eq!(strip_region(0).width, STRIP_BUTTON_WIDTH_PX);
}

#[test]
fn controls_region_is_right_anchored_without_anchor() {
    let geo = region(2, 2008, 0, None);

    let expected_width = 2 * CONTROL_UNIT_PX + CONTROL_SPACING_PX;
    assert_eq!(geo.width, expected_width);
    assert_eq!(
        float(geo.origin),
        2008.0 - CONTROL_RIGHT_MARGIN_PX as f64 - expected_width as f64
    );
}

#[test]
fn controls_region_clamps_to_min_origin() {
    let min_origin = 300;
    let geo = region(50, 2008, min_origin, None);

    assert_eq!(float(geo.origin), min_origin as f64);
    assert_eq!(
        geo.width,
        (2008.0 - CONTROL_RIGHT_MARGIN_PX as f64 - min_origin as f64) as i32
    );
}

#[test]
fn anchored_region_sits_at_the_anchor_within_bounds() {
    let geo = region(2, 2008, 300, Some(800.0));

    assert_eq!(float(geo.origin), 800.0);
    assert_eq!(geo.width, 2 * CONTROL_UNIT_PX + CONTROL_SPACING_PX);
}

#[test]
fn anchor_clamps_to_min_origin_and_right_margin() {
    let expected_width = 2 * CONTROL_UNIT_PX + CONTROL_SPACING_PX;
    let max_origin = 2008.0 - CONTROL_RIGHT_MARGIN_PX as f64 - expected_width as f64;

    let left = region(2, 2008, 300, Some(10.0));
    assert_eq!(float(left.origin), 300.0);

    let right = region(2, 2008, 300, Some(5000.0));
    assert_eq!(float(right.origin), max_origin);
}

#[test]
fn anchor_is_ignored_when_region_is_pinned_and_shrunk() {
    let geo = region(50, 2008, 300, Some(700.0));

    assert_eq!(float(geo.origin), 300.0);
    assert_eq!(geo.width, (2008.0 - CONTROL_RIGHT_MARGIN_PX as f64 - 300.0) as i32);
    assert_eq!(region(50, 200, 300, None).width, 1);
}

#[test]
fn non_finite_anchor_falls_back_to_right_anchored() {
    let expected_width = 2 * CONTROL_UNIT_PX + CONTROL_SPACING_PX;
    let max_origin = 2008.0 - CONTROL_RIGHT_MARGIN_PX as f64 - expected_width as f64;

    let geo = region(2, 2008, 300, Some(f64::NAN));
    assert_eq!(float(geo.origin), max_origin);
    assert_eq!(float(region(2, 2008, 300, Some(f64::INFINITY)).origin), max_origin);
}

#[test]
fn strips_group_their_buttons() {
    let layout = strip_layout(&vec![2, 1], 26);
    let lefts: Vec<i32> = layout.spans.iter().map(|s| s.left).collect();
    assert_eq!(lefts, vec![12, 82, 168]);
    assert_eq!(layout.region.width, 168 + 60 - 12);
    assert_eq!(layout.dividers, vec![142]);
    assert_eq!(layout.spans.iter().map(|s| s.index).collect::<Vec<_>>(), vec![0, 1, 2]);

    let one = strip_layout(&vec![4], 26);
    assert_eq!(one.region.width, strip_region(4).width);
    assert!(one.dividers.is_empty());
}

#[test]
fn strip_hits_miss_between_buttons() {
    let spans = strip_layout(&vec![2, 1], 26).spans;
    let finger = |x: f64, y: f64| Finger {
        x: scalar(x),
        y: scalar(y),
        low: scalar(6.0),
        high: scalar(54.0),
    };
    assert_eq!(hit_in_spans(&spans, finger(12.0, 30.0), None), Some(0));
    assert_eq!(hit_in_spans(&spans, finger(72.0, 30.0), None), Some(0));
    assert_eq!(hit_in_spans(&spans, finger(77.0, 30.0), None), None);
    assert_eq!(hit_in_spans(&spans, finger(155.0, 30.0), None), None);
    assert_eq!(hit_in_spans(&spans, finger(170.0, 30.0), None), Some(2));
    assert_eq!(hit_in_spans(&spans, finger(170.0, 3.0), None), None);
    assert_eq!(hit_in_spans(&spans, finger(170.0, 30.0), Some(1)), None);
    assert_eq!(hit_in_spans(&spans, finger(170.0, 30.0), Some(2)), Some(2));
}
