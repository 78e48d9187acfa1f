//! What the free middle of the bar shows: critters and the current track.
use tiny_dfr::critters::{CritterField, Span, Start, Stride, CRITTER_FRAME_NANOS, MAX_TICK_NANOS};
use tiny_dfr::helper_proto::NowPlaying;
use tiny_dfr::moment::Moment;
use tiny_dfr::now_playing::{
    art_file_acceptable, decoded_size_acceptable, png_dimensions_are_safe, read_art_snapshot,
    text_fits, widget_room, widget_width_for, Ellipsis, NowPlayingRenderer, WidgetBounds,
    ART_RETRY_NANOS, MAX_ART_BYTES, MAX_ART_DIMENSION_PX, MAX_WIDGET_WIDTH_PX,
};
use tiny_dfr::scalar::Scalar;

const REGION: (f64, f64) = (300.0, 1700.0);
const HALF_WIDTH: f64 = 46.0 * 24.0 / 15.0 / 2.0 + 1.0;

fn scalar(x: f64) -> Scalar {
    Scalar::from_bits(x.to_bits())
}

fn float(s: Scalar) -> f64 {
    f64::from_bits(s.bits)
}

fn at(millis: u64) -> Moment {
    Moment { nanos: 1_000_000_000 + millis * 1_000_000 }
}

fn ids(names: &[&str]) -> Vec<String> {
    names.iter().map(|s| s.to_string()).collect()
}

/// Newcomers spread over the region, walking either way.
fn starts(count: usize) -> Vec<Start> {
    (0..count)
        .map(|i| Start {
            x: scalar(
                REGION.0
                    + HALF_WIDTH
                    + (i as f64 + 0.5) / count as f64 * (REGION.1 - REGION.0 - 2.0 * HALF_WIDTH),
            ),
            vx: scalar(if i % 2 == 0 { 59.0 } else { -30.0 }),
            phase: scalar(i as f64),
        })
        .collect()
}

fn low() -> Scalar {
    scalar(REGION.0 + HALF_WIDTH)
}

fn high() -> Scalar {
    scalar(REGION.1 - HALF_WIDTH)
}

/// Walks on with every critter at its speed.
fn tick(field: &mut CritterField, now: Moment) -> bool {
    let dt = field.step_due(now).unwrap_or(0) as f64 / 1e9;
    let strides = field
        .critters
        .iter()
        .map(|c| Stride {
            x: scalar(float(c.x) + float(c.vx) * dt),
            turn: false,
            phase: scalar(float(c.phase) + dt),
        })
        .collect();
    field.tick(now, &strides, low(), high())
}

/// Draws a frame; the number of damaged places.
fn render(field: &mut CritterField, region: Option<(Scalar, Scalar)>, complete: bool) -> usize {
    let plan = field.render(region, complete);
    for pose in &plan.draw {
        let x = float(pose.x);
        field.note_drawn(Span { left: scalar(x - HALF_WIDTH), right: scalar(x + HALF_WIDTH) });
    }
    plan.erase.len() + plan.draw.len()
}

#[test]
fn reconcile_spawns_within_region_and_despawns() {
    let mut field = CritterField::new(true);

    assert!(field.reconcile(&ids(&["a", "b"]), &starts(2)));
    assert_eq!(field.critters.len(), 2);
    for critter in &field.critters {
        assert!(float(critter.x) >= REGION.0 + HALF_WIDTH);
        assert!(float(critter.x) <= REGION.1 - HALF_WIDTH + 1.0);
    }

    let survivor_x = field.critters[0].x;
    assert!(field.reconcile(&ids(&["a"]), &starts(1)));
    assert_eq!(field.critters.len(), 1);
    // Survivors keep their position mid-stride.
    assert_eq!(field.critters[0].x, survivor_x);

    assert!(!field.reconcile(&ids(&["a"]), &starts(1)));
}

#[test]
fn sessions_get_one_critter_each() {
    let mut field = CritterField::new(true);
    field.reconcile(&ids(&["a", "b", "a"]), &starts(3));
    assert_eq!(field.critters.len(), 2);
    field.reconcile(&ids(&["c", "b"]), &starts(2));
    let names: Vec<&str> = field.critters.iter().map(|c| c.id.as_str()).collect();
    assert_eq!(names, vec!["b", "c"]);
    assert_eq!(field.critters[1].x, starts(2)[0].x);
}

#[test]
fn a_change_of_sessions_is_a_change() {
    let mut field = CritterField::new(true);
    assert!(field.reconcile(&ids(&["a"]), &starts(1)));
    assert!(field.reconcile(&ids(&["b"]), &starts(1))); // "a" left, "b" came
    assert!(!field.reconcile(&ids(&["b"]), &starts(1)));
    assert!(!field.reconcile(&ids(&["b", "b"]), &starts(2))); // named twice
    assert!(field.reconcile(&ids(&["b", "c"]), &starts(2)));
    assert!(!field.reconcile(&ids(&["c", "b"]), &starts(2)));
    assert!(field.reconcile(&vec![], &vec![]));
    assert!(!field.reconcile(&vec![], &vec![]));
}

#[test]
fn tick_paces_frames_and_stays_in_bounds() {
    let mut field = CritterField::new(true);
    field.reconcile(&ids(&["a"]), &starts(1));

    assert!(tick(&mut field, at(0))); // first frame
    assert!(!tick(&mut field, at(10))); // too soon
    assert!(tick(&mut field, at(80)));

    // A long walk never escapes the region, even across a fake suspend.
    let mut now = 80;
    for _ in 0..200 {
        now += 70;
        tick(&mut field, at(now));
    }
    assert_eq!(field.step_due(at(now + 3_600_000)), Some(MAX_TICK_NANOS));
    tick(&mut field, at(now + 3_600_000)); // resume gap
    let x = float(field.critters[0].x);
    assert!(x >= REGION.0 + HALF_WIDTH && x <= REGION.1 - HALF_WIDTH);
}

#[test]
fn critters_turn_at_the_ends() {
    let mut field = CritterField::new(true);
    field.reconcile(&ids(&["a"]), &starts(1));
    let go = |field: &mut CritterField, now: u64, x: f64, turn: bool| {
        let strides = vec![Stride { x: scalar(x), turn, phase: scalar(0.0) }];
        field.tick(at(now), &strides, low(), high());
        (float(field.critters[0].x), float(field.critters[0].vx))
    };
    tick(&mut field, at(0));
    assert_eq!(go(&mut field, 100, 9000.0, true), (float(high()), -59.0));
    assert_eq!(go(&mut field, 200, 800.0, true), (800.0, 59.0));
    assert_eq!(go(&mut field, 300, 700.0, false), (700.0, 59.0));
    assert_eq!(go(&mut field, 400, 800.0, true), (800.0, -59.0));
    assert_eq!(go(&mut field, 500, 0.0, false), (float(low()), 59.0));
    field.reconcile(&vec![], &vec![]);
    assert!(!tick(&mut field, at(600)));
    assert_eq!(field.last_tick, None);
}

#[test]
fn render_erases_previous_spans_and_reports_damage() {
    let region = Some((low(), high()));
    let mut field = CritterField::new(true);
    field.reconcile(&ids(&["a"]), &starts(1));

    assert_eq!(render(&mut field, region, true), 1); // draw only; complete redraw skips erase
    assert!(field.needs_erase());

    assert_eq!(render(&mut field, region, false), 2); // erase old + draw new

    // Deactivation (no region) erases and reports that damage.
    assert_eq!(render(&mut field, None, false), 1);
    assert!(!field.needs_erase());
}

#[test]
fn without_a_sprite_nothing_is_drawn() {
    let mut field = CritterField::new(false);
    field.reconcile(&ids(&["a"]), &starts(1));
    assert!(field.is_empty());
    assert_eq!(render(&mut field, Some((low(), high())), true), 0);
}

#[test]
fn wait_ms_is_bounded_by_the_frame_interval() {
    let mut field = CritterField::new(true);
    assert_eq!(field.wait_ms(at(0)), None);

    field.reconcile(&ids(&["a"]), &starts(1));
    tick(&mut field, at(0));
    let wait = field.wait_ms(at(6)).unwrap();
    assert!(wait >= 1 && wait <= (CRITTER_FRAME_NANOS / 1_000_000) as i32);
    assert_eq!(wait, 60);
}

fn bounds(left: f64, top: f64, width: f64, height: f64) -> WidgetBounds {
    let (right, bottom) = (left + width, top + height);
    WidgetBounds {
        left: scalar(left),
        top: scalar(top),
        right: scalar(right),
        bottom: scalar(bottom),
        width: scalar(right - left),
        height: scalar(bottom - top),
    }
}

/// The width of a widget in a region, around text of a measured width.
fn width_for(region_width: f64, has_art: bool, text_width: f64) -> Option<f64> {
    let room = widget_room(scalar(region_width))?;
    let non_text = 10.0 + 14.0 + if has_art { 42.0 + 12.0 } else { 0.0 };
    let max_text = (float(room) - non_text).max(24.0);
    let content = (non_text + text_width.max(24.0).min(max_text)).ceil();
    Some(float(widget_width_for(scalar(content), room)))
}

#[test]
fn widget_width_tracks_content_until_capped() {
    assert_eq!(width_for(800.0, true, 90.0), Some(180.0));
    assert_eq!(width_for(800.0, true, 130.0), Some(208.0));
    assert_eq!(width_for(800.0, true, 900.0), Some(MAX_WIDGET_WIDTH_PX as f64));
    assert_eq!(width_for(320.0, true, 900.0), Some(320.0));
    assert_eq!(width_for(160.0, true, 90.0), None);
}

#[test]
fn narrow_text_is_not_shown() {
    assert!(text_fits(scalar(24.0)));
    assert!(!text_fits(scalar(23.9)));
    assert_eq!(widget_room(scalar(180.0)), Some(scalar(180.0)));
    assert_eq!(widget_room(scalar(f64::NAN)), Some(scalar(440.0)));
}

#[test]
fn widget_bounds_hit_test_includes_edges() {
    let bounds = bounds(100.0, 1.0, 180.0, 58.0);
    let contains = |x: f64, y: f64| bounds.contains(scalar(x), scalar(y));

    assert!(contains(100.0, 1.0));
    assert!(contains(280.0, 59.0));
    assert!(contains(180.0, 30.0));
    assert!(!contains(99.9, 30.0));
    assert!(!contains(180.0, 59.1));
    assert!(!contains(f64::NAN, 30.0));
}

#[test]
fn bounds_generation_invalidates_an_in_flight_touch() {
    let mut renderer = NowPlayingRenderer::new();
    let (x, y) = (scalar(180.0), scalar(30.0));
    renderer.set_bounds(Some(bounds(100.0, 1.0, 180.0, 58.0)));
    let token = renderer.touch_token(x, y).unwrap();
    assert!(renderer.token_is_current(token));

    // Pixel shifting moves the same interactive shape and should not make
    // ordinary presses fail merely because they span an animation tick.
    renderer.set_bounds(Some(bounds(110.0, 3.0, 180.0, 58.0)));
    assert!(renderer.token_is_current(token));
    assert!(renderer.touch_token(x, y).is_some());

    // A content/geometry change or visibility change is semantic and must
    // invalidate the bounds captured at Down.
    renderer.set_bounds(Some(bounds(110.0, 3.0, 181.0, 58.0)));
    assert!(!renderer.token_is_current(token));
    let token = renderer.touch_token(x, y).unwrap();
    renderer.set_bounds(None);
    assert!(!renderer.token_is_current(token));
    assert!(!renderer.hit_test(x, y));
}

#[test]
fn hiding_the_widget_ends_its_touches_for_good() {
    let mut renderer = NowPlayingRenderer::new();
    let shape = bounds(100.0, 1.0, 180.0, 58.0);
    renderer.set_bounds(Some(shape));
    let token = renderer.touch_token(scalar(180.0), scalar(30.0)).unwrap();
    renderer.set_bounds(None);
    assert_eq!(renderer.touch_token(scalar(180.0), scalar(30.0)), None);
    assert!(!renderer.token_is_current(token));
    renderer.set_bounds(Some(shape));
    assert!(renderer.hit_test(scalar(180.0), scalar(30.0)));
    assert!(!renderer.token_is_current(token));
}

fn track(title: &str) -> NowPlaying {
    NowPlaying {
        title: title.to_string(),
        artist: "Artist".to_string(),
        art_path: Some("/run/tiny-dfr-ben/media/current.png".to_string()),
    }
}

fn later(now: Moment) -> Moment {
    Moment { nanos: now.nanos + ART_RETRY_NANOS }
}

#[test]
fn art_cache_reloads_on_media_change_and_throttles_failures() {
    let now = at(0);
    let first = track("First track");
    let second = track("Second track");
    let mut renderer = NowPlayingRenderer {
        cached_art_media: Some(track("First track")),
        has_art: true,
        art_retry_at: None,
        last_bounds: Some(bounds(100.0, 1.0, 180.0, 58.0)),
        bounds_generation: 0,
    };

    assert!(!renderer.art_cache_needs_reload(&first, now));
    assert!(renderer.art_cache_needs_reload(&second, now));
    renderer.has_art = false;
    renderer.art_retry_at = Some(later(now));
    assert!(!renderer.art_cache_needs_reload(&first, now));
    assert_eq!(renderer.art_retry_wait(Some(&first), now), Some(ART_RETRY_NANOS));
    assert!(renderer.art_cache_needs_reload(&first, later(now)));
    renderer.last_bounds = None;
    assert_eq!(renderer.art_retry_wait(Some(&first), later(now)), None);
}

#[test]
fn loaded_art_is_kept_and_missing_art_is_tried_again() {
    let mut renderer = NowPlayingRenderer::new();
    let song = track("Song");
    renderer.set_bounds(Some(bounds(0.0, 0.0, 200.0, 58.0)));
    renderer.art_loaded(&song, true, at(0));
    assert!(renderer.has_art && renderer.art_retry_at.is_none());
    assert_eq!(renderer.art_retry_wait(Some(&song), at(0)), None);
    renderer.art_loaded(&song, false, at(0));
    assert_eq!(renderer.art_retry_at, Some(later(at(0))));
    assert_eq!(renderer.art_retry_wait(Some(&song), at(6000)), Some(0));
    assert_eq!(renderer.art_retry_wait(None, at(0)), None);
    let plain = NowPlaying { art_path: None, ..track("Plain") };
    renderer.art_loaded(&plain, true, at(0));
    assert!(!renderer.has_art && renderer.art_retry_at.is_none());
}

fn png_header(width: u32, height: u32) -> Vec<u8> {
    let mut bytes = b"\x89PNG\r\n\x1a\n\0\0\0\rIHDR".to_vec();
    bytes.extend_from_slice(&width.to_be_bytes());
    bytes.extend_from_slice(&height.to_be_bytes());
    bytes
}

#[test]
fn png_dimensions_are_bounded_before_decode() {
    assert!(png_dimensions_are_safe(&png_header(96, 96)));
    assert!(!png_dimensions_are_safe(&png_header(0, 96)));
    assert!(!png_dimensions_are_safe(&png_header(MAX_ART_DIMENSION_PX + 1, 1)));
    assert!(!png_dimensions_are_safe(&b"not png".to_vec()));
    assert!(png_dimensions_are_safe(&png_header(512, 1)));
    assert!(!png_dimensions_are_safe(&png_header(1, 0x0100_0001)));
    let mut broken = png_header(96, 96);
    broken[13] = b'h';
    assert!(!png_dimensions_are_safe(&broken));
}

#[test]
fn art_snapshot_enforces_the_compressed_byte_cap() {
    assert_eq!(
        read_art_snapshot(vec![0u8; MAX_ART_BYTES as usize]).unwrap().len(),
        MAX_ART_BYTES as usize
    );
    assert!(read_art_snapshot(vec![0u8; MAX_ART_BYTES as usize + 1]).is_none());
}

#[test]
fn only_plain_files_of_a_sane_size_are_art() {
    assert!(art_file_acceptable(true, MAX_ART_BYTES));
    assert!(!art_file_acceptable(true, MAX_ART_BYTES + 1));
    assert!(!art_file_acceptable(false, 10));
    assert!(decoded_size_acceptable(512, 1));
    assert!(!decoded_size_acceptable(513, 1));
    assert!(!decoded_size_acceptable(0, 1));
    assert!(!decoded_size_acceptable(1, -1));
}

#[test]
fn lines_shrink_until_they_fit() {
    let fit = |text: &str, limit: usize| {
        let mut line = Ellipsis::new(text);
        while let Some(candidate) = line.candidate() {
            if candidate.chars().count() <= limit {
                return candidate;
            }
            line.shrink();
        }
        String::new()
    };
    assert_eq!(fit("A long söng title", 9), "A long...");
    assert_eq!(fit("A long söng title", 12), "A long sö...");
    assert_eq!(fit("abc", 3), "");
    assert_eq!(fit("", 80), "");
    assert_eq!(fit(&"x".repeat(200), 500).len(), 83);
}
