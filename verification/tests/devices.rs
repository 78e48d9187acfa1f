//! Sliders, the rate limiter, batteries and the files of pictures.
use tiny_dfr::battery::{
    battery_icon, battery_state, battery_tint, capacity_from_text, icon_name, is_battery_type,
    percent_text, BatteryIcon, BatteryIconMode, BatteryState, Tint,
};
use tiny_dfr::config::SliderTarget;
use tiny_dfr::moment::Moment;
use tiny_dfr::paths::{
    art_path_allowed, icon_locations, image_kind, kind_of_extension, next_location, safe_art_path,
    ImageKind, LoadStep,
};
use tiny_dfr::scalar::Scalar;
use tiny_dfr::sliders::{
    brightness_text, slider_value_from_x, Drive, SliderBackends, SliderError, SysfsSlider,
    DISPLAY_FLOOR_BITS,
};
use tiny_dfr::throttle::{
    slider_target_from_index, slider_target_index, EmitThrottle, SLIDER_TARGET_COUNT,
};

const SLIDER_TRACK_INSET_PX: f64 = 30.0;

fn scalar(x: f64) -> Scalar {
    Scalar::from_bits(x.to_bits())
}

fn float(s: Scalar) -> f64 {
    f64::from_bits(s.bits)
}

fn at(millis: u64) -> Moment {
    Moment { nanos: 1_000_000_000 + millis * 1_000_000 }
}

/// A device that reports the given greatest brightness.
fn device(max: &str, min_fraction: f64) -> SysfsSlider {
    SysfsSlider::open(Some(max.to_string()), scalar(min_fraction)).unwrap()
}

/// What is written for a slider position.
fn written(slider: &SysfsSlider, value: f64) -> Option<String> {
    let fraction = slider.fraction(scalar(value)).map_or(0.0, float);
    let rounded = (fraction * slider.max() as f64).round() as u32;
    slider.write_value(scalar(value), rounded).map(brightness_text)
}

fn raw_for(slider: &SysfsSlider, value: f64) -> u32 {
    written(slider, value).unwrap().trim().parse().unwrap()
}

fn read_value(slider: &SysfsSlider, report: &str) -> Option<f64> {
    slider
        .read_value(Some(report.to_string()))
        .map(|raw| (raw as f64 / slider.max() as f64).clamp(0.0, 1.0))
}

#[test]
fn raw_value_round_trips_with_rounding_and_clamps() {
    let slider = device("17777\n", 0.0);

    assert_eq!(raw_for(&slider, 0.0), 0);
    assert_eq!(raw_for(&slider, 0.5), 8889); // round(0.5 * 17777)
    assert_eq!(raw_for(&slider, 1.0), 17777);
    assert_eq!(raw_for(&slider, 2.0), 17777);
    assert_eq!(raw_for(&slider, -1.0), 0);
}

#[test]
fn display_floor_never_writes_zero() {
    let slider = device("17777\n", 0.01);

    assert_eq!(written(&slider, 0.0).as_deref(), Some("178\n")); // round(0.01 * 17777)
}

#[test]
fn keyboard_backend_allows_zero() {
    let slider = device("14660\n", 0.0);

    assert_eq!(written(&slider, 0.0).as_deref(), Some("0\n"));
}

#[test]
fn non_finite_values_are_dropped() {
    let slider = device("100\n", 0.0);

    assert_eq!(written(&slider, f64::NAN), None);
    assert_eq!(written(&slider, f64::INFINITY), None);
}

#[test]
fn read_value_tolerates_trailing_newline_and_clamps() {
    let slider = device("14660\n", 0.0);

    assert_eq!(read_value(&slider, "14660\n"), Some(1.0));
    assert_eq!(read_value(&slider, "0\n"), Some(0.0));
    assert_eq!(read_value(&slider, "99999"), Some(1.0));
    assert_eq!(read_value(&slider, "dim"), None);
    assert_eq!(slider.read_value(None), None);
}

#[test]
fn zero_max_is_rejected() {
    let open = |max: &str| SysfsSlider::open(Some(max.to_string()), scalar(0.0));

    assert_eq!(open("0\n").err(), Some(SliderError::ZeroMax));
    assert_eq!(open("bright\n").err(), Some(SliderError::NotANumber));
}

#[test]
fn missing_device_degrades_to_none() {
    let backends = SliderBackends::new(None, None);

    assert!(backends.display.is_none());
    assert!(backends.keyboard.is_none());
    assert_eq!(SysfsSlider::open(None, scalar(0.01)).err(), Some(SliderError::Unreadable));
    assert_eq!(backends.drive(SliderTarget::DisplayBrightness, scalar(0.5)), Drive::Nothing);
    assert_eq!(backends.drive(SliderTarget::KeyboardBrightness, scalar(0.5)), Drive::Nothing);
    assert_eq!(backends.drive(SliderTarget::Volume, scalar(0.5)), Drive::Volume(scalar(0.5)));
}

#[test]
fn the_panel_keeps_a_hundredth_of_its_light() {
    assert_eq!(DISPLAY_FLOOR_BITS, 0.01f64.to_bits());
    let backends = SliderBackends::new(Some("17777\n".to_string()), Some("14660\n".to_string()));
    let display = |v: f64| backends.drive(SliderTarget::DisplayBrightness, scalar(v));
    let keyboard = |v: f64| backends.drive(SliderTarget::KeyboardBrightness, scalar(v));
    assert_eq!(display(0.0), Drive::Display(scalar(0.01)));
    assert_eq!(display(-3.0), Drive::Display(scalar(0.01)));
    assert_eq!(display(0.4), Drive::Display(scalar(0.4)));
    assert_eq!(display(f64::NAN), Drive::Nothing);
    assert_eq!(keyboard(0.0), Drive::Keyboard(scalar(0.0)));
    assert_eq!(keyboard(9.0), Drive::Keyboard(scalar(1.0)));
    assert_eq!(backends.keyboard.as_ref().unwrap().max(), 14660);
}

#[test]
fn no_drag_turns_a_coarse_panel_off() {
    let panel = device("10\n", 0.01);
    assert_eq!(raw_for(&panel, 0.0), 1); // round(0.01 * 10) is 0
    assert_eq!(raw_for(&panel, -1.0), 1);
    assert_eq!(raw_for(&panel, 0.5), 5);
    assert_eq!(raw_for(&panel, 1.0), 10);
    assert_eq!(raw_for(&panel, 7.0), 10);
    assert_eq!(written(&panel, f64::NAN), None);
    assert_eq!(written(&panel, f64::NEG_INFINITY), None);
    assert_eq!(panel.raw_to_write(0), 1);
    assert_eq!(panel.raw_to_write(4), 4);
    assert_eq!(panel.raw_to_write(11), 10);

    // Writing the fraction of a position is writing the position.
    let fraction = panel.fraction(scalar(-1.0)).unwrap();
    assert_eq!(fraction, scalar(0.01));
    assert_eq!(panel.write_value(fraction, 0), Some(1));
    assert_eq!(panel.write_value(scalar(0.9), 99), Some(10));

    let keyboard = device("10\n", 0.0);
    assert_eq!(raw_for(&keyboard, 0.0), 0);
    assert_eq!(keyboard.raw_to_write(0), 0);
}

#[test]
fn unsound_floors_are_brought_into_range() {
    assert_eq!(raw_for(&device("100", f64::NAN), 0.0), 0);
    assert_eq!(raw_for(&device("100", 7.0), 0.0), 100);
    assert_eq!(raw_for(&device("100", -7.0), 0.0), 0);
}

#[test]
fn failed_writes_are_reported_once() {
    let mut slider = device("100", 0.0);
    assert!(slider.written(false));
    assert!(!slider.written(false));
    assert!(!slider.written(true));
    assert!(slider.written(false));
}

fn value_at(left: f64, width: f64, x: f64) -> f64 {
    let track_left = left + SLIDER_TRACK_INSET_PX;
    let track_len = (width - 2.0 * SLIDER_TRACK_INSET_PX).max(1.0);
    float(slider_value_from_x(scalar(x), scalar((x - track_left) / track_len)))
}

#[test]
fn slider_value_mapping_clamps_and_respects_track_inset() {
    let (left, width) = (100.0, 488.0);
    let track_left = left + SLIDER_TRACK_INSET_PX;
    let track_len = width - 2.0 * SLIDER_TRACK_INSET_PX;

    assert_eq!(value_at(left, width, track_left), 0.0);
    assert_eq!(value_at(left, width, track_left + track_len / 2.0), 0.5);
    assert_eq!(value_at(left, width, track_left + track_len), 1.0);
    assert_eq!(value_at(left, width, -500.0), 0.0);
    assert_eq!(value_at(left, width, 5000.0), 1.0);
    assert_eq!(value_at(left, width, f64::NAN), 0.0);
}

#[test]
fn throttle_emits_at_most_every_interval_and_flushes_final() {
    let mut throttle = EmitThrottle::new();
    let volume = SliderTarget::Volume;

    assert_eq!(throttle.offer(volume, scalar(0.1), at(0)), Some((volume, scalar(0.1))));
    assert_eq!(throttle.offer(volume, scalar(0.2), at(10)), None);
    assert_eq!(throttle.take_due(at(20)), None);
    assert_eq!(throttle.take_due(at(60)), Some((volume, scalar(0.2))));
    // Final flush is unconditional for the drag's own target.
    assert_eq!(throttle.offer(volume, scalar(0.3), at(70)), None);
    assert_eq!(throttle.flush(volume, at(80)), Some((volume, scalar(0.3))));
    assert_eq!(throttle.flush(volume, at(80)), None);
}

#[test]
fn throttle_keeps_pending_values_per_target() {
    let mut throttle = EmitThrottle::new();
    let display = SliderTarget::DisplayBrightness;
    let keyboard = SliderTarget::KeyboardBrightness;
    throttle.offer(SliderTarget::Volume, scalar(0.1), at(0));

    // Two targets pend within the same interval; neither drops the other.
    assert_eq!(throttle.offer(display, scalar(0.5), at(10)), None);
    assert_eq!(throttle.offer(keyboard, scalar(0.7), at(20)), None);

    assert_eq!(throttle.take_due(at(60)), Some((display, scalar(0.5))));
    assert_eq!(throttle.take_due(at(120)), Some((keyboard, scalar(0.7))));
    assert_eq!(throttle.take_due(at(180)), None);
}

#[test]
fn waits_last_until_the_interval_is_over() {
    let mut throttle = EmitThrottle::new();
    assert_eq!(throttle.pending_wait_ms(at(0)), None);
    throttle.offer(SliderTarget::Volume, scalar(0.1), at(0));
    assert_eq!(throttle.pending_wait_ms(at(0)), None);
    throttle.offer(SliderTarget::Volume, scalar(0.2), at(10));
    throttle.offer(SliderTarget::Volume, scalar(0.3), at(15));
    assert_eq!(throttle.pending_wait_ms(at(20)), Some(30));
    assert_eq!(throttle.pending_wait_ms(at(90)), Some(1));
    assert_eq!(throttle.take_due(at(50)), Some((SliderTarget::Volume, scalar(0.3))));
    for index in 0..SLIDER_TARGET_COUNT {
        assert_eq!(slider_target_index(slider_target_from_index(index)), index);
    }
    assert_eq!(slider_target_from_index(9), SliderTarget::Volume);
}

#[test]
fn battery_states_follow_the_status_word() {
    assert_eq!(battery_state("Charging\n", 5), BatteryState::Charging);
    assert_eq!(battery_state(" Full ", 100), BatteryState::Charging);
    assert_eq!(battery_state("Discharging\n", 9), BatteryState::Low);
    assert_eq!(battery_state("Discharging\n", 10), BatteryState::NotCharging);
    assert_eq!(battery_state("Unknown", 3), BatteryState::NotCharging);
    assert_eq!(battery_tint(BatteryState::Charging), Tint::Green);
    assert_eq!(battery_tint(BatteryState::Low), Tint::Red);
    assert_eq!(battery_tint(BatteryState::NotCharging), Tint::Grey);
}

#[test]
fn battery_reports_are_read() {
    assert_eq!(capacity_from_text(Some("57\n".to_string())), 57);
    assert_eq!(capacity_from_text(Some("much".to_string())), 100);
    assert_eq!(capacity_from_text(None), 100);
    assert!(is_battery_type("Battery\n"));
    assert!(!is_battery_type("Mains\n"));
    assert_eq!(percent_text(7), "7%");
    assert_eq!(percent_text(100), "100%");
}

#[test]
fn battery_pictures_step_with_the_charge() {
    let plain = |c: u32| match battery_icon(BatteryIconMode::Icon, BatteryState::Low, c) {
        Some(BatteryIcon::Plain(i)) => i,
        _ => panic!("not plain"),
    };
    let charging = |c: u32| match battery_icon(BatteryIconMode::Both, BatteryState::Charging, c) {
        Some(BatteryIcon::Charging(i)) => i,
        _ => panic!("not charging"),
    };
    let plain_steps: Vec<usize> =
        [0, 1, 20, 21, 30, 31, 50, 51, 60, 61, 80, 81, 99, 100].iter().map(|c| plain(*c)).collect();
    assert_eq!(plain_steps, vec![0, 1, 1, 2, 2, 3, 3, 4, 4, 5, 5, 6, 6, 7]);
    let charging_steps: Vec<usize> =
        [0, 20, 21, 30, 31, 50, 51, 60, 61, 80, 81, 99, 100].iter().map(|c| charging(*c)).collect();
    assert_eq!(charging_steps, vec![0, 0, 1, 1, 2, 2, 3, 3, 4, 4, 5, 5, 6]);
    for c in 0..150 {
        assert!(plain(c) <= plain(c + 1));
        assert!(charging(c) <= charging(c + 1));
    }
    let digits = BatteryIconMode::Percentage;
    assert_eq!(battery_icon(digits, BatteryState::Charging, 50), Some(BatteryIcon::Bolt));
    assert_eq!(battery_icon(digits, BatteryState::Low, 5), None);
}

#[test]
fn battery_modes_and_pictures_have_names() {
    assert_eq!(BatteryIconMode::from_name("icon"), Some(BatteryIconMode::Icon));
    assert_eq!(BatteryIconMode::from_name("percentage"), Some(BatteryIconMode::Percentage));
    assert_eq!(BatteryIconMode::from_name("both"), Some(BatteryIconMode::Both));
    assert_eq!(BatteryIconMode::from_name("Both"), None);
    assert!(!BatteryIconMode::Percentage.should_draw_icon());
    assert!(!BatteryIconMode::Icon.should_draw_text());
    assert!(BatteryIconMode::Both.should_draw_icon() && BatteryIconMode::Both.should_draw_text());
    assert_eq!(icon_name(BatteryIcon::Bolt), "bolt");
    assert_eq!(icon_name(BatteryIcon::Plain(0)), "battery_0_bar");
    assert_eq!(icon_name(BatteryIcon::Plain(7)), "battery_full");
    assert_eq!(icon_name(BatteryIcon::Charging(5)), "battery_charging_90");
    assert_eq!(icon_name(BatteryIcon::Charging(6)), "battery_charging_full");
}

const DIR: &str = "/tmp/tiny-dfr-ben/now-playing-test";

#[test]
fn safe_art_path_rejects_relative_and_wrong_extension() {
    assert!(!safe_art_path("cover.png", "", Some(false)));
    assert!(!safe_art_path("/tmp/tiny-dfr-ben/cover.jpg", "/tmp/tiny-dfr-ben", Some(false)));
}

#[test]
fn safe_art_path_accepts_allowed_root_and_rejects_symlink_escape() {
    let allowed = format!("{DIR}/cover.png");
    assert!(safe_art_path(&allowed, DIR, Some(false)));

    let link = format!("{DIR}/escape.png");
    assert!(!safe_art_path(&link, DIR, Some(true)));
}

#[test]
fn art_lies_directly_in_its_directory() {
    let dir = "/run/tiny-dfr-ben/media";
    assert!(safe_art_path("/run/tiny-dfr-ben/media//a.png", dir, Some(false)));
    assert!(!safe_art_path("/run/tiny-dfr-ben/media/sub/a.png", dir, Some(false)));
    assert!(!safe_art_path("/run/tiny-dfr-ben/media/../a.png", dir, Some(false)));
    assert!(!safe_art_path("/run/tiny-dfr-ben/media/a.png", dir, None));
    assert!(!safe_art_path("/run/tiny-dfr-ben/media/.png", dir, Some(false)));
    assert!(!safe_art_path("/", dir, Some(false)));
    assert!(art_path_allowed(true, ImageKind::Png, true, Some(false)));
    assert!(!art_path_allowed(false, ImageKind::Png, true, Some(false)));
    assert!(!art_path_allowed(true, ImageKind::Svg, true, Some(false)));
    assert!(!art_path_allowed(true, ImageKind::Png, false, Some(false)));
}

#[test]
fn pictures_are_told_by_their_extension() {
    assert_eq!(image_kind("/a/b.svg"), ImageKind::Svg);
    assert_eq!(image_kind("/a.svg/b.tar.png"), ImageKind::Png);
    assert_eq!(image_kind("/a.svg/b"), ImageKind::Unknown);
    assert_eq!(image_kind("/a/b.PNG"), ImageKind::Unknown);
    assert_eq!(kind_of_extension(&None), ImageKind::Unknown);
    assert_eq!(
        icon_locations("search"),
        vec![
            "/etc/tiny-dfr/search.svg",
            "/etc/tiny-dfr/search.png",
            "/usr/share/tiny-dfr/search.svg",
            "/usr/share/tiny-dfr/search.png",
        ]
    );
}

#[test]
fn the_first_place_that_holds_a_picture_wins() {
    assert_eq!(next_location(0, false, 4), LoadStep::Try(0));
    assert_eq!(next_location(3, false, 4), LoadStep::Try(3));
    assert_eq!(next_location(4, false, 4), LoadStep::Fail);
    assert_eq!(next_location(2, true, 4), LoadStep::Done);
    assert_eq!(next_location(4, true, 4), LoadStep::Done);
    assert_eq!(next_location(0, false, 0), LoadStep::Fail);

    let find = |gives: &[bool]| {
        let (mut tried, mut found) = (0, None);
        while let LoadStep::Try(i) = next_location(tried, found.is_some(), gives.len()) {
            if gives[i] {
                found = Some(i);
            }
            tried += 1;
        }
        found
    };
    assert_eq!(find(&[false, true, true, false]), Some(1));
    assert_eq!(find(&[false, false]), None);
}
