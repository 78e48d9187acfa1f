//! The bar as a whole: touches, the function key, timeouts, live strips.
use tiny_dfr::bar::{base_timeout_ms, shorter_wait, Bar};
use tiny_dfr::button::{ButtonImage, Effect};
use tiny_dfr::button_set::SliderReadings;
use tiny_dfr::config::{ButtonConfig, SliderTarget, WorkspacesCfg};
use tiny_dfr::helper_proto::WsEntry;
use tiny_dfr::layer::{ButtonSetKey, FunctionLayer};
use tiny_dfr::layer_hit::HitOutcome;
use tiny_dfr::moment::Moment;
use tiny_dfr::scalar::Scalar;

fn scalar(x: f64) -> Scalar {
    Scalar::from_bits(x.to_bits())
}

fn at(millis: u64) -> Moment {
    Moment { nanos: 10_000_000_000 + millis * 1_000_000 }
}

fn none() -> SliderReadings {
    SliderReadings { display: None, keyboard: None, volume: None }
}

fn key(text: &str, code: u16) -> ButtonConfig {
    ButtonConfig { text: Some(text.to_string()), action: vec![code], ..Default::default() }
}

fn opens(name: &str) -> ButtonConfig {
    ButtonConfig {
        text: Some(name.to_string()),
        open_overlay: Some(name.to_string()),
        ..Default::default()
    }
}

fn slider(target: SliderTarget) -> ButtonConfig {
    ButtonConfig { slider: Some(target), ..Default::default() }
}

fn groups() -> Vec<(String, Vec<ButtonConfig>)> {
    vec![(
        "sound".to_string(),
        vec![
            slider(SliderTarget::Volume),
            key("mute", 113),
            ButtonConfig {
                text: Some("x".to_string()),
                close_overlay: Some(true),
                ..Default::default()
            },
        ],
    )]
}

fn bar() -> Bar {
    let ws = WorkspacesCfg { max_buttons: 9, fallback_buttons: 2, actions: vec![] };
    let media = FunctionLayer::with_config(
        vec![opens("sound"), key("play", 164), slider(SliderTarget::DisplayBrightness)],
        groups(),
        Some(&ws),
        &None,
    )
    .unwrap();
    let primary = FunctionLayer::with_config(vec![key("F1", 59)], vec![], None, &None).unwrap();
    Bar::new(vec![media, primary], 0, at(0))
}

fn base(index: usize) -> HitOutcome {
    HitOutcome::Button(ButtonSetKey::Base, index)
}

fn sound(index: usize) -> HitOutcome {
    HitOutcome::Button(ButtonSetKey::Overlay("sound".to_string()), index)
}

fn down(code: u16) -> Effect {
    Effect::Key { code, down: true }
}

fn up(code: u16) -> Effect {
    Effect::Key { code, down: false }
}

fn entry(id: u64, idx: u8, foc: bool) -> WsEntry {
    WsEntry { id, idx, occ: false, foc }
}

/// A finger comes down on a button and goes up again.
fn tap(bar: &mut Bar, slot: u32, hit: HitOutcome, now: Moment, effects: &mut Vec<Effect>) {
    bar.touch_down(slot, hit, None, none(), now, effects);
    bar.touch_up(slot, Some(scalar(500.0)), none(), now, effects);
}

#[test]
fn a_tap_presses_and_releases_its_keys() {
    let mut bar = bar();
    let mut effects = Vec::new();
    bar.touch_down(1, base(1), None, none(), at(1), &mut effects);
    assert_eq!(effects, vec![down(164), Effect::Report]);
    assert_eq!(bar.touches.len(), 1);
    effects.clear();
    bar.touch_up(1, None, none(), at(2), &mut effects);
    assert_eq!(effects, vec![up(164), Effect::Report]);
    assert!(bar.touches.is_empty());
    assert_eq!(bar.layer().overlay_stack.len(), 0);
}

#[test]
fn sliding_off_a_button_releases_it_and_does_not_act() {
    let mut bar = bar();
    let mut effects = Vec::new();
    bar.touch_down(1, base(0), None, none(), at(1), &mut effects);
    bar.touch_motion(1, None, false, at(2), &mut effects);
    bar.touch_up(1, None, none(), at(3), &mut effects);
    assert!(!bar.layer().has_open_overlay());

    effects.clear();
    bar.touch_down(1, base(1), None, none(), at(4), &mut effects);
    bar.touch_motion(1, None, false, at(5), &mut effects);
    bar.touch_motion(1, None, true, at(6), &mut effects);
    bar.touch_up(1, None, none(), at(7), &mut effects);
    let keys: Vec<&Effect> = effects.iter().filter(|e| **e != Effect::Report).collect();
    assert_eq!(keys, vec![&down(164), &up(164), &down(164), &up(164)]);
}

#[test]
fn a_duplicate_down_frees_the_slot_first() {
    let mut bar = bar();
    let mut effects = Vec::new();
    bar.touch_down(1, base(1), None, none(), at(1), &mut effects);
    bar.touch_down(1, base(0), None, none(), at(2), &mut effects);
    assert_eq!(effects, vec![down(164), Effect::Report, up(164), Effect::Report]);
    assert_eq!(bar.touches.len(), 1);
    assert_eq!(bar.touch(1).unwrap().index, 0);
    assert!(bar.touch(2).is_none());
}

#[test]
fn opening_an_overlay_ends_other_touches() {
    let mut bar = bar();
    let mut effects = Vec::new();
    bar.touch_down(2, base(1), None, none(), at(1), &mut effects);
    bar.needs_complete_redraw = false;
    tap(&mut bar, 1, base(0), at(2), &mut effects);
    assert!(bar.layer().has_open_overlay());
    assert!(bar.touches.is_empty());
    assert!(bar.needs_complete_redraw);
    assert_eq!(effects, vec![down(164), Effect::Report, up(164), Effect::Report]);
    assert_eq!(bar.layer().overlay_stack[0].anchor_x, Some(scalar(500.0)));

    // The close button inside the overlay takes it away again.
    tap(&mut bar, 1, sound(2), at(3), &mut effects);
    assert!(!bar.layer().has_open_overlay());
}

#[test]
fn touching_beside_an_overlay_closes_it_and_is_forgotten() {
    let mut bar = bar();
    let mut effects = Vec::new();
    tap(&mut bar, 1, base(0), at(1), &mut effects);
    bar.touch_down(3, sound(1), None, none(), at(2), &mut effects);
    effects.clear();
    bar.touch_down(1, HitOutcome::OutsideControls, None, none(), at(3), &mut effects);
    assert_eq!(effects, vec![up(113), Effect::Report]);
    assert!(!bar.layer().has_open_overlay());
    assert!(bar.touches.is_empty());
    effects.clear();
    bar.touch_up(1, None, none(), at(4), &mut effects);
    assert!(effects.is_empty());
    bar.touch_down(1, HitOutcome::Miss, None, none(), at(5), &mut effects);
    assert!(effects.is_empty() && bar.touches.is_empty());
}

#[test]
fn drags_send_positions_no_faster_than_the_interval() {
    let mut bar = bar();
    let mut effects = Vec::new();
    let moved = |v: f64| Effect::Slider {
        target: SliderTarget::DisplayBrightness,
        value: scalar(v),
    };
    bar.touch_down(1, base(2), Some(scalar(0.2)), none(), at(0), &mut effects);
    bar.touch_motion(1, Some(scalar(0.3)), false, at(10), &mut effects);
    bar.touch_motion(1, Some(scalar(0.4)), false, at(20), &mut effects);
    assert_eq!(effects, vec![moved(0.2)]);
    assert_eq!(bar.send_due(at(30), &mut effects), Some(20));
    assert_eq!(bar.send_due(at(60), &mut effects), None);
    assert_eq!(effects, vec![moved(0.2), moved(0.4)]);
    bar.touch_motion(1, Some(scalar(0.5)), false, at(70), &mut effects);
    bar.touch_up(1, None, none(), at(71), &mut effects);
    assert_eq!(effects, vec![moved(0.2), moved(0.4), moved(0.5)]);
    let set = bar.layer().visible();
    assert!(matches!(set.buttons[2].1.image, ButtonImage::Slider(s) if !s.dragging && s.value == scalar(0.5)));
}

#[test]
fn the_first_finger_owns_a_slider() {
    let mut bar = bar();
    let mut effects = Vec::new();
    bar.touch_down(1, base(2), Some(scalar(0.2)), none(), at(0), &mut effects);
    effects.clear();
    bar.touch_down(2, base(2), Some(scalar(0.9)), none(), at(1), &mut effects);
    assert!(effects.is_empty());
    assert_eq!(bar.touches.len(), 1);
    bar.touch_cancel(1, at(2), &mut effects);
    assert!(bar.touches.is_empty());
    bar.sync_all(SliderReadings { display: Some(scalar(0.7)), keyboard: None, volume: None });
    assert!(matches!(
        bar.layer().visible().buttons[2].1.image,
        ButtonImage::Slider(s) if s.value == scalar(0.7)
    ));
}

#[test]
fn cancelled_touches_release_but_never_act() {
    let mut bar = bar();
    let mut effects = Vec::new();
    bar.touch_down(1, base(0), None, none(), at(0), &mut effects);
    bar.touch_cancel(1, at(1), &mut effects);
    assert!(!bar.layer().has_open_overlay());
    bar.touch_down(1, base(1), None, none(), at(2), &mut effects);
    bar.touch_cancel(1, at(3), &mut effects);
    assert_eq!(effects, vec![down(164), Effect::Report, up(164), Effect::Report]);
    bar.touch_cancel(7, at(4), &mut effects);
    assert_eq!(effects.len(), 4);
}

#[test]
fn live_workspaces_are_focused_by_a_tap() {
    let mut bar = bar();
    let mut effects = Vec::new();
    bar.on_helper(true, true, vec![vec![entry(7, 1, true), entry(9, 2, false)]], none());
    assert_eq!(bar.apply_staged(at(0), &mut effects), None);
    let generation = bar.layer().strip_generation;
    tap(&mut bar, 1, HitOutcome::Button(ButtonSetKey::Strip(generation), 1), at(1), &mut effects);
    assert_eq!(effects, vec![Effect::Focus(9)]);
}

#[test]
fn rebuilds_wait_for_the_interval_and_the_latest_wins() {
    let mut bar = bar();
    let mut effects = Vec::new();
    bar.on_helper(true, true, vec![vec![entry(1, 1, true)]], none());
    assert_eq!(bar.apply_staged(at(0), &mut effects), None);
    assert_eq!(bar.layer().strip.buttons.len(), 1);

    bar.on_helper(true, true, vec![vec![entry(1, 1, true), entry(2, 2, false)]], none());
    assert_eq!(bar.apply_staged(at(40), &mut effects), Some(60));
    assert_eq!(bar.layer().strip.buttons.len(), 1);
    // A focus that moves among the same buttons need not wait.
    bar.on_helper(true, true, vec![vec![entry(1, 1, false)]], none());
    assert_eq!(bar.apply_staged(at(50), &mut effects), None);
    assert!(!bar.layer().strip.buttons[0].1.highlighted);
    // Stale state brings the static strip back.
    bar.on_helper(false, false, vec![vec![entry(1, 1, false)]], none());
    assert_eq!(bar.apply_staged(at(200), &mut effects), None);
    assert_eq!(bar.layer().strip.buttons.len(), 2);
    // Nothing new, nothing staged.
    bar.on_helper(false, false, vec![vec![entry(1, 1, false)]], none());
    assert!(bar.staged.is_none());
}

#[test]
fn rebuilding_ends_touches_and_a_heartbeat_does_not() {
    let mut bar = bar();
    let mut effects = Vec::new();
    let model = vec![vec![entry(1, 1, true)]];
    bar.on_helper(true, true, model.clone(), none());
    bar.apply_staged(at(0), &mut effects);
    bar.touch_down(1, base(1), None, none(), at(1), &mut effects);
    bar.on_helper(true, true, model, none());
    bar.apply_staged(at(500), &mut effects);
    assert_eq!(bar.touches.len(), 1);
    bar.on_helper(true, true, vec![vec![entry(2, 1, true)]], none());
    bar.apply_staged(at(1000), &mut effects);
    assert!(bar.touches.is_empty());
    assert_eq!(effects, vec![down(164), Effect::Report, up(164), Effect::Report]);
}

#[test]
fn the_function_key_shows_the_other_layer() {
    let mut bar = bar();
    let mut effects = Vec::new();
    tap(&mut bar, 1, base(0), at(1), &mut effects);
    bar.touch_down(1, sound(1), None, none(), at(2), &mut effects);
    effects.clear();
    bar.fn_key(true, 0, at(3), &mut effects);
    assert_eq!(bar.active_layer, 1);
    assert_eq!(effects, vec![up(113), Effect::Report]);
    assert!(bar.needs_complete_redraw);
    bar.fn_key(false, 0, at(4), &mut effects);
    assert_eq!(bar.active_layer, 0);
    assert!(!bar.layer().has_open_overlay());
}

#[test]
fn pressing_the_function_key_twice_swaps_the_layers() {
    let mut bar = bar();
    let mut effects = Vec::new();
    bar.fn_key(true, 300, at(5000), &mut effects);
    bar.fn_key(false, 300, at(5050), &mut effects);
    assert!(bar.layers[0].is_regions());
    bar.fn_key(true, 300, at(5200), &mut effects);
    assert!(bar.layers[1].is_regions());
    bar.fn_key(false, 300, at(5250), &mut effects);
    assert!(!bar.layer().is_regions());
    bar.fn_key(true, 300, at(6000), &mut effects);
    assert!(bar.layers[1].is_regions());
}

#[test]
fn idle_overlays_close_but_never_under_a_finger() {
    let timeout = 8_000_000_000;
    let mut bar = bar();
    let mut effects = Vec::new();
    assert_eq!(bar.overlay_timeout(at(0), timeout, none()), None);
    tap(&mut bar, 1, base(0), at(0), &mut effects);
    assert_eq!(bar.overlay_timeout(at(3000), timeout, none()), Some(5000));
    bar.touch_down(1, sound(1), None, none(), at(3000), &mut effects);
    assert_eq!(bar.overlay_timeout(at(20_000), timeout, none()), None);
    assert!(bar.layer().has_open_overlay());
    bar.touch_up(1, None, none(), at(20_000), &mut effects);
    assert_eq!(bar.overlay_timeout(at(20_001), timeout, none()), Some(7999));
    assert_eq!(bar.overlay_timeout(at(28_000), timeout, none()), None);
    assert!(!bar.layer().has_open_overlay());
}

#[test]
fn reloading_releases_the_old_layers() {
    let mut first = bar();
    let mut effects = Vec::new();
    first.touch_down(1, base(1), None, none(), at(0), &mut effects);
    first.reload(bar().layers, &mut effects);
    assert_eq!(effects, vec![down(164), Effect::Report, up(164), Effect::Report]);
    assert!(first.touches.is_empty());
    assert_eq!(first.active_layer, 0);
}

#[test]
fn the_clock_asks_for_a_redraw_once_a_minute() {
    let time = ButtonConfig { time: Some("24hr".to_string()), ..Default::default() };
    let make = |t: ButtonConfig| FunctionLayer::with_config(vec![t], vec![], None, &None).unwrap();
    let mut bar = Bar::new(vec![make(time.clone()), make(time)], 5, at(0));
    bar.paint(true);
    assert!(!bar.needs_drawing());
    bar.tick(30, 5);
    assert!(!bar.needs_drawing());
    bar.tick(0, 6);
    assert!(bar.needs_complete_redraw && bar.last_redraw_ts == 6);
    let plan = bar.paint(false);
    assert_eq!(plan.controls.len(), 1);
    assert!(!bar.needs_drawing());

    let seconds = ButtonConfig { time: Some("%S".to_string()), ..Default::default() };
    let mut fast = Bar::new(vec![make(seconds.clone()), make(seconds)], 5, at(0));
    fast.paint(true);
    fast.tick(6, 5);
    assert!(fast.needs_drawing());
}

#[test]
fn no_order_of_events_strands_a_key() {
    // A fixed pseudo-random walk through the events.
    let mut bar = bar();
    let mut effects = Vec::new();
    let mut seed: u64 = 12345;
    let mut next = |n: u64| {
        seed = seed.wrapping_mul(6364136223846793005).wrapping_add(1442695040888963407);
        (seed >> 33) % n
    };
    for step in 0..4000u64 {
        let now = at(step * 30);
        let slot = next(3) as u32;
        match next(10) {
            0 | 1 | 2 => {
                let set = bar.layer().controls_key();
                let count = bar.layer().visible().buttons.len() as u64;
                let index = next(count) as usize;
                let hit = HitOutcome::Button(set, index);
                bar.touch_down(slot, hit, Some(scalar(0.5)), none(), now, &mut effects);
            }
            3 => bar.touch_motion(slot, Some(scalar(0.6)), next(2) == 0, now, &mut effects),
            4 | 5 => bar.touch_up(slot, None, none(), now, &mut effects),
            6 => bar.touch_cancel(slot, now, &mut effects),
            7 => bar.fn_key(next(2) == 0, 200, now, &mut effects),
            8 => {
                bar.on_helper(true, true, vec![vec![entry(next(3), 1, true)]], none());
                bar.apply_staged(now, &mut effects);
            }
            _ => {
                if bar.layer().has_open_overlay() {
                    bar.touch_down(slot, HitOutcome::OutsideControls, None, none(), now, &mut effects);
                }
            }
        }
    }
    for slot in 0..3 {
        bar.touch_cancel(slot, at(1_000_000), &mut effects);
    }
    for code in [59, 113, 164] {
        let downs = effects.iter().filter(|e| **e == down(code)).count();
        let ups = effects.iter().filter(|e| **e == up(code)).count();
        assert!(downs > 0);
        assert_eq!(downs, ups);
    }
}

#[test]
fn waits_end_with_the_minute() {
    assert_eq!(base_timeout_ms(0), 10_000);
    assert_eq!(base_timeout_ms(55), 5_000);
    assert_eq!(base_timeout_ms(59), 1_000);
    assert_eq!(shorter_wait(100, Some(40)), 40);
    assert_eq!(shorter_wait(100, Some(400)), 100);
    assert_eq!(shorter_wait(100, None), 100);
}

#[test]
fn an_untouched_bar_sends_nothing() {
    let mut bar = bar();
    let mut effects = Vec::new();
    let mut millis = 1;
    for round in 0..60u64 {
        millis += 40;
        let now = at(millis);
        let model = (0..round % 4)
            .map(|g| vec![entry(round * 10 + g, g as u8 + 1, g == round % 3)])
            .collect();
        let readings = SliderReadings {
            display: Some(scalar(round as f64 / 60.0)),
            keyboard: None,
            volume: Some(scalar(0.5)),
        };
        bar.on_helper(round % 2 == 0, round % 5 != 0, model, readings);
        bar.apply_staged(now, &mut effects);
        bar.send_due(now, &mut effects);
        bar.fn_key(round % 2 == 0, 300, now, &mut effects);
        bar.overlay_timeout(now, 1, readings);
        bar.tick(round as u32, 0);
        bar.sync_all(readings);
        bar.paint(true);
        assert!(effects.is_empty());
        assert!(bar.touches.is_empty());
    }
    assert!(bar.layers.iter().any(|layer| layer.strip_generation > 1));
}

#[test]
fn open_overlays_hide_the_middle() {
    let mut bar = bar();
    let mut effects = Vec::new();
    assert!(bar.layer().middle_is_free());
    tap(&mut bar, 1, base(0), at(1), &mut effects);
    assert!(bar.layer().has_open_overlay());
    assert!(!bar.layer().middle_is_free());
    bar.overlay_timeout(at(5_000), 1_000_000_000, none());
    assert!(bar.layer().middle_is_free());
    // The layer of function keys has no strip, and so no middle.
    bar.fn_key(true, 0, at(5_001), &mut effects);
    assert!(!bar.layer().has_open_overlay());
    assert!(!bar.layer().middle_is_free());
}
