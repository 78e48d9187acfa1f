//! Buttons, layers, overlays, the strip and touches on them.
use input_linux::Key;
use tiny_dfr::button::{toggle_keys, Button, ButtonAction, ButtonImage, ConfigError, Effect};
use tiny_dfr::button_set::{ButtonSet, Shade, SliderReadings};
use tiny_dfr::config::{ButtonConfig, SliderTarget, WorkspacesCfg};
use tiny_dfr::helper_proto::WsEntry;
use tiny_dfr::layer::{
    overlay_timeout_remaining_ms, ButtonSetKey, FunctionLayer, LayerKind, MAX_OVERLAY_DEPTH,
};
use tiny_dfr::layer_hit::{ControlProbe, HitOutcome};
use tiny_dfr::layout::{button_extents, Edges, Finger, CONTROL_SPACING_PX};
use tiny_dfr::moment::Moment;
use tiny_dfr::scalar::Scalar;
use tiny_dfr::strip::{classify_strip_change, truncate_model, StripChange};
use tiny_dfr::touches::{apply_helper_strip, drain_touches, Touch};

const BAR_WIDTH: u16 = 2008;
const BAR_HEIGHT: u16 = 60;
const GAP: i32 = 26;

fn scalar(x: f64) -> Scalar {
    Scalar::from_bits(x.to_bits())
}

fn float(s: Scalar) -> f64 {
    f64::from_bits(s.bits)
}

fn at(millis: u64) -> Moment {
    Moment { nanos: 1_000_000_000 + millis * 1_000_000 }
}

fn millis(n: u64) -> u64 {
    n * 1_000_000
}

fn no_readings() -> SliderReadings {
    SliderReadings { display: None, keyboard: None, volume: None }
}

fn text_button(text: &str, action: ButtonAction) -> ButtonConfig {
    let (open_overlay, close_overlay, keys) = match action {
        ButtonAction::Keys(keys) => (None, None, keys),
        ButtonAction::OpenOverlay(name) => (Some(name), None, vec![]),
        ButtonAction::CloseOverlay => (None, Some(true), vec![]),
        _ => (None, None, vec![]),
    };
    ButtonConfig {
        text: Some(text.to_string()),
        action: keys,
        open_overlay,
        close_overlay,
        ..Default::default()
    }
}

fn open(name: &str) -> ButtonAction {
    ButtonAction::OpenOverlay(name.to_string())
}

fn layer_with(
    cfg: Vec<ButtonConfig>,
    groups: Vec<(&str, Vec<ButtonConfig>)>,
    workspaces: Option<&WorkspacesCfg>,
) -> FunctionLayer {
    let groups = groups.into_iter().map(|(n, g)| (n.to_string(), g)).collect();
    FunctionLayer::with_config(cfg, groups, workspaces, &None).unwrap()
}

/// Edges of the buttons of a set, left and width, without any origin.
fn spans(layer: &FunctionLayer, key: &ButtonSetKey, width: i32) -> Option<(f64, Vec<(f64, f64)>)> {
    let plan = layer.control_plan(key, width, GAP)?;
    let spacing = CONTROL_SPACING_PX;
    let unit =
        (plan.width - spacing * (plan.columns - 1) as i32) as f64 / plan.columns as f64;
    let step = unit + spacing as f64;
    let spans = button_extents(&plan.starts, plan.columns)
        .iter()
        .map(|e| {
            (
                (e.virtual_start as f64 * step).floor(),
                unit + ((e.virtual_end - e.virtual_start - 1) as f64 * step).floor(),
            )
        })
        .collect();
    Some((float(plan.origin), spans))
}

fn finger(x: f64, y: f64, height: u16) -> Finger {
    Finger {
        x: scalar(x),
        y: scalar(y),
        low: scalar(0.1 * height as f64),
        high: scalar(0.9 * height as f64),
    }
}

fn probe(layer: &FunctionLayer, key: &ButtonSetKey, width: u16, height: u16, x: f64, y: f64) -> ControlProbe {
    match layer.control_plan(key, width as i32, GAP) {
        Some(plan) => {
            let (origin, spans) = spans(layer, key, width as i32).unwrap();
            let x = x - origin;
            ControlProbe {
                finger: finger(x, y, height),
                column: (x / (plan.width as f64 / plan.columns as f64)) as usize,
                edges: spans
                    .iter()
                    .map(|(left, width)| Edges { left: scalar(*left), right: scalar(left + width) })
                    .collect(),
            }
        }
        None => ControlProbe { finger: finger(x, y, height), column: 0, edges: vec![] },
    }
}

fn hit_in_set(
    layer: &FunctionLayer,
    width: u16,
    height: u16,
    x: f64,
    y: f64,
    key: &ButtonSetKey,
    i: Option<usize>,
) -> Option<usize> {
    let p = probe(layer, key, width, height, x, y);
    layer.hit_in_set(key, finger(x, y, height), &p, i, GAP)
}

fn hit(layer: &FunctionLayer, width: u16, height: u16, x: f64, y: f64, i: Option<usize>) -> Option<usize> {
    hit_in_set(layer, width, height, x, y, &layer.controls_key(), i)
}

fn hit_target(layer: &FunctionLayer, x: f64, y: f64) -> HitOutcome {
    let p = probe(layer, &layer.controls_key(), BAR_WIDTH, BAR_HEIGHT, x, y);
    layer.hit_target(finger(x, y, BAR_HEIGHT), &p, GAP)
}

fn button_span_abs(layer: &FunctionLayer, key: &ButtonSetKey, index: usize) -> Option<(f64, f64)> {
    if let Some(span) = layer.strip_span_at(key, index, GAP) {
        return Some((span.left as f64, span.width as f64));
    }
    let (origin, spans) = spans(layer, key, BAR_WIDTH as i32)?;
    let (left, width) = spans.get(index)?;
    Some((left + origin, *width))
}

#[test]
fn new_button_is_not_visually_active() {
    let button = Button::new_text("workspace".to_string(), ButtonAction::Nothing);

    assert!(!button.is_visually_active());
}

#[test]
fn pressed_button_is_visually_active() {
    let mut button = Button::new_text("workspace".to_string(), ButtonAction::Nothing);

    button.pressed = true;

    assert!(button.is_visually_active());
}

#[test]
fn highlighted_button_is_visually_active_without_pressing_keys() {
    let mut button = Button::new_text("workspace".to_string(), ButtonAction::Nothing);

    button.set_highlighted(true);

    assert!(button.is_visually_active());
    assert!(!button.pressed);
}

#[test]
fn setting_highlight_marks_button_changed_without_pressing_it() {
    let mut button = Button::new_text("workspace".to_string(), ButtonAction::Nothing);

    button.set_highlighted(true);

    assert!(button.changed);
    assert!(!button.pressed);
}

#[test]
fn button_config_can_carry_a_stable_id() {
    let button = Button::with_config(
        ButtonConfig {
            id: Some("workspace-1".to_string()),
            text: Some("1".to_string()),
            ..Default::default()
        },
        &None,
    )
    .unwrap();

    assert_eq!(button.id.as_deref(), Some("workspace-1"));
}

#[test]
fn button_config_classifies_key_action() {
    let cfg = ButtonConfig {
        text: Some("K".to_string()),
        action: vec![Key::LeftCtrl as u16, Key::F1 as u16],
        ..Default::default()
    };

    assert_eq!(
        ButtonAction::from_config(&cfg),
        ButtonAction::Keys(vec![Key::LeftCtrl as u16, Key::F1 as u16])
    );
}

#[test]
fn button_config_classifies_open_overlay_without_keys() {
    let cfg = ButtonConfig {
        text: Some("V".to_string()),
        action: vec![Key::VolumeUp as u16],
        open_overlay: Some("volume".to_string()),
        ..Default::default()
    };

    assert_eq!(
        ButtonAction::from_config(&cfg),
        ButtonAction::OpenOverlay("volume".to_string())
    );
}

#[test]
fn button_config_classifies_close_overlay_without_keys() {
    let cfg = ButtonConfig {
        text: Some("×".to_string()),
        close_overlay: Some(true),
        ..Default::default()
    };

    assert_eq!(ButtonAction::from_config(&cfg), ButtonAction::CloseOverlay);
}

#[test]
fn opening_overlay_changes_visible_hit_behavior() {
    let mut layer = layer_with(
        vec![text_button("open", open("volume")), text_button("base", ButtonAction::Nothing)],
        vec![("volume", vec![text_button("up", ButtonAction::Nothing)])],
        None,
    );

    assert_eq!(hit(&layer, 100, 20, 75.0, 10.0, None), Some(1));
    assert!(layer.open_overlay("volume", None, at(0)));
    assert_eq!(hit(&layer, 100, 20, 75.0, 10.0, None), Some(0));
}

#[test]
fn closing_overlay_returns_to_base() {
    let mut layer = layer_with(
        vec![text_button("open", open("volume")), text_button("base", ButtonAction::Nothing)],
        vec![("volume", vec![text_button("close", ButtonAction::CloseOverlay)])],
        None,
    );

    assert!(layer.open_overlay("volume", None, at(0)));
    assert_eq!(hit(&layer, 100, 20, 75.0, 10.0, None), Some(0));
    assert!(layer.close_top_overlay(at(1)));
    assert_eq!(hit(&layer, 100, 20, 75.0, 10.0, None), Some(1));
}

#[test]
fn key_action_does_not_change_overlay_state() {
    let f1 = Key::F1 as u16;
    let mut layer = layer_with(vec![text_button("key", ButtonAction::Keys(vec![f1]))], vec![], None);

    assert!(!layer.activate_button_action(ButtonAction::Keys(vec![f1]), None, at(0)));
    assert!(layer.overlay_stack.is_empty());
}

fn nested_layer() -> FunctionLayer {
    layer_with(
        vec![text_button("open", open("sound"))],
        vec![
            (
                "sound",
                vec![
                    text_button("vol", open("volume")),
                    text_button("play", ButtonAction::Nothing),
                ],
            ),
            ("volume", vec![text_button("slider", ButtonAction::Nothing)]),
        ],
        None,
    )
}

#[test]
fn nested_open_shows_innermost_overlay() {
    let mut layer = nested_layer();

    assert!(layer.open_overlay("sound", None, at(0)));
    assert!(layer.open_overlay("volume", None, at(0)));

    assert_eq!(layer.controls_key(), ButtonSetKey::Overlay("volume".to_string()));
}

#[test]
fn close_all_returns_to_base_from_depth_two() {
    let mut layer = nested_layer();
    assert!(layer.open_overlay("sound", None, at(0)));
    assert!(layer.open_overlay("volume", None, at(0)));

    assert!(layer.close_all_overlays());

    assert_eq!(layer.controls_key(), ButtonSetKey::Base);
    assert!(!layer.close_all_overlays());
}

#[test]
fn close_overlay_action_pops_one_level() {
    let mut layer = nested_layer();
    assert!(layer.open_overlay("sound", None, at(0)));
    assert!(layer.open_overlay("volume", None, at(0)));

    assert!(layer.activate_button_action(ButtonAction::CloseOverlay, None, at(0)));

    assert_eq!(layer.controls_key(), ButtonSetKey::Overlay("sound".to_string()));
}

#[test]
fn reopening_top_overlay_is_a_noop() {
    let mut layer = nested_layer();
    assert!(layer.open_overlay("sound", None, at(0)));

    assert!(!layer.open_overlay("sound", None, at(0)));

    assert_eq!(layer.overlay_stack.len(), 1);
}

#[test]
fn overlay_stack_depth_is_bounded() {
    let mut layer = nested_layer();
    for _ in 0..2 * MAX_OVERLAY_DEPTH {
        layer.open_overlay("sound", None, at(0));
        layer.open_overlay("volume", None, at(0));
    }

    assert!(layer.overlay_stack.len() <= MAX_OVERLAY_DEPTH);
}

#[test]
fn opening_missing_overlay_is_rejected() {
    let mut layer = nested_layer();

    assert!(!layer.open_overlay("does-not-exist", None, at(0)));

    assert_eq!(layer.controls_key(), ButtonSetKey::Base);
}

fn ws_cfg(fallback_buttons: usize) -> WorkspacesCfg {
    WorkspacesCfg { max_buttons: 9, fallback_buttons, actions: vec![] }
}

fn regions_layer(fallback_buttons: usize) -> FunctionLayer {
    layer_with(
        vec![
            text_button("open", open("canary")),
            text_button("play", ButtonAction::Keys(vec![Key::F2 as u16])),
        ],
        vec![("canary", vec![text_button("x", ButtonAction::Nothing)])],
        Some(&ws_cfg(fallback_buttons)),
    )
}

#[test]
fn fallback_strip_has_single_unhighlighted_workspace_one() {
    let layer = regions_layer(1);

    assert_eq!(layer.strip.buttons.len(), 1);
    let button = &layer.strip.buttons[0].1;
    assert!(matches!(&button.image, ButtonImage::Text(t) if t == "1"));
    assert_eq!(
        button.action,
        ButtonAction::Keys(vec![Key::LeftAlt as u16, Key::Num1 as u16])
    );
    assert!(!button.highlighted);
}

#[test]
fn strip_hits_use_region_local_coordinates() {
    let layer = regions_layer(4);

    // Strip: origin 12, four 60px buttons with 10px gaps.
    assert!(matches!(
        hit_target(&layer, 42.0, 30.0),
        HitOutcome::Button(ButtonSetKey::Strip(0), 0)
    ));
    assert!(matches!(
        hit_target(&layer, 112.0, 30.0),
        HitOutcome::Button(ButtonSetKey::Strip(0), 1)
    ));
    // Controls: two launchers right-anchored at 2008 - 12 - 236 = 1760.
    assert!(matches!(hit_target(&layer, 1765.0, 30.0), HitOutcome::Button(ButtonSetKey::Base, 0)));
    assert!(matches!(hit_target(&layer, 1990.0, 30.0), HitOutcome::Button(ButtonSetKey::Base, 1)));
    // The free middle is nothing while no overlay is open.
    assert!(matches!(hit_target(&layer, 1000.0, 30.0), HitOutcome::Miss));
}

#[test]
fn outside_tap_with_overlay_open_is_outside_controls() {
    let mut layer = regions_layer(4);
    assert!(layer.open_overlay("canary", None, at(0)));

    assert!(matches!(hit_target(&layer, 1000.0, 30.0), HitOutcome::OutsideControls));
    // Strip buttons stay live targets while the overlay is open.
    assert!(matches!(
        hit_target(&layer, 42.0, 30.0),
        HitOutcome::Button(ButtonSetKey::Strip(0), 0)
    ));
}

#[test]
fn anchored_overlay_hits_at_the_anchor_not_the_right_edge() {
    let mut layer = regions_layer(4);
    assert!(layer.open_overlay("canary", Some(scalar(800.0)), at(0)));

    // One 110px button expanding at x=800.
    assert!(matches!(
        hit_target(&layer, 850.0, 30.0),
        HitOutcome::Button(ButtonSetKey::Overlay(_), 0)
    ));
    // The old right-anchored slot is now outside the overlay...
    assert!(matches!(hit_target(&layer, 1890.0, 30.0), HitOutcome::OutsideControls));
    // ...and so is the space left of the anchor.
    assert!(matches!(hit_target(&layer, 700.0, 30.0), HitOutcome::OutsideControls));
    // span/hit consistency: the drag-geometry helper agrees.
    let key = layer.controls_key();
    let (left, width) = button_span_abs(&layer, &key, 0).unwrap();
    assert_eq!(left, 800.0);
    assert_eq!(width, 110.0);
}

#[test]
fn anchor_left_of_strip_clamps_to_min_origin() {
    let mut layer = regions_layer(4);
    // Strip: 4 buttons ending at 12 + 270 = 282; min_origin = 298.
    assert!(layer.open_overlay("canary", Some(scalar(10.0)), at(0)));

    assert!(matches!(
        hit_target(&layer, 300.0, 30.0),
        HitOutcome::Button(ButtonSetKey::Overlay(_), 0)
    ));
}

#[test]
fn nested_overlay_anchors_at_its_own_launcher() {
    let mut layer = layer_with(
        vec![text_button("open", open("sound"))],
        vec![
            (
                "sound",
                vec![
                    text_button("vol", open("volume")),
                    text_button("play", ButtonAction::Nothing),
                ],
            ),
            ("volume", vec![text_button("slider", ButtonAction::Nothing)]),
        ],
        Some(&ws_cfg(4)),
    );
    assert!(layer.open_overlay("sound", Some(scalar(900.0)), at(0)));

    // The "vol" button inside the sound overlay sits at x=900; opening
    // the nested overlay from it cascades the anchor.
    let sound_key = layer.controls_key();
    let (vol_left, _) = button_span_abs(&layer, &sound_key, 0).unwrap();
    assert_eq!(vol_left, 900.0);
    assert!(layer.activate_button_action(open("volume"), Some(scalar(vol_left)), at(0)));

    let volume_key = layer.controls_key();
    let (slider_left, _) = button_span_abs(&layer, &volume_key, 0).unwrap();
    assert_eq!(slider_left, 900.0);
}

#[test]
fn base_returns_right_anchored_after_close() {
    let mut layer = regions_layer(4);
    assert!(layer.open_overlay("canary", Some(scalar(800.0)), at(0)));
    assert!(layer.close_all_overlays());

    // Base row (2 buttons, 236px) right-anchored at 2008 - 12 - 236.
    assert!(matches!(hit_target(&layer, 1765.0, 30.0), HitOutcome::Button(ButtonSetKey::Base, 0)));
    assert!(matches!(hit_target(&layer, 850.0, 30.0), HitOutcome::Miss));
}

#[test]
fn stale_strip_generation_is_not_visible() {
    let mut layer = regions_layer(4);
    let stale = ButtonSetKey::Strip(layer.strip_generation);
    layer.strip_generation += 1;

    assert!(!layer.is_set_visible(&stale));
    assert!(layer.button_set(&stale).is_none());
    assert_eq!(
        hit_in_set(&layer, BAR_WIDTH, BAR_HEIGHT, 42.0, 30.0, &stale, Some(0)),
        None
    );
    assert!(layer.is_set_visible(&ButtonSetKey::Strip(layer.strip_generation)));
}

#[test]
fn timeout_due_after_configured_idle() {
    let t0 = at(0);
    let timeout = millis(8000);

    assert_eq!(overlay_timeout_remaining_ms(Some(t0), t0, timeout), Some(8000));
    assert_eq!(overlay_timeout_remaining_ms(Some(t0), at(3000), timeout), Some(5000));
    assert_eq!(overlay_timeout_remaining_ms(Some(t0), at(9000), timeout), Some(0));
}

#[test]
fn zero_timeout_never_fires() {
    let t0 = at(0);

    assert_eq!(overlay_timeout_remaining_ms(Some(t0), at(3_600_000), 0), None);
    assert_eq!(overlay_timeout_remaining_ms(None, t0, millis(8000)), None);
}

#[test]
fn touch_refreshes_timeout_anchor() {
    let mut layer = regions_layer(4);
    let timeout = millis(8000);
    assert!(layer.open_overlay("canary", None, at(0)));
    layer.mark_overlay_touched(at(0));

    layer.mark_overlay_touched(at(7000));

    assert_eq!(layer.overlay_timeout_remaining(at(8000), timeout), Some(7000));
}

#[test]
fn timeout_is_inert_without_an_open_overlay() {
    let mut layer = regions_layer(4);
    let timeout = millis(8000);
    assert!(layer.open_overlay("canary", None, at(0)));
    assert!(layer.close_all_overlays());

    assert_eq!(layer.overlay_timeout_remaining(at(0), timeout), None);
    // A stray touch after close must not resurrect the anchor.
    layer.mark_overlay_touched(at(0));
    assert_eq!(layer.overlay_timeout_remaining(at(0), timeout), None);
}

fn touch(slot: u32, set: ButtonSetKey, index: usize) -> Touch {
    Touch { slot, layer: 0, set, index }
}

#[test]
fn drain_releases_all_tracked_touches() {
    let mut effects = Vec::new();
    let mut layers = vec![regions_layer(4), regions_layer(4)];
    let mut touches = Vec::new();

    let strip_key = ButtonSetKey::Strip(0);
    layers[0].button_mut_in_set(&strip_key, 0).unwrap().set_active(&mut effects, true);
    touches.push(touch(1, strip_key.clone(), 0));
    layers[0].button_mut_in_set(&ButtonSetKey::Base, 1).unwrap().set_active(&mut effects, true);
    touches.push(touch(2, ButtonSetKey::Base, 1));

    drain_touches(&mut layers, &mut touches, &mut effects);

    assert!(touches.is_empty());
    assert!(!layers[0].button_set(&strip_key).unwrap().buttons[0].1.pressed);
    assert!(!layers[0].button_set(&ButtonSetKey::Base).unwrap().buttons[1].1.pressed);
    // Every key that went down came up again.
    for code in [Key::LeftAlt as u16, Key::Num1 as u16, Key::F2 as u16] {
        let count = |d: bool| {
            effects.iter().filter(|e| **e == Effect::Key { code, down: d }).count()
        };
        assert_eq!(count(true), 1);
        assert_eq!(count(false), 1);
    }
}

#[test]
fn drain_survives_touches_on_stale_button_sets() {
    let mut effects = Vec::new();
    let mut layers = vec![regions_layer(4), regions_layer(4)];
    let mut touches = vec![
        touch(1, ButtonSetKey::Strip(99), 0),
        touch(2, ButtonSetKey::Overlay("gone".into()), 0),
    ];

    drain_touches(&mut layers, &mut touches, &mut effects);

    assert!(touches.is_empty());
    assert!(effects.is_empty());
}

#[test]
fn slider_config_takes_precedence_over_keys_and_overlay() {
    let cfg = ButtonConfig {
        slider: Some(SliderTarget::DisplayBrightness),
        action: vec![Key::VolumeUp as u16],
        open_overlay: Some("volume".to_string()),
        ..Default::default()
    };

    assert_eq!(
        ButtonAction::from_config(&cfg),
        ButtonAction::Slider(SliderTarget::DisplayBrightness)
    );
}

#[test]
fn slider_action_never_changes_overlay_state() {
    let mut layer = nested_layer();
    assert!(layer.open_overlay("sound", None, at(0)));

    assert!(!layer.activate_button_action(
        ButtonAction::Slider(SliderTarget::Volume),
        None,
        at(0)
    ));

    assert_eq!(layer.controls_key(), ButtonSetKey::Overlay("sound".to_string()));
}

fn slider_layer() -> FunctionLayer {
    layer_with(
        vec![text_button("open", open("bright"))],
        vec![(
            "bright",
            vec![ButtonConfig {
                slider: Some(SliderTarget::DisplayBrightness),
                stretch: Some(4),
                ..Default::default()
            }],
        )],
        Some(&ws_cfg(1)),
    )
}

fn slider_value(layer: &mut FunctionLayer) -> (f64, bool) {
    let key = ButtonSetKey::Overlay("bright".to_string());
    match layer.button_mut_in_set(&key, 0).unwrap().image {
        ButtonImage::Slider(state) => (float(state.value), state.dragging),
        _ => panic!("no slider"),
    }
}

#[test]
fn sync_sliders_seeds_visible_slider_from_backend() {
    let mut layer = slider_layer();
    assert!(layer.open_overlay("bright", None, at(0)));

    layer.sync_sliders(SliderReadings {
        display: Some(scalar(250.0 / 1000.0)),
        keyboard: None,
        volume: None,
    });

    assert_eq!(slider_value(&mut layer), (0.25, false));
}

#[test]
fn sync_sliders_never_touches_a_mid_drag_slider() {
    let mut layer = slider_layer();
    assert!(layer.open_overlay("bright", None, at(0)));
    let key = ButtonSetKey::Overlay("bright".to_string());
    layer.update_slider(&key, 0, Some(scalar(0.9)), true);

    layer.sync_sliders(SliderReadings {
        display: Some(scalar(250.0 / 1000.0)),
        keyboard: None,
        volume: None,
    });

    assert_eq!(slider_value(&mut layer).0, 0.9);
}

#[test]
fn sliders_without_a_reading_keep_their_position() {
    let mut layer = slider_layer();
    assert!(layer.open_overlay("bright", None, at(0)));
    let key = ButtonSetKey::Overlay("bright".to_string());
    layer.update_slider(&key, 0, Some(scalar(0.6)), false);

    layer.sync_sliders(no_readings());

    assert_eq!(slider_value(&mut layer), (0.6, false));
}

#[test]
fn update_slider_marks_button_changed_on_value_or_phase_change() {
    let mut layer = slider_layer();
    assert!(layer.open_overlay("bright", None, at(0)));
    let key = ButtonSetKey::Overlay("bright".to_string());
    layer.button_mut_in_set(&key, 0).unwrap().changed = false;

    layer.update_slider(&key, 0, Some(scalar(0.4)), true);
    assert!(layer.button_mut_in_set(&key, 0).unwrap().changed);

    layer.button_mut_in_set(&key, 0).unwrap().changed = false;
    layer.update_slider(&key, 0, Some(scalar(0.4)), true);
    assert!(!layer.button_mut_in_set(&key, 0).unwrap().changed);

    layer.update_slider(&key, 0, None, false);
    assert!(layer.button_mut_in_set(&key, 0).unwrap().changed);
}

fn ws_entry(id: u64, idx: u8, foc: bool) -> WsEntry {
    WsEntry { id, idx, occ: true, foc }
}

#[test]
fn focus_workspace_action_is_key_free_and_inert() {
    let mut effects = Vec::new();
    let action = ButtonAction::FocusWorkspace(9);

    assert!(action.keys().is_empty());

    let mut layer = regions_layer(4);
    assert!(layer.open_overlay("canary", None, at(0)));
    assert!(!layer.activate_button_action(action, None, at(0)));
    assert!(layer.has_open_overlay());

    // Pressing a live workspace button emits nothing.
    let mut button = Button::new_text("1".into(), ButtonAction::FocusWorkspace(9));
    button.set_active(&mut effects, true);
    button.set_active(&mut effects, false);
    assert!(!button.pressed);
    assert!(effects.is_empty());
}

#[test]
fn rebuild_strip_builds_labels_actions_and_highlight() {
    let mut layer = regions_layer(4);
    let generation_before = layer.strip_generation;
    let model = vec![
        vec![ws_entry(7, 1, false), ws_entry(9, 2, true)],
        vec![ws_entry(3, 1, false)],
    ];

    layer.rebuild_strip(&model);

    assert_eq!(layer.strip.buttons.len(), 3);
    assert_eq!(layer.strip_groups, vec![2, 1]);
    assert_eq!(layer.strip_generation, generation_before + 1);
    let labels: Vec<String> = layer
        .strip
        .buttons
        .iter()
        .map(|(_, b)| match &b.image {
            ButtonImage::Text(t) => t.clone(),
            _ => panic!("workspace buttons are text"),
        })
        .collect();
    assert_eq!(labels, vec!["1", "2", "1"]);
    assert_eq!(layer.strip.buttons[1].1.action, ButtonAction::FocusWorkspace(9));
    assert!(layer.strip.buttons[1].1.highlighted);
    assert!(!layer.strip.buttons[0].1.highlighted);
}

fn two_sevens() -> Vec<Vec<WsEntry>> {
    vec![
        (1..=7).map(|i| ws_entry(i as u64, i, false)).collect(),
        (1..=7).map(|i| ws_entry(100 + i as u64, i, false)).collect(),
    ]
}

#[test]
fn rebuild_strip_truncates_at_max_buttons() {
    let mut layer = regions_layer(4); // ws_cfg max_buttons = 9

    layer.rebuild_strip(&two_sevens());

    assert_eq!(layer.strip.buttons.len(), 9);
    assert_eq!(layer.strip_groups, vec![7, 2]);
}

#[test]
fn rebuild_with_empty_model_restores_fallback() {
    let mut layer = regions_layer(4);
    layer.rebuild_strip(&vec![vec![ws_entry(7, 1, true)]]);

    layer.rebuild_strip(&vec![]);

    assert_eq!(layer.strip.buttons.len(), 4);
    assert_eq!(layer.strip_groups, vec![4]);
    // Fallback buttons emit plain keys and work with the helper dead.
    assert_eq!(
        layer.strip.buttons[0].1.action,
        ButtonAction::Keys(vec![Key::LeftAlt as u16, Key::Num1 as u16])
    );
    assert!(layer.strip_model.is_empty());
}

#[test]
fn degenerate_model_rebuild_reaches_a_fixed_point() {
    let mut layer = regions_layer(4);
    let degenerate: Vec<Vec<WsEntry>> = vec![vec![]];

    layer.rebuild_strip(&degenerate);
    assert_eq!(
        classify_strip_change(&layer.strip_model, &degenerate),
        StripChange::Unchanged
    );

    // The apply path truncates before both classify and rebuild; that
    // truncated view reaches its own fixed point too.
    let truncated = truncate_model(&degenerate, 9);
    layer.rebuild_strip(&truncated);
    assert_eq!(
        classify_strip_change(&layer.strip_model, &truncated),
        StripChange::Unchanged
    );
}

#[test]
fn truncate_model_respects_group_boundaries_and_cap() {
    let model = two_sevens();

    let truncated = truncate_model(&model, 9);

    assert_eq!(truncated.len(), 2);
    assert_eq!(truncated[0].len(), 7);
    assert_eq!(truncated[1].len(), 2);
    assert_eq!(truncate_model(&model, 20), model);
    assert!(truncate_model(&model, 0).is_empty());
}

#[test]
fn apply_identical_model_is_a_noop() {
    let mut effects = Vec::new();
    let mut layers = vec![regions_layer(4), regions_layer(4)];
    let mut touches = Vec::new();
    let model = vec![vec![ws_entry(7, 1, true)]];
    apply_helper_strip(&mut layers, &mut touches, &mut effects, &model);
    let generation = layers[0].strip_generation;
    touches.push(touch(1, ButtonSetKey::Strip(generation), 0));

    let redraw = apply_helper_strip(&mut layers, &mut touches, &mut effects, &model);

    assert!(!redraw);
    assert_eq!(layers[0].strip_generation, generation);
    assert_eq!(touches.len(), 1); // heartbeat never drains
}

#[test]
fn heartbeats_without_workspaces_change_nothing() {
    for model in [vec![], vec![vec![], vec![]], vec![vec![ws_entry(7, 1, true)], vec![]]] {
        let mut effects = Vec::new();
        let mut layers = vec![regions_layer(4), regions_layer(4)];
        let mut touches = Vec::new();
        apply_helper_strip(&mut layers, &mut touches, &mut effects, &model);
        let generation = layers[0].strip_generation;
        touches.push(touch(1, ButtonSetKey::Strip(generation), 0));
        for _ in 0..3 {
            assert!(!apply_helper_strip(&mut layers, &mut touches, &mut effects, &model));
        }
        assert_eq!(layers[0].strip_generation, generation);
        assert_eq!(touches.len(), 1);
        assert!(effects.is_empty());
    }
}

#[test]
fn no_two_overlays_share_a_name() {
    let layer = layer_with(
        vec![text_button("base", ButtonAction::Nothing)],
        vec![
            ("sound", vec![text_button("old", ButtonAction::Nothing)]),
            ("light", vec![text_button("lamp", ButtonAction::Nothing)]),
            (
                "sound",
                vec![
                    text_button("a", ButtonAction::Nothing),
                    text_button("b", ButtonAction::Nothing),
                ],
            ),
        ],
        None,
    );
    let names: Vec<&str> = layer.overlays.iter().map(|(name, _)| name.as_str()).collect();
    assert_eq!(names, vec!["sound", "light"]);
    assert_eq!(layer.overlays[0].1.buttons.len(), 2);
}

#[test]
fn decoration_change_moves_highlight_without_drain_or_rebuild() {
    let mut effects = Vec::new();
    let mut layers = vec![regions_layer(4), regions_layer(4)];
    let mut touches = Vec::new();
    let before = vec![vec![ws_entry(7, 1, true), ws_entry(9, 2, false)]];
    apply_helper_strip(&mut layers, &mut touches, &mut effects, &before);
    let generation = layers[0].strip_generation;
    touches.push(touch(1, ButtonSetKey::Strip(generation), 0));

    let after = vec![vec![ws_entry(7, 1, false), ws_entry(9, 2, true)]];
    let redraw = apply_helper_strip(&mut layers, &mut touches, &mut effects, &after);

    assert!(!redraw);
    assert_eq!(layers[0].strip_generation, generation);
    assert_eq!(touches.len(), 1); // no drain: an in-flight drag survives
    assert!(!layers[0].strip.buttons[0].1.highlighted);
    assert!(layers[0].strip.buttons[1].1.highlighted);
}

#[test]
fn structural_change_drains_before_generation_bump() {
    let mut effects = Vec::new();
    let mut layers = vec![regions_layer(4), regions_layer(4)];
    let mut touches = Vec::new();
    let before = vec![vec![ws_entry(7, 1, true)]];
    apply_helper_strip(&mut layers, &mut touches, &mut effects, &before);
    let generation = layers[0].strip_generation;
    // A finger holding a live strip button when the workspace set changes.
    let strip_key = ButtonSetKey::Strip(generation);
    layers[0].button_mut_in_set(&strip_key, 0).unwrap().set_active(&mut effects, true);
    touches.push(touch(1, strip_key, 0));

    let after = vec![vec![ws_entry(7, 1, true), ws_entry(9, 2, false)]];
    let redraw = apply_helper_strip(&mut layers, &mut touches, &mut effects, &after);

    assert!(redraw);
    assert!(touches.is_empty()); // drained BEFORE the bump released it
    assert_eq!(layers[0].strip_generation, generation + 1);
    assert_eq!(layers[0].strip.buttons.len(), 2);
}

#[test]
fn classic_layer_has_no_strip_targets() {
    let layer = layer_with(vec![text_button("a", ButtonAction::Nothing)], vec![], None);

    assert_eq!(layer.kind, LayerKind::Classic);
    assert!(layer.button_set(&ButtonSetKey::Strip(0)).is_none());
    // Full-bar hit routing still works.
    assert!(matches!(hit_target(&layer, 1000.0, 30.0), HitOutcome::Button(ButtonSetKey::Base, 0)));
}

#[test]
fn hidden_button_set_does_not_retarget_active_touch() {
    let mut layer = layer_with(
        vec![
            text_button("open", open("volume")),
            text_button("base", ButtonAction::Keys(vec![Key::F1 as u16])),
        ],
        vec![("volume", vec![text_button("up", ButtonAction::Nothing)])],
        None,
    );
    let base = layer.controls_key();

    assert_eq!(hit_in_set(&layer, 100, 20, 75.0, 10.0, &base, Some(1)), Some(1));
    assert!(layer.open_overlay("volume", None, at(0)));

    assert_eq!(hit(&layer, 100, 20, 75.0, 10.0, None), Some(0));
    assert_eq!(hit_in_set(&layer, 100, 20, 75.0, 10.0, &base, Some(1)), None);
    assert!(layer.button_mut_in_set(&base, 1).is_some());
}

#[test]
fn rows_lay_out_stretched_buttons() {
    let mut wide = text_button("wide", ButtonAction::Nothing);
    wide.stretch = Some(3);
    let mut none = text_button("zero", ButtonAction::Nothing);
    none.stretch = Some(0);
    let set = ButtonSet::with_config(
        vec![text_button("a", ButtonAction::Nothing), wide, none],
        &None,
    )
    .unwrap();
    assert_eq!(set.button_starts(), vec![0, 1, 4]);
    assert_eq!(set.virtual_button_count, 5);
}

#[test]
fn faulty_rows_say_what_is_wrong() {
    assert_eq!(ButtonSet::with_config(vec![], &None).err(), Some(ConfigError::NoButtons));

    let huge = |n: usize| ButtonConfig { stretch: Some(n), ..Default::default() };
    assert_eq!(
        ButtonSet::with_config(vec![huge(usize::MAX), huge(1)], &None).err(),
        Some(ConfigError::TooWide)
    );

    let battery = |mode: &str| ButtonConfig {
        battery: Some(mode.to_string()),
        ..Default::default()
    };
    let device = Some("BAT0".to_string());
    assert_eq!(
        Button::with_config(battery("loud"), &device).err(),
        Some(ConfigError::BatteryMode)
    );
    let made = Button::with_config(battery("both"), &device).unwrap();
    assert!(matches!(&made.image, ButtonImage::Battery { device, .. } if device == "BAT0"));
    let missing = Button::with_config(battery("loud"), &None).unwrap();
    assert!(matches!(&missing.image, ButtonImage::Text(t) if t == "Battery N/A"));
}

fn time_button(format: &str, locale: Option<&str>) -> Result<Button, ConfigError> {
    Button::with_config(
        ButtonConfig {
            time: Some(format.to_string()),
            locale: locale.map(|l| l.to_string()),
            ..Default::default()
        },
        &None,
    )
}

#[test]
fn times_with_seconds_refresh_faster() {
    assert!(time_button("%H:%M:%S", None).unwrap().needs_faster_refresh());
    assert!(time_button("%s", None).unwrap().needs_faster_refresh());
    assert!(!time_button("24hr", None).unwrap().needs_faster_refresh());
    assert!(!time_button("12hr", None).unwrap().needs_faster_refresh());
    assert_eq!(time_button("%!", None).err(), Some(ConfigError::TimeFormat));

    let set = ButtonSet::with_config(
        vec![
            text_button("a", ButtonAction::Nothing),
            ButtonConfig { time: Some("%T".to_string()), ..Default::default() },
        ],
        &None,
    )
    .unwrap();
    assert!(set.faster_refresh && set.displays_time && !set.displays_battery);
}

#[test]
fn unknown_locales_fall_back_to_posix() {
    let locale = |name: Option<&str>| match time_button("24hr", name).unwrap().image {
        ButtonImage::Time { format, locale, .. } => {
            assert_eq!(format, "%H:%M    %a %-e %b");
            locale
        }
        _ => panic!("no time"),
    };
    assert_eq!(locale(Some("de_DE")), "de_DE");
    assert_eq!(locale(Some("xx_nowhere")), "POSIX");
    assert_eq!(locale(None), "POSIX");
    match time_button("12hr", None).unwrap().image {
        ButtonImage::Time { format, .. } => assert_eq!(format, "%-l:%M %p    %a %-e %b"),
        _ => panic!("no time"),
    }
}

#[test]
fn icons_and_spacers_come_from_their_entries() {
    let icon = Button::with_config(
        ButtonConfig { icon: Some("search".to_string()), icon_width: Some(20), ..Default::default() },
        &None,
    )
    .unwrap();
    assert!(matches!(&icon.image, ButtonImage::Icon { name, theme: None } if name == "search"));
    assert_eq!((icon.icon_width, icon.icon_height), (20, 48));

    let spacer = Button::with_config(
        ButtonConfig { action: vec![Key::F1 as u16], ..Default::default() },
        &None,
    )
    .unwrap();
    assert!(matches!(spacer.image, ButtonImage::Spacer));
    assert_eq!(spacer.action, ButtonAction::Nothing);
}

#[test]
fn keys_go_down_and_up_together() {
    let mut effects = Vec::new();
    toggle_keys(&mut effects, &vec![], true);
    assert!(effects.is_empty());
    toggle_keys(&mut effects, &vec![29, 59], true);
    assert_eq!(
        effects,
        vec![
            Effect::Key { code: 29, down: true },
            Effect::Key { code: 59, down: true },
            Effect::Report
        ]
    );
}

#[test]
fn painting_covers_what_changed_and_then_nothing() {
    let mut layer = regions_layer(2);
    let plan = layer.paint(true, true);
    assert_eq!(plan.strip.len(), 2);
    assert_eq!(plan.controls.len(), 2);
    assert!(plan.controls.iter().all(|p| p.shade == Shade::Outlined && p.body));
    assert!(!layer.any_button_changed());

    let mut effects = Vec::new();
    layer.set_active(&ButtonSetKey::Base, 1, &mut effects, true);
    assert!(layer.any_button_changed());
    let plan = layer.paint(false, false);
    assert!(plan.strip.is_empty());
    assert_eq!(plan.controls.len(), 1);
    assert_eq!((plan.controls[0].index, plan.controls[0].shade), (1, Shade::Active));
    assert!(!layer.any_button_changed());

    let mut row = layer_with(vec![ButtonConfig::default()], vec![], None);
    let plan = row.paint(true, false);
    assert_eq!(plan.controls[0].shade, Shade::Dark);
    assert!(!plan.controls[0].body);
}

#[test]
fn battery_buttons_are_redrawn_on_their_own() {
    let mut layer = FunctionLayer::with_config(
        vec![
            ButtonConfig { battery: Some("icon".to_string()), ..Default::default() },
            text_button("a", ButtonAction::Nothing),
        ],
        vec![],
        None,
        &Some("BAT0".to_string()),
    )
    .unwrap();
    assert!(layer.displays_battery());
    layer.mark_battery_buttons_changed();
    let plan = layer.paint(false, false);
    assert_eq!(plan.controls.len(), 1);
    assert_eq!(plan.controls[0].index, 0);
}

#[test]
fn opening_and_closing_are_inverse() {
    let mut layer = nested_layer();
    assert!(layer.open_overlay("sound", None, at(0)));
    let before = layer.controls_key();
    assert!(layer.open_overlay("volume", Some(scalar(3.0)), at(1)));
    assert!(layer.close_top_overlay(at(2)));
    assert_eq!(layer.controls_key(), before);
    assert_eq!(layer.overlay_stack.len(), 1);
    assert_eq!(layer.overlay_touched_at, Some(at(2)));
    assert!(layer.close_top_overlay(at(3)));
    assert_eq!(layer.overlay_touched_at, None);
    assert!(!layer.close_top_overlay(at(4)));
}

#[test]
fn classic_layers_ignore_workspaces() {
    let mut layer = layer_with(vec![text_button("a", ButtonAction::Nothing)], vec![], None);
    let model = vec![vec![ws_entry(1, 1, true)]];
    assert_eq!(layer.strip_change(&model), StripChange::Unchanged);
    assert!(!layer.apply_strip(&model));
    assert_eq!(layer.strip_generation, 0);
}

#[test]
fn changes_in_hidden_workspaces_are_no_change() {
    let mut layer = regions_layer(4);
    let mut model = two_sevens();
    assert!(layer.apply_strip(&model));
    model[1][6] = ws_entry(999, 7, false);
    assert_eq!(layer.strip_change(&model), StripChange::Unchanged);
    model[1][1] = ws_entry(102, 2, true);
    assert_eq!(layer.strip_change(&model), StripChange::Decoration);
    model[1][1] = ws_entry(555, 2, true);
    assert_eq!(layer.strip_change(&model), StripChange::Structure);
}

#[test]
fn layers_fit_unless_a_row_is_absurdly_wide() {
    assert!(regions_layer(4).fits());
    let wide = ButtonConfig { stretch: Some(20_000_000), ..Default::default() };
    assert!(!layer_with(vec![wide], vec![], None).fits());
}
