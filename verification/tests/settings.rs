//! The configuration: merging, filling in, and what is wrong with it.
use input_linux::Key;
use tiny_dfr::button::{ButtonAction, ConfigError};
use tiny_dfr::config::{
    ButtonConfig, ConfigManager, ConfigProxy, Machine, MachineProxy, WatchStep, WorkspacesCfg,
    WorkspacesProxy, DEFAULT_HELPER_UID, ESC_WIDTH, KEY_ESC, KEY_FN, KEY_LEFT_ALT,
    WORKSPACE_BUTTON_HARD_CAP,
};
use tiny_dfr::layer::LayerKind;

fn text(label: &str) -> ButtonConfig {
    ButtonConfig { text: Some(label.to_string()), ..Default::default() }
}

fn blank() -> ConfigProxy {
    ConfigProxy {
        media_layer_default: None,
        show_button_outlines: None,
        enable_pixel_shift: None,
        font_template: None,
        adaptive_brightness: None,
        active_brightness: None,
        double_press_switch_layers: None,
        primary_layer_keys: None,
        media_layer_keys: None,
        control_groups: None,
        workspaces: None,
    }
}

fn shipped() -> ConfigProxy {
    ConfigProxy {
        media_layer_default: Some(false),
        show_button_outlines: Some(true),
        enable_pixel_shift: Some(false),
        font_template: Some(":bold".to_string()),
        adaptive_brightness: Some(true),
        active_brightness: Some(128),
        double_press_switch_layers: Some(0),
        primary_layer_keys: Some(vec![text("F1"), text("F2")]),
        media_layer_keys: Some(vec![text("play")]),
        control_groups: None,
        workspaces: None,
    }
}

fn error(proxy: ConfigProxy) -> Option<ConfigError> {
    proxy.resolve(2008, &None).err()
}

#[test]
fn key_codes_are_those_of_the_kernel() {
    assert_eq!(KEY_ESC, Key::Esc as u16);
    assert_eq!(KEY_LEFT_ALT, Key::LeftAlt as u16);
    assert_eq!(KEY_FN, Key::Fn as u16);
}

#[test]
fn the_users_entries_win() {
    let user = ConfigProxy {
        active_brightness: Some(7),
        media_layer_keys: Some(vec![text("mine"), text("too")]),
        ..blank()
    };
    let merged = ConfigProxy::merge(shipped(), Some(user));
    assert_eq!(merged.active_brightness, Some(7));
    assert_eq!(merged.font_template.as_deref(), Some(":bold"));
    assert_eq!(merged.media_layer_keys.unwrap().len(), 2);
    assert_eq!(ConfigProxy::merge(shipped(), None).active_brightness, Some(128));
}

#[test]
fn both_files_are_loaded_together() {
    let watch = ConfigManager::new(true);
    let user = ConfigProxy { media_layer_default: Some(true), ..blank() };
    let (_, layers) = watch.load_config(shipped(), Some(user), 2008, &None).unwrap();
    assert_eq!(layers[0].base.buttons.len(), 1);
    let (_, layers) = watch.load_config(shipped(), None, 2008, &None).unwrap();
    assert_eq!(layers[0].base.buttons.len(), 2);
    assert_eq!(
        watch.load_config(blank(), None, 2008, &None).err(),
        Some(ConfigError::MissingEntry)
    );
}

#[test]
fn layers_come_in_the_configured_order() {
    let (config, layers) = shipped().resolve(2008, &None).unwrap();
    assert_eq!(config.font_template, ":bold");
    assert_eq!(config.active_brightness, 128);
    assert!(config.show_button_outlines && config.adaptive_brightness);
    assert_eq!(layers[0].base.buttons.len(), 2);
    assert_eq!(layers[1].base.buttons.len(), 1);

    let media_first = ConfigProxy { media_layer_default: Some(true), ..shipped() };
    let (_, layers) = media_first.resolve(2008, &None).unwrap();
    assert_eq!(layers[0].base.buttons.len(), 1);
}

#[test]
fn wide_bars_get_an_escape_button() {
    let (_, layers) = shipped().resolve(ESC_WIDTH, &None).unwrap();
    for layer in &layers {
        assert_eq!(layer.base.buttons[0].1.action, ButtonAction::Keys(vec![Key::Esc as u16]));
    }
    assert_eq!(layers[0].base.buttons.len(), 3);
    let (_, layers) = shipped().resolve(ESC_WIDTH - 1, &None).unwrap();
    assert_eq!(layers[0].base.buttons.len(), 2);
}

#[test]
fn a_workspace_table_gives_the_media_layer_a_strip() {
    let proxy = ConfigProxy {
        workspaces: Some(WorkspacesProxy {
            max_buttons: None,
            fallback_buttons: Some(3),
            actions: Some(vec![vec![30], vec![]]),
        }),
        control_groups: Some(vec![("sound".to_string(), vec![text("mute")])]),
        ..shipped()
    };
    let (_, layers) = proxy.resolve(2008, &None).unwrap();
    assert_eq!(layers[0].kind, LayerKind::Classic);
    assert_eq!(layers[1].kind, LayerKind::Regions);
    assert_eq!(layers[0].overlays.len(), 1);
    assert_eq!(layers[1].overlays.len(), 1);
    let strip = &layers[1].strip.buttons;
    assert_eq!(strip.len(), 3);
    assert_eq!(strip[0].1.action, ButtonAction::Keys(vec![30]));
    assert_eq!(strip[1].1.action, ButtonAction::Nothing);
    assert_eq!(strip[2].1.action, ButtonAction::Keys(vec![KEY_LEFT_ALT, Key::Num3 as u16]));
}

#[test]
fn missing_and_faulty_entries_are_told_apart() {
    assert_eq!(error(shipped()), None);
    assert_eq!(error(blank()), Some(ConfigError::MissingEntry));
    assert_eq!(
        error(ConfigProxy { font_template: None, ..shipped() }),
        Some(ConfigError::MissingEntry)
    );
    assert_eq!(
        error(ConfigProxy { media_layer_keys: Some(vec![]), ..shipped() }),
        Some(ConfigError::NoButtons)
    );
    assert_eq!(
        error(ConfigProxy {
            control_groups: Some(vec![("empty".to_string(), vec![])]),
            ..shipped()
        }),
        Some(ConfigError::NoButtons)
    );
    let clock = ButtonConfig { time: Some("%".to_string()), ..Default::default() };
    assert_eq!(
        error(ConfigProxy { primary_layer_keys: Some(vec![clock]), ..shipped() }),
        Some(ConfigError::TimeFormat)
    );
}

#[test]
fn workspace_counts_are_brought_into_range() {
    let resolve = |max: Option<usize>, fallback: Option<usize>| {
        let ws = WorkspacesCfg::resolve(WorkspacesProxy {
            max_buttons: max,
            fallback_buttons: fallback,
            actions: None,
        });
        (ws.max_buttons, ws.fallback_buttons)
    };
    assert_eq!(resolve(None, None), (WORKSPACE_BUTTON_HARD_CAP, 1));
    assert_eq!(resolve(Some(0), Some(0)), (1, 1));
    assert_eq!(resolve(Some(100), Some(100)), (9, 9));
    assert_eq!(resolve(Some(4), Some(7)), (4, 4));
}

#[test]
fn workspace_keys_default_to_alt_and_a_digit() {
    let ws = WorkspacesCfg { max_buttons: 9, fallback_buttons: 9, actions: vec![vec![5]] };
    assert_eq!(ws.action_for(1), vec![5]);
    assert_eq!(ws.action_for(0), vec![5]);
    let digits = [
        Key::Num2, Key::Num3, Key::Num4, Key::Num5, Key::Num6, Key::Num7, Key::Num8, Key::Num9,
        Key::Num9,
    ];
    for (i, key) in digits.iter().enumerate() {
        assert_eq!(ws.action_for(i + 2), vec![Key::LeftAlt as u16, *key as u16]);
    }
}

#[test]
fn the_watch_fires_once_and_is_armed_again() {
    let mut watch = ConfigManager::new(false);
    assert_eq!(watch.step(), WatchStep::Arm);
    watch.on_arm(false);
    assert_eq!(watch.step(), WatchStep::Arm);
    watch.on_arm(true);
    assert_eq!(watch.step(), WatchStep::Read);
    assert!(!watch.on_event(false));
    assert!(watch.on_event(true));
    assert_eq!(watch.step(), WatchStep::Arm);
}

#[test]
fn machine_entries_fall_back_one_by_one() {
    let entries = |timeout, uid, path: Option<&str>| MachineProxy {
        overlay_timeout: timeout,
        helper_uid: uid,
        display_backlight_path: path.map(|p| p.to_string()),
        kbd_backlight_path: None,
    };
    let usual = entries(None, None, None).resolve();
    assert_eq!(
        usual,
        Machine {
            overlay_timeout: 8_000_000_000,
            helper_uid: DEFAULT_HELPER_UID,
            display_backlight_path: "/sys/class/backlight/intel_backlight".to_string(),
            kbd_backlight_path: "/sys/class/leds/:white:kbd_backlight".to_string(),
        }
    );
    let shipped = || entries(Some(3), Some(5), Some("/sys/shipped"));
    assert_eq!(MachineProxy::merge(shipped(), None).resolve().overlay_timeout, 3_000_000_000);
    let user = entries(Some(0), None, Some("/sys/user"));
    let merged = MachineProxy::merge(shipped(), Some(user)).resolve();
    assert_eq!(merged.overlay_timeout, 0);
    assert_eq!(merged.helper_uid, 5);
    assert_eq!(merged.display_backlight_path, "/sys/user");
    assert_eq!(merged.kbd_backlight_path, usual.kbd_backlight_path);
    assert_eq!(entries(Some(u64::MAX), None, None).resolve().overlay_timeout, u64::MAX);
}
