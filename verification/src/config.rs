//! What the configuration says: buttons, the workspace strip, and how the
//! user's file overrides the one that is shipped.
use crate::button::ConfigError;
use crate::layer::{FunctionLayer, LayerModel};
use crate::layer_config::{control_groups, layer_of, ControlGroupModel};
use crate::text::{copy_text, text_model};
use vstd::prelude::*;

verus! {

/// Event codes of the keys that the bar itself knows about.
pub const KEY_ESC: u16 = 1;

pub const KEY_LEFT_ALT: u16 = 56;

pub const KEY_FN: u16 = 0x1d0;

/// No strip is longer than the keys 1 to 9 can address.
pub const WORKSPACE_BUTTON_HARD_CAP: usize = 9;

/// What an absolute-position slider drives.
#[derive(Clone, Copy, Debug, PartialEq, Eq, Structural)]
pub enum SliderTarget {
    DisplayBrightness,
    KeyboardBrightness,
    Volume,
}

/// One configured button. Keys are event codes.
#[derive(Debug, PartialEq, Eq)]
pub struct ButtonConfig {
    pub id: Option<String>,
    pub icon: Option<String>,
    pub text: Option<String>,
    pub theme: Option<String>,
    pub time: Option<String>,
    pub battery: Option<String>,
    pub locale: Option<String>,
    pub action: Vec<u16>,
    pub open_overlay: Option<String>,
    pub close_overlay: Option<bool>,
    pub slider: Option<SliderTarget>,
    pub stretch: Option<usize>,
    pub icon_width: Option<i32>,
    pub icon_height: Option<i32>,
}

#[verifier::ext_equal]
pub struct ButtonConfigModel {
    pub id: Option<Seq<char>>,
    pub icon: Option<Seq<char>>,
    pub text: Option<Seq<char>>,
    pub theme: Option<Seq<char>>,
    pub time: Option<Seq<char>>,
    pub battery: Option<Seq<char>>,
    pub locale: Option<Seq<char>>,
    pub action: Seq<u16>,
    pub open_overlay: Option<Seq<char>>,
    pub close_overlay: Option<bool>,
    pub slider: Option<SliderTarget>,
    pub stretch: Option<usize>,
    pub icon_width: Option<i32>,
    pub icon_height: Option<i32>,
}

impl View for ButtonConfig {
    type V = ButtonConfigModel;

    open spec fn view(&self) -> ButtonConfigModel {
        ButtonConfigModel {
            id: text_model(self.id),
            icon: text_model(self.icon),
            text: text_model(self.text),
            theme: text_model(self.theme),
            time: text_model(self.time),
            battery: text_model(self.battery),
            locale: text_model(self.locale),
            action: self.action@,
            open_overlay: text_model(self.open_overlay),
            close_overlay: self.close_overlay,
            slider: self.slider,
            stretch: self.stretch,
            icon_width: self.icon_width,
            icon_height: self.icon_height,
        }
    }
}

pub open spec fn button_configs(cfg: Seq<ButtonConfig>) -> Seq<ButtonConfigModel> {
    cfg.map_values(|c: ButtonConfig| c@)
}

/// A button configuration that says nothing.
pub open spec fn blank_button() -> ButtonConfigModel {
    ButtonConfigModel {
        id: None,
        icon: None,
        text: None,
        theme: None,
        time: None,
        battery: None,
        locale: None,
        action: Seq::empty(),
        open_overlay: None,
        close_overlay: None,
        slider: None,
        stretch: None,
        icon_width: None,
        icon_height: None,
    }
}

/// A copy of a list of key codes.
pub fn copy_codes(codes: &Vec<u16>) -> (r: Vec<u16>)
    ensures
        r@ == codes@,
{
    let r = codes.clone();
    assert(r@ =~= codes@);
    r
}

impl Clone for ButtonConfig {
    fn clone(&self) -> (r: ButtonConfig)
        ensures
            r@ == self@,
    {
        ButtonConfig {
            id: copy_text(&self.id),
            icon: copy_text(&self.icon),
            text: copy_text(&self.text),
            theme: copy_text(&self.theme),
            time: copy_text(&self.time),
            battery: copy_text(&self.battery),
            locale: copy_text(&self.locale),
            action: copy_codes(&self.action),
            open_overlay: copy_text(&self.open_overlay),
            close_overlay: self.close_overlay,
            slider: self.slider,
            stretch: self.stretch,
            icon_width: self.icon_width,
            icon_height: self.icon_height,
        }
    }
}

impl Default for ButtonConfig {
    fn default() -> (r: ButtonConfig)
        ensures
            r@ == blank_button(),
    {
        ButtonConfig {
            id: None,
            icon: None,
            text: None,
            theme: None,
            time: None,
            battery: None,
            locale: None,
            action: Vec::new(),
            open_overlay: None,
            close_overlay: None,
            slider: None,
            stretch: None,
            icon_width: None,
            icon_height: None,
        }
    }
}

/// A copy of a list of button configurations.
pub fn copy_buttons(cfg: &Vec<ButtonConfig>) -> (r: Vec<ButtonConfig>)
    ensures
        button_configs(r@) == button_configs(cfg@),
{
    let mut r: Vec<ButtonConfig> = Vec::new();
    let mut i: usize = 0;
    while i < cfg.len()
        invariant
            i <= cfg@.len(),
            r@.len() == i,
            forall|j: int| 0 <= j < i ==> (#[trigger] r@[j])@ == cfg@[j]@,
        decreases cfg@.len() - i,
    {
        r.push(cfg[i].clone());
        i = i + 1;
    }
    assert(button_configs(r@) =~= button_configs(cfg@));
    r
}

/// The workspace table as it is written: every entry may be missing.
#[derive(Debug)]
pub struct WorkspacesProxy {
    pub max_buttons: Option<usize>,
    pub fallback_buttons: Option<usize>,
    pub actions: Option<Vec<Vec<u16>>>,
}

/// The workspace strip: how many live buttons it may have, how many it shows
/// without live state, and the keys those emit.
#[derive(Debug)]
pub struct WorkspacesCfg {
    pub max_buttons: usize,
    pub fallback_buttons: usize,
    pub actions: Vec<Vec<u16>>,
}

#[verifier::ext_equal]
pub struct WorkspacesModel {
    pub max_buttons: usize,
    pub fallback_buttons: usize,
    pub actions: Seq<Seq<u16>>,
}

pub open spec fn action_models(actions: Seq<Vec<u16>>) -> Seq<Seq<u16>> {
    actions.map_values(|a: Vec<u16>| a@)
}

impl View for WorkspacesCfg {
    type V = WorkspacesModel;

    open spec fn view(&self) -> WorkspacesModel {
        WorkspacesModel {
            max_buttons: self.max_buttons,
            fallback_buttons: self.fallback_buttons,
            actions: action_models(self.actions@),
        }
    }
}

/// The key that carries digit `idx`; 9 stands in for whatever has no digit.
pub open spec fn digit_key(idx: int) -> u16 {
    if 1 <= idx <= 8 {
        (idx + 1) as u16
    } else {
        10
    }
}

/// Alt and a digit.
pub open spec fn default_action(idx: int) -> Seq<u16> {
    seq![KEY_LEFT_ALT, digit_key(idx)]
}

/// `value` brought into `low..=high`.
pub open spec fn clamped_to(value: int, low: int, high: int) -> int {
    if value < low {
        low
    } else if value > high {
        high
    } else {
        value
    }
}

fn clamp_to(value: usize, low: usize, high: usize) -> (r: usize)
    requires
        low <= high,
    ensures
        r == clamped_to(value as int, low as int, high as int),
{
    if value < low {
        low
    } else if value > high {
        high
    } else {
        value
    }
}

fn default_workspace_action(idx: usize) -> (keys: Vec<u16>)
    ensures
        keys@ == default_action(idx as int),
{
    let num: u16 = if 1 <= idx && idx <= 8 {
        idx as u16 + 1
    } else {
        10
    };
    let keys = vec![KEY_LEFT_ALT, num];
    assert(keys@ =~= default_action(idx as int));
    keys
}

impl WorkspacesModel {
    /// The keys of the workspace button with the 1-based index `idx`.
    pub open spec fn action_spec(self, idx: int) -> Seq<u16> {
        let at = if idx >= 1 {
            idx - 1
        } else {
            0
        };
        if at < self.actions.len() {
            self.actions[at]
        } else {
            default_action(idx)
        }
    }

    /// At least one button either way, and no more fallback buttons than
    /// live ones.
    pub open spec fn wf(self) -> bool {
        1 <= self.fallback_buttons <= self.max_buttons <= WORKSPACE_BUTTON_HARD_CAP
    }
}

/// A workspace table with what was left out filled in, and the counts
/// brought into range.
pub open spec fn workspaces_of(proxy: WorkspacesProxy) -> WorkspacesModel {
    let max = match proxy.max_buttons {
        Some(n) => clamped_to(n as int, 1, WORKSPACE_BUTTON_HARD_CAP as int),
        None => WORKSPACE_BUTTON_HARD_CAP as int,
    };
    WorkspacesModel {
        max_buttons: max as usize,
        fallback_buttons: match proxy.fallback_buttons {
            Some(n) => clamped_to(n as int, 1, max) as usize,
            None => 1,
        },
        actions: match proxy.actions {
            Some(actions) => action_models(actions@),
            None => Seq::empty(),
        },
    }
}

impl WorkspacesCfg {
    /// Fills in what was left out and brings the counts into range.
    pub fn resolve(proxy: WorkspacesProxy) -> (r: WorkspacesCfg)
        ensures
            r@ == workspaces_of(proxy),
            r@.wf(),
    {
        let max_buttons: usize = match proxy.max_buttons {
            Some(n) => clamp_to(n, 1, WORKSPACE_BUTTON_HARD_CAP),
            None => WORKSPACE_BUTTON_HARD_CAP,
        };
        let fallback_buttons: usize = match proxy.fallback_buttons {
            Some(n) => clamp_to(n, 1, max_buttons),
            None => 1,
        };
        let actions = match proxy.actions {
            Some(actions) => actions,
            None => Vec::new(),
        };
        let r = WorkspacesCfg { max_buttons, fallback_buttons, actions };
        assert(r@.actions =~= workspaces_of(proxy).actions);
        r
    }

    /// Keys emitted by the workspace button with the 1-based index `idx`.
    pub fn action_for(&self, idx: usize) -> (keys: Vec<u16>)
        ensures
            keys@ == self@.action_spec(idx as int),
    {
        let at: usize = if idx >= 1 {
            idx - 1
        } else {
            0
        };
        if at < self.actions.len() {
            copy_codes(&self.actions[at])
        } else {
            default_workspace_action(idx)
        }
    }
}

/// Settings that are not about buttons. The font is named by a pattern.
#[derive(Debug, PartialEq, Eq)]
pub struct Config {
    pub show_button_outlines: bool,
    pub enable_pixel_shift: bool,
    pub font_template: String,
    pub adaptive_brightness: bool,
    pub active_brightness: u32,
    pub double_press_switch_layers: u32,
}

/// A configuration file as it is written: every entry may be missing.
#[derive(Debug)]
pub struct ConfigProxy {
    pub media_layer_default: Option<bool>,
    pub show_button_outlines: Option<bool>,
    pub enable_pixel_shift: Option<bool>,
    pub font_template: Option<String>,
    pub adaptive_brightness: Option<bool>,
    pub active_brightness: Option<u32>,
    pub double_press_switch_layers: Option<u32>,
    pub primary_layer_keys: Option<Vec<ButtonConfig>>,
    pub media_layer_keys: Option<Vec<ButtonConfig>>,
    pub control_groups: Option<Vec<(String, Vec<ButtonConfig>)>>,
    pub workspaces: Option<WorkspacesProxy>,
}

/// The user's entry where there is one.
pub open spec fn preferred<A>(user: Option<A>, base: Option<A>) -> Option<A> {
    if user is Some {
        user
    } else {
        base
    }
}

fn prefer<A>(user: Option<A>, base: Option<A>) -> (r: Option<A>)
    ensures
        r == preferred(user, base),
{
    match user {
        Some(value) => Some(value),
        None => base,
    }
}

impl ConfigProxy {
    /// What the user wrote, and what is shipped where the user wrote nothing.
    pub open spec fn merged_spec(user: ConfigProxy, base: ConfigProxy) -> ConfigProxy {
        ConfigProxy {
            media_layer_default: preferred(user.media_layer_default, base.media_layer_default),
            show_button_outlines: preferred(user.show_button_outlines, base.show_button_outlines),
            enable_pixel_shift: preferred(user.enable_pixel_shift, base.enable_pixel_shift),
            font_template: preferred(user.font_template, base.font_template),
            adaptive_brightness: preferred(user.adaptive_brightness, base.adaptive_brightness),
            active_brightness: preferred(user.active_brightness, base.active_brightness),
            double_press_switch_layers: preferred(
                user.double_press_switch_layers,
                base.double_press_switch_layers,
            ),
            primary_layer_keys: preferred(user.primary_layer_keys, base.primary_layer_keys),
            media_layer_keys: preferred(user.media_layer_keys, base.media_layer_keys),
            control_groups: preferred(user.control_groups, base.control_groups),
            workspaces: preferred(user.workspaces, base.workspaces),
        }
    }

    /// The user's file, where it could be read, over the one that is shipped.
    pub fn merge(base: ConfigProxy, user: Option<ConfigProxy>) -> (r: ConfigProxy)
        ensures
            r == (match user {
                Some(user) => ConfigProxy::merged_spec(user, base),
                None => base,
            }),
    {
        match user {
            Some(user) => ConfigProxy {
                media_layer_default: prefer(user.media_layer_default, base.media_layer_default),
                show_button_outlines: prefer(
                    user.show_button_outlines,
                    base.show_button_outlines,
                ),
                enable_pixel_shift: prefer(user.enable_pixel_shift, base.enable_pixel_shift),
                font_template: prefer(user.font_template, base.font_template),
                adaptive_brightness: prefer(user.adaptive_brightness, base.adaptive_brightness),
                active_brightness: prefer(user.active_brightness, base.active_brightness),
                double_press_switch_layers: prefer(
                    user.double_press_switch_layers,
                    base.double_press_switch_layers,
                ),
                primary_layer_keys: prefer(user.primary_layer_keys, base.primary_layer_keys),
                media_layer_keys: prefer(user.media_layer_keys, base.media_layer_keys),
                control_groups: prefer(user.control_groups, base.control_groups),
                workspaces: prefer(user.workspaces, base.workspaces),
            },
            None => base,
        }
    }
}

/// The user's file decides, entry by entry: where it has an entry the
/// configuration has the user's value of it, and where it has none the one
/// that is shipped. A file of the user's that has every entry is the whole
/// configuration.
pub proof fn the_users_entries_win(user: ConfigProxy, base: ConfigProxy)
    ensures
        ({
            let both = ConfigProxy::merged_spec(user, base);
            &&& user.media_layer_default is Some ==> both.media_layer_default
                == user.media_layer_default
            &&& user.media_layer_default is None ==> both.media_layer_default
                == base.media_layer_default
            &&& user.show_button_outlines is Some ==> both.show_button_outlines
                == user.show_button_outlines
            &&& user.show_button_outlines is None ==> both.show_button_outlines
                == base.show_button_outlines
            &&& user.enable_pixel_shift is Some ==> both.enable_pixel_shift
                == user.enable_pixel_shift
            &&& user.enable_pixel_shift is None ==> both.enable_pixel_shift
                == base.enable_pixel_shift
            &&& user.font_template is Some ==> both.font_template == user.font_template
            &&& user.font_template is None ==> both.font_template == base.font_template
            &&& user.adaptive_brightness is Some ==> both.adaptive_brightness
                == user.adaptive_brightness
            &&& user.adaptive_brightness is None ==> both.adaptive_brightness
                == base.adaptive_brightness
            &&& user.active_brightness is Some ==> both.active_brightness
                == user.active_brightness
            &&& user.active_brightness is None ==> both.active_brightness
                == base.active_brightness
            &&& user.double_press_switch_layers is Some ==> both.double_press_switch_layers
                == user.double_press_switch_layers
            &&& user.double_press_switch_layers is None ==> both.double_press_switch_layers
                == base.double_press_switch_layers
            &&& user.primary_layer_keys is Some ==> both.primary_layer_keys
                == user.primary_layer_keys
            &&& user.primary_layer_keys is None ==> both.primary_layer_keys
                == base.primary_layer_keys
            &&& user.media_layer_keys is Some ==> both.media_layer_keys == user.media_layer_keys
            &&& user.media_layer_keys is None ==> both.media_layer_keys == base.media_layer_keys
            &&& user.control_groups is Some ==> both.control_groups == user.control_groups
            &&& user.control_groups is None ==> both.control_groups == base.control_groups
            &&& user.workspaces is Some ==> both.workspaces == user.workspaces
            &&& user.workspaces is None ==> both.workspaces == base.workspaces
        }),
        user.media_layer_default is Some && user.show_button_outlines is Some
            && user.enable_pixel_shift is Some && user.font_template is Some
            && user.adaptive_brightness is Some && user.active_brightness is Some
            && user.double_press_switch_layers is Some && user.primary_layer_keys is Some
            && user.media_layer_keys is Some && user.control_groups is Some
            && user.workspaces is Some ==> ConfigProxy::merged_spec(user, base) == user,
{
}

/// What a configuration file says about the machine: every entry may be
/// missing.
#[derive(Debug)]
pub struct MachineProxy {
    /// How long an overlay stays open untouched, in seconds.
    pub overlay_timeout: Option<u64>,
    /// The user that the companion runs as.
    pub helper_uid: Option<u32>,
    pub display_backlight_path: Option<String>,
    pub kbd_backlight_path: Option<String>,
}

/// What is known about the machine.
#[derive(Debug, PartialEq, Eq)]
pub struct Machine {
    /// How long an overlay stays open untouched, in nanoseconds.
    pub overlay_timeout: u64,
    pub helper_uid: u32,
    pub display_backlight_path: String,
    pub kbd_backlight_path: String,
}

pub const DEFAULT_OVERLAY_TIMEOUT: u64 = 8;

pub const DEFAULT_HELPER_UID: u32 = 1000;

const NANOS_PER_SECOND: u64 = 1_000_000_000;

/// The entry, or what stands for it where it is missing.
pub open spec fn or_else<A>(entry: Option<A>, default: A) -> A {
    match entry {
        Some(value) => value,
        None => default,
    }
}

/// Seconds in nanoseconds, as far as they can be counted.
pub open spec fn seconds_to_nanos(seconds: u64) -> int {
    if seconds * 1_000_000_000 <= u64::MAX {
        seconds * 1_000_000_000
    } else {
        u64::MAX as int
    }
}

impl MachineProxy {
    /// What the user wrote, and what is shipped where the user wrote nothing.
    pub open spec fn merged_spec(user: MachineProxy, base: MachineProxy) -> MachineProxy {
        MachineProxy {
            overlay_timeout: preferred(user.overlay_timeout, base.overlay_timeout),
            helper_uid: preferred(user.helper_uid, base.helper_uid),
            display_backlight_path: preferred(
                user.display_backlight_path,
                base.display_backlight_path,
            ),
            kbd_backlight_path: preferred(user.kbd_backlight_path, base.kbd_backlight_path),
        }
    }

    /// The user's file, where it could be read, over the one that is shipped.
    pub fn merge(base: MachineProxy, user: Option<MachineProxy>) -> (r: MachineProxy)
        ensures
            r == (match user {
                Some(user) => MachineProxy::merged_spec(user, base),
                None => base,
            }),
    {
        match user {
            Some(user) => MachineProxy {
                overlay_timeout: prefer(user.overlay_timeout, base.overlay_timeout),
                helper_uid: prefer(user.helper_uid, base.helper_uid),
                display_backlight_path: prefer(
                    user.display_backlight_path,
                    base.display_backlight_path,
                ),
                kbd_backlight_path: prefer(user.kbd_backlight_path, base.kbd_backlight_path),
            },
            None => base,
        }
    }

    /// The machine that the entries describe; the usual one where they are
    /// missing.
    pub fn resolve(self) -> (r: Machine)
        ensures
            r.overlay_timeout == seconds_to_nanos(
                or_else(self.overlay_timeout, DEFAULT_OVERLAY_TIMEOUT),
            ),
            self.overlay_timeout is None ==> r.overlay_timeout == 8_000_000_000,
            self.overlay_timeout matches Some(s) && s <= 18_446_744_073 ==> r.overlay_timeout
                == self.overlay_timeout->0 * 1_000_000_000,
            r.helper_uid == or_else(self.helper_uid, DEFAULT_HELPER_UID),
            self.helper_uid is None ==> r.helper_uid == 1000,
            self.helper_uid is Some ==> self.helper_uid == Some(r.helper_uid),
            self.display_backlight_path matches Some(path) ==> r.display_backlight_path@ == path@,
            self.kbd_backlight_path matches Some(path) ==> r.kbd_backlight_path@ == path@,
            r.display_backlight_path@ == or_else(
                text_model(self.display_backlight_path),
                "/sys/class/backlight/intel_backlight"@,
            ),
            r.kbd_backlight_path@ == or_else(
                text_model(self.kbd_backlight_path),
                "/sys/class/leds/:white:kbd_backlight"@,
            ),
    {
        let seconds: u64 = match self.overlay_timeout {
            Some(seconds) => seconds,
            None => DEFAULT_OVERLAY_TIMEOUT,
        };
        Machine {
            overlay_timeout: if seconds <= u64::MAX / NANOS_PER_SECOND {
                seconds * NANOS_PER_SECOND
            } else {
                u64::MAX
            },
            helper_uid: match self.helper_uid {
                Some(uid) => uid,
                None => DEFAULT_HELPER_UID,
            },
            display_backlight_path: match self.display_backlight_path {
                Some(path) => path,
                None => "/sys/class/backlight/intel_backlight".to_string(),
            },
            kbd_backlight_path: match self.kbd_backlight_path {
                Some(path) => path,
                None => "/sys/class/leds/:white:kbd_backlight".to_string(),
            },
        }
    }
}

/// The user's entries about the machine win, one by one.
pub proof fn the_users_machine_entries_win(user: MachineProxy, base: MachineProxy)
    ensures
        ({
            let both = MachineProxy::merged_spec(user, base);
            &&& user.overlay_timeout is Some ==> both.overlay_timeout == user.overlay_timeout
            &&& user.overlay_timeout is None ==> both.overlay_timeout == base.overlay_timeout
            &&& user.helper_uid is Some ==> both.helper_uid == user.helper_uid
            &&& user.helper_uid is None ==> both.helper_uid == base.helper_uid
            &&& user.display_backlight_path is Some ==> both.display_backlight_path
                == user.display_backlight_path
            &&& user.display_backlight_path is None ==> both.display_backlight_path
                == base.display_backlight_path
            &&& user.kbd_backlight_path is Some ==> both.kbd_backlight_path
                == user.kbd_backlight_path
            &&& user.kbd_backlight_path is None ==> both.kbd_backlight_path
                == base.kbd_backlight_path
        }),
{
}

/// Bars of at least this width have no escape key beside them.
pub const ESC_WIDTH: u16 = 2170;

/// The escape button.
pub open spec fn esc_button() -> ButtonConfigModel {
    ButtonConfigModel {
        text: Some("esc"@),
        action: seq![KEY_ESC],
        ..blank_button()
    }
}

/// A row as it is shown on a bar of the given width.
pub open spec fn keys_for(cfg: Seq<ButtonConfigModel>, width: u16) -> Seq<ButtonConfigModel> {
    if width >= ESC_WIDTH {
        seq![esc_button()] + cfg
    } else {
        cfg
    }
}

fn add_esc(cfg: Vec<ButtonConfig>, width: u16) -> (r: Vec<ButtonConfig>)
    ensures
        button_configs(r@) == keys_for(button_configs(cfg@), width),
{
    let mut cfg = cfg;
    let ghost before = button_configs(cfg@);
    if width >= ESC_WIDTH {
        let mut button = ButtonConfig::default();
        button.text = Some("esc".to_string());
        button.action = vec![KEY_ESC];
        assert(button@ =~= esc_button());
        cfg.insert(0, button);
        assert(button_configs(cfg@) =~= seq![esc_button()] + before);
    }
    cfg
}

fn copy_groups(groups: &Vec<(String, Vec<ButtonConfig>)>) -> (r: Vec<(String, Vec<ButtonConfig>)>)
    ensures
        control_groups(r@) == control_groups(groups@),
{
    let mut r: Vec<(String, Vec<ButtonConfig>)> = Vec::new();
    let mut i: usize = 0;
    while i < groups.len()
        invariant
            i <= groups@.len(),
            r@.len() == i,
            forall|j: int|
                0 <= j < i ==> (#[trigger] r@[j]).0@ == groups@[j].0@ && button_configs(
                    r@[j].1@,
                ) == button_configs(groups@[j].1@),
        decreases groups@.len() - i,
    {
        r.push((groups[i].0.clone(), copy_buttons(&groups[i].1)));
        i = i + 1;
    }
    assert(control_groups(r@) =~= control_groups(groups@));
    r
}

pub open spec fn groups_of(proxy: ConfigProxy) -> Seq<ControlGroupModel> {
    match proxy.control_groups {
        Some(groups) => control_groups(groups@),
        None => Seq::empty(),
    }
}

pub open spec fn workspaces_table(proxy: ConfigProxy) -> Option<WorkspacesModel> {
    match proxy.workspaces {
        Some(ws) => Some(workspaces_of(ws)),
        None => None,
    }
}

/// The layer of media keys; the strip stands beside it.
pub open spec fn media_layer(
    proxy: ConfigProxy,
    width: u16,
    battery: Option<Seq<char>>,
) -> Result<LayerModel, ConfigError> {
    match proxy.media_layer_keys {
        Some(keys) => layer_of(
            keys_for(button_configs(keys@), width),
            groups_of(proxy),
            workspaces_table(proxy),
            battery,
        ),
        None => Err(ConfigError::MissingEntry),
    }
}

/// The layer of function keys.
pub open spec fn primary_layer(
    proxy: ConfigProxy,
    width: u16,
    battery: Option<Seq<char>>,
) -> Result<LayerModel, ConfigError> {
    match proxy.primary_layer_keys {
        Some(keys) => layer_of(
            keys_for(button_configs(keys@), width),
            groups_of(proxy),
            None,
            battery,
        ),
        None => Err(ConfigError::MissingEntry),
    }
}

/// Whether every setting has a value.
pub open spec fn settings_complete(proxy: ConfigProxy) -> bool {
    &&& proxy.media_layer_default is Some
    &&& proxy.show_button_outlines is Some
    &&& proxy.enable_pixel_shift is Some
    &&& proxy.font_template is Some
    &&& proxy.adaptive_brightness is Some
    &&& proxy.active_brightness is Some
    &&& proxy.double_press_switch_layers is Some
}

/// What is wrong with a configuration: missing rows first, then the media
/// layer, then the function layer, then missing settings.
pub open spec fn config_error(
    proxy: ConfigProxy,
    width: u16,
    battery: Option<Seq<char>>,
) -> Option<ConfigError> {
    if proxy.media_layer_keys is None || proxy.primary_layer_keys is None {
        Some(ConfigError::MissingEntry)
    } else if let Err(e) = media_layer(proxy, width, battery) {
        Some(e)
    } else if let Err(e) = primary_layer(proxy, width, battery) {
        Some(e)
    } else if !settings_complete(proxy) {
        Some(ConfigError::MissingEntry)
    } else {
        None
    }
}

impl ConfigProxy {
    /// `r` is what a configuration describes, on a bar of the given width and
    /// a machine with the given battery: its error, or its settings and its
    /// two layers, in order and at rest.
    pub open spec fn resolves_to(
        self,
        width: u16,
        device: Option<Seq<char>>,
        r: Result<(Config, Vec<FunctionLayer>), ConfigError>,
    ) -> bool {
        match r {
            Err(e) => config_error(self, width, device) == Some(e),
            Ok((config, layers)) => {
                let media = if self.media_layer_default == Some(true) {
                    0int
                } else {
                    1int
                };
                &&& config_error(self, width, device) is None
                &&& layers@.len() == 2
                &&& media_layer(self, width, device) == Ok::<LayerModel, ConfigError>(
                    layers@[media]@,
                )
                &&& primary_layer(self, width, device) == Ok::<LayerModel, ConfigError>(
                    layers@[1 - media]@,
                )
                &&& forall|i: int|
                    0 <= i < 2 ==> (#[trigger] layers@[i])@.wf() && layers@[i]@.at_rest()
                &&& Some(config.show_button_outlines) == self.show_button_outlines
                &&& Some(config.enable_pixel_shift) == self.enable_pixel_shift
                &&& Some(config.font_template) == self.font_template
                &&& Some(config.adaptive_brightness) == self.adaptive_brightness
                &&& Some(config.active_brightness) == self.active_brightness
                &&& Some(config.double_press_switch_layers) == self.double_press_switch_layers
            },
        }
    }

    /// The settings and the two layers that a configuration describes, on a
    /// bar of the given width and a machine with the given battery. The
    /// first layer is the one that is shown without the function key.
    pub fn resolve(self, width: u16, battery: &Option<String>) -> (r: Result<
        (Config, Vec<FunctionLayer>),
        ConfigError,
    >)
        ensures
            self.resolves_to(width, text_model(*battery), r),
    {
        let groups = match self.control_groups {
            Some(groups) => groups,
            None => Vec::new(),
        };
        assert(control_groups(groups@) =~= groups_of(self));
        let (media_keys, primary_keys) = match (self.media_layer_keys, self.primary_layer_keys) {
            (Some(media), Some(primary)) => (media, primary),
            _ => {
                return Err(ConfigError::MissingEntry);
            },
        };
        let media_keys = add_esc(media_keys, width);
        let primary_keys = add_esc(primary_keys, width);
        let workspaces = match self.workspaces {
            Some(proxy) => Some(WorkspacesCfg::resolve(proxy)),
            None => None,
        };
        let media = match FunctionLayer::with_config(
            media_keys,
            copy_groups(&groups),
            workspaces.as_ref(),
            battery,
        ) {
            Ok(layer) => layer,
            Err(e) => {
                return Err(e);
            },
        };
        let primary = match FunctionLayer::with_config(primary_keys, groups, None, battery) {
            Ok(layer) => layer,
            Err(e) => {
                return Err(e);
            },
        };
        match (
            self.media_layer_default,
            self.show_button_outlines,
            self.enable_pixel_shift,
            self.font_template,
            self.adaptive_brightness,
            self.active_brightness,
            self.double_press_switch_layers,
        ) {
            (
                Some(media_first),
                Some(show_button_outlines),
                Some(enable_pixel_shift),
                Some(font_template),
                Some(adaptive_brightness),
                Some(active_brightness),
                Some(double_press_switch_layers),
            ) => {
                let config = Config {
                    show_button_outlines,
                    enable_pixel_shift,
                    font_template,
                    adaptive_brightness,
                    active_brightness,
                    double_press_switch_layers,
                };
                let layers = if media_first {
                    vec![media, primary]
                } else {
                    vec![primary, media]
                };
                Ok((config, layers))
            },
            _ => Err(ConfigError::MissingEntry),
        }
    }
}

/// The watch on the user's file. It fires once and has to be armed again;
/// it cannot be armed while the file does not exist.
#[derive(Clone, Copy, Debug, PartialEq, Eq, Structural)]
pub struct ConfigManager {
    pub armed: bool,
}

/// What to do about the user's file.
#[derive(Clone, Copy, Debug, PartialEq, Eq, Structural)]
pub enum WatchStep {
    /// Try to arm the watch.
    Arm,
    /// Look for events.
    Read,
}

impl ConfigManager {
    /// A watch that was armed, or not, for the first time.
    pub fn new(armed: bool) -> (r: ConfigManager)
        ensures
            r == (ConfigManager { armed }),
    {
        ConfigManager { armed }
    }

    /// The settings and the two layers that the shipped file and the user's,
    /// where it could be read, describe together.
    pub fn load_config(
        &self,
        base: ConfigProxy,
        user: Option<ConfigProxy>,
        width: u16,
        battery: &Option<String>,
    ) -> (r: Result<(Config, Vec<FunctionLayer>), ConfigError>)
        ensures
            ({
                let both = match user {
                    Some(user) => ConfigProxy::merged_spec(user, base),
                    None => base,
                };
                both.resolves_to(width, text_model(*battery), r)
            }),
    {
        ConfigProxy::merge(base, user).resolve(width, battery)
    }

    /// What to do about the user's file next.
    pub fn step(&self) -> (r: WatchStep)
        ensures
            r == (if self.armed {
                WatchStep::Read
            } else {
                WatchStep::Arm
            }),
    {
        if self.armed {
            WatchStep::Read
        } else {
            WatchStep::Arm
        }
    }

    /// The watch was armed, or could not be.
    pub fn on_arm(&mut self, armed: bool)
        ensures
            *final(self) == (ConfigManager { armed }),
    {
        self.armed = armed;
    }

    /// An event came in, from this watch or from an older one; says whether
    /// the configuration has to be loaded and the watch armed again.
    pub fn on_event(&mut self, ours: bool) -> (reload: bool)
        ensures
            reload == (ours && old(self).armed),
            *final(self) == (if reload {
                ConfigManager { armed: false }
            } else {
                *old(self)
            }),
    {
        if ours && self.armed {
            self.armed = false;
            true
        } else {
            false
        }
    }
}

} // verus!
