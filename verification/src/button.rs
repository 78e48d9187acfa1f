//! One button: what it shows, what it does, and its press and drag state.
use crate::battery::BatteryIconMode;
use crate::config::{copy_codes, ButtonConfig, ButtonConfigModel, SliderTarget};
use crate::scalar::Scalar;
use crate::text::{same_text, text_model};
use vstd::prelude::*;
use vstd::string::StringExecFns;

verus! {

/// Edge length of an icon that is configured without one.
pub const DEFAULT_ICON_SIZE: i32 = 48;

/// What is wrong with a configuration.
#[derive(Clone, Copy, Debug, PartialEq, Eq, Structural)]
pub enum ConfigError {
    /// A layer has no buttons.
    NoButtons,
    /// The stretches of a layer add up to more than can be counted.
    TooWide,
    /// A battery mode is none of icon, percentage and both.
    BatteryMode,
    /// A time format has a specifier that does not exist.
    TimeFormat,
    /// An entry that has no default is missing.
    MissingEntry,
}

/// What the bar asks of the world: key events, slider positions, focus.
#[derive(Clone, Copy, Debug, PartialEq, Eq, Structural)]
pub enum Effect {
    Key { code: u16, down: bool },
    /// Ends a group of key events.
    Report,
    Slider { target: SliderTarget, value: Scalar },
    Focus(u64),
}

/// A specifier of a time format, as far as it matters for how often the
/// time has to be drawn.
#[derive(Clone, Copy, Debug, PartialEq, Eq, Structural)]
pub enum TimeItem {
    Second,
    Nanosecond,
    Timestamp,
    Other,
}

/// Position of a slider and whether a finger is on it.
#[derive(Clone, Copy, Debug, PartialEq, Eq, Structural)]
pub struct SliderState {
    pub value: Scalar,
    pub dragging: bool,
}

#[derive(Debug, PartialEq, Eq)]
pub enum ButtonImage {
    Text(String),
    Icon { name: String, theme: Option<String> },
    Time { format: String, items: Vec<TimeItem>, locale: String },
    Battery { device: String, mode: BatteryIconMode, theme: Option<String> },
    Slider(SliderState),
    Spacer,
}

#[verifier::ext_equal]
pub enum ImageModel {
    Text(Seq<char>),
    Icon { name: Seq<char>, theme: Option<Seq<char>> },
    Time { format: Seq<char>, items: Seq<TimeItem>, locale: Seq<char> },
    Battery { device: Seq<char>, mode: BatteryIconMode, theme: Option<Seq<char>> },
    Slider(SliderState),
    Spacer,
}

impl View for ButtonImage {
    type V = ImageModel;

    open spec fn view(&self) -> ImageModel {
        match self {
            ButtonImage::Text(t) => ImageModel::Text(t@),
            ButtonImage::Icon { name, theme } => ImageModel::Icon {
                name: name@,
                theme: text_model(*theme),
            },
            ButtonImage::Time { format, items, locale } => ImageModel::Time {
                format: format@,
                items: items@,
                locale: locale@,
            },
            ButtonImage::Battery { device, mode, theme } => ImageModel::Battery {
                device: device@,
                mode: *mode,
                theme: text_model(*theme),
            },
            ButtonImage::Slider(s) => ImageModel::Slider(*s),
            ButtonImage::Spacer => ImageModel::Spacer,
        }
    }
}

/// What a tap or a drag on a button does. A focus action never comes from
/// the configuration, only from live workspaces.
#[derive(Debug, PartialEq, Eq)]
pub enum ButtonAction {
    Keys(Vec<u16>),
    OpenOverlay(String),
    CloseOverlay,
    Slider(SliderTarget),
    FocusWorkspace(u64),
    Nothing,
}

#[verifier::ext_equal]
pub enum ActionModel {
    Keys(Seq<u16>),
    OpenOverlay(Seq<char>),
    CloseOverlay,
    Slider(SliderTarget),
    FocusWorkspace(u64),
    Nothing,
}

impl View for ButtonAction {
    type V = ActionModel;

    open spec fn view(&self) -> ActionModel {
        match self {
            ButtonAction::Keys(k) => ActionModel::Keys(k@),
            ButtonAction::OpenOverlay(n) => ActionModel::OpenOverlay(n@),
            ButtonAction::CloseOverlay => ActionModel::CloseOverlay,
            ButtonAction::Slider(t) => ActionModel::Slider(*t),
            ButtonAction::FocusWorkspace(id) => ActionModel::FocusWorkspace(*id),
            ButtonAction::Nothing => ActionModel::Nothing,
        }
    }
}

/// The action that a configuration asks for: a slider before an overlay,
/// an overlay before keys.
pub open spec fn action_of(cfg: ButtonConfigModel) -> ActionModel {
    match cfg.slider {
        Some(target) => ActionModel::Slider(target),
        None => match cfg.open_overlay {
            Some(name) => ActionModel::OpenOverlay(name),
            None => if cfg.close_overlay == Some(true) {
                ActionModel::CloseOverlay
            } else if cfg.action.len() == 0 {
                ActionModel::Nothing
            } else {
                ActionModel::Keys(cfg.action)
            },
        },
    }
}

/// The keys that pressing a button holds down.
pub open spec fn keys_of(action: ActionModel) -> Seq<u16> {
    match action {
        ActionModel::Keys(keys) => keys,
        _ => Seq::empty(),
    }
}

impl ButtonAction {
    pub fn from_config(cfg: &ButtonConfig) -> (r: ButtonAction)
        ensures
            r@ == action_of(cfg@),
    {
        if let Some(target) = cfg.slider {
            ButtonAction::Slider(target)
        } else if let Some(name) = &cfg.open_overlay {
            ButtonAction::OpenOverlay(name.clone())
        } else if let Some(true) = cfg.close_overlay {
            ButtonAction::CloseOverlay
        } else if cfg.action.len() == 0 {
            ButtonAction::Nothing
        } else {
            ButtonAction::Keys(copy_codes(&cfg.action))
        }
    }

    /// The keys that pressing a button holds down.
    pub fn keys(&self) -> (r: Vec<u16>)
        ensures
            r@ == keys_of(self@),
    {
        match self {
            ButtonAction::Keys(keys) => copy_codes(keys),
            _ => Vec::new(),
        }
    }
}

impl Clone for ButtonAction {
    fn clone(&self) -> (r: ButtonAction)
        ensures
            r@ == self@,
    {
        match self {
            ButtonAction::Keys(keys) => ButtonAction::Keys(copy_codes(keys)),
            ButtonAction::OpenOverlay(name) => ButtonAction::OpenOverlay(name.clone()),
            ButtonAction::CloseOverlay => ButtonAction::CloseOverlay,
            ButtonAction::Slider(target) => ButtonAction::Slider(*target),
            ButtonAction::FocusWorkspace(id) => ButtonAction::FocusWorkspace(*id),
            ButtonAction::Nothing => ButtonAction::Nothing,
        }
    }
}

#[derive(Debug, PartialEq, Eq)]
pub struct Button {
    pub id: Option<String>,
    pub image: ButtonImage,
    pub changed: bool,
    pub pressed: bool,
    pub highlighted: bool,
    pub action: ButtonAction,
    pub icon_width: i32,
    pub icon_height: i32,
}

#[verifier::ext_equal]
pub struct ButtonModel {
    pub id: Option<Seq<char>>,
    pub image: ImageModel,
    pub changed: bool,
    pub pressed: bool,
    pub highlighted: bool,
    pub action: ActionModel,
    pub icon_width: i32,
    pub icon_height: i32,
}

impl View for Button {
    type V = ButtonModel;

    open spec fn view(&self) -> ButtonModel {
        ButtonModel {
            id: text_model(self.id),
            image: self.image@,
            changed: self.changed,
            pressed: self.pressed,
            highlighted: self.highlighted,
            action: self.action@,
            icon_width: self.icon_width,
            icon_height: self.icon_height,
        }
    }
}

/// A button at rest.
pub open spec fn resting(
    id: Option<Seq<char>>,
    image: ImageModel,
    action: ActionModel,
    width: i32,
    height: i32,
) -> ButtonModel {
    ButtonModel {
        id,
        image,
        changed: false,
        pressed: false,
        highlighted: false,
        action,
        icon_width: width,
        icon_height: height,
    }
}

/// The specifiers of a time format; none where one of them does not exist.
pub uninterp spec fn strftime_items(format: Seq<char>) -> Option<Seq<TimeItem>>;

/// Whether a locale of this name exists.
pub uninterp spec fn known_locale(name: Seq<char>) -> bool;

/// `chrono::format::StrftimeItems::new` and its `parse_to_owned`: what the
/// format means depends on its text alone. Every specifier that is not the
/// second, the nanosecond or the timestamp counts as another. Which text has
/// which specifiers is not stated.
#[verifier::external_body]
fn parse_time_format(format: &str) -> (r: Option<Vec<TimeItem>>)
    ensures
        match r {
            Some(items) => strftime_items(format@) == Some(items@),
            None => strftime_items(format@) is None,
        },
{
    let items = chrono::format::StrftimeItems::new(format).parse_to_owned().ok()?;
    let kind = |item: &chrono::format::Item<'static>| match item {
        chrono::format::Item::Numeric(chrono::format::Numeric::Second, _) => TimeItem::Second,
        chrono::format::Item::Numeric(chrono::format::Numeric::Nanosecond, _) => TimeItem::Nanosecond,
        chrono::format::Item::Numeric(chrono::format::Numeric::Timestamp, _) => TimeItem::Timestamp,
        _ => TimeItem::Other,
    };
    Some(items.iter().map(kind).collect())
}

/// `chrono::Locale::try_from`: whether a name is one of the locales that are
/// built in depends on the name alone. Which names those are is not stated.
#[verifier::external_body]
fn is_known_locale(name: &str) -> (r: bool)
    ensures
        r == known_locale(name@),
{
    chrono::Locale::try_from(name).is_ok()
}

/// A configured time format with the two named ones spelled out.
pub open spec fn time_format_spec(format: Seq<char>) -> Seq<char> {
    if format == "24hr"@ {
        "%H:%M    %a %-e %b"@
    } else if format == "12hr"@ {
        "%-l:%M %p    %a %-e %b"@
    } else {
        format
    }
}

/// A configured time format with the two named ones spelled out.
pub fn time_format(format: String) -> (r: String)
    ensures
        r@ == time_format_spec(format@),
{
    if same_text(format.as_str(), "24hr") {
        String::from_str("%H:%M    %a %-e %b")
    } else if same_text(format.as_str(), "12hr") {
        String::from_str("%-l:%M %p    %a %-e %b")
    } else {
        format
    }
}

/// The locale that is used: the configured one where it exists.
pub open spec fn locale_spec(locale: Option<Seq<char>>) -> Seq<char> {
    match locale {
        Some(name) if known_locale(name) => name,
        _ => "POSIX"@,
    }
}

fn time_locale(locale: Option<String>) -> (r: String)
    ensures
        r@ == locale_spec(text_model(locale)),
{
    match locale {
        Some(name) => if is_known_locale(name.as_str()) {
            name
        } else {
            String::from_str("POSIX")
        },
        None => String::from_str("POSIX"),
    }
}

pub open spec fn seconds_item(item: TimeItem) -> bool {
    item != TimeItem::Other
}

pub open spec fn any_seconds(items: Seq<TimeItem>) -> bool {
    exists|i: int| 0 <= i < items.len() && seconds_item(#[trigger] items[i])
}

/// Whether some specifier changes every second or more often.
pub fn shows_seconds(items: &Vec<TimeItem>) -> (r: bool)
    ensures
        r == any_seconds(items@),
{
    let mut i: usize = 0;
    while i < items.len()
        invariant
            i <= items@.len(),
            forall|j: int| 0 <= j < i ==> !seconds_item(#[trigger] items@[j]),
        decreases items@.len() - i,
    {
        match items[i] {
            TimeItem::Other => {},
            _ => {
                assert(seconds_item(items@[i as int]));
                return true;
            },
        }
        i = i + 1;
    }
    false
}

/// A time that shows seconds has to be drawn every second.
pub open spec fn needs_seconds(image: ImageModel) -> bool {
    image matches ImageModel::Time { items, .. } && any_seconds(items)
}

pub open spec fn or_default(size: Option<i32>) -> i32 {
    match size {
        Some(n) => n,
        None => DEFAULT_ICON_SIZE,
    }
}

/// The button that a configuration describes, on a machine with the given
/// battery. What comes first decides what it shows: slider, text, icon,
/// time, battery.
pub open spec fn button_of(cfg: ButtonConfigModel, battery: Option<Seq<char>>) -> Result<
    ButtonModel,
    ConfigError,
> {
    let action = action_of(cfg);
    if cfg.slider is Some {
        Ok(resting(cfg.id, ImageModel::Slider(SliderState::resting()), action, 0, 0))
    } else if let Some(text) = cfg.text {
        Ok(resting(cfg.id, ImageModel::Text(text), action, 0, 0))
    } else if let Some(name) = cfg.icon {
        Ok(
            resting(
                cfg.id,
                ImageModel::Icon { name, theme: cfg.theme },
                action,
                or_default(cfg.icon_width),
                or_default(cfg.icon_height),
            ),
        )
    } else if let Some(time) = cfg.time {
        let format = time_format_spec(time);
        match strftime_items(format) {
            Some(items) => Ok(
                resting(
                    cfg.id,
                    ImageModel::Time { format, items, locale: locale_spec(cfg.locale) },
                    action,
                    0,
                    0,
                ),
            ),
            None => Err(ConfigError::TimeFormat),
        }
    } else if let Some(mode_name) = cfg.battery {
        match battery {
            None => Ok(resting(cfg.id, ImageModel::Text("Battery N/A"@), action, 0, 0)),
            Some(device) => match BatteryIconMode::named(mode_name) {
                Some(mode) => Ok(
                    resting(
                        cfg.id,
                        ImageModel::Battery { device, mode, theme: cfg.theme },
                        action,
                        0,
                        0,
                    ),
                ),
                None => Err(ConfigError::BatteryMode),
            },
        }
    } else {
        Ok(resting(cfg.id, ImageModel::Spacer, ActionModel::Nothing, 0, 0))
    }
}

impl SliderState {
    /// At its lower end, untouched.
    #[verifier::allow_in_spec]
    pub fn resting() -> SliderState
        returns
            (SliderState { value: Scalar::zero(), dragging: false }),
    {
        SliderState { value: Scalar::zero(), dragging: false }
    }
}

/// Key events that press or release `codes` together; none for no keys.
pub open spec fn key_effects(codes: Seq<u16>, down: bool) -> Seq<Effect> {
    if codes.len() == 0 {
        Seq::empty()
    } else {
        codes.map_values(|code: u16| Effect::Key { code, down }).push(Effect::Report)
    }
}

/// Appends the key events that press or release `codes` together.
pub fn toggle_keys(effects: &mut Vec<Effect>, codes: &Vec<u16>, down: bool)
    ensures
        final(effects)@ == old(effects)@ + key_effects(codes@, down),
{
    if codes.len() == 0 {
        assert(effects@ + key_effects(codes@, down) =~= effects@);
        return;
    }
    let ghost before = effects@;
    let ghost events = codes@.map_values(|code: u16| Effect::Key { code, down });
    let mut i: usize = 0;
    while i < codes.len()
        invariant
            i <= codes@.len(),
            events == codes@.map_values(|code: u16| Effect::Key { code, down }),
            effects@ == before + events.take(i as int),
        decreases codes@.len() - i,
    {
        effects.push(Effect::Key { code: codes[i], down });
        assert(effects@ =~= before + events.take(i + 1));
        i = i + 1;
    }
    effects.push(Effect::Report);
    assert(effects@ =~= before + key_effects(codes@, down));
}

/// A button brought to the given press state.
pub open spec fn pressed_to(b: ButtonModel, active: bool) -> ButtonModel {
    if b.pressed != active {
        ButtonModel { pressed: active, changed: true, ..b }
    } else {
        b
    }
}

/// The key events of bringing a button to the given press state.
pub open spec fn press_effects(b: ButtonModel, active: bool) -> Seq<Effect> {
    if b.pressed != active {
        key_effects(keys_of(b.action), active)
    } else {
        Seq::empty()
    }
}

pub open spec fn highlighted_to(b: ButtonModel, highlighted: bool) -> ButtonModel {
    if b.highlighted != highlighted {
        ButtonModel { highlighted, changed: true, ..b }
    } else {
        b
    }
}

/// A slider moved to `value`, if there is one, and to the given drag phase;
/// changed where either differs from before. Other buttons stay.
pub open spec fn dragged_to(b: ButtonModel, value: Option<Scalar>, dragging: bool) -> ButtonModel {
    match b.image {
        ImageModel::Slider(s) => {
            let moved = value matches Some(v) && !s.value.same(v);
            let next = SliderState {
                value: if moved {
                    value->0
                } else {
                    s.value
                },
                dragging,
            };
            ButtonModel {
                image: ImageModel::Slider(next),
                changed: b.changed || moved || s.dragging != dragging,
                ..b
            }
        },
        _ => b,
    }
}

/// A button let go of: its keys up, its drag over.
pub open spec fn let_go(b: ButtonModel) -> ButtonModel {
    let up = pressed_to(b, false);
    match up.image {
        ImageModel::Slider(s) => if s.dragging {
            ButtonModel {
                image: ImageModel::Slider(SliderState { dragging: false, ..s }),
                changed: true,
                ..up
            }
        } else {
            up
        },
        _ => up,
    }
}

/// A slider that no finger is on shows what was read; every other button
/// stays.
pub open spec fn seeded(b: ButtonModel, reading: Option<Scalar>) -> ButtonModel {
    match (b.image, reading) {
        (ImageModel::Slider(s), Some(value)) => if !s.dragging && !s.value.same(value) {
            ButtonModel {
                image: ImageModel::Slider(SliderState { value, ..s }),
                changed: true,
                ..b
            }
        } else {
            b
        },
        _ => b,
    }
}

/// Whether a finger is on the slider of a button.
pub open spec fn is_dragging(b: ButtonModel) -> bool {
    b.image matches ImageModel::Slider(s) && s.dragging
}

impl Button {
    /// A button at rest.
    fn at_rest(
        id: Option<String>,
        image: ButtonImage,
        action: ButtonAction,
        icon_width: i32,
        icon_height: i32,
    ) -> (b: Button)
        ensures
            b@ == resting(text_model(id), image@, action@, icon_width, icon_height),
    {
        Button {
            id,
            image,
            changed: false,
            pressed: false,
            highlighted: false,
            action,
            icon_width,
            icon_height,
        }
    }

    pub fn new_spacer() -> (b: Button)
        ensures
            b@ == resting(None, ImageModel::Spacer, ActionModel::Nothing, 0, 0),
    {
        Button::at_rest(None, ButtonImage::Spacer, ButtonAction::Nothing, 0, 0)
    }

    pub fn new_text(text: String, action: ButtonAction) -> (b: Button)
        ensures
            b@ == resting(None, ImageModel::Text(text@), action@, 0, 0),
    {
        Button::at_rest(None, ButtonImage::Text(text), action, 0, 0)
    }

    pub fn new_slider(action: ButtonAction) -> (b: Button)
        ensures
            b@ == resting(None, ImageModel::Slider(SliderState::resting()), action@, 0, 0),
    {
        Button::at_rest(None, ButtonImage::Slider(SliderState::resting()), action, 0, 0)
    }

    pub fn new_icon(
        name: String,
        theme: Option<String>,
        action: ButtonAction,
        icon_width: i32,
        icon_height: i32,
    ) -> (b: Button)
        ensures
            b@ == resting(
                None,
                ImageModel::Icon { name: name@, theme: text_model(theme) },
                action@,
                icon_width,
                icon_height,
            ),
    {
        Button::at_rest(None, ButtonImage::Icon { name, theme }, action, icon_width, icon_height)
    }

    /// A button for the given battery; fails for a mode that does not exist.
    pub fn new_battery(
        action: ButtonAction,
        device: String,
        mode_name: &str,
        theme: Option<String>,
    ) -> (r: Result<Button, ConfigError>)
        ensures
            match BatteryIconMode::named(mode_name@) {
                Some(mode) => r matches Ok(b) && b@ == resting(
                    None,
                    ImageModel::Battery { device: device@, mode, theme: text_model(theme) },
                    action@,
                    0,
                    0,
                ),
                None => r == Err::<Button, ConfigError>(ConfigError::BatteryMode),
            },
    {
        match BatteryIconMode::from_name(mode_name) {
            Some(mode) => Ok(
                Button::at_rest(None, ButtonImage::Battery { device, mode, theme }, action, 0, 0),
            ),
            None => Err(ConfigError::BatteryMode),
        }
    }

    /// A button that shows the time by specifiers that are already known.
    pub fn time_of(
        action: ButtonAction,
        format: String,
        items: Vec<TimeItem>,
        locale: String,
    ) -> (b: Button)
        ensures
            b@ == resting(
                None,
                ImageModel::Time { format: format@, items: items@, locale: locale@ },
                action@,
                0,
                0,
            ),
    {
        Button::at_rest(None, ButtonImage::Time { format, items, locale }, action, 0, 0)
    }

    /// A button that shows the time; fails for a format with a specifier
    /// that does not exist.
    pub fn new_time(action: ButtonAction, format: String, locale: Option<String>) -> (r: Result<
        Button,
        ConfigError,
    >)
        ensures
            match strftime_items(time_format_spec(format@)) {
                Some(items) => r matches Ok(b) && b@ == resting(
                    None,
                    ImageModel::Time {
                        format: time_format_spec(format@),
                        items,
                        locale: locale_spec(text_model(locale)),
                    },
                    action@,
                    0,
                    0,
                ),
                None => r == Err::<Button, ConfigError>(ConfigError::TimeFormat),
            },
    {
        let format = time_format(format);
        match parse_time_format(format.as_str()) {
            Some(items) => Ok(Button::time_of(action, format, items, time_locale(locale))),
            None => Err(ConfigError::TimeFormat),
        }
    }

    /// The button that a configuration describes.
    pub fn with_config(cfg: ButtonConfig, battery: &Option<String>) -> (r: Result<
        Button,
        ConfigError,
    >)
        ensures
            match r {
                Ok(b) => button_of(cfg@, text_model(*battery)) == Ok::<ButtonModel, ConfigError>(
                    b@,
                ),
                Err(e) => button_of(cfg@, text_model(*battery)) == Err::<ButtonModel, ConfigError>(
                    e,
                ),
            },
    {
        let action = ButtonAction::from_config(&cfg);
        let made = if cfg.slider.is_some() {
            Ok(Button::new_slider(action))
        } else if let Some(text) = cfg.text {
            Ok(Button::new_text(text, action))
        } else if let Some(icon) = cfg.icon {
            let width: i32 = match cfg.icon_width {
                Some(n) => n,
                None => DEFAULT_ICON_SIZE,
            };
            let height: i32 = match cfg.icon_height {
                Some(n) => n,
                None => DEFAULT_ICON_SIZE,
            };
            Ok(Button::new_icon(icon, cfg.theme, action, width, height))
        } else if let Some(time) = cfg.time {
            Button::new_time(action, time, cfg.locale)
        } else if let Some(mode) = cfg.battery {
            match battery {
                Some(device) => Button::new_battery(
                    action,
                    device.clone(),
                    mode.as_str(),
                    cfg.theme,
                ),
                None => Ok(Button::new_text(String::from_str("Battery N/A"), action)),
            }
        } else {
            Ok(Button::new_spacer())
        };
        match made {
            Ok(mut button) => {
                button.id = cfg.id;
                Ok(button)
            },
            Err(e) => Err(e),
        }
    }

    /// Whether the button has to be drawn every second.
    pub fn needs_faster_refresh(&self) -> (r: bool)
        ensures
            r == needs_seconds(self@.image),
    {
        match &self.image {
            ButtonImage::Time { items, .. } => shows_seconds(items),
            _ => false,
        }
    }

    pub fn is_visually_active(&self) -> (r: bool)
        ensures
            r == (self@.pressed || self@.highlighted),
    {
        self.pressed || self.highlighted
    }

    /// Sets the highlight, without any key event.
    pub fn set_highlighted(&mut self, highlighted: bool)
        ensures
            final(self)@ == highlighted_to(old(self)@, highlighted),
    {
        if self.highlighted != highlighted {
            self.highlighted = highlighted;
            self.changed = true;
        }
    }

    /// Presses or releases the button, with the key events that belong to
    /// it; nothing happens where it already is as asked.
    pub fn set_active(&mut self, effects: &mut Vec<Effect>, active: bool)
        ensures
            final(self)@ == pressed_to(old(self)@, active),
            final(effects)@ == old(effects)@ + press_effects(old(self)@, active),
    {
        if self.pressed != active {
            self.pressed = active;
            self.changed = true;
            match &self.action {
                ButtonAction::Keys(keys) => toggle_keys(effects, keys, active),
                _ => {
                    assert(effects@ + Seq::<Effect>::empty() =~= effects@);
                },
            }
        } else {
            assert(effects@ + Seq::<Effect>::empty() =~= effects@);
        }
    }

    /// Moves a slider and sets its drag phase.
    pub fn drag(&mut self, value: Option<Scalar>, dragging: bool)
        ensures
            final(self)@ == dragged_to(old(self)@, value, dragging),
    {
        match self.image {
            ButtonImage::Slider(state) => {
                let mut next = state;
                let mut changed = false;
                if let Some(value) = value {
                    if !state.value.same_as(value) {
                        next.value = value;
                        changed = true;
                    }
                }
                if state.dragging != dragging {
                    next.dragging = dragging;
                    changed = true;
                }
                self.image = ButtonImage::Slider(next);
                if changed {
                    self.changed = true;
                }
            },
            _ => {},
        }
    }

    /// Releases the button's keys and ends its drag: an aborted drag must
    /// not stay marked as one, or the slider would never be seeded again.
    pub fn release(&mut self, effects: &mut Vec<Effect>)
        ensures
            final(self)@ == let_go(old(self)@),
            final(effects)@ == old(effects)@ + press_effects(old(self)@, false),
    {
        self.set_active(effects, false);
        match self.image {
            ButtonImage::Slider(state) => {
                if state.dragging {
                    self.image = ButtonImage::Slider(
                        SliderState { value: state.value, dragging: false },
                    );
                    self.changed = true;
                }
            },
            _ => {},
        }
    }

    /// Shows what was read from a slider's backend, unless a finger is on
    /// the slider.
    pub fn seed(&mut self, reading: Option<Scalar>)
        ensures
            final(self)@ == seeded(old(self)@, reading),
    {
        match (&self.image, reading) {
            (ButtonImage::Slider(state), Some(value)) => {
                if !state.dragging && !state.value.same_as(value) {
                    self.image = ButtonImage::Slider(SliderState { value, dragging: false });
                    self.changed = true;
                }
            },
            _ => {},
        }
    }
}

} // verus!
