//! What the configuration is for: the rows that are written are the rows
//! that are shown, groups become overlays, and the table of workspaces a
//! strip.
use crate::button::{button_of, ActionModel, ButtonModel, ConfigError, ImageModel};
use crate::button_laws::{buttons_begin_at_rest, buttons_show_what_is_configured};
use crate::button_set::{configured_sets_are_well_formed, set_of, SetModel};
use crate::config::{
    button_configs, config_error, keys_for, media_layer, primary_layer, workspaces_of,
    workspaces_table, ButtonConfigModel, Config, ConfigProxy, WorkspacesModel, WorkspacesProxy,
};
use crate::layer::{find_overlay, FunctionLayer, LayerKind};
use crate::layer_config::{fallback_of, layer_of, lemma_plain_row, overlays_of, ControlGroupModel};
use crate::text::decimal_spec;
use vstd::prelude::*;

verus! {

/// The strip has as many buttons as are asked for, from one to nine, nine
/// where nothing is asked; without live workspaces one of them, or as many
/// as are asked for and fit.
pub proof fn strips_are_as_long_as_asked(proxy: WorkspacesProxy)
    ensures
        ({
            let ws = workspaces_of(proxy);
            &&& (proxy.max_buttons is None ==> ws.max_buttons == 9)
            &&& (proxy.max_buttons matches Some(n) ==> {
                &&& (1 <= n <= 9 ==> ws.max_buttons == n)
                &&& (n == 0 ==> ws.max_buttons == 1)
                &&& (n > 9 ==> ws.max_buttons == 9)
            })
            &&& (proxy.fallback_buttons is None ==> ws.fallback_buttons == 1)
            &&& (proxy.fallback_buttons matches Some(n) ==> {
                &&& (1 <= n <= ws.max_buttons ==> ws.fallback_buttons == n)
                &&& (n == 0 ==> ws.fallback_buttons == 1)
                &&& (n > ws.max_buttons ==> ws.fallback_buttons == ws.max_buttons)
            })
            &&& (proxy.actions is None ==> ws.actions.len() == 0)
            &&& (proxy.actions matches Some(actions) ==> ws.actions.len() == actions@.len()
                && forall|i: int|
                0 <= i < actions@.len() ==> #[trigger] ws.actions[i] == actions@[i]@)
        }),
{
}

/// The keys of workspace `idx`, counted from one, are those that are
/// configured for it; where there are none, left Alt and its digit.
pub proof fn workspaces_have_their_keys(ws: WorkspacesModel, idx: int)
    requires
        1 <= idx <= 9,
    ensures
        idx <= ws.actions.len() ==> ws.action_spec(idx) == ws.actions[idx - 1],
        idx > ws.actions.len() ==> ws.action_spec(idx).len() == 2 && ws.action_spec(idx)[0] == 56
            && ws.action_spec(idx)[1] == idx + 1,
{
}

/// A row is shown as it is written, button by button. Bars of at least 2170
/// pixels have no escape key beside them: there every row begins with one.
pub proof fn rows_begin_with_escape_where_there_is_none(cfg: Seq<ButtonConfigModel>, width: u16)
    ensures
        width < 2170 ==> keys_for(cfg, width) == cfg,
        width >= 2170 ==> {
            let row = keys_for(cfg, width);
            &&& row.len() == cfg.len() + 1
            &&& row[0].text == Some("esc"@)
            &&& row[0].action == seq![1u16]
            &&& row[0].slider is None && row[0].open_overlay is None && row[0].close_overlay is None
            &&& forall|i: int| 0 <= i < cfg.len() ==> row[i + 1] == #[trigger] cfg[i]
        },
{
}

/// A layer's own row has the buttons that are written, in order; nothing is
/// open on it.
pub proof fn layers_show_their_row(
    cfg: Seq<ButtonConfigModel>,
    groups: Seq<ControlGroupModel>,
    workspaces: Option<WorkspacesModel>,
    battery: Option<Seq<char>>,
    i: int,
)
    requires
        layer_of(cfg, groups, workspaces, battery) is Ok,
        0 <= i < cfg.len(),
    ensures
        ({
            let l = layer_of(cfg, groups, workspaces, battery)->Ok_0;
            &&& l.base.buttons.len() == cfg.len()
            &&& button_of(cfg[i], battery) == Ok::<ButtonModel, ConfigError>(l.base.buttons[i])
            &&& l.stack.len() == 0
            &&& l.touched_at is None
            &&& l.generation == 0
            &&& l.model.len() == 0
            &&& (l.kind == LayerKind::Regions <==> workspaces is Some)
        }),
{
    configured_sets_are_well_formed(cfg, battery);
    let s = set_of(cfg, battery)->Ok_0;
    assert(button_of(cfg[i], battery) == Ok::<ButtonModel, ConfigError>(s.buttons[i]));
}

/// Every group is an overlay under its name, with the buttons that are
/// written for it, unless a later group takes the name.
pub proof fn groups_become_overlays(
    cfg: Seq<ButtonConfigModel>,
    groups: Seq<ControlGroupModel>,
    workspaces: Option<WorkspacesModel>,
    battery: Option<Seq<char>>,
    g: int,
)
    requires
        layer_of(cfg, groups, workspaces, battery) is Ok,
        0 <= g < groups.len(),
        forall|h: int| g < h < groups.len() ==> (#[trigger] groups[h]).name != groups[g].name,
    ensures
        ({
            let l = layer_of(cfg, groups, workspaces, battery)->Ok_0;
            let n = find_overlay(l.overlays, groups[g].name) as int;
            &&& n < l.overlays.len() <= groups.len()
            &&& l.overlays[n].name == groups[g].name
            &&& set_of(groups[g].buttons, battery) == Ok::<SetModel, ConfigError>(
                l.overlays[n].set,
            )
            &&& l.overlays[n].set.buttons.len() == groups[g].buttons.len()
            &&& forall|i: int|
                0 <= i < groups[g].buttons.len() ==> button_of(
                    #[trigger] groups[g].buttons[i],
                    battery,
                ) == Ok::<ButtonModel, ConfigError>(l.overlays[n].set.buttons[i])
        }),
{
    lemma_group(groups, battery, g);
    configured_sets_are_well_formed(groups[g].buttons, battery);
    let s = set_of(groups[g].buttons, battery)->Ok_0;
    assert forall|i: int| 0 <= i < groups[g].buttons.len() implies button_of(
        #[trigger] groups[g].buttons[i],
        battery,
    ) == Ok::<ButtonModel, ConfigError>(s.buttons[i]) by {
        assert(button_of(groups[g].buttons[i], battery) == Ok::<ButtonModel, ConfigError>(
            s.buttons[i],
        ));
    }
}

proof fn lemma_group(groups: Seq<ControlGroupModel>, battery: Option<Seq<char>>, g: int)
    requires
        overlays_of(groups, battery) is Ok,
        0 <= g < groups.len(),
        forall|h: int| g < h < groups.len() ==> (#[trigger] groups[h]).name != groups[g].name,
    ensures
        ({
            let overlays = overlays_of(groups, battery)->Ok_0;
            let n = find_overlay(overlays, groups[g].name) as int;
            &&& n < overlays.len() <= groups.len()
            &&& overlays[n].name == groups[g].name
            &&& set_of(groups[g].buttons, battery) == Ok::<SetModel, ConfigError>(overlays[n].set)
        }),
    decreases groups.len(),
{
    let rest = groups.drop_last();
    let before = overlays_of(rest, battery)->Ok_0;
    let all = overlays_of(groups, battery)->Ok_0;
    let last = groups.last().name;
    let name = groups[g].name;
    crate::layer_config::lemma_overlays(groups, battery);
    crate::layer_config::lemma_overlays(rest, battery);
    crate::layer::lemma_found(before, last);
    crate::layer::lemma_found(all, name);
    let at = find_overlay(before, last) as int;
    if g == groups.len() - 1 {
        assert(all[at].name == name);
        let n = find_overlay(all, name) as int;
        if n > at {
            assert(all[at].name != name);
        } else if n < at {
            assert(all[n].name != all[at].name);
        }
    } else {
        assert(rest[g] == groups[g]);
        assert forall|h: int| g < h < rest.len() implies (#[trigger] rest[h]).name
            != rest[g].name by {
            assert(rest[h] == groups[h]);
        }
        lemma_group(rest, battery, g);
        let k = find_overlay(before, name) as int;
        assert(groups[groups.len() - 1].name != name);
        assert(k != at);
        assert(all[k] == before[k]);
        let n = find_overlay(all, name) as int;
        if n > k {
            assert(all[k].name != name);
        } else if n < k {
            assert(all[n].name != all[k].name);
        }
    }
}

/// Without live workspaces the strip has numbered buttons, which send the
/// keys of their workspace.
pub proof fn strips_begin_with_numbered_buttons(
    cfg: Seq<ButtonConfigModel>,
    groups: Seq<ControlGroupModel>,
    ws: WorkspacesModel,
    battery: Option<Seq<char>>,
    i: int,
)
    requires
        ws.wf(),
        layer_of(cfg, groups, Some(ws), battery) is Ok,
        0 <= i < ws.fallback_buttons,
    ensures
        ({
            let l = layer_of(cfg, groups, Some(ws), battery)->Ok_0;
            let b = l.strip.buttons[i];
            &&& l.strip.buttons.len() == ws.fallback_buttons
            &&& l.max_buttons == ws.max_buttons
            &&& b.image == ImageModel::Text(decimal_spec((i + 1) as nat))
            &&& (ws.action_spec(i + 1).len() > 0 ==> b.action == ActionModel::Keys(
                ws.action_spec(i + 1),
            ))
            &&& (ws.action_spec(i + 1).len() == 0 ==> b.action == ActionModel::Nothing)
            &&& !b.highlighted
            &&& !b.pressed
            &&& l.groups == seq![ws.fallback_buttons]
        }),
{
    let row = fallback_of(ws);
    lemma_plain_row(row, battery);
    configured_sets_are_well_formed(row, battery);
    let s = set_of(row, battery)->Ok_0;
    assert(button_of(row[i], battery) == Ok::<ButtonModel, ConfigError>(s.buttons[i]));
    buttons_show_what_is_configured(row[i], battery);
    buttons_begin_at_rest(row[i], battery);
    let l = layer_of(cfg, groups, Some(ws), battery)->Ok_0;
    assert(l.groups =~= seq![ws.fallback_buttons]);
}

/// The two layers of a configuration: the media keys first where they are
/// the default, else the function keys; only the media keys have the strip;
/// and every setting is the one that is written.
pub proof fn configurations_come_to_two_layers(
    proxy: ConfigProxy,
    width: u16,
    device: Option<Seq<char>>,
    config: Config,
    layers: Vec<FunctionLayer>,
)
    requires
        proxy.resolves_to(
            width,
            device,
            Ok::<(Config, Vec<FunctionLayer>), ConfigError>((config, layers)),
        ),
    ensures
        layers@.len() == 2,
        proxy.media_layer_keys is Some,
        proxy.primary_layer_keys is Some,
        ({
            let first = layers@[0]@.base.buttons.len();
            let second = layers@[1]@.base.buttons.len();
            let extra = if width >= 2170 {
                1nat
            } else {
                0nat
            };
            let media = proxy.media_layer_keys->0@.len() + extra;
            let primary = proxy.primary_layer_keys->0@.len() + extra;
            &&& (proxy.media_layer_default == Some(true) ==> first == media && second == primary
                && (layers@[0]@.kind == LayerKind::Regions <==> proxy.workspaces is Some)
                && layers@[1]@.kind == LayerKind::Classic)
            &&& (proxy.media_layer_default == Some(false) ==> first == primary && second == media
                && (layers@[1]@.kind == LayerKind::Regions <==> proxy.workspaces is Some)
                && layers@[0]@.kind == LayerKind::Classic)
        }),
        proxy.media_layer_default is Some,
        proxy.show_button_outlines == Some(config.show_button_outlines),
        proxy.enable_pixel_shift == Some(config.enable_pixel_shift),
        proxy.font_template == Some(config.font_template),
        proxy.adaptive_brightness == Some(config.adaptive_brightness),
        proxy.active_brightness == Some(config.active_brightness),
        proxy.double_press_switch_layers == Some(config.double_press_switch_layers),
{
    let media = button_configs(proxy.media_layer_keys->0@);
    let primary = button_configs(proxy.primary_layer_keys->0@);
    let groups = crate::config::groups_of(proxy);
    let ws = workspaces_table(proxy);
    configured_sets_are_well_formed(keys_for(media, width), device);
    configured_sets_are_well_formed(keys_for(primary, width), device);
}

/// Button `i` of the media keys, and of the function keys, is the one that
/// is written, on the layer that is theirs.
pub proof fn the_written_buttons_are_shown(
    proxy: ConfigProxy,
    width: u16,
    device: Option<Seq<char>>,
    config: Config,
    layers: Vec<FunctionLayer>,
    i: int,
)
    requires
        proxy.resolves_to(
            width,
            device,
            Ok::<(Config, Vec<FunctionLayer>), ConfigError>((config, layers)),
        ),
    ensures
        ({
            let media = if proxy.media_layer_default == Some(true) {
                0int
            } else {
                1int
            };
            let extra = if width >= 2170 {
                1int
            } else {
                0int
            };
            &&& (0 <= i < proxy.media_layer_keys->0@.len() ==> button_of(
                proxy.media_layer_keys->0@[i]@,
                device,
            ) == Ok::<ButtonModel, ConfigError>(layers@[media]@.base.buttons[i + extra]))
            &&& (0 <= i < proxy.primary_layer_keys->0@.len() ==> button_of(
                proxy.primary_layer_keys->0@[i]@,
                device,
            ) == Ok::<ButtonModel, ConfigError>(layers@[1 - media]@.base.buttons[i + extra]))
        }),
{
    let extra = if width >= 2170 {
        1int
    } else {
        0int
    };
    let media = button_configs(proxy.media_layer_keys->0@);
    let primary = button_configs(proxy.primary_layer_keys->0@);
    let groups = crate::config::groups_of(proxy);
    if 0 <= i < media.len() {
        layers_show_their_row(
            keys_for(media, width),
            groups,
            workspaces_table(proxy),
            device,
            i + extra,
        );
        assert(keys_for(media, width)[i + extra] == media[i]);
    }
    if 0 <= i < primary.len() {
        layers_show_their_row(keys_for(primary, width), groups, None, device, i + extra);
        assert(keys_for(primary, width)[i + extra] == primary[i]);
    }
}

/// Every group that is written can be opened on both layers, with the
/// buttons that are written for it, unless a later group takes its name; and
/// the strip is as long as the table of workspaces asks.
pub proof fn the_written_groups_can_be_opened(
    proxy: ConfigProxy,
    width: u16,
    device: Option<Seq<char>>,
    config: Config,
    layers: Vec<FunctionLayer>,
    g: int,
    k: int,
)
    requires
        proxy.resolves_to(
            width,
            device,
            Ok::<(Config, Vec<FunctionLayer>), ConfigError>((config, layers)),
        ),
        0 <= k < 2,
    ensures
        proxy.control_groups matches Some(groups) ==> (0 <= g < groups@.len() && (forall|h: int|
            g < h < groups@.len() ==> (#[trigger] groups@[h]).0@ != groups@[g].0@) ==> {
            let l = layers@[k]@;
            let n = find_overlay(l.overlays, groups@[g].0@) as int;
            &&& n < l.overlays.len()
            &&& l.overlays[n].name == groups@[g].0@
            &&& l.overlays[n].set.buttons.len() == groups@[g].1@.len()
            &&& forall|i: int|
                0 <= i < groups@[g].1@.len() ==> button_of((#[trigger] groups@[g].1@[i])@, device)
                    == Ok::<ButtonModel, ConfigError>(l.overlays[n].set.buttons[i])
        }),
        proxy.control_groups is None ==> layers@[k]@.overlays.len() == 0,
        proxy.workspaces matches Some(ws) ==> {
            let media: int = if proxy.media_layer_default == Some(true) {
                0
            } else {
                1
            };
            layers@[media]@.max_buttons == workspaces_of(ws).max_buttons
        },
{
    let media = keys_for(button_configs(proxy.media_layer_keys->0@), width);
    let primary = keys_for(button_configs(proxy.primary_layer_keys->0@), width);
    let all = crate::config::groups_of(proxy);
    let ws = workspaces_table(proxy);
    if let Some(groups) = proxy.control_groups {
        if 0 <= g < groups@.len() && (forall|h: int|
            g < h < groups@.len() ==> (#[trigger] groups@[h]).0@ != groups@[g].0@) {
            assert forall|h: int| g < h < all.len() implies (#[trigger] all[h]).name
                != all[g].name by {
                assert(groups@[h].0@ != groups@[g].0@);
            }
            groups_become_overlays(media, all, ws, device, g);
            groups_become_overlays(primary, all, None, device, g);
            let l = layers@[k]@;
            let n = find_overlay(l.overlays, groups@[g].0@) as int;
            assert forall|i: int| 0 <= i < groups@[g].1@.len() implies button_of(
                (#[trigger] groups@[g].1@[i])@,
                device,
            ) == Ok::<ButtonModel, ConfigError>(l.overlays[n].set.buttons[i]) by {
                assert(all[g].buttons[i] == groups@[g].1@[i]@);
            }
        }
    }
}

/// A configuration is refused exactly where something is missing from it or
/// one of its layers cannot be made.
pub proof fn complete_configurations_are_accepted(
    proxy: ConfigProxy,
    width: u16,
    device: Option<Seq<char>>,
)
    ensures
        config_error(proxy, width, device) is None <==> {
            &&& media_layer(proxy, width, device) is Ok
            &&& primary_layer(proxy, width, device) is Ok
            &&& proxy.media_layer_default is Some
            &&& proxy.show_button_outlines is Some
            &&& proxy.enable_pixel_shift is Some
            &&& proxy.font_template is Some
            &&& proxy.adaptive_brightness is Some
            &&& proxy.active_brightness is Some
            &&& proxy.double_press_switch_layers is Some
        },
{
}

} // verus!
