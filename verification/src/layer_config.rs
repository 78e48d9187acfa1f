//! Layers as the configuration describes them.
use crate::button::{is_dragging, ConfigError};
use crate::button_set::{
    buttons_of, configured_sets_are_well_formed, set_of, stretch_sum, ButtonSet, SetModel,
};
use crate::config::{
    blank_button, button_configs, copy_buttons, ButtonConfig, ButtonConfigModel, WorkspacesCfg,
    WorkspacesModel,
};
use crate::layer::{
    distinct_names, find_named, find_overlay, lemma_found, overlay_models, plain_text,
    FunctionLayer, LayerKind, LayerModel, OverlayModel, Slot,
};
use crate::layout::total;
use crate::text::{decimal, decimal_spec, text_model};
use vstd::prelude::*;

verus! {

/// A named group of buttons that can be opened as an overlay.
#[verifier::ext_equal]
pub struct ControlGroupModel {
    pub name: Seq<char>,
    pub buttons: Seq<ButtonConfigModel>,
}

pub open spec fn control_groups(groups: Seq<(String, Vec<ButtonConfig>)>) -> Seq<
    ControlGroupModel,
> {
    groups.map_values(
        |g: (String, Vec<ButtonConfig>)|
            ControlGroupModel { name: g.0@, buttons: button_configs(g.1@) },
    )
}

/// The overlays with one more; it takes the place of one of the same name.
pub open spec fn with_overlay(overlays: Seq<OverlayModel>, added: OverlayModel) -> Seq<
    OverlayModel,
> {
    let i = find_overlay(overlays, added.name);
    if i < overlays.len() {
        overlays.update(i as int, added)
    } else {
        overlays.push(added)
    }
}

/// The overlays of a layer, or what is wrong with the first one that cannot
/// be made.
pub open spec fn overlays_of(groups: Seq<ControlGroupModel>, battery: Option<Seq<char>>) -> Result<
    Seq<OverlayModel>,
    ConfigError,
>
    decreases groups.len(),
{
    if groups.len() == 0 {
        Ok(Seq::empty())
    } else {
        match overlays_of(groups.drop_last(), battery) {
            Err(e) => Err(e),
            Ok(before) => match set_of(groups.last().buttons, battery) {
                Err(e) => Err(e),
                Ok(set) => Ok(
                    with_overlay(before, OverlayModel { name: groups.last().name, set }),
                ),
            },
        }
    }
}

/// The static strip, for as long as there is no live state: numbered buttons
/// that emit keys and work without the companion.
pub open spec fn fallback_of(workspaces: WorkspacesModel) -> Seq<ButtonConfigModel> {
    Seq::new(
        workspaces.fallback_buttons as nat,
        |i: int|
            ButtonConfigModel {
                text: Some(decimal_spec((i + 1) as nat)),
                action: workspaces.action_spec(i + 1),
                ..blank_button()
            },
    )
}

pub open spec fn empty_set() -> SetModel {
    SetModel {
        displays_time: false,
        displays_battery: false,
        starts: Seq::empty(),
        buttons: Seq::empty(),
        columns: 0,
        faster_refresh: false,
    }
}

pub open spec fn workspaces_model(workspaces: Option<&WorkspacesCfg>) -> Option<WorkspacesModel> {
    match workspaces {
        Some(ws) => Some(ws@),
        None => None,
    }
}

/// The layer that a configuration describes: with a strip where workspaces
/// are configured, else one row.
pub open spec fn layer_of(
    cfg: Seq<ButtonConfigModel>,
    groups: Seq<ControlGroupModel>,
    workspaces: Option<WorkspacesModel>,
    battery: Option<Seq<char>>,
) -> Result<LayerModel, ConfigError> {
    match set_of(cfg, battery) {
        Err(e) => Err(e),
        Ok(base) => match overlays_of(groups, battery) {
            Err(e) => Err(e),
            Ok(overlays) => {
                let classic = LayerModel {
                    kind: LayerKind::Classic,
                    base,
                    overlays,
                    stack: Seq::empty(),
                    touched_at: None,
                    strip: empty_set(),
                    groups: Seq::empty(),
                    generation: 0,
                    model: Seq::empty(),
                    fallback: Seq::empty(),
                    max_buttons: 0,
                };
                match workspaces {
                    None => Ok(classic),
                    Some(ws) => match set_of(fallback_of(ws), battery) {
                        Err(e) => Err(e),
                        Ok(strip) => Ok(
                            LayerModel {
                                kind: LayerKind::Regions,
                                strip,
                                groups: seq![strip.buttons.len() as usize],
                                fallback: fallback_of(ws),
                                max_buttons: ws.max_buttons,
                                ..classic
                            },
                        ),
                    },
                }
            },
        },
    }
}

/// A short row of plain buttons can always be made.
pub(crate) proof fn lemma_plain_row(cfg: Seq<ButtonConfigModel>, battery: Option<Seq<char>>)
    requires
        0 < cfg.len() <= 1000,
        forall|i: int| 0 <= i < cfg.len() ==> plain_text(#[trigger] cfg[i]),
    ensures
        set_of(cfg, battery) is Ok,
        set_of(cfg, battery)->Ok_0.wf(),
        set_of(cfg, battery)->Ok_0.buttons.len() == cfg.len(),
{
    lemma_plain_buttons(cfg, battery);
    configured_sets_are_well_formed(cfg, battery);
}

proof fn lemma_plain_buttons(cfg: Seq<ButtonConfigModel>, battery: Option<Seq<char>>)
    requires
        cfg.len() <= 1000,
        forall|i: int| 0 <= i < cfg.len() ==> plain_text(#[trigger] cfg[i]),
    ensures
        buttons_of(cfg, battery) is Ok,
        stretch_sum(cfg) == cfg.len(),
    decreases cfg.len(),
{
    if cfg.len() > 0 {
        assert forall|i: int| 0 <= i < cfg.drop_last().len() implies plain_text(
            #[trigger] cfg.drop_last()[i],
        ) by {
            assert(plain_text(cfg[i]));
        }
        lemma_plain_buttons(cfg.drop_last(), battery);
        assert(plain_text(cfg[cfg.len() - 1]));
    }
}

/// An overlay is one of the groups.
pub(crate) open spec fn comes_from(
    o: OverlayModel,
    groups: Seq<ControlGroupModel>,
    battery: Option<Seq<char>>,
    k: int,
) -> bool {
    &&& 0 <= k < groups.len()
    &&& o.name == groups[k].name
    &&& set_of(groups[k].buttons, battery) == Ok::<SetModel, ConfigError>(o.set)
}

pub(crate) open spec fn configured(
    o: OverlayModel,
    groups: Seq<ControlGroupModel>,
    battery: Option<Seq<char>>,
) -> bool {
    exists|k: int| #[trigger] comes_from(o, groups, battery, k)
}

pub(crate) proof fn lemma_overlays(groups: Seq<ControlGroupModel>, battery: Option<Seq<char>>)
    requires
        overlays_of(groups, battery) is Ok,
    ensures
        overlays_of(groups, battery)->Ok_0.len() <= groups.len(),
        distinct_names(overlays_of(groups, battery)->Ok_0),
        forall|i: int|
            0 <= i < overlays_of(groups, battery)->Ok_0.len() ==> configured(
                #[trigger] overlays_of(groups, battery)->Ok_0[i],
                groups,
                battery,
            ),
    decreases groups.len(),
{
    if groups.len() > 0 {
        let rest = groups.drop_last();
        lemma_overlays(rest, battery);
        let all = overlays_of(groups, battery)->Ok_0;
        let before = overlays_of(rest, battery)->Ok_0;
        let name = groups.last().name;
        lemma_found(before, name);
        let at = find_overlay(before, name) as int;
        assert forall|i: int| 0 <= i < all.len() implies configured(
            #[trigger] all[i],
            groups,
            battery,
        ) by {
            if i == at {
                assert(comes_from(all[i], groups, battery, groups.len() - 1));
            } else {
                assert(all[i] == before[i]);
                assert(configured(before[i], rest, battery));
                let k = choose|k: int| #[trigger] comes_from(before[i], rest, battery, k);
                assert(comes_from(all[i], groups, battery, k));
            }
        }
        assert forall|i: int, j: int| 0 <= i < j < all.len() implies (#[trigger] all[i]).name != (
        #[trigger] all[j]).name by {
            if j == before.len() {
                assert(before[i].name != name);
            } else {
                assert(before[i].name != before[j].name);
            }
        }
    }
}

/// Every layer that a configuration describes is in order.
pub proof fn configured_layers_are_well_formed(
    cfg: Seq<ButtonConfigModel>,
    groups: Seq<ControlGroupModel>,
    workspaces: Option<WorkspacesModel>,
    battery: Option<Seq<char>>,
)
    requires
        layer_of(cfg, groups, workspaces, battery) is Ok,
        groups.len() <= usize::MAX,
        workspaces matches Some(ws) ==> ws.wf(),
    ensures
        layer_of(cfg, groups, workspaces, battery)->Ok_0.wf(),
        layer_of(cfg, groups, workspaces, battery)->Ok_0.at_rest(),
        layer_of(cfg, groups, workspaces, battery)->Ok_0.stack.len() == 0,
{
    configured_sets_are_well_formed(cfg, battery);
    lemma_overlays(groups, battery);
    let l = layer_of(cfg, groups, workspaces, battery)->Ok_0;
    assert forall|i: int| 0 <= i < l.overlays.len() implies (
    #[trigger] l.overlays[i]).set.wf() by {
        let o = overlays_of(groups, battery)->Ok_0[i];
        let k = choose|k: int| #[trigger] comes_from(o, groups, battery, k);
        configured_sets_are_well_formed(groups[k].buttons, battery);
    }
    if let Some(ws) = workspaces {
        lemma_plain_row(fallback_of(ws), battery);
        assert(l.groups.drop_last() =~= Seq::empty());
        assert(total(l.groups) == total(l.groups.drop_last()) + l.groups.last() as nat);
        configured_sets_are_well_formed(fallback_of(ws), battery);
    }
    assert forall|slot: Slot, i: int|
        #![trigger l.set_at(slot).buttons[i]]
        l.has_slot(slot) && 0 <= i < l.set_at(slot).buttons.len() implies ({
        let b = l.set_at(slot).buttons[i];
        !b.pressed && !is_dragging(b)
    }) by {
        if let Slot::Overlay(k) = slot {
            let o = overlays_of(groups, battery)->Ok_0[k as int];
            let g = choose|g: int| #[trigger] comes_from(o, groups, battery, g);
            configured_sets_are_well_formed(groups[g].buttons, battery);
            assert(set_of(groups[g].buttons, battery)->Ok_0.buttons[i] == o.set.buttons[i]);
        }
    }
}

/// The static strip of a configuration.
fn fallback_strip_cfg(workspaces: &WorkspacesCfg) -> (r: Vec<ButtonConfig>)
    requires
        workspaces@.wf(),
    ensures
        button_configs(r@) == fallback_of(workspaces@),
{
    let mut r: Vec<ButtonConfig> = Vec::new();
    let n: usize = workspaces.fallback_buttons;
    let mut i: usize = 0;
    while i < n
        invariant
            i <= n == workspaces.fallback_buttons,
            workspaces@.wf(),
            r@.len() == i,
            forall|j: int| 0 <= j < i ==> (#[trigger] r@[j])@ == fallback_of(workspaces@)[j],
        decreases n - i,
    {
        let mut button = ButtonConfig::default();
        button.text = Some(decimal(i as u64 + 1));
        button.action = workspaces.action_for(i + 1);
        r.push(button);
        i = i + 1;
    }
    assert(button_configs(r@) =~= fallback_of(workspaces@));
    r
}

fn make_overlays(groups: Vec<(String, Vec<ButtonConfig>)>, battery: &Option<String>) -> (r: Result<
    Vec<(String, ButtonSet)>,
    ConfigError,
>)
    ensures
        match r {
            Ok(overlays) => overlays_of(control_groups(groups@), text_model(*battery)) == Ok::<
                Seq<OverlayModel>,
                ConfigError,
            >(overlay_models(overlays@)),
            Err(e) => overlays_of(control_groups(groups@), text_model(*battery)) == Err::<
                Seq<OverlayModel>,
                ConfigError,
            >(e),
        },
{
    let ghost models = control_groups(groups@);
    let ghost device = text_model(*battery);
    let mut overlays: Vec<(String, ButtonSet)> = Vec::new();
    assert(models.take(0) =~= Seq::empty());
    assert(overlay_models(overlays@) =~= Seq::empty());
    for group in it: groups
        invariant
            control_groups(it.seq()) == models,
            models == control_groups(groups@),
            device == text_model(*battery),
            overlays_of(models.take(it.index()), device) == Ok::<Seq<OverlayModel>, ConfigError>(
                overlay_models(overlays@),
            ),
    {
        let ghost n = it.index();
        let ghost before = overlay_models(overlays@);
        assert(models[n].name == group.0@);
        assert(models[n].buttons == button_configs(group.1@));
        assert(models.take(n + 1).drop_last() =~= models.take(n));
        assert(models.take(n + 1).last() == models[n]);
        let (name, buttons) = group;
        match ButtonSet::with_config(buttons, battery) {
            Ok(set) => {
                let ghost made = OverlayModel { name: name@, set: set@ };
                let at: usize = find_named(&overlays, name.as_str());
                if at < overlays.len() {
                    overlays.set(at, (name, set));
                    assert(overlay_models(overlays@) =~= before.update(at as int, made));
                } else {
                    overlays.push((name, set));
                    assert(overlay_models(overlays@) =~= before.push(made));
                }
            },
            Err(e) => {
                proof {
                    lemma_overlay_error_stays(models, device, n + 1);
                }
                return Err(e);
            },
        }
    }
    assert(models.take(models.len() as int) =~= models);
    Ok(overlays)
}

proof fn lemma_overlay_error_stays(
    groups: Seq<ControlGroupModel>,
    battery: Option<Seq<char>>,
    n: int,
)
    requires
        0 <= n <= groups.len(),
        overlays_of(groups.take(n), battery) is Err,
    ensures
        overlays_of(groups, battery) == overlays_of(groups.take(n), battery),
    decreases groups.len() - n,
{
    if n < groups.len() {
        assert(groups.take(n + 1).drop_last() =~= groups.take(n));
        lemma_overlay_error_stays(groups, battery, n + 1);
    } else {
        assert(groups.take(n) =~= groups);
    }
}

impl FunctionLayer {
    /// The layer that a configuration describes, on a machine with the given
    /// battery.
    pub fn with_config(
        cfg: Vec<ButtonConfig>,
        groups: Vec<(String, Vec<ButtonConfig>)>,
        workspaces: Option<&WorkspacesCfg>,
        battery: &Option<String>,
    ) -> (r: Result<FunctionLayer, ConfigError>)
        requires
            workspaces matches Some(ws) ==> ws@.wf(),
        ensures
            match r {
                Ok(l) => {
                    &&& layer_of(
                        button_configs(cfg@),
                        control_groups(groups@),
                        workspaces_model(workspaces),
                        text_model(*battery),
                    ) == Ok::<LayerModel, ConfigError>(l@)
                    &&& l@.wf()
                    &&& l@.at_rest()
                },
                Err(e) => layer_of(
                    button_configs(cfg@),
                    control_groups(groups@),
                    workspaces_model(workspaces),
                    text_model(*battery),
                ) == Err::<LayerModel, ConfigError>(e),
            },
    {
        let count: usize = groups.len();
        let base = match ButtonSet::with_config(cfg, battery) {
            Ok(base) => base,
            Err(e) => {
                return Err(e);
            },
        };
        let overlays = match make_overlays(groups, battery) {
            Ok(overlays) => overlays,
            Err(e) => {
                return Err(e);
            },
        };
        let mut layer = FunctionLayer {
            kind: LayerKind::Classic,
            base,
            overlays,
            overlay_stack: Vec::new(),
            overlay_touched_at: None,
            strip: ButtonSet::empty(),
            strip_groups: Vec::new(),
            strip_generation: 0,
            strip_model: Vec::new(),
            fallback_strip_cfg: Vec::new(),
            strip_max_buttons: 0,
        };
        assert(layer@.stack =~= Seq::empty());
        assert(layer@.model =~= Seq::empty());
        assert(layer@.fallback =~= Seq::empty());
        if let Some(ws) = workspaces {
            let fallback = fallback_strip_cfg(ws);
            let strip = match ButtonSet::with_config(copy_buttons(&fallback), battery) {
                Ok(strip) => strip,
                Err(e) => {
                    return Err(e);
                },
            };
            layer.kind = LayerKind::Regions;
            layer.strip_groups = vec![strip.buttons.len()];
            layer.strip = strip;
            layer.fallback_strip_cfg = fallback;
            layer.strip_max_buttons = ws.max_buttons;
            assert(layer@.groups =~= seq![layer@.strip.buttons.len() as usize]);
        }
        proof {
            configured_layers_are_well_formed(
                button_configs(cfg@),
                control_groups(groups@),
                workspaces_model(workspaces),
                text_model(*battery),
            );
        }
        Ok(layer)
    }
}

} // verus!
