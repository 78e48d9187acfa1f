//! Fingers on the bar, and the one way in which their hold on buttons ends.
//!
//! Every route that hides or replaces buttons lets go of all touches through
//! `drain_touches` first, so that no virtual key is ever left down.
use crate::button::{is_dragging, let_go, ButtonModel, Effect};
use crate::button_set::with_button;
use crate::helper_proto::WsEntry;
use crate::layer::{
    lemma_coherent, lemma_slot, lemma_with_button, ButtonSetKey, FunctionLayer, KeyModel,
    LayerModel, Slot,
};
use crate::layer_strip::{applied_strips_are_settled, lemma_strip_applied};
use crate::strip::{model_of, StripChange};
use vstd::prelude::*;

verus! {

/// A finger, by its slot, and the button that it came down on.
#[derive(Debug)]
pub struct Touch {
    pub slot: u32,
    pub layer: usize,
    pub set: ButtonSetKey,
    pub index: usize,
}

#[verifier::ext_equal]
pub struct TouchModel {
    pub slot: u32,
    pub layer: usize,
    pub key: KeyModel,
    pub index: usize,
}

impl View for Touch {
    type V = TouchModel;

    open spec fn view(&self) -> TouchModel {
        TouchModel { slot: self.slot, layer: self.layer, key: self.set@, index: self.index }
    }
}

pub open spec fn touch_models(touches: Seq<Touch>) -> Seq<TouchModel> {
    touches.map_values(|t: Touch| t@)
}

pub open spec fn layer_models(layers: Seq<FunctionLayer>) -> Seq<LayerModel> {
    layers.map_values(|l: FunctionLayer| l@)
}

/// The layers once the button under a touch was let go of.
pub open spec fn let_go_of(layers: Seq<LayerModel>, t: TouchModel) -> Seq<LayerModel> {
    layers.update(t.layer as int, layers[t.layer as int].button_let_go(t.key, t.index))
}

/// The key events of letting go of the button under a touch.
pub open spec fn let_go_effects(layers: Seq<LayerModel>, t: TouchModel) -> Seq<Effect> {
    layers[t.layer as int].button_press_effects(t.key, t.index, false)
}

/// The layers once every touch was let go of.
pub open spec fn drained(layers: Seq<LayerModel>, touches: Seq<TouchModel>) -> Seq<LayerModel>
    decreases touches.len(),
{
    if touches.len() == 0 {
        layers
    } else {
        drained(let_go_of(layers, touches[0]), touches.drop_first())
    }
}

/// The key events of letting go of every touch.
pub open spec fn drain_effects(layers: Seq<LayerModel>, touches: Seq<TouchModel>) -> Seq<Effect>
    decreases touches.len(),
{
    if touches.len() == 0 {
        Seq::empty()
    } else {
        let_go_effects(layers, touches[0]) + drain_effects(
            let_go_of(layers, touches[0]),
            touches.drop_first(),
        )
    }
}

/// Every touch began on an existing layer.
pub open spec fn on_layers(touches: Seq<TouchModel>, count: nat) -> bool {
    forall|k: int| 0 <= k < touches.len() ==> (#[trigger] touches[k]).layer < count
}

pub open spec fn all_wf(layers: Seq<LayerModel>) -> bool {
    forall|l: int| 0 <= l < layers.len() ==> (#[trigger] layers[l]).wf()
}

/// Lets go of every touch: keys up, drags over. Touches on sets that are
/// gone just end.
pub fn drain_touches(
    layers: &mut Vec<FunctionLayer>,
    touches: &mut Vec<Touch>,
    effects: &mut Vec<Effect>,
)
    requires
        on_layers(touch_models(old(touches)@), old(layers)@.len()),
        all_wf(layer_models(old(layers)@)),
    ensures
        final(touches)@.len() == 0,
        layer_models(final(layers)@) == drained(
            layer_models(old(layers)@),
            touch_models(old(touches)@),
        ),
        final(effects)@ == old(effects)@ + drain_effects(
            layer_models(old(layers)@),
            touch_models(old(touches)@),
        ),
        all_wf(layer_models(final(layers)@)),
{
    let ghost all = touch_models(touches@);
    let ghost first = layer_models(layers@);
    let ghost done = effects@;
    let ghost sum = drain_effects(first, all);
    let mut taken: Vec<Touch> = Vec::new();
    std::mem::swap(&mut taken, touches);
    assert(all.skip(0) =~= all);
    let mut k: usize = 0;
    while k < taken.len()
        invariant
            k <= taken@.len() == all.len(),
            all == touch_models(taken@),
            touches@.len() == 0,
            on_layers(all, layers@.len()),
            drained(layer_models(layers@), all.skip(k as int)) == drained(first, all),
            effects@ + drain_effects(layer_models(layers@), all.skip(k as int)) == done + sum,
            all_wf(layer_models(layers@)),
        decreases taken@.len() - k,
    {
        let ghost now = layer_models(layers@);
        let ghost tail = all.skip(k as int);
        let ghost before = effects@;
        assert(tail[0] == taken@[k as int]@);
        assert(all[k as int] == tail[0]);
        assert(tail.drop_first() =~= all.skip(k + 1));
        let at: usize = taken[k].layer;
        assert(now[at as int] == layers@[at as int]@);
        let set = taken[k].set.clone();
        layers[at].release(&set, taken[k].index, effects);
        assert(layer_models(layers@) =~= let_go_of(now, tail[0]));
        assert(effects@ =~= before + let_go_effects(now, tail[0]));
        assert(effects@ + drain_effects(layer_models(layers@), tail.drop_first()) =~= before + (
        let_go_effects(now, tail[0]) + drain_effects(layer_models(layers@), tail.drop_first())));
        k = k + 1;
    }
    assert(all.skip(k as int) =~= Seq::empty());
    assert(effects@ + drain_effects(layer_models(layers@), all.skip(k as int)) =~= effects@);
}

/// Button `i` of the set kept at `slot` of layer `l` is held down, or its
/// slider is being dragged.
pub open spec fn is_held(layers: Seq<LayerModel>, l: int, slot: Slot, i: int) -> bool {
    let b = layers[l].set_at(slot).buttons[i];
    b.pressed || is_dragging(b)
}

/// Such a button exists.
pub open spec fn exists_at(layers: Seq<LayerModel>, l: int, slot: Slot, i: int) -> bool {
    0 <= l < layers.len() && layers[l].has_slot(slot) && 0 <= i < layers[l].set_at(
        slot,
    ).buttons.len()
}

/// A touch is on that button.
pub open spec fn is_on(layers: Seq<LayerModel>, t: TouchModel, l: int, slot: Slot, i: int) -> bool {
    t.layer == l && layers[l].slot_of(t.key) == Some(slot) && t.index == i
}

pub open spec fn under_finger(
    layers: Seq<LayerModel>,
    touches: Seq<TouchModel>,
    l: int,
    slot: Slot,
    i: int,
) -> bool {
    exists|k: int| 0 <= k < touches.len() && is_on(layers, #[trigger] touches[k], l, slot, i)
}

/// No button is held without a finger on it.
pub open spec fn none_stranded(layers: Seq<LayerModel>, touches: Seq<TouchModel>) -> bool {
    forall|l: int, slot: Slot, i: int|
        #![trigger is_held(layers, l, slot, i)]
        exists_at(layers, l, slot, i) && is_held(layers, l, slot, i) ==> under_finger(
            layers,
            touches,
            l,
            slot,
            i,
        )
}

/// No button is held at all.
pub open spec fn quiet(layers: Seq<LayerModel>) -> bool {
    forall|l: int, slot: Slot, i: int|
        #![trigger is_held(layers, l, slot, i)]
        exists_at(layers, l, slot, i) ==> !is_held(layers, l, slot, i)
}

/// Sliders hold no keys: they are dragged, not pressed.
pub open spec fn sliders_unpressed(layers: Seq<LayerModel>) -> bool {
    forall|l: int, slot: Slot, i: int|
        #![trigger is_pressed_slider(layers, l, slot, i)]
        exists_at(layers, l, slot, i) ==> !is_pressed_slider(layers, l, slot, i)
}

pub open spec fn is_pressed_slider(layers: Seq<LayerModel>, l: int, slot: Slot, i: int) -> bool {
    let b = layers[l].set_at(slot).buttons[i];
    b.action is Slider && b.pressed
}

/// `m` has the buttons of `l` in the same places under the same names, held
/// or not as they are in `l`.
pub open spec fn holds_alike(l: LayerModel, m: LayerModel) -> bool {
    &&& forall|key: KeyModel| #[trigger] m.slot_of(key) == l.slot_of(key)
    &&& forall|slot: Slot| #[trigger] m.has_slot(slot) == l.has_slot(slot)
    &&& forall|slot: Slot|
        l.has_slot(slot) ==> (#[trigger] m.set_at(slot)).buttons.len() == l.set_at(
            slot,
        ).buttons.len()
    &&& forall|slot: Slot, i: int|
        #![trigger m.set_at(slot).buttons[i]]
        l.has_slot(slot) && 0 <= i < l.set_at(slot).buttons.len() ==> {
            let a = l.set_at(slot).buttons[i];
            let b = m.set_at(slot).buttons[i];
            &&& a.pressed == b.pressed
            &&& is_dragging(a) == is_dragging(b)
            &&& a.action == b.action
        }
}

/// Replacing a layer by one that holds alike strands nothing.
pub(crate) proof fn lemma_alike(
    layers: Seq<LayerModel>,
    touches: Seq<TouchModel>,
    at: int,
    m: LayerModel,
)
    requires
        0 <= at < layers.len(),
        holds_alike(layers[at], m),
        none_stranded(layers, touches),
        sliders_unpressed(layers),
    ensures
        none_stranded(layers.update(at, m), touches),
        sliders_unpressed(layers.update(at, m)),
{
    let after = layers.update(at, m);
    assert forall|l: int, slot: Slot, i: int|
        #![trigger is_held(after, l, slot, i)]
        exists_at(after, l, slot, i) && is_held(after, l, slot, i) implies under_finger(
        after,
        touches,
        l,
        slot,
        i,
    ) by {
        assert(m.set_at(slot).buttons.len() == layers[at].set_at(slot).buttons.len()
            || !layers[at].has_slot(slot));
        assert(is_held(layers, l, slot, i));
        let k = choose|k: int|
            0 <= k < touches.len() && is_on(layers, #[trigger] touches[k], l, slot, i);
        assert(is_on(after, touches[k], l, slot, i));
    }
    assert forall|l: int, slot: Slot, i: int|
        #![trigger is_pressed_slider(after, l, slot, i)]
        exists_at(after, l, slot, i) implies !is_pressed_slider(after, l, slot, i) by {
        assert(m.set_at(slot).buttons.len() == layers[at].set_at(slot).buttons.len()
            || !layers[at].has_slot(slot));
        assert(!is_pressed_slider(layers, l, slot, i));
    }
}

/// Replacing one button, where the new one is held only under a finger,
/// strands nothing. The touches may change meanwhile, as long as those on
/// other buttons stay.
pub(crate) proof fn lemma_replace(
    layers: Seq<LayerModel>,
    before: Seq<TouchModel>,
    after: Seq<TouchModel>,
    t: TouchModel,
    b: ButtonModel,
)
    requires
        all_wf(layers),
        t.layer < layers.len(),
        layers[t.layer as int].button_in(t.key, t.index) is Some,
        none_stranded(layers, before),
        sliders_unpressed(layers),
        crate::button_set::coherent(b),
        b.action is Slider ==> !b.pressed,
        b.pressed || is_dragging(b) ==> exists|k: int|
            0 <= k < after.len() && #[trigger] after[k] == (TouchModel {
                slot: after[k].slot,
                ..t
            }),
        forall|k: int|
            0 <= k < before.len() ==> after.contains(#[trigger] before[k]) || is_on(
                layers,
                before[k],
                t.layer as int,
                layers[t.layer as int].slot_of(t.key)->0,
                t.index as int,
            ),
    ensures
        none_stranded(
            layers.update(
                t.layer as int,
                layers[t.layer as int].with_button_in(t.key, t.index, b),
            ),
            after,
        ),
        sliders_unpressed(
            layers.update(
                t.layer as int,
                layers[t.layer as int].with_button_in(t.key, t.index, b),
            ),
        ),
        all_wf(
            layers.update(
                t.layer as int,
                layers[t.layer as int].with_button_in(t.key, t.index, b),
            ),
        ),
{
    let at = t.layer as int;
    let l0 = layers[at];
    let home = l0.slot_of(t.key)->0;
    let m = l0.with_button_in(t.key, t.index, b);
    let next = layers.update(at, m);
    lemma_with_button(l0, t.key, t.index, b);
    lemma_slot(l0, t.key);
    assert forall|l: int, slot: Slot, i: int|
        #![trigger exists_at(next, l, slot, i)]
        exists_at(next, l, slot, i) implies exists_at(layers, l, slot, i) && next[l].set_at(
        slot,
    ).buttons[i] == (if l == at && slot == home && i == t.index {
        b
    } else {
        layers[l].set_at(slot).buttons[i]
    }) by {
        if l == at {
            assert(m.has_slot(slot) == l0.has_slot(slot));
            assert(m.set_at(slot) == (if slot == home {
                with_button(l0.set_at(slot), t.index as int, b)
            } else {
                l0.set_at(slot)
            }));
        }
    }
    assert forall|l: int, slot: Slot, i: int|
        #![trigger is_held(next, l, slot, i)]
        exists_at(next, l, slot, i) && is_held(next, l, slot, i) implies under_finger(
        next,
        after,
        l,
        slot,
        i,
    ) by {
        if l == at && slot == home && i == t.index {
            let k = choose|k: int|
                0 <= k < after.len() && #[trigger] after[k] == (TouchModel {
                    slot: after[k].slot,
                    ..t
                });
            assert(m.slot_of(t.key) == l0.slot_of(t.key));
            assert(is_on(next, after[k], l, slot, i));
        } else {
            assert(is_held(layers, l, slot, i));
            let k = choose|k: int|
                0 <= k < before.len() && is_on(layers, #[trigger] before[k], l, slot, i);
            assert(after.contains(before[k]));
            let j = choose|j: int| 0 <= j < after.len() && after[j] == before[k];
            assert(m.slot_of(before[k].key) == l0.slot_of(before[k].key));
            assert(is_on(next, after[j], l, slot, i));
        }
    }
    assert forall|l: int, slot: Slot, i: int|
        #![trigger is_pressed_slider(next, l, slot, i)]
        exists_at(next, l, slot, i) implies !is_pressed_slider(next, l, slot, i) by {
        assert(!is_pressed_slider(layers, l, slot, i));
    }
    assert forall|l: int| 0 <= l < next.len() implies (#[trigger] next[l]).wf() by {
        assert(layers[l].wf());
    }
}

/// Letting go of one touch strands nothing that the others hold.
pub(crate) proof fn lemma_let_go(layers: Seq<LayerModel>, touches: Seq<TouchModel>, k: int)
    requires
        all_wf(layers),
        on_layers(touches, layers.len()),
        none_stranded(layers, touches),
        sliders_unpressed(layers),
        0 <= k < touches.len(),
    ensures
        none_stranded(let_go_of(layers, touches[k]), touches.remove(k)),
        sliders_unpressed(let_go_of(layers, touches[k])),
        all_wf(let_go_of(layers, touches[k])),
{
    let t = touches[k];
    let at = t.layer as int;
    let rest = touches.remove(k);
    assert forall|j: int| 0 <= j < touches.len() && j != k implies rest.contains(
        #[trigger] touches[j],
    ) by {
        let n = if j < k {
            j
        } else {
            j - 1
        };
        assert(rest[n] == touches[j]);
    }
    if layers[at].button_in(t.key, t.index) is Some {
        let b = layers[at].button_in(t.key, t.index)->0;
        lemma_coherent(layers[at], t.key, t.index);
        lemma_replace(layers, touches, rest, t, let_go(b));
    } else {
        assert(let_go_of(layers, t) =~= layers);
        lemma_slot(layers[at], t.key);
        assert forall|l: int, slot: Slot, i: int|
            #![trigger is_held(layers, l, slot, i)]
            exists_at(layers, l, slot, i) && is_held(layers, l, slot, i) implies under_finger(
            layers,
            rest,
            l,
            slot,
            i,
        ) by {
            let j = choose|j: int|
                0 <= j < touches.len() && is_on(layers, #[trigger] touches[j], l, slot, i);
            assert(j != k);
            let n = choose|n: int| 0 <= n < rest.len() && rest[n] == touches[j];
            assert(is_on(layers, rest[n], l, slot, i));
        }
    }
}

/// Once every touch was let go of, no button is held: no key stays down and
/// no drag stays open.
pub proof fn draining_releases_everything(layers: Seq<LayerModel>, touches: Seq<TouchModel>)
    requires
        all_wf(layers),
        on_layers(touches, layers.len()),
        none_stranded(layers, touches),
        sliders_unpressed(layers),
    ensures
        quiet(drained(layers, touches)),
        sliders_unpressed(drained(layers, touches)),
        all_wf(drained(layers, touches)),
        drained(layers, touches).len() == layers.len(),
    decreases touches.len(),
{
    if touches.len() > 0 {
        lemma_let_go(layers, touches, 0);
        assert(touches.remove(0) =~= touches.drop_first());
        let rest = touches.drop_first();
        assert forall|k: int| 0 <= k < rest.len() implies (#[trigger] rest[k]).layer
            < layers.len() by {
            assert(touches[k + 1].layer < layers.len());
        }
        draining_releases_everything(let_go_of(layers, touches[0]), rest);
    } else {
        assert forall|l: int, slot: Slot, i: int|
            #![trigger is_held(layers, l, slot, i)]
            exists_at(layers, l, slot, i) implies !is_held(layers, l, slot, i) by {
            if is_held(layers, l, slot, i) {
                assert(under_finger(layers, touches, l, slot, i));
            }
        }
    }
}

/// The layers after a set of workspaces arrived.
pub open spec fn strips_applied(layers: Seq<LayerModel>, model: Seq<Seq<WsEntry>>) -> Seq<
    LayerModel,
> {
    layers.map_values(|l: LayerModel| l.strip_applied(model))
}

/// Whether a set of workspaces asks some layer to rebuild its strip.
pub open spec fn any_structure(layers: Seq<LayerModel>, model: Seq<Seq<WsEntry>>) -> bool {
    exists|l: int|
        0 <= l < layers.len() && (#[trigger] layers[l]).strip_change(model)
            == StripChange::Structure
}

/// Every strip that a set of workspaces asks to rebuild has a generation
/// left.
pub open spec fn can_apply(layers: Seq<LayerModel>, model: Seq<Seq<WsEntry>>) -> bool {
    forall|l: int|
        0 <= l < layers.len() && (#[trigger] layers[l]).strip_change(model)
            == StripChange::Structure ==> layers[l].generation < u64::MAX
}

/// Applying the same workspaces again changes nothing, whatever they are and
/// whatever was touched in between: no strip is rebuilt, so nothing is drawn
/// anew, no touch is let go of, no key moves, and every layer stays as it
/// is.
pub proof fn heartbeats_change_nothing(layers: Seq<LayerModel>, model: Seq<Seq<WsEntry>>)
    ensures
        !any_structure(strips_applied(layers, model), model),
        can_apply(strips_applied(layers, model), model),
        strips_applied(strips_applied(layers, model), model) == strips_applied(layers, model),
{
    let once = strips_applied(layers, model);
    assert forall|l: int| 0 <= l < once.len() implies (#[trigger] once[l]).strip_change(model)
        == StripChange::Unchanged && once[l].strip_applied(model) == once[l] by {
        applied_strips_are_settled(layers[l], model);
    }
    assert(strips_applied(once, model) =~= once);
}

/// Whether some layer has to rebuild its strip for a set of workspaces.
pub fn needs_rebuild(layers: &Vec<FunctionLayer>, model: &Vec<Vec<WsEntry>>) -> (r: bool)
    ensures
        r == any_structure(layer_models(layers@), model_of(model@)),
{
    let n: usize = layers.len();
    let mut i: usize = 0;
    while i < n
        invariant
            i <= n == layers@.len(),
            forall|j: int|
                0 <= j < i ==> (#[trigger] layer_models(layers@)[j]).strip_change(
                    model_of(model@),
                ) != StripChange::Structure,
        decreases n - i,
    {
        assert(layer_models(layers@)[i as int] == layers@[i as int]@);
        match layers[i].strip_change(model) {
            StripChange::Structure => {
                return true;
            },
            _ => {},
        }
        i = i + 1;
    }
    false
}

/// Applies live workspaces to every layer, doing no more than each change
/// asks for. Before any strip is rebuilt every touch is let go of; a rebuilt
/// strip asks for a complete redraw, because regions move.
pub fn apply_helper_strip(
    layers: &mut Vec<FunctionLayer>,
    touches: &mut Vec<Touch>,
    effects: &mut Vec<Effect>,
    model: &Vec<Vec<WsEntry>>,
) -> (redraw: bool)
    requires
        all_wf(layer_models(old(layers)@)),
        can_apply(layer_models(old(layers)@), model_of(model@)),
        any_structure(layer_models(old(layers)@), model_of(model@)) ==> on_layers(
            touch_models(old(touches)@),
            old(layers)@.len(),
        ),
    ensures
        redraw == any_structure(layer_models(old(layers)@), model_of(model@)),
        !redraw ==> {
            &&& touch_models(final(touches)@) == touch_models(old(touches)@)
            &&& final(effects)@ == old(effects)@
            &&& layer_models(final(layers)@) == strips_applied(
                layer_models(old(layers)@),
                model_of(model@),
            )
        },
        redraw ==> {
            &&& final(touches)@.len() == 0
            &&& final(effects)@ == old(effects)@ + drain_effects(
                layer_models(old(layers)@),
                touch_models(old(touches)@),
            )
            &&& layer_models(final(layers)@) == strips_applied(
                drained(layer_models(old(layers)@), touch_models(old(touches)@)),
                model_of(model@),
            )
        },
        all_wf(layer_models(final(layers)@)),
        !any_structure(layer_models(final(layers)@), model_of(model@)),
        strips_applied(layer_models(final(layers)@), model_of(model@)) == layer_models(
            final(layers)@,
        ),
{
    let redraw = needs_rebuild(layers, model);
    let ghost first = layer_models(layers@);
    if redraw {
        proof {
            lemma_drain_keeps_strips(first, touch_models(touches@));
        }
        drain_touches(layers, touches, effects);
    }
    let ghost start = layer_models(layers@);
    assert forall|l: int|
        0 <= l < start.len() && (#[trigger] start[l]).strip_change(model_of(model@))
            == StripChange::Structure implies start[l].generation < u64::MAX by {
        assert(first[l].strip_change(model_of(model@)) == start[l].strip_change(model_of(model@)));
    }
    let n: usize = layers.len();
    let mut i: usize = 0;
    while i < n
        invariant
            i <= n == layers@.len() == start.len(),
            all_wf(start),
            can_apply(start, model_of(model@)),
            forall|j: int|
                0 <= j < n ==> #[trigger] layer_models(layers@)[j] == (if j < i {
                    start[j].strip_applied(model_of(model@))
                } else {
                    start[j]
                }),
        decreases n - i,
    {
        let ghost now = layer_models(layers@);
        assert(now[i as int] == start[i as int]);
        assert(start[i as int].wf());
        let _rebuilt = layers[i].apply_strip(model);
        assert(layer_models(layers@) =~= now.update(
            i as int,
            start[i as int].strip_applied(model_of(model@)),
        ));
        i = i + 1;
    }
    assert(layer_models(layers@) =~= strips_applied(start, model_of(model@)));
    proof {
        heartbeats_change_nothing(start, model_of(model@));
        assert forall|l: int| 0 <= l < layers@.len() implies (
        #[trigger] layer_models(layers@)[l]).wf() by {
            assert(start[l].wf());
            lemma_strip_applied(start[l], model_of(model@));
        }
    }
    redraw
}

/// Letting go of touches changes neither the workspaces nor the generation
/// of any strip.
pub(crate) proof fn lemma_drain_keeps_strips(layers: Seq<LayerModel>, touches: Seq<TouchModel>)
    requires
        on_layers(touches, layers.len()),
    ensures
        drained(layers, touches).len() == layers.len(),
        forall|l: int|
            0 <= l < layers.len() ==> {
                let m = #[trigger] drained(layers, touches)[l];
                &&& m.generation == layers[l].generation
                &&& m.model == layers[l].model
                &&& m.kind == layers[l].kind
                &&& m.max_buttons == layers[l].max_buttons
                &&& m.stack == layers[l].stack
                &&& m.touched_at == layers[l].touched_at
            },
    decreases touches.len(),
{
    if touches.len() > 0 {
        let rest = touches.drop_first();
        assert forall|k: int| 0 <= k < rest.len() implies (#[trigger] rest[k]).layer
            < layers.len() by {
            assert(touches[k + 1].layer < layers.len());
        }
        let next = let_go_of(layers, touches[0]);
        lemma_drain_keeps_strips(next, rest);
        assert forall|l: int| 0 <= l < layers.len() implies ({
            let m = #[trigger] drained(layers, touches)[l];
            &&& m.generation == layers[l].generation
            &&& m.model == layers[l].model
            &&& m.kind == layers[l].kind
            &&& m.max_buttons == layers[l].max_buttons
            &&& m.stack == layers[l].stack
            &&& m.touched_at == layers[l].touched_at
        }) by {
            let m = drained(next, rest)[l];
            assert(m.generation == next[l].generation);
        }
    }
}

} // verus!
