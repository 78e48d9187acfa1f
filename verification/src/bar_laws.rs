//! What every event keeps: the layers in order, every finger on a button
//! that can be seen, and no button held without a finger.
use crate::bar::{distinct_slots, find_touch, owned, placed, BarModel, STRIP_REBUILD_INTERVAL_NANOS};
use crate::button::{dragged_to, is_dragging, let_go, pressed_to, ActionModel, ButtonModel, Effect};
use crate::button_set::{
    coherent, drawn, each, marked, marked_if_battery, synced, with_button, SliderReadings,
};
use crate::config::SliderTarget;
use crate::helper_proto::WsEntry;
use crate::layer::{
    find_overlay, lemma_coherent, lemma_found, lemma_set_each, lemma_slot, lemma_with_button,
    lemma_with_set, FrameModel, KeyModel, LayerKind, LayerModel, Slot,
};
use crate::layer_hit::HitModel;
use crate::layer_strip::lemma_strip_applied;
use crate::moment::{elapsed, Moment};
use crate::scalar::Scalar;
use crate::strip::{truncated, StripChange};
use crate::touches::{
    all_wf, any_structure, drain_effects, draining_releases_everything, exists_at, holds_alike,
    is_held, is_on, is_pressed_slider, lemma_alike, lemma_drain_keeps_strips, lemma_replace,
    let_go_effects, let_go_of, none_stranded, on_layers, quiet, sliders_unpressed, strips_applied,
    under_finger, TouchModel,
};
use vstd::prelude::*;

verus! {

/// `f` changes neither what a button does nor whether it is held.
pub open spec fn keeps_hold(f: spec_fn(ButtonModel) -> ButtonModel) -> bool {
    forall|b: ButtonModel|
        #![trigger f(b)]
        f(b).action == b.action && f(b).pressed == b.pressed && is_dragging(f(b)) == is_dragging(b)
            && (f(b).image is Slider <==> b.image is Slider)
}

/// `m` holds like `l`, shows the same sets, and is in order.
pub open spec fn stands_in(l: LayerModel, m: LayerModel) -> bool {
    &&& holds_alike(l, m)
    &&& m.wf()
    &&& forall|key: KeyModel| #[trigger] m.shows(key) == l.shows(key)
}

proof fn lemma_each(l: LayerModel, slot: Slot, f: spec_fn(ButtonModel) -> ButtonModel)
    requires
        l.wf(),
        l.has_slot(slot),
        l.set_at(slot).wf(),
        keeps_hold(f),
    ensures
        stands_in(l, l.with_set(slot, each(l.set_at(slot), f))),
{
    let s = l.set_at(slot);
    let m = l.with_set(slot, each(s, f));
    lemma_set_each(s, f);
    lemma_with_set(l, slot, each(s, f));
    assert forall|other: Slot| l.has_slot(other) implies (#[trigger] m.set_at(
        other,
    )).buttons.len() == l.set_at(other).buttons.len() by {
        if other != slot {
            assert(m.set_at(other) == l.set_at(other));
        }
    }
    assert forall|other: Slot, i: int|
        #![trigger m.set_at(other).buttons[i]]
        l.has_slot(other) && 0 <= i < l.set_at(other).buttons.len() implies ({
        let a = l.set_at(other).buttons[i];
        let b = m.set_at(other).buttons[i];
        &&& a.pressed == b.pressed
        &&& is_dragging(a) == is_dragging(b)
        &&& a.action == b.action
    }) by {
        if other == slot {
            assert(m.set_at(other).buttons[i] == f(s.buttons[i]));
        } else {
            assert(m.set_at(other) == l.set_at(other));
        }
    }
}

pub(crate) proof fn lemma_controls_each(l: LayerModel, f: spec_fn(ButtonModel) -> ButtonModel)
    requires
        l.wf(),
        keeps_hold(f),
    ensures
        stands_in(l, l.with_set(l.controls_slot(), each(l.controls(), f))),
{
    lemma_slot(l, l.controls_key());
    lemma_each(l, l.controls_slot(), f);
}

pub(crate) proof fn lemma_layer_synced(l: LayerModel, readings: SliderReadings)
    requires
        l.wf(),
    ensures
        stands_in(l, l.sliders_synced(readings)),
{
    lemma_controls_each(l, |b: ButtonModel| synced(b, readings));
}

pub(crate) proof fn lemma_layer_closed(l: LayerModel)
    requires
        l.wf(),
    ensures
        l.closed_all().wf(),
        holds_alike(l, l.closed_all()),
{
    if l.stack.len() > 0 {
        let m = LayerModel { stack: Seq::empty(), touched_at: None, ..l };
        lemma_controls_each(m, |b: ButtonModel| marked(b));
        lemma_alike_chain(l, m, l.closed_all());
    }
}

pub(crate) proof fn lemma_alike_chain(a: LayerModel, b: LayerModel, c: LayerModel)
    requires
        holds_alike(a, b),
        holds_alike(b, c),
    ensures
        holds_alike(a, c),
{
    assert forall|slot: Slot| a.has_slot(slot) implies (#[trigger] c.set_at(slot)).buttons.len()
        == a.set_at(slot).buttons.len() by {
        assert(b.set_at(slot).buttons.len() == a.set_at(slot).buttons.len());
        assert(b.has_slot(slot) == a.has_slot(slot));
    }
    assert forall|slot: Slot, i: int|
        #![trigger c.set_at(slot).buttons[i]]
        a.has_slot(slot) && 0 <= i < a.set_at(slot).buttons.len() implies ({
        let x = a.set_at(slot).buttons[i];
        let y = c.set_at(slot).buttons[i];
        &&& x.pressed == y.pressed
        &&& is_dragging(x) == is_dragging(y)
        &&& x.action == y.action
    }) by {
        assert(b.has_slot(slot) == a.has_slot(slot));
        assert(b.set_at(slot).buttons.len() == a.set_at(slot).buttons.len());
        let z = b.set_at(slot).buttons[i];
    }
    assert forall|key: KeyModel| #[trigger] c.slot_of(key) == a.slot_of(key) by {
        assert(b.slot_of(key) == a.slot_of(key));
    }
    assert forall|slot: Slot| #[trigger] c.has_slot(slot) == a.has_slot(slot) by {
        assert(b.has_slot(slot) == a.has_slot(slot));
    }
}

pub(crate) proof fn lemma_layer_activated(
    l: LayerModel,
    action: ActionModel,
    anchor: Option<Scalar>,
    now: Moment,
)
    requires
        l.wf(),
    ensures
        l.activated(action, anchor, now).wf(),
        holds_alike(l, l.activated(action, anchor, now)),
{
    let f = |b: ButtonModel| marked(b);
    if l.activates(action) {
        match action {
            ActionModel::OpenOverlay(name) => {
                let m = LayerModel {
                    stack: l.stack.push(FrameModel { name, anchor_x: anchor }),
                    touched_at: Some(now),
                    ..l
                };
                assert forall|i: int| 0 <= i < m.stack.len() implies find_overlay(
                    m.overlays,
                    (#[trigger] m.stack[i]).name,
                ) < m.overlays.len() by {
                    if i < l.stack.len() {
                        assert(find_overlay(l.overlays, l.stack[i].name) < l.overlays.len());
                    }
                }
                lemma_controls_each(m, f);
                lemma_alike_chain(l, m, l.activated(action, anchor, now));
            },
            ActionModel::CloseOverlay => {
                let m = LayerModel {
                    stack: l.stack.drop_last(),
                    touched_at: if l.stack.len() > 1 {
                        Some(now)
                    } else {
                        None
                    },
                    ..l
                };
                assert forall|i: int| 0 <= i < m.stack.len() implies find_overlay(
                    m.overlays,
                    (#[trigger] m.stack[i]).name,
                ) < m.overlays.len() by {
                    assert(find_overlay(l.overlays, l.stack[i].name) < l.overlays.len());
                }
                lemma_controls_each(m, f);
                lemma_alike_chain(l, m, l.activated(action, anchor, now));
            },
            _ => {},
        }
    }
}

/// Replacing a layer by one that holds alike keeps the bar in order, where
/// the fingers still see their buttons.
proof fn lemma_stand_in(b: BarModel, at: int, m: LayerModel)
    requires
        b.wf(),
        0 <= at < 2,
        m.wf(),
        holds_alike(b.layers[at], m),
        b.touches.len() == 0 || at != b.active || forall|key: KeyModel| #[trigger]
            m.shows(key) == b.layers[at].shows(key),
    ensures
        b.with_layer(at, m).wf(),
{
    let c = b.with_layer(at, m);
    lemma_alike(b.layers, b.touches, at, m);
    assert forall|l: int| 0 <= l < c.layers.len() implies (#[trigger] c.layers[l]).wf() by {
        assert(b.layers[l].wf());
    }
    assert forall|k: int| 0 <= k < c.touches.len() implies ({
        let t = #[trigger] c.touches[k];
        t.layer == c.active && c.layer().shows(t.key) && c.layer().button_in(
            t.key,
            t.index,
        ) is Some
    }) by {
        let t = b.touches[k];
        assert(b.layer().shows(t.key) && b.layer().button_in(t.key, t.index) is Some);
        if at == b.active {
            assert(m.shows(t.key) == b.layers[at].shows(t.key));
            assert(m.slot_of(t.key) == b.layers[at].slot_of(t.key));
            lemma_slot(b.layer(), t.key);
            let slot = m.slot_of(t.key)->0;
            assert(m.set_at(slot).buttons.len() == b.layers[at].set_at(slot).buttons.len());
        }
    }
}

pub(crate) proof fn lemma_touched(b: BarModel, now: Moment)
    requires
        b.wf(),
    ensures
        b.touched(now).wf(),
        stands_in(b.layer(), b.touched(now).layer()),
        forall|key: KeyModel, index: usize| #[trigger]
            b.touched(now).layer().button_in(key, index) == b.layer().button_in(key, index),
{
    let l = b.layer();
    let m = l.touched(now);
    assert(l.wf());
    assert(m.wf());
    lemma_stand_in(b, b.active as int, m);
}

pub(crate) proof fn lemma_synced(b: BarModel, at: int, readings: SliderReadings)
    requires
        b.wf(),
        0 <= at < 2,
    ensures
        b.with_layer(at, b.layers[at].sliders_synced(readings)).wf(),
{
    assert(b.layers[at].wf());
    lemma_layer_synced(b.layers[at], readings);
    lemma_stand_in(b, at, b.layers[at].sliders_synced(readings));
}

proof fn lemma_quiet(layers: Seq<LayerModel>, touches: Seq<TouchModel>)
    requires
        quiet(layers),
    ensures
        none_stranded(layers, touches),
{
    assert forall|l: int, slot: Slot, i: int|
        #![trigger is_held(layers, l, slot, i)]
        exists_at(layers, l, slot, i) && is_held(layers, l, slot, i) implies under_finger(
        layers,
        touches,
        l,
        slot,
        i,
    ) by {}
}

pub(crate) proof fn lemma_on_layers(b: BarModel)
    requires
        b.wf(),
    ensures
        on_layers(b.touches, b.layers.len()),
{
    assert forall|k: int| 0 <= k < b.touches.len() implies (#[trigger] b.touches[k]).layer
        < b.layers.len() by {
        assert(b.touches[k].layer == b.active);
    }
}

/// Letting go of all touches leaves a bar in order on which nothing is held.
pub(crate) proof fn lemma_drained(b: BarModel)
    requires
        b.wf(),
    ensures
        b.drained().bar.wf(),
        quiet(b.drained().bar.layers),
        on_layers(b.touches, b.layers.len()),
        forall|l: int|
            0 <= l < 2 ==> {
                let m = #[trigger] b.drained().bar.layers[l];
                &&& m.generation == b.layers[l].generation
                &&& m.stack == b.layers[l].stack
            },
{
    lemma_on_layers(b);
    draining_releases_everything(b.layers, b.touches);
    lemma_drain_keeps_strips(b.layers, b.touches);
    lemma_quiet(b.drained().bar.layers, Seq::empty());
}

/// Closing overlays when no finger is down keeps the bar in order.
pub(crate) proof fn lemma_closed(b: BarModel, readings: SliderReadings)
    requires
        b.wf(),
        b.touches.len() == 0,
    ensures
        b.closed(readings).wf(),
        b.layer().closed_all().wf(),
        b.with_layer(b.active as int, b.layer().closed_all()).wf(),
{
    let l = b.layer();
    let at = b.active as int;
    assert(l.wf());
    lemma_layer_closed(l);
    lemma_stand_in(b, at, l.closed_all());
    lemma_layer_synced(l.closed_all(), readings);
    lemma_alike_chain(l, l.closed_all(), l.closed_all().sliders_synced(readings));
    lemma_stand_in(b, at, l.closed_all().sliders_synced(readings));
    let c = b.with_layer(at, l.closed_all().sliders_synced(readings));
    assert(b.closed(readings).layer() == if l.stack.len() > 0 {
        c.layer()
    } else {
        l
    });
}

pub(crate) proof fn lemma_find_touch(touches: Seq<TouchModel>, slot: u32)
    ensures
        find_touch(touches, slot) <= touches.len(),
        find_touch(touches, slot) < touches.len() ==> touches[find_touch(
            touches,
            slot,
        ) as int].slot == slot,
        forall|k: int|
            0 <= k < find_touch(touches, slot) ==> (#[trigger] touches[k]).slot != slot,
    decreases touches.len(),
{
    if touches.len() > 0 && touches[0].slot != slot {
        let rest = touches.drop_first();
        lemma_find_touch(rest, slot);
        assert forall|k: int| 0 <= k < find_touch(touches, slot) implies (
        #[trigger] touches[k]).slot != slot by {
            if k > 0 {
                assert(touches[k] == rest[k - 1]);
            }
        }
    }
}

/// Taking one touch away leaves the others where they are.
pub(crate) proof fn lemma_removed(b: BarModel, k: int)
    requires
        b.wf(),
        0 <= k < b.touches.len(),
    ensures
        distinct_slots(b.touches.remove(k)),
        placed(b.layer(), b.active, b.touches.remove(k)),
        forall|j: int|
            0 <= j < b.touches.len() && j != k ==> b.touches.remove(k).contains(
                #[trigger] b.touches[j],
            ),
        forall|j: int|
            0 <= j < b.touches.remove(k).len() ==> (#[trigger] b.touches.remove(k)[j]).slot
                != b.touches[k].slot,
{
    let rest = b.touches.remove(k);
    assert forall|j: int| 0 <= j < rest.len() implies #[trigger] rest[j] == b.touches[if j < k {
        j
    } else {
        j + 1
    }] by {}
    assert forall|j: int| 0 <= j < b.touches.len() && j != k implies rest.contains(
        #[trigger] b.touches[j],
    ) by {
        let n = if j < k {
            j
        } else {
            j - 1
        };
        assert(rest[n] == b.touches[j]);
    }
}

/// A button changes under the fingers: it may be held afterwards only where
/// a finger is on it, and only fingers on it may be gone.
proof fn lemma_button_step(b: BarModel, after: Seq<TouchModel>, t: TouchModel, nb: ButtonModel)
    requires
        b.wf(),
        t.layer == b.active,
        b.layer().button_in(t.key, t.index) is Some,
        coherent(nb),
        nb.action is Slider ==> !nb.pressed,
        nb.pressed || is_dragging(nb) ==> exists|k: int|
            0 <= k < after.len() && #[trigger] after[k] == (TouchModel {
                slot: after[k].slot,
                ..t
            }),
        forall|k: int|
            0 <= k < b.touches.len() ==> after.contains(#[trigger] b.touches[k]) || (
            b.touches[k].layer == t.layer && b.touches[k].key == t.key && b.touches[k].index
                == t.index),
        distinct_slots(after),
        placed(b.layer(), b.active, after),
    ensures
        (BarModel {
            touches: after,
            ..b.with_layer(
                t.layer as int,
                b.layer().with_button_in(t.key, t.index, nb),
            )
        }).wf(),
{
    let l = b.layer();
    let m = l.with_button_in(t.key, t.index, nb);
    let c = BarModel { touches: after, ..b.with_layer(t.layer as int, m) };
    assert(l.wf());
    lemma_slot(l, t.key);
    assert forall|k: int| 0 <= k < b.touches.len() implies after.contains(
        #[trigger] b.touches[k],
    ) || is_on(
        b.layers,
        b.touches[k],
        t.layer as int,
        l.slot_of(t.key)->0,
        t.index as int,
    ) by {}
    lemma_replace(b.layers, b.touches, after, t, nb);
    lemma_with_button(l, t.key, t.index, nb);
    assert forall|k: int| 0 <= k < after.len() implies ({
        let u = #[trigger] after[k];
        u.layer == c.active && c.layer().shows(u.key) && c.layer().button_in(
            u.key,
            u.index,
        ) is Some
    }) by {
        let u = after[k];
        assert(l.shows(u.key) && l.button_in(u.key, u.index) is Some);
        assert(m.shows(u.key) == l.shows(u.key));
        assert(m.slot_of(u.key) == l.slot_of(u.key));
        lemma_slot(l, u.key);
        let slot = l.slot_of(u.key)->0;
        assert(m.set_at(slot) == (if slot == l.slot_of(t.key)->0 {
            with_button(l.set_at(slot), t.index as int, nb)
        } else {
            l.set_at(slot)
        }));
    }
}

/// Freeing a slot keeps the bar in order; the slot is free afterwards, and
/// the buttons still do what they did.
pub(crate) proof fn lemma_freed(b: BarModel, slot: u32)
    requires
        b.wf(),
    ensures
        b.freed(slot).bar.wf(),
        forall|k: int|
            0 <= k < b.freed(slot).bar.touches.len() ==> (
            #[trigger] b.freed(slot).bar.touches[k]).slot != slot,
        forall|key: KeyModel| #[trigger]
            b.freed(slot).bar.layer().shows(key) == b.layer().shows(key),
        forall|key: KeyModel, index: usize|
            (#[trigger] b.freed(slot).bar.layer().button_in(key, index)) is Some
                <==> b.layer().button_in(key, index) is Some,
{
    let k = find_touch(b.touches, slot) as int;
    lemma_find_touch(b.touches, slot);
    if k < b.touches.len() {
        let t = b.touches[k];
        let l = b.layer();
        let rest = b.touches.remove(k);
        assert(t.layer == b.active && l.button_in(t.key, t.index) is Some);
        let old = l.button_in(t.key, t.index)->0;
        assert(l.wf());
        lemma_coherent(l, t.key, t.index);
        lemma_removed(b, k);
        lemma_slot(l, t.key);
        assert(!is_pressed_slider(
            b.layers,
            b.active as int,
            l.slot_of(t.key)->0,
            t.index as int,
        ));
        lemma_button_step(b, rest, t, let_go(old));
        lemma_with_button(l, t.key, t.index, let_go(old));
        let m = l.with_button_in(t.key, t.index, let_go(old));
        assert(b.freed(slot).bar.layer() == m);
        assert forall|key: KeyModel, index: usize|
            (#[trigger] m.button_in(key, index)) is Some <==> l.button_in(key, index) is Some by {
            assert(m.slot_of(key) == l.slot_of(key));
            if l.slot_of(key) is Some {
                lemma_slot(l, key);
                let s = l.slot_of(key)->0;
                assert(m.set_at(s) == (if s == l.slot_of(t.key)->0 {
                    with_button(l.set_at(s), t.index as int, let_go(old))
                } else {
                    l.set_at(s)
                }));
            }
        }
    } else {
        assert forall|j: int| 0 <= j < b.touches.len() implies (#[trigger] b.touches[j]).slot
            != slot by {}
    }
}

/// A slider under a finger moves.
pub(crate) proof fn lemma_moved(
    b: BarModel,
    k: int,
    target: SliderTarget,
    value: Scalar,
    now: Moment,
)
    requires
        b.wf(),
        0 <= k < b.touches.len(),
        b.layer().slider_at(b.touches[k].key, b.touches[k].index) == Some(target),
    ensures
        b.moved(b.touches[k], target, value, now).bar.wf(),
{
    let t = b.touches[k];
    let l = b.layer();
    assert(t.layer == b.active && l.button_in(t.key, t.index) is Some);
    let old = l.button_in(t.key, t.index)->0;
    assert(l.wf());
    lemma_coherent(l, t.key, t.index);
    lemma_slot(l, t.key);
    assert(!is_pressed_slider(b.layers, b.active as int, l.slot_of(t.key)->0, t.index as int));
    let nb = dragged_to(old, Some(value), true);
    assert(b.touches[k] == (TouchModel { slot: b.touches[k].slot, ..t }));
    assert forall|j: int| 0 <= j < b.touches.len() implies b.touches.contains(
        #[trigger] b.touches[j],
    ) by {}
    lemma_button_step(b, b.touches, t, nb);
    let c = BarModel {
        touches: b.touches,
        ..b.with_layer(t.layer as int, l.with_button_in(t.key, t.index, nb))
    };
    let d = b.moved(t, target, value, now).bar;
    assert(d.layers == c.layers && d.touches == c.touches && d.active == c.active);
    assert(d.layer() == c.layer());
}

/// A button that is no slider is pressed or released under a finger.
pub(crate) proof fn lemma_pressed(b: BarModel, k: int, active: bool)
    requires
        b.wf(),
        0 <= k < b.touches.len(),
        b.layer().slider_at(b.touches[k].key, b.touches[k].index) is None,
    ensures
        b.pressed(b.touches[k], active).bar.wf(),
{
    let t = b.touches[k];
    let l = b.layer();
    assert(t.layer == b.active && l.button_in(t.key, t.index) is Some);
    let old = l.button_in(t.key, t.index)->0;
    assert(l.wf());
    lemma_coherent(l, t.key, t.index);
    let nb = pressed_to(old, active);
    assert(b.touches[k] == (TouchModel { slot: b.touches[k].slot, ..t }));
    assert forall|j: int| 0 <= j < b.touches.len() implies b.touches.contains(
        #[trigger] b.touches[j],
    ) by {}
    lemma_button_step(b, b.touches, t, nb);
    let c = BarModel {
        touches: b.touches,
        ..b.with_layer(t.layer as int, l.with_button_in(t.key, t.index, nb))
    };
    let d = b.pressed(t, active).bar;
    assert(d.layers == c.layers && d.touches == c.touches && d.active == c.active);
    assert(d.layer() == c.layer());
}

/// Another finger on a button that can be seen.
pub(crate) proof fn lemma_with_touch(b: BarModel, t: TouchModel)
    requires
        b.wf(),
        t.layer == b.active,
        b.layer().shows(t.key),
        b.layer().button_in(t.key, t.index) is Some,
        forall|k: int| 0 <= k < b.touches.len() ==> (#[trigger] b.touches[k]).slot != t.slot,
    ensures
        (BarModel { touches: b.touches.push(t), ..b }).wf(),
{
    let c = BarModel { touches: b.touches.push(t), ..b };
    assert forall|k: int| 0 <= k < c.touches.len() implies ({
        let u = #[trigger] c.touches[k];
        u.layer == c.active && c.layer().shows(u.key) && c.layer().button_in(
            u.key,
            u.index,
        ) is Some
    }) by {
        if k < b.touches.len() {
            assert(c.touches[k] == b.touches[k]);
        }
    }
    assert forall|l: int, slot: Slot, i: int|
        #![trigger is_held(c.layers, l, slot, i)]
        exists_at(c.layers, l, slot, i) && is_held(c.layers, l, slot, i) implies under_finger(
        c.layers,
        c.touches,
        l,
        slot,
        i,
    ) by {
        assert(under_finger(b.layers, b.touches, l, slot, i));
        let k = choose|k: int|
            0 <= k < b.touches.len() && is_on(b.layers, #[trigger] b.touches[k], l, slot, i);
        assert(is_on(c.layers, c.touches[k], l, slot, i));
    }
    assert forall|j: int, k: int| 0 <= j < k < c.touches.len() implies (
    #[trigger] c.touches[j]).slot != (#[trigger] c.touches[k]).slot by {
        assert(c.touches[j] == b.touches[j]);
        if k < b.touches.len() {
            assert(c.touches[k] == b.touches[k]);
        }
    }
}

/// A finger that comes down leaves the bar in order.
pub proof fn downs_keep_the_bar_in_order(
    b: BarModel,
    slot: u32,
    hit: HitModel,
    value: Option<Scalar>,
    readings: SliderReadings,
    now: Moment,
)
    requires
        b.wf(),
        hit matches HitModel::Button(key, index) ==> b.layer().shows(key) && b.layer().button_in(
            key,
            index,
        ) is Some,
    ensures
        b.down(slot, hit, value, readings, now).bar.wf(),
{
    lemma_touched(b, now);
    let c = b.touched(now);
    match hit {
        HitModel::Button(key, index) => {
            lemma_freed(c, slot);
            let d = c.freed(slot).bar;
            let t = TouchModel { slot, layer: d.active, key, index };
            assert(c.layer().button_in(key, index) is Some);
            assert(c.layer().shows(key));
            assert(d.layer().shows(key));
            assert(d.layer().button_in(key, index) is Some);
            lemma_with_touch(d, t);
            let e = BarModel { touches: d.touches.push(t), ..d };
            let k = d.touches.len() as int;
            assert(e.touches[k] == t);
            match d.layer().slider_at(key, index) {
                Some(target) => {
                    if let Some(v) = value {
                        lemma_moved(e, k, target, v, now);
                    }
                },
                None => {
                    lemma_pressed(e, k, true);
                },
            }
        },
        HitModel::OutsideControls => {
            lemma_drained(c);
            lemma_closed(c.drained().bar, readings);
        },
        HitModel::Miss => {},
    }
}

/// A finger that moves leaves the bar in order.
pub proof fn motions_keep_the_bar_in_order(
    b: BarModel,
    slot: u32,
    value: Option<Scalar>,
    hit: bool,
    now: Moment,
)
    requires
        b.wf(),
    ensures
        b.motion(slot, value, hit, now).bar.wf(),
{
    lemma_touched(b, now);
    let c = b.touched(now);
    lemma_find_touch(c.touches, slot);
    let k = find_touch(c.touches, slot) as int;
    if k < c.touches.len() {
        let t = c.touches[k];
        assert(t.layer == c.active);
        match c.layer().slider_at(t.key, t.index) {
            Some(target) => {
                if let Some(v) = value {
                    lemma_moved(c, k, target, v, now);
                }
            },
            None => {
                lemma_pressed(c, k, hit);
            },
        }
    }
}

/// A drag ends when its finger goes.
pub(crate) proof fn lemma_drag_ended(b: BarModel, k: int, target: SliderTarget, now: Moment)
    requires
        b.wf(),
        0 <= k < b.touches.len(),
        b.layer().slider_at(b.touches[k].key, b.touches[k].index) == Some(target),
    ensures
        b.forgotten(k).drag_ended(b.touches[k], target, now).bar.wf(),
{
    let t = b.touches[k];
    let l = b.layer();
    let rest = b.touches.remove(k);
    assert(t.layer == b.active && l.button_in(t.key, t.index) is Some);
    let old = l.button_in(t.key, t.index)->0;
    assert(l.wf());
    lemma_coherent(l, t.key, t.index);
    lemma_slot(l, t.key);
    assert(!is_pressed_slider(b.layers, b.active as int, l.slot_of(t.key)->0, t.index as int));
    lemma_removed(b, k);
    let nb = dragged_to(old, None, false);
    lemma_button_step(b, rest, t, nb);
    let c = BarModel {
        touches: rest,
        ..b.with_layer(t.layer as int, l.with_button_in(t.key, t.index, nb))
    };
    let d = b.forgotten(k).drag_ended(t, target, now).bar;
    assert(d.layers == c.layers && d.touches == c.touches && d.active == c.active);
    assert(d.layer() == c.layer());
}

/// A button is released when its finger goes.
pub(crate) proof fn lemma_released(b: BarModel, k: int)
    requires
        b.wf(),
        0 <= k < b.touches.len(),
        b.layer().slider_at(b.touches[k].key, b.touches[k].index) is None,
    ensures
        b.forgotten(k).pressed(b.touches[k], false).bar.wf(),
{
    let t = b.touches[k];
    let l = b.layer();
    let rest = b.touches.remove(k);
    assert(t.layer == b.active && l.button_in(t.key, t.index) is Some);
    let old = l.button_in(t.key, t.index)->0;
    assert(l.wf());
    lemma_coherent(l, t.key, t.index);
    lemma_removed(b, k);
    let nb = pressed_to(old, false);
    lemma_button_step(b, rest, t, nb);
    let c = BarModel {
        touches: rest,
        ..b.with_layer(t.layer as int, l.with_button_in(t.key, t.index, nb))
    };
    let d = b.forgotten(k).pressed(t, false).bar;
    assert(d.layers == c.layers && d.touches == c.touches && d.active == c.active);
    assert(d.layer() == c.layer());
}

/// Opening or closing an overlay strands nothing, once all touches are let
/// go of.
pub(crate) proof fn lemma_activated(
    b: BarModel,
    action: ActionModel,
    anchor: Option<Scalar>,
    now: Moment,
)
    requires
        b.wf(),
    ensures
        ({
            let at = b.active as int;
            let m = b.with_layer(at, b.layers[at].activated(action, anchor, now));
            &&& all_wf(m.layers)
            &&& on_layers(m.touches, m.layers.len())
            &&& m.drained().bar.wf()
            &&& quiet(m.drained().bar.layers)
        }),
{
    let at = b.active as int;
    let l = b.layers[at];
    assert(l.wf());
    lemma_layer_activated(l, action, anchor, now);
    let next = l.activated(action, anchor, now);
    let m = b.with_layer(at, next);
    lemma_alike(b.layers, b.touches, at, next);
    lemma_on_layers(b);
    assert forall|i: int| 0 <= i < m.layers.len() implies (#[trigger] m.layers[i]).wf() by {
        assert(b.layers[i].wf());
    }
    draining_releases_everything(m.layers, m.touches);
    lemma_quiet(m.drained().bar.layers, Seq::empty());
}

proof fn lemma_tapped(
    b: BarModel,
    action: ActionModel,
    anchor: Option<Scalar>,
    readings: SliderReadings,
    now: Moment,
)
    requires
        b.wf(),
    ensures
        b.tapped(b.active as int, action, anchor, readings, now).bar.wf(),
{
    let at = b.active as int;
    if !(action is FocusWorkspace) && b.layers[at].activates(action) {
        lemma_activated(b, action, anchor, now);
        let d = b.with_layer(at, b.layers[at].activated(action, anchor, now)).drained().bar;
        lemma_synced(d, at, readings);
        let e = d.with_layer(at, d.layers[at].sliders_synced(readings));
        let f = b.tapped(at, action, anchor, readings, now).bar;
        assert(f.layers == e.layers && f.touches == e.touches && f.active == e.active);
        assert(f.layer() == e.layer());
    }
}

/// A finger that is lifted leaves the bar in order.
pub proof fn ups_keep_the_bar_in_order(
    b: BarModel,
    slot: u32,
    anchor: Option<Scalar>,
    readings: SliderReadings,
    now: Moment,
)
    requires
        b.wf(),
    ensures
        b.up(slot, anchor, readings, now).bar.wf(),
{
    lemma_touched(b, now);
    let c = b.touched(now);
    lemma_find_touch(c.touches, slot);
    let k = find_touch(c.touches, slot) as int;
    if k < c.touches.len() {
        let t = c.touches[k];
        assert(t.layer == c.active);
        let rest = c.forgotten(k);
        match c.layer().slider_at(t.key, t.index) {
            Some(target) => {
                lemma_drag_ended(c, k, target, now);
            },
            None => {
                lemma_released(c, k);
                let button = c.layer().button_in(t.key, t.index)->0;
                let released = rest.pressed(t, false).bar;
                assert(released.active == c.active);
                lemma_tapped(released, button.action, anchor, readings, now);
            },
        }
    }
}

/// A cancelled touch leaves the bar in order.
pub proof fn cancels_keep_the_bar_in_order(b: BarModel, slot: u32, now: Moment)
    requires
        b.wf(),
    ensures
        b.cancel(slot, now).bar.wf(),
{
    lemma_touched(b, now);
    let c = b.touched(now);
    lemma_find_touch(c.touches, slot);
    let k = find_touch(c.touches, slot) as int;
    if k < c.touches.len() {
        let t = c.touches[k];
        assert(t.layer == c.active);
        match c.layer().slider_at(t.key, t.index) {
            Some(target) => {
                lemma_drag_ended(c, k, target, now);
            },
            None => {
                lemma_released(c, k);
            },
        }
    }
}

proof fn lemma_swapped(b: BarModel)
    requires
        b.wf(),
        quiet(b.layers),
        b.touches.len() == 0,
    ensures
        b.swapped().wf(),
{
    let c = b.swapped();
    assert forall|i: int| 0 <= i < c.layers.len() implies (#[trigger] c.layers[i]).wf() by {
        assert(b.layers[1 - i].wf());
    }
    assert forall|l: int, slot: Slot, i: int|
        #![trigger is_held(c.layers, l, slot, i)]
        exists_at(c.layers, l, slot, i) implies !is_held(c.layers, l, slot, i) by {
        assert(exists_at(b.layers, 1 - l, slot, i));
        assert(!is_held(b.layers, 1 - l, slot, i));
    }
    assert forall|l: int, slot: Slot, i: int|
        #![trigger is_pressed_slider(c.layers, l, slot, i)]
        exists_at(c.layers, l, slot, i) implies !is_pressed_slider(c.layers, l, slot, i) by {
        assert(exists_at(b.layers, 1 - l, slot, i));
        assert(!is_pressed_slider(b.layers, 1 - l, slot, i));
    }
    lemma_quiet(c.layers, c.touches);
}

pub(crate) proof fn lemma_double_pressed(b: BarModel, down: bool, double_press_ms: u32, now: Moment)
    requires
        b.wf(),
    ensures
        b.double_pressed(down, double_press_ms, now).bar.wf(),
{
    lemma_drained(b);
    lemma_swapped(b.drained().bar);
    let c = b.double_pressed(down, double_press_ms, now).bar;
    let d = if c.layers == b.layers && c.touches == b.touches {
        b
    } else {
        b.drained().bar.swapped()
    };
    assert(c.layers == d.layers && c.touches == d.touches && c.active == d.active);
    assert(c.layer() == d.layer());
}

proof fn lemma_switched(b: BarModel, to: usize)
    requires
        b.wf(),
        to < 2,
    ensures
        b.switched(to).bar.wf(),
{
    if b.active != to {
        lemma_drained(b);
        let d = b.drained().bar;
        let none = SliderReadings { display: None, keyboard: None, volume: None };
        lemma_closed(d, none);
        let e = d.with_layer(b.active as int, d.layer().closed_all());
        let f = b.switched(to).bar;
        assert(f.layers == e.layers && f.touches == e.touches);
    }
}

/// The function key leaves the bar in order.
pub proof fn fn_keys_keep_the_bar_in_order(
    b: BarModel,
    down: bool,
    double_press_ms: u32,
    now: Moment,
)
    requires
        b.wf(),
    ensures
        b.fn_key(down, double_press_ms, now).bar.wf(),
        b.double_pressed(down, double_press_ms, now).bar.wf(),
{
    lemma_double_pressed(b, down, double_press_ms, now);
    lemma_switched(
        b.double_pressed(down, double_press_ms, now).bar,
        if down {
            1
        } else {
            0
        },
    );
}

/// A new configuration leaves the bar in order, where nothing of it is held.
pub(crate) proof fn lemma_reloaded(b: BarModel, layers: Seq<LayerModel>)
    requires
        b.wf(),
        layers.len() == 2,
        all_wf(layers),
        quiet(layers),
    ensures
        b.reloaded(layers).bar.wf(),
{
    lemma_quiet_sliders(layers);
    lemma_quiet(layers, Seq::empty());
}

/// Layers at rest are quiet.
pub(crate) proof fn lemma_rest_is_quiet(layers: Seq<LayerModel>)
    requires
        forall|l: int| 0 <= l < layers.len() ==> (#[trigger] layers[l]).at_rest(),
    ensures
        quiet(layers),
{
    assert forall|l: int, slot: Slot, i: int|
        #![trigger is_held(layers, l, slot, i)]
        exists_at(layers, l, slot, i) implies !is_held(layers, l, slot, i) by {
        assert(layers[l].at_rest());
        let b = layers[l].set_at(slot).buttons[i];
    }
}

pub(crate) proof fn lemma_quiet_sliders(layers: Seq<LayerModel>)
    requires
        quiet(layers),
    ensures
        sliders_unpressed(layers),
        none_stranded(layers, Seq::empty()),
{
    assert forall|l: int, slot: Slot, i: int|
        #![trigger is_pressed_slider(layers, l, slot, i)]
        exists_at(layers, l, slot, i) implies !is_pressed_slider(layers, l, slot, i) by {
        assert(!is_held(layers, l, slot, i));
    }
    lemma_quiet(layers, Seq::empty());
}

/// Overlays that time out leave the bar in order.
pub proof fn timeouts_keep_the_bar_in_order(
    b: BarModel,
    now: Moment,
    timeout: u64,
    readings: SliderReadings,
)
    requires
        b.wf(),
    ensures
        b.timed_out(now, timeout, readings).wf(),
{
    if b.touches.len() == 0 {
        lemma_closed(b, readings);
    }
}

/// Sending a slider position that waited leaves the bar in order.
pub proof fn due_values_keep_the_bar_in_order(b: BarModel, now: Moment)
    requires
        b.wf(),
    ensures
        b.due_sent(now).bar.wf(),
{
    let c = b.due_sent(now).bar;
    assert(c.layer() == b.layer());
}

/// News from the companion leave the bar in order.
pub proof fn news_keep_the_bar_in_order(
    b: BarModel,
    applied: bool,
    fresh: bool,
    model: Seq<Seq<WsEntry>>,
    readings: SliderReadings,
)
    requires
        b.wf(),
    ensures
        b.news(applied, fresh, model, readings).wf(),
{
    lemma_synced(b, 0, readings);
    let c = b.with_layer(0, b.layers[0].sliders_synced(readings));
    lemma_synced(c, 1, readings);
    let d = c.with_layer(1, c.layers[1].sliders_synced(readings));
    assert(b.synced(readings).layers =~= d.layers);
    let e = b.news(applied, fresh, model, readings);
    if applied || fresh != b.fresh {
        assert(e.layer() == d.layer());
    }
}

pub(crate) proof fn lemma_decoration_alike(l: LayerModel, model: Seq<Seq<WsEntry>>)
    requires
        l.wf(),
        l.strip_change(model) != StripChange::Structure,
    ensures
        stands_in(l, l.strip_applied(model)),
{
    let m = l.strip_applied(model);
    lemma_strip_applied(l, model);
}

proof fn lemma_rebuilt_quiet(l: LayerModel, model: Seq<Seq<WsEntry>>, i: int)
    requires
        l.wf(),
        l.strip_change(model) == StripChange::Structure,
        0 <= i < l.strip_applied(model).strip.buttons.len(),
    ensures
        !l.strip_applied(model).strip.buttons[i].pressed,
        !is_dragging(l.strip_applied(model).strip.buttons[i]),
{
    let shown = truncated(model, l.max_buttons as nat);
    crate::layer_strip::lemma_rebuilt(l, shown);
    crate::button_set::configured_sets_are_well_formed(l.fallback, None);
    let m = l.rebuilt(shown);
    let row = crate::strip::flat(truncated(shown, l.max_buttons as nat));
    if row.len() > 0 {
        assert(m.strip.buttons[i] == crate::layer_strip::workspace_button(row[i]));
    } else {
        assert(m.strip.buttons[i] == crate::button_set::set_of(l.fallback, None)->Ok_0.buttons[i]);
    }
}

pub(crate) proof fn lemma_strips_quiet(layers: Seq<LayerModel>, model: Seq<Seq<WsEntry>>)
    requires
        all_wf(layers),
        quiet(layers),
    ensures
        all_wf(strips_applied(layers, model)),
        quiet(strips_applied(layers, model)),
{
    let after = strips_applied(layers, model);
    assert forall|l: int| 0 <= l < after.len() implies (#[trigger] after[l]).wf() by {
        assert(layers[l].wf());
        lemma_strip_applied(layers[l], model);
    }
    assert forall|l: int, slot: Slot, i: int|
        #![trigger is_held(after, l, slot, i)]
        exists_at(after, l, slot, i) implies !is_held(after, l, slot, i) by {
        let old = layers[l];
        assert(old.wf());
        assert(after[l] == old.strip_applied(model));
        if slot == Slot::Strip {
            if old.strip_change(model) == StripChange::Structure {
                lemma_rebuilt_quiet(old, model, i);
            } else {
                assert(exists_at(layers, l, slot, i));
                assert(!is_held(layers, l, slot, i));
            }
        } else {
            assert(exists_at(layers, l, slot, i));
            assert(!is_held(layers, l, slot, i));
        }
    }
}

/// Staged workspaces leave the bar in order, whether they are applied,
/// rebuild a strip or are held back.
pub proof fn staging_keeps_the_bar_in_order(b: BarModel, now: Moment)
    requires
        b.wf(),
    ensures
        b.staged_applied(now).bar.wf(),
{
    if let Some(model) = b.staged {
        if b.may_apply(model, now) {
            let c = b.staged_applied(now).bar;
            if any_structure(b.layers, model) {
                lemma_drained(b);
                let d = b.drained().bar;
                lemma_strips_quiet(d.layers, model);
                lemma_quiet_sliders(strips_applied(d.layers, model));
                assert(c.layers == strips_applied(d.layers, model));
            } else {
                assert(b.layers[0].wf() && b.layers[1].wf());
                lemma_decoration_alike(b.layers[0], model);
                lemma_decoration_alike(b.layers[1], model);
                let first = b.layers[0].strip_applied(model);
                let second = b.layers[1].strip_applied(model);
                lemma_stand_in(b, 0, first);
                let e = b.with_layer(0, first);
                lemma_stand_in(e, 1, second);
                let f = e.with_layer(1, second);
                assert(c.layers =~= f.layers);
                assert(c.layer() == f.layer());
            }
        }
    }
}

/// Reading the clock leaves the bar in order.
pub proof fn clock_ticks_keep_the_bar_in_order(b: BarModel, second: u32, minute: u32)
    requires
        b.wf(),
    ensures
        b.ticked(second, minute).wf(),
{
    let l = b.layer();
    assert(l.wf());
    lemma_controls_each(l, |x: ButtonModel| marked_if_battery(x));
    lemma_stand_in(b, b.active as int, l.batteries_marked());
    let c = b.with_layer(b.active as int, l.batteries_marked());
    let d = b.ticked(second, minute);
    if l.controls().displays_battery {
        assert(d.layers == c.layers);
        assert(d.layer() == c.layer());
    } else {
        assert(d.layer() == b.layer());
    }
}

pub(crate) proof fn lemma_layer_painted(l: LayerModel)
    requires
        l.wf(),
    ensures
        stands_in(l, l.painted()),
{
    let f = |x: ButtonModel| drawn(x);
    if l.kind == LayerKind::Regions {
        lemma_each(l, Slot::Strip, f);
        let m = LayerModel { strip: each(l.strip, f), ..l };
        assert(m == l.with_set(Slot::Strip, each(l.set_at(Slot::Strip), f)));
        lemma_controls_each(m, f);
        lemma_alike_chain(l, m, l.painted());
        assert forall|key: KeyModel| #[trigger] l.painted().shows(key) == l.shows(key) by {
            assert(m.shows(key) == l.shows(key));
        }
    } else {
        lemma_controls_each(l, f);
    }
}

/// Drawing leaves the bar in order.
pub(crate) proof fn lemma_painted(b: BarModel)
    requires
        b.wf(),
    ensures
        b.with_layer(b.active as int, b.layer().painted()).wf(),
        b.painted().wf(),
{
    let l = b.layer();
    assert(l.wf());
    lemma_layer_painted(l);
    lemma_stand_in(b, b.active as int, l.painted());
    assert(b.painted().layer() == b.with_layer(b.active as int, l.painted()).layer());
}

/// When the last finger leaves a bar in order, nothing is held any more:
/// every key that went down has come up again.
pub proof fn bars_without_fingers_hold_nothing(b: BarModel)
    requires
        b.wf(),
        b.touches.len() == 0,
    ensures
        quiet(b.layers),
{
    assert forall|l: int, slot: Slot, i: int|
        #![trigger is_held(b.layers, l, slot, i)]
        exists_at(b.layers, l, slot, i) implies !is_held(b.layers, l, slot, i) by {
        if is_held(b.layers, l, slot, i) {
            assert(under_finger(b.layers, b.touches, l, slot, i));
        }
    }
}

/// Different names never mean the same set.
proof fn lemma_slot_names_one(l: LayerModel, a: KeyModel, b: KeyModel)
    requires
        l.wf(),
        l.slot_of(a) is Some,
        l.slot_of(a) == l.slot_of(b),
    ensures
        a == b,
{
    if let (KeyModel::Overlay(x), KeyModel::Overlay(y)) = (a, b) {
        lemma_found(l.overlays, x);
        lemma_found(l.overlays, y);
    }
}

/// A set that cannot be seen has no button held: whatever opens or closes
/// over it, a set that becomes visible has been released already.
pub proof fn hidden_buttons_are_never_held(b: BarModel, l: int, key: KeyModel, index: usize)
    requires
        b.wf(),
        0 <= l < 2,
        l != b.active || !b.layers[l].shows(key),
        b.layers[l].button_in(key, index) is Some,
    ensures
        !b.layers[l].button_in(key, index)->0.pressed,
        !is_dragging(b.layers[l].button_in(key, index)->0),
{
    assert(b.layers[l].wf());
    lemma_slot(b.layers[l], key);
    let slot = b.layers[l].slot_of(key)->0;
    let i = index as int;
    if is_held(b.layers, l, slot, i) {
        assert(exists_at(b.layers, l, slot, i));
        assert(under_finger(b.layers, b.touches, l, slot, i));
        let k = choose|k: int|
            0 <= k < b.touches.len() && is_on(b.layers, #[trigger] b.touches[k], l, slot, i);
        assert(b.layer().shows(b.touches[k].key));
        lemma_slot_names_one(b.layers[l], b.touches[k].key, key);
    }
}

/// Overlays never close by themselves under a finger.
pub proof fn fingers_keep_overlays_open(
    b: BarModel,
    now: Moment,
    timeout: u64,
    readings: SliderReadings,
)
    requires
        b.touches.len() > 0,
    ensures
        b.timed_out(now, timeout, readings) == b,
{
}

/// A heartbeat, or a focus that moves, ends no touch and sends nothing.
pub proof fn only_rebuilds_end_touches(b: BarModel, now: Moment)
    requires
        b.staged matches Some(model) ==> !any_structure(b.layers, model),
    ensures
        b.staged_applied(now).bar.touches == b.touches,
        b.staged_applied(now).effects.len() == 0,
        b.staged_applied(now).bar.staged is None,
        b.staged_applied(now).bar.redraw == b.redraw,
{
}

/// Strips are not rebuilt twice within the interval: workspaces that would
/// do so are held back, and newer ones replace them.
pub proof fn rebuilds_keep_their_distance(
    b: BarModel,
    model: Seq<Seq<WsEntry>>,
    at: Moment,
    now: Moment,
)
    requires
        b.staged == Some(model),
        any_structure(b.layers, model),
        b.last_rebuild == Some(at),
        elapsed(now, at) < STRIP_REBUILD_INTERVAL_NANOS,
    ensures
        b.staged_applied(now).bar == b,
        b.staged_applied(now).effects.len() == 0,
{
}

/// A finger beside an open overlay closes the overlays, ends every touch
/// and is forgotten: lifting it does nothing.
pub proof fn touches_beside_overlays_are_forgotten(
    b: BarModel,
    slot: u32,
    value: Option<Scalar>,
    readings: SliderReadings,
    now: Moment,
    anchor: Option<Scalar>,
    later: Moment,
)
    requires
        b.wf(),
    ensures
        ({
            let c = b.down(slot, HitModel::OutsideControls, value, readings, now).bar;
            &&& c.touches.len() == 0
            &&& c.layer().stack.len() == 0
            &&& c.up(slot, anchor, readings, later).bar == c.touched(later)
            &&& c.up(slot, anchor, readings, later).effects.len() == 0
        }),
{
    lemma_touched(b, now);
    lemma_drained(b.touched(now));
    let d = b.touched(now).drained().bar;
    assert(d.layer().wf());
    lemma_layer_closed(d.layer());
}

/// A cancelled touch never acts: what is open stays open, and no focus is
/// asked for.
pub proof fn cancelled_touches_never_act(b: BarModel, slot: u32, now: Moment, id: u64)
    requires
        b.wf(),
    ensures
        b.cancel(slot, now).bar.layers[0].stack == b.layers[0].stack,
        b.cancel(slot, now).bar.layers[1].stack == b.layers[1].stack,
        !b.cancel(slot, now).effects.contains(Effect::Focus(id)),
{
    lemma_touched(b, now);
    let c = b.touched(now);
    lemma_find_touch(c.touches, slot);
    let k = find_touch(c.touches, slot) as int;
    if k < c.touches.len() {
        assert(c.touches[k].layer == c.active);
    }
}

/// Only lifting a finger from a pressed button that can be seen asks for
/// the focus, and only for the workspace of that button.
pub proof fn focus_takes_a_tap(
    b: BarModel,
    slot: u32,
    anchor: Option<Scalar>,
    readings: SliderReadings,
    now: Moment,
    id: u64,
)
    requires
        b.wf(),
        b.up(slot, anchor, readings, now).effects.contains(Effect::Focus(id)),
    ensures
        find_touch(b.touches, slot) < b.touches.len(),
        ({
            let t = b.touches[find_touch(b.touches, slot) as int];
            let button = b.layer().button_in(t.key, t.index);
            &&& b.layer().shows(t.key)
            &&& button is Some
            &&& button->0.pressed
            &&& button->0.action == ActionModel::FocusWorkspace(id)
        }),
{
    lemma_touched(b, now);
    let c = b.touched(now);
    lemma_find_touch(c.touches, slot);
    let k = find_touch(c.touches, slot) as int;
    if k < c.touches.len() {
        let t = c.touches[k];
        assert(t.layer == c.active);
        let rest = c.forgotten(k);
        assert(c.layer().button_in(t.key, t.index) == b.layer().button_in(t.key, t.index));
        assert(c.layer().button_in(t.key, t.index) is Some);
        let button = c.layer().button_in(t.key, t.index)->0;
        if c.layer().slider_at(t.key, t.index) is None {
            let released = rest.pressed(t, false);
            assert(!released.effects.contains(Effect::Focus(id)));
            if button.pressed && !(button.action is FocusWorkspace) {
                let l = released.bar.layers[t.layer as int];
                if l.activates(button.action) {
                    let m = released.bar.with_layer(
                        t.layer as int,
                        l.activated(button.action, anchor, now),
                    );
                    lemma_drain_sends_keys(m.layers, m.touches, id);
                }
                let tapped = released.bar.tapped(
                    t.layer as int,
                    button.action,
                    anchor,
                    readings,
                    now,
                );
                assert(!tapped.effects.contains(Effect::Focus(id)));
                lemma_not_in_sum(released.effects, tapped.effects, Effect::Focus(id));
            } else if button.pressed {
                let tapped = released.bar.tapped(
                    t.layer as int,
                    button.action,
                    anchor,
                    readings,
                    now,
                );
                if button.action != ActionModel::FocusWorkspace(id) {
                    lemma_not_in_sum(released.effects, tapped.effects, Effect::Focus(id));
                }
            }
        }
    }
}

proof fn lemma_not_in_sum(a: Seq<Effect>, b: Seq<Effect>, e: Effect)
    requires
        !a.contains(e),
        !b.contains(e),
    ensures
        !(a + b).contains(e),
{
    if (a + b).contains(e) {
        let i = choose|i: int| 0 <= i < (a + b).len() && (a + b)[i] == e;
        if i < a.len() {
            assert(a[i] == e);
        } else {
            assert(b[i - a.len()] == e);
        }
    }
}

proof fn lemma_drain_sends_keys(layers: Seq<LayerModel>, touches: Seq<TouchModel>, id: u64)
    ensures
        !drain_effects(layers, touches).contains(Effect::Focus(id)),
    decreases touches.len(),
{
    if touches.len() > 0 {
        let next = let_go_of(layers, touches[0]);
        lemma_drain_sends_keys(next, touches.drop_first(), id);
        assert(!let_go_effects(layers, touches[0]).contains(Effect::Focus(id)));
        lemma_not_in_sum(
            let_go_effects(layers, touches[0]),
            drain_effects(next, touches.drop_first()),
            Effect::Focus(id),
        );
    }
}

/// The first finger on a slider owns it: another one on it changes nothing
/// but the clock of the open overlays.
pub proof fn second_fingers_on_a_slider_are_ignored(
    b: BarModel,
    slot: u32,
    key: KeyModel,
    index: usize,
    value: Option<Scalar>,
    readings: SliderReadings,
    now: Moment,
)
    requires
        b.wf(),
        b.layer().slider_at(key, index) is Some,
        owned(b.touches, b.active, key, index),
        find_touch(b.touches, slot) >= b.touches.len(),
    ensures
        b.down(slot, HitModel::Button(key, index), value, readings, now).bar == b.touched(now),
        b.down(slot, HitModel::Button(key, index), value, readings, now).effects.len() == 0,
{
    lemma_touched(b, now);
    assert(b.touched(now).layer().button_in(key, index) == b.layer().button_in(key, index));
}

/// When a drag ends, the position that still waited goes out at once.
pub proof fn ended_drags_land(
    b: BarModel,
    slot: u32,
    target: SliderTarget,
    value: Scalar,
    anchor: Option<Scalar>,
    readings: SliderReadings,
    now: Moment,
)
    requires
        b.wf(),
        find_touch(b.touches, slot) < b.touches.len(),
        ({
            let t = b.touches[find_touch(b.touches, slot) as int];
            b.layer().slider_at(t.key, t.index) == Some(target)
        }),
        b.throttle.waiting(target) == Some(value),
    ensures
        b.up(slot, anchor, readings, now).effects == seq![Effect::Slider { target, value }],
        b.cancel(slot, now).effects == seq![Effect::Slider { target, value }],
        b.up(slot, anchor, readings, now).bar.throttle.waiting(target) is None,
{
    lemma_touched(b, now);
    let k = find_touch(b.touches, slot) as int;
    let t = b.touches[k];
    assert(t.layer == b.active);
    assert(b.touched(now).layer().button_in(t.key, t.index) == b.layer().button_in(
        t.key,
        t.index,
    ));
}

/// Nothing is pressed, no slider is driven and no focus is asked for: all
/// that goes out lets go of keys.
pub open spec fn only_releases(effects: Seq<Effect>) -> bool {
    forall|i: int|
        0 <= i < effects.len() ==> match #[trigger] effects[i] {
            Effect::Key { down, .. } => !down,
            Effect::Report => true,
            _ => false,
        }
}

pub(crate) proof fn lemma_drain_releases(layers: Seq<LayerModel>, touches: Seq<TouchModel>)
    ensures
        only_releases(drain_effects(layers, touches)),
    decreases touches.len(),
{
    if touches.len() > 0 {
        lemma_drain_releases(let_go_of(layers, touches[0]), touches.drop_first());
        assert(only_releases(let_go_effects(layers, touches[0])));
    }
}

/// Only fingers press keys, drive sliders and ask for the focus. Workspaces
/// that arrive, whatever they are, the function key and a new configuration
/// do no more than let go of keys.
pub proof fn only_fingers_act(
    b: BarModel,
    layers: Seq<LayerModel>,
    down: bool,
    double_press_ms: u32,
    now: Moment,
)
    ensures
        only_releases(b.staged_applied(now).effects),
        only_releases(b.fn_key(down, double_press_ms, now).effects),
        only_releases(b.reloaded(layers).effects),
{
    lemma_drain_releases(b.layers, b.touches);
    let first = b.double_pressed(down, double_press_ms, now);
    lemma_drain_releases(first.bar.layers, first.bar.touches);
}

/// A finger that has slid off its button does nothing when it is lifted:
/// no key moves, nothing opens or closes and nothing is drawn anew.
pub proof fn fingers_that_slid_off_do_nothing(
    b: BarModel,
    slot: u32,
    anchor: Option<Scalar>,
    readings: SliderReadings,
    now: Moment,
)
    requires
        b.wf(),
        find_touch(b.touches, slot) < b.touches.len(),
        ({
            let t = b.touches[find_touch(b.touches, slot) as int];
            let button = b.layer().button_in(t.key, t.index);
            b.layer().slider_at(t.key, t.index) is None && button is Some && !button->0.pressed
        }),
    ensures
        ({
            let turn = b.up(slot, anchor, readings, now);
            &&& turn.effects.len() == 0
            &&& turn.bar.redraw == b.redraw
            &&& turn.bar.touches == b.touches.remove(find_touch(b.touches, slot) as int)
            &&& forall|l: int|
                0 <= l < 2 ==> (#[trigger] turn.bar.layers[l]).stack == b.layers[l].stack
        }),
{
    lemma_touched(b, now);
    let c = b.touched(now);
    lemma_find_touch(c.touches, slot);
    let t = c.touches[find_touch(c.touches, slot) as int];
    assert(t.layer == c.active);
    assert(c.layer().button_in(t.key, t.index) == b.layer().button_in(t.key, t.index));
}

} // verus!
