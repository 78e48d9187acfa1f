//! What fingers are for: a tap types, opens, closes or focuses what is
//! tapped, a drag moves its slider and its backend, and what becomes visible
//! shows what was read.
use crate::bar::{any_visible_change, find_touch, BarModel};
use crate::bar_laws::{
    lemma_activated, lemma_closed, lemma_drain_releases, lemma_drained, lemma_find_touch,
    lemma_layer_activated, lemma_layer_closed, lemma_layer_painted, lemma_released, lemma_touched,
    only_releases,
};
use crate::button::{is_dragging, ActionModel, ButtonModel, Effect};
use crate::button_laws::{
    presses_send_the_keys, readings_are_shown, shows_reading, sliders_follow_fingers, stands_at,
};
use crate::button_set::{any_changed_spec, drawn, each, synced, SliderReadings};
use crate::config::SliderTarget;
use crate::layer::{
    find_overlay, lemma_slot, lemma_with_button, lemma_with_set, FrameModel, KeyModel, LayerKind,
    LayerModel, Slot,
};
use crate::layer_hit::HitModel;
use crate::moment::Moment;
use crate::scalar::Scalar;
use crate::touches::{drained, lemma_drain_keeps_strips, TouchModel};
use vstd::prelude::*;

verus! {

/// A finger with the given slot is touch `k` of the bar.
pub open spec fn is_touch(b: BarModel, slot: u32, k: int) -> bool {
    0 <= k < b.touches.len() && b.touches[k].slot == slot
}

/// The button under a touch of the layer that is shown.
pub open spec fn under(b: BarModel, k: int) -> ButtonModel {
    b.layer().button_in(b.touches[k].key, b.touches[k].index)->0
}

/// Every slider that can be seen in the controls of a layer shows what was
/// read for its backend, unless a finger is on it.
pub open spec fn controls_show(l: LayerModel, readings: SliderReadings) -> bool {
    forall|i: int|
        0 <= i < l.controls().buttons.len() ==> shows_reading(
            #[trigger] l.controls().buttons[i],
            readings,
        )
}

pub(crate) proof fn lemma_the_touch(b: BarModel, slot: u32, k: int)
    requires
        b.wf(),
        is_touch(b, slot, k),
    ensures
        find_touch(b.touches, slot) == k,
        b.touches[k].layer == b.active,
        b.layer().button_in(b.touches[k].key, b.touches[k].index) is Some,
        b.layer().shows(b.touches[k].key),
{
    lemma_find_touch(b.touches, slot);
    let f = find_touch(b.touches, slot) as int;
    if f > k {
        assert(b.touches[k].slot != slot);
    } else if f < k {
        assert(b.touches[f].slot != b.touches[k].slot);
    }
}

pub(crate) proof fn lemma_synced_controls(l: LayerModel, readings: SliderReadings)
    requires
        l.wf(),
    ensures
        controls_show(l.sliders_synced(readings), readings),
        l.sliders_synced(readings).stack == l.stack,
        l.sliders_synced(readings).controls_key() == l.controls_key(),
        l.sliders_synced(readings).controls().buttons.len() == l.controls().buttons.len(),
{
    lemma_slot(l, l.controls_key());
    let f = |b: ButtonModel| synced(b, readings);
    let set = each(l.controls(), f);
    crate::layer::lemma_set_each(l.controls(), f);
    lemma_with_set(l, l.controls_slot(), set);
    let m = l.sliders_synced(readings);
    assert forall|i: int| 0 <= i < m.controls().buttons.len() implies shows_reading(
        #[trigger] m.controls().buttons[i],
        readings,
    ) by {
        readings_are_shown(l.controls().buttons[i], readings);
        assert(m.controls().buttons[i] == synced(l.controls().buttons[i], readings));
    }
}

/// What a tap brings to light is up to date: where lifting a finger opens or
/// closes an overlay, every slider that can then be seen in the controls
/// stands where its backend was read to be.
pub proof fn opened_sliders_show_their_readings(
    b: BarModel,
    slot: u32,
    anchor: Option<Scalar>,
    readings: SliderReadings,
    now: Moment,
)
    requires
        b.wf(),
        b.up(slot, anchor, readings, now).bar.layer().stack != b.layer().stack,
    ensures
        controls_show(b.up(slot, anchor, readings, now).bar.layer(), readings),
        b.up(slot, anchor, readings, now).bar.touches.len() == 0,
        b.up(slot, anchor, readings, now).bar.redraw,
{
    lemma_touched(b, now);
    let c = b.touched(now);
    assert(c.layer().stack == b.layer().stack);
    lemma_find_touch(c.touches, slot);
    let k = find_touch(c.touches, slot) as int;
    if k < c.touches.len() {
        let t = c.touches[k];
        assert(t.layer == c.active);
        assert(c.layer().button_in(t.key, t.index) is Some);
        if c.layer().slider_at(t.key, t.index) is None {
            let button = c.layer().button_in(t.key, t.index)->0;
            lemma_released(c, k);
            let r = c.forgotten(k).pressed(t, false).bar;
            assert(r.layer().stack == c.layer().stack);
            if button.pressed && r.layer().activates(button.action) {
                lemma_activated(r, button.action, anchor, now);
                let at = r.active as int;
                let m = r.with_layer(at, r.layers[at].activated(button.action, anchor, now));
                let d = m.drained().bar;
                assert(d.layers[at].wf());
                lemma_synced_controls(d.layers[at], readings);
            }
        }
    }
}

/// Closing overlays by a finger beside them, or by a timeout, brings the
/// base row to light with every slider where its backend was read to be.
pub proof fn closed_overlays_show_readings(
    b: BarModel,
    slot: u32,
    value: Option<Scalar>,
    readings: SliderReadings,
    now: Moment,
    timeout: u64,
)
    requires
        b.wf(),
        b.layer().stack.len() > 0,
    ensures
        ({
            let after = b.down(slot, HitModel::OutsideControls, value, readings, now).bar;
            &&& after.layer().stack.len() == 0
            &&& after.redraw
            &&& controls_show(after.layer(), readings)
        }),
        ({
            let after = b.timed_out(now, timeout, readings);
            after.layer().stack.len() == 0 ==> after.redraw && controls_show(
                after.layer(),
                readings,
            )
        }),
{
    lemma_touched(b, now);
    let c = b.touched(now);
    lemma_drained(c);
    let d = c.drained().bar;
    lemma_closed(d, readings);
    lemma_layer_closed(d.layer());
    lemma_synced_controls(d.layer().closed_all(), readings);
    if b.touches.len() == 0 {
        lemma_closed(b, readings);
        lemma_layer_closed(b.layer());
        lemma_synced_controls(b.layer().closed_all(), readings);
    }
}

/// News from the companion, and a look at the sliders, bring every slider
/// that can be seen up to date, on both layers.
pub proof fn news_move_the_sliders(
    b: BarModel,
    fresh: bool,
    model: Seq<Seq<crate::helper_proto::WsEntry>>,
    readings: SliderReadings,
    l: int,
)
    requires
        b.wf(),
        0 <= l < 2,
    ensures
        controls_show(b.news(true, fresh, model, readings).layers[l], readings),
        controls_show(b.synced(readings).layers[l], readings),
        b.synced(readings).layers.len() == 2,
        b.synced(readings).touches == b.touches,
{
    assert(b.layers[l].wf());
    lemma_synced_controls(b.layers[l], readings);
    assert(b.synced(readings).layers[l] == b.layers[l].sliders_synced(readings));
}

/// A finger that comes down on a button with keys presses it: the keys go
/// down, each once and in order, followed by a report.
pub proof fn fingers_press_keys(
    b: BarModel,
    slot: u32,
    key: KeyModel,
    index: usize,
    value: Option<Scalar>,
    readings: SliderReadings,
    now: Moment,
    codes: Seq<u16>,
)
    requires
        b.wf(),
        b.layer().shows(key),
        b.layer().button_in(key, index) is Some,
        b.layer().button_in(key, index)->0.action == ActionModel::Keys(codes),
        !b.layer().button_in(key, index)->0.pressed,
        codes.len() > 0,
        forall|k: int| 0 <= k < b.touches.len() ==> (#[trigger] b.touches[k]).slot != slot,
    ensures
        ({
            let turn = b.down(slot, HitModel::Button(key, index), value, readings, now);
            &&& turn.effects.len() == codes.len() + 1
            &&& forall|i: int|
                0 <= i < codes.len() ==> #[trigger] turn.effects[i] == (Effect::Key {
                    code: codes[i],
                    down: true,
                })
            &&& turn.effects[codes.len() as int] == Effect::Report
            &&& turn.bar.layer().button_in(key, index) matches Some(after) && after.pressed
            &&& turn.bar.touches == b.touches.push(
                TouchModel { slot, layer: b.active, key, index },
            )
            &&& turn.bar.layer().stack == b.layer().stack
        }),
{
    lemma_touched(b, now);
    let c = b.touched(now);
    lemma_find_touch(c.touches, slot);
    assert(c.freed(slot).bar == c);
    let button = c.layer().button_in(key, index)->0;
    assert(button == b.layer().button_in(key, index)->0);
    presses_send_the_keys(button, true);
    lemma_with_button(c.layer(), key, index, crate::button::pressed_to(button, true));
    let turn = b.down(slot, HitModel::Button(key, index), value, readings, now);
    assert(turn.effects =~= crate::button::press_effects(button, true));
}

/// A finger that comes down on a button is remembered with that button, and
/// holds it: one without keys sends nothing.
pub proof fn fingers_hold_what_they_touch(
    b: BarModel,
    slot: u32,
    key: KeyModel,
    index: usize,
    value: Option<Scalar>,
    readings: SliderReadings,
    now: Moment,
)
    requires
        b.wf(),
        b.layer().shows(key),
        b.layer().button_in(key, index) is Some,
        !(b.layer().button_in(key, index)->0.action is Slider),
        forall|k: int| 0 <= k < b.touches.len() ==> (#[trigger] b.touches[k]).slot != slot,
    ensures
        ({
            let turn = b.down(slot, HitModel::Button(key, index), value, readings, now);
            &&& turn.bar.layer().button_in(key, index) matches Some(after) && after.pressed
                && after.action == b.layer().button_in(key, index)->0.action
            &&& turn.bar.touches == b.touches.push(
                TouchModel { slot, layer: b.active, key, index },
            )
            &&& !(b.layer().button_in(key, index)->0.action is Keys) ==> turn.effects.len() == 0
        }),
{
    lemma_touched(b, now);
    let c = b.touched(now);
    lemma_find_touch(c.touches, slot);
    assert(c.freed(slot).bar == c);
    let button = c.layer().button_in(key, index)->0;
    assert(button == b.layer().button_in(key, index)->0);
    presses_send_the_keys(button, true);
    crate::layer::lemma_coherent(c.layer(), key, index);
    lemma_with_button(c.layer(), key, index, crate::button::pressed_to(button, true));
}

/// Lifting the finger from a pressed button with keys lets them up again,
/// and does nothing else: nothing opens or closes.
pub proof fn lifted_fingers_release_keys(
    b: BarModel,
    slot: u32,
    k: int,
    anchor: Option<Scalar>,
    readings: SliderReadings,
    now: Moment,
    codes: Seq<u16>,
)
    requires
        b.wf(),
        is_touch(b, slot, k),
        under(b, k).action == ActionModel::Keys(codes),
        under(b, k).pressed,
        codes.len() > 0,
    ensures
        ({
            let turn = b.up(slot, anchor, readings, now);
            let t = b.touches[k];
            &&& turn.effects.len() == codes.len() + 1
            &&& forall|i: int|
                0 <= i < codes.len() ==> #[trigger] turn.effects[i] == (Effect::Key {
                    code: codes[i],
                    down: false,
                })
            &&& turn.effects[codes.len() as int] == Effect::Report
            &&& turn.bar.layer().button_in(t.key, t.index) matches Some(after) && !after.pressed
            &&& turn.bar.touches == b.touches.remove(k)
            &&& turn.bar.layer().stack == b.layer().stack
            &&& turn.bar.redraw == b.redraw
        }),
        ({
            let turn = b.cancel(slot, now);
            let t = b.touches[k];
            &&& turn.effects == b.up(slot, anchor, readings, now).effects
            &&& turn.bar.layer().button_in(t.key, t.index) matches Some(after) && !after.pressed
            &&& turn.bar.touches == b.touches.remove(k)
        }),
{
    lemma_the_touch(b, slot, k);
    lemma_touched(b, now);
    let c = b.touched(now);
    let t = b.touches[k];
    let button = c.layer().button_in(t.key, t.index)->0;
    presses_send_the_keys(button, false);
    lemma_with_button(c.layer(), t.key, t.index, crate::button::pressed_to(button, false));
    let turn = b.up(slot, anchor, readings, now);
    assert(turn.effects =~= crate::button::press_effects(button, false));
}

/// A tap on a launcher opens its group where it was tapped: the overlay is
/// on top of what was open, at the anchor of the tap, and every touch is
/// let go of.
pub proof fn taps_open_overlays(
    b: BarModel,
    slot: u32,
    k: int,
    anchor: Option<Scalar>,
    readings: SliderReadings,
    now: Moment,
    name: Seq<char>,
    n: int,
)
    requires
        b.wf(),
        is_touch(b, slot, k),
        under(b, k).action == ActionModel::OpenOverlay(name),
        under(b, k).pressed,
        0 <= n < b.layer().overlays.len(),
        b.layer().overlays[n].name == name,
        b.layer().stack.len() < 8,
        b.layer().stack.len() > 0 ==> b.layer().stack.last().name != name,
    ensures
        ({
            let turn = b.up(slot, anchor, readings, now);
            &&& turn.bar.layer().stack == b.layer().stack.push(
                FrameModel { name, anchor_x: anchor },
            )
            &&& turn.bar.layer().touched_at == Some(now)
            &&& turn.bar.layer().controls_key() == KeyModel::Overlay(name)
            &&& turn.bar.layer().controls().buttons.len()
                == b.layer().overlays[n].set.buttons.len()
            &&& controls_show(turn.bar.layer(), readings)
            &&& turn.bar.redraw
            &&& turn.bar.touches.len() == 0
            &&& only_releases(turn.effects)
        }),
{
    lemma_the_touch(b, slot, k);
    lemma_touched(b, now);
    let c = b.touched(now);
    let t = b.touches[k];
    assert(c.touches[k] == t);
    lemma_released(c, k);
    let released = c.forgotten(k).pressed(t, false);
    let r = released.bar;
    assert(r.layer().stack == b.layer().stack);
    let button = c.layer().button_in(t.key, t.index)->0;
    presses_send_the_keys(button, false);
    lemma_named(r.layer(), b.layer(), name, n);
    assert(r.layer().can_open(name));
    lemma_activated(r, button.action, anchor, now);
    lemma_layer_activated(r.layer(), button.action, anchor, now);
    let at = r.active as int;
    let m = r.with_layer(at, r.layers[at].activated(button.action, anchor, now));
    lemma_drain_keeps_strips(m.layers, m.touches);
    lemma_drain_releases(m.layers, m.touches);
    let d = m.drained().bar;
    lemma_drain_keeps_rows(m.layers, m.touches, at);
    assert(d.layers[at].wf());
    lemma_synced_controls(d.layers[at], readings);
    lemma_slot(r.layer(), r.layer().controls_key());
    lemma_marked_rows(r.layer(), name, anchor, now, n);
    lemma_named_controls(d.layers[at], name, n);
}

/// The overlay with a given name is the one that is found, also once
/// buttons have changed.
proof fn lemma_named(m: LayerModel, l: LayerModel, name: Seq<char>, n: int)
    requires
        l.wf(),
        m.wf(),
        m.overlays.len() == l.overlays.len(),
        forall|i: int| 0 <= i < l.overlays.len() ==> (#[trigger] m.overlays[i]).name
            == l.overlays[i].name,
        0 <= n < l.overlays.len(),
        l.overlays[n].name == name,
    ensures
        find_overlay(m.overlays, name) == n,
        find_overlay(l.overlays, name) == n,
{
    crate::layer::lemma_found(l.overlays, name);
    crate::layer::lemma_same_names(m.overlays, l.overlays, name);
    let f = find_overlay(l.overlays, name) as int;
    if f > n {
        assert(l.overlays[n].name != name);
    } else if f < n {
        assert(l.overlays[f].name != l.overlays[n].name);
    }
}

proof fn lemma_named_controls(l: LayerModel, name: Seq<char>, n: int)
    requires
        l.wf(),
        l.stack.len() > 0,
        l.stack.last().name == name,
        0 <= n < l.overlays.len(),
        l.overlays[n].name == name,
    ensures
        l.controls() == l.overlays[n].set,
{
    lemma_named(l, l, name, n);
}

proof fn lemma_marked_rows(
    l: LayerModel,
    name: Seq<char>,
    anchor: Option<Scalar>,
    now: Moment,
    n: int,
)
    requires
        l.wf(),
        l.can_open(name),
        0 <= n < l.overlays.len(),
        l.overlays[n].name == name,
    ensures
        l.opened(name, anchor, now).overlays.len() == l.overlays.len(),
        l.opened(name, anchor, now).overlays[n].name == name,
        l.opened(name, anchor, now).overlays[n].set.buttons.len()
            == l.overlays[n].set.buttons.len(),
{
    lemma_named(l, l, name, n);
}

/// Letting go of touches changes no row's length and no overlay's name.
proof fn lemma_drain_keeps_rows(layers: Seq<LayerModel>, touches: Seq<TouchModel>, at: int)
    requires
        crate::touches::on_layers(touches, layers.len()),
        0 <= at < layers.len(),
    ensures
        drained(layers, touches)[at].overlays.len() == layers[at].overlays.len(),
        drained(layers, touches)[at].base.buttons.len() == layers[at].base.buttons.len(),
        forall|i: int|
            0 <= i < layers[at].overlays.len() ==> {
                let o = #[trigger] drained(layers, touches)[at].overlays[i];
                &&& o.name == layers[at].overlays[i].name
                &&& o.set.buttons.len() == layers[at].overlays[i].set.buttons.len()
            },
    decreases touches.len(),
{
    if touches.len() > 0 {
        let rest = touches.drop_first();
        assert forall|k: int| 0 <= k < rest.len() implies (#[trigger] rest[k]).layer
            < layers.len() by {
            assert(touches[k + 1].layer < layers.len());
        }
        let next = crate::touches::let_go_of(layers, touches[0]);
        assert(touches[0].layer < layers.len());
        lemma_drain_keeps_rows(next, rest, at);
        assert forall|i: int| 0 <= i < layers[at].overlays.len() implies ({
            let o = #[trigger] drained(layers, touches)[at].overlays[i];
            &&& o.name == layers[at].overlays[i].name
            &&& o.set.buttons.len() == layers[at].overlays[i].set.buttons.len()
        }) by {
            let o = drained(next, rest)[at].overlays[i];
            assert(o.name == next[at].overlays[i].name);
            assert(next[at].overlays[i].name == layers[at].overlays[i].name);
        }
    }
}

/// A tap on a close button closes the innermost overlay and no other.
pub proof fn taps_close_the_innermost_overlay(
    b: BarModel,
    slot: u32,
    k: int,
    anchor: Option<Scalar>,
    readings: SliderReadings,
    now: Moment,
)
    requires
        b.wf(),
        is_touch(b, slot, k),
        under(b, k).action == ActionModel::CloseOverlay,
        under(b, k).pressed,
        b.layer().stack.len() > 0,
    ensures
        ({
            let turn = b.up(slot, anchor, readings, now);
            &&& turn.bar.layer().stack == b.layer().stack.drop_last()
            &&& controls_show(turn.bar.layer(), readings)
            &&& turn.bar.redraw
            &&& turn.bar.touches.len() == 0
            &&& only_releases(turn.effects)
        }),
{
    lemma_the_touch(b, slot, k);
    lemma_touched(b, now);
    let c = b.touched(now);
    let t = b.touches[k];
    assert(c.touches[k] == t);
    lemma_released(c, k);
    let r = c.forgotten(k).pressed(t, false).bar;
    assert(r.layer().stack == b.layer().stack);
    let button = c.layer().button_in(t.key, t.index)->0;
    presses_send_the_keys(button, false);
    lemma_activated(r, button.action, anchor, now);
    let at = r.active as int;
    let m = r.with_layer(at, r.layers[at].activated(button.action, anchor, now));
    lemma_drain_keeps_strips(m.layers, m.touches);
    lemma_drain_releases(m.layers, m.touches);
    let d = m.drained().bar;
    assert(d.layers[at].wf());
    lemma_synced_controls(d.layers[at], readings);
}

/// A tap on a workspace asks for its focus, once, and sends no key.
pub proof fn taps_focus_workspaces(
    b: BarModel,
    slot: u32,
    k: int,
    anchor: Option<Scalar>,
    readings: SliderReadings,
    now: Moment,
    id: u64,
)
    requires
        b.wf(),
        is_touch(b, slot, k),
        under(b, k).action == ActionModel::FocusWorkspace(id),
        under(b, k).pressed,
    ensures
        b.up(slot, anchor, readings, now).effects == seq![Effect::Focus(id)],
        b.up(slot, anchor, readings, now).bar.touches == b.touches.remove(k),
        b.up(slot, anchor, readings, now).bar.layer().stack == b.layer().stack,
{
    lemma_the_touch(b, slot, k);
    lemma_touched(b, now);
    let c = b.touched(now);
    let t = b.touches[k];
    let button = c.layer().button_in(t.key, t.index)->0;
    presses_send_the_keys(button, false);
    assert(b.up(slot, anchor, readings, now).effects =~= seq![Effect::Focus(id)]);
}

/// A finger on a button holds it exactly while it is on it: sliding off lets
/// its keys up, sliding back presses them again.
pub proof fn moving_fingers_hold_their_button(
    b: BarModel,
    slot: u32,
    k: int,
    value: Option<Scalar>,
    on_button: bool,
    now: Moment,
)
    requires
        b.wf(),
        is_touch(b, slot, k),
        !(under(b, k).action is Slider),
    ensures
        ({
            let turn = b.motion(slot, value, on_button, now);
            let t = b.touches[k];
            &&& turn.bar.layer().button_in(t.key, t.index) matches Some(after) && after.pressed
                == on_button
            &&& turn.bar.touches == b.touches
            &&& turn.bar.layer().stack == b.layer().stack
            &&& under(b, k).pressed == on_button ==> turn.effects.len() == 0
            &&& under(b, k).pressed != on_button ==> (under(b, k).action matches ActionModel::Keys(
                codes,
            ) ==> (codes.len() > 0 ==> turn.effects.len() == codes.len() + 1 && (forall|i: int|
                0 <= i < codes.len() ==> #[trigger] turn.effects[i] == (Effect::Key {
                    code: codes[i],
                    down: on_button,
                })) && turn.effects[codes.len() as int] == Effect::Report))
        }),
{
    lemma_the_touch(b, slot, k);
    lemma_touched(b, now);
    let c = b.touched(now);
    let t = b.touches[k];
    let button = c.layer().button_in(t.key, t.index)->0;
    presses_send_the_keys(button, on_button);
    crate::layer::lemma_coherent(c.layer(), t.key, t.index);
    lemma_with_button(c.layer(), t.key, t.index, crate::button::pressed_to(button, on_button));
}

/// A slider that is dragged stands where the finger is. Its position goes
/// out at once where none went out within the last twentieth of a second;
/// else it waits, in place of any that waited before.
pub proof fn drags_move_their_slider(
    b: BarModel,
    slot: u32,
    k: int,
    target: SliderTarget,
    value: Scalar,
    on_button: bool,
    now: Moment,
)
    requires
        b.wf(),
        is_touch(b, slot, k),
        under(b, k).action == ActionModel::Slider(target),
        !value.nan(),
    ensures
        ({
            let turn = b.motion(slot, Some(value), on_button, now);
            let t = b.touches[k];
            let calm = match b.throttle.last {
                Some(at) => now.nanos - at.nanos >= 50_000_000,
                None => true,
            };
            &&& turn.bar.layer().button_in(t.key, t.index) matches Some(after) && is_dragging(
                after,
            ) && stands_at(after).same(value)
            &&& turn.bar.touches == b.touches
            &&& calm ==> turn.effects == seq![Effect::Slider { target, value }]
                && turn.bar.throttle.last == Some(now) && waits_for(turn.bar, target) is None
            &&& !calm ==> turn.effects.len() == 0 && waits_for(turn.bar, target) == Some(value)
                && turn.bar.throttle.last == b.throttle.last
        }),
{
    lemma_the_touch(b, slot, k);
    lemma_touched(b, now);
    let c = b.touched(now);
    let t = b.touches[k];
    let button = c.layer().button_in(t.key, t.index)->0;
    crate::layer::lemma_coherent(c.layer(), t.key, t.index);
    sliders_follow_fingers(button, value);
    lemma_with_button(
        c.layer(),
        t.key,
        t.index,
        crate::button::dragged_to(button, Some(value), true),
    );
    assert(c.layer().shows(t.key));
    assert(c.layer().slider_at(t.key, t.index) == Some(target));
}

/// The position of a slider that waits to be sent.
pub open spec fn waits_for(b: BarModel, target: SliderTarget) -> Option<Scalar> {
    match target {
        SliderTarget::DisplayBrightness => b.throttle.pending[0],
        SliderTarget::KeyboardBrightness => b.throttle.pending[1],
        SliderTarget::Volume => b.throttle.pending[2],
    }
}

/// A finger that comes down on a slider nobody holds drags it from there;
/// where its position is not known yet, the slider waits for it.
pub proof fn fingers_grab_sliders(
    b: BarModel,
    slot: u32,
    key: KeyModel,
    index: usize,
    target: SliderTarget,
    value: Scalar,
    readings: SliderReadings,
    now: Moment,
)
    requires
        b.wf(),
        b.layer().shows(key),
        b.layer().button_in(key, index) is Some,
        b.layer().button_in(key, index)->0.action == ActionModel::Slider(target),
        forall|k: int| 0 <= k < b.touches.len() ==> (#[trigger] b.touches[k]).slot != slot,
        forall|k: int|
            0 <= k < b.touches.len() ==> (#[trigger] b.touches[k]).key != key
                || b.touches[k].index != index,
        !value.nan(),
    ensures
        ({
            let turn = b.down(slot, HitModel::Button(key, index), Some(value), readings, now);
            let calm = match b.throttle.last {
                Some(at) => now.nanos - at.nanos >= 50_000_000,
                None => true,
            };
            &&& turn.bar.layer().button_in(key, index) matches Some(after) && is_dragging(after)
                && stands_at(after).same(value)
            &&& turn.bar.touches == b.touches.push(
                TouchModel { slot, layer: b.active, key, index },
            )
            &&& calm ==> turn.effects == seq![Effect::Slider { target, value }]
            &&& !calm ==> turn.effects.len() == 0 && waits_for(turn.bar, target) == Some(value)
        }),
        ({
            let turn = b.down(slot, HitModel::Button(key, index), None, readings, now);
            &&& turn.bar.touches == b.touches.push(
                TouchModel { slot, layer: b.active, key, index },
            )
            &&& turn.bar.layer().button_in(key, index) == b.layer().button_in(key, index)
            &&& turn.effects.len() == 0
        }),
{
    lemma_touched(b, now);
    let c = b.touched(now);
    lemma_find_touch(c.touches, slot);
    assert(c.freed(slot).bar == c);
    let button = c.layer().button_in(key, index)->0;
    assert(button == b.layer().button_in(key, index)->0);
    crate::layer::lemma_coherent(c.layer(), key, index);
    sliders_follow_fingers(button, value);
    lemma_with_button(
        c.layer(),
        key,
        index,
        crate::button::dragged_to(button, Some(value), true),
    );
    assert(c.layer().slider_at(key, index) == Some(target));
    assert(!crate::bar::owned(c.touches, c.active, key, index));
    let turn = b.down(slot, HitModel::Button(key, index), Some(value), readings, now);
    let t = TouchModel { slot, layer: b.active, key, index };
    assert(turn.effects =~= (BarModel { touches: c.touches.push(t), ..c }).moved(
        t,
        target,
        value,
        now,
    ).effects);
}

/// When the finger leaves a slider, the position that waited goes out, and
/// nothing where none did; the slider stays where it is.
pub proof fn lifted_fingers_land_their_drag(
    b: BarModel,
    slot: u32,
    k: int,
    target: SliderTarget,
    anchor: Option<Scalar>,
    readings: SliderReadings,
    now: Moment,
)
    requires
        b.wf(),
        is_touch(b, slot, k),
        under(b, k).action == ActionModel::Slider(target),
    ensures
        ({
            let turn = b.up(slot, anchor, readings, now);
            let t = b.touches[k];
            &&& waits_for(b, target) matches Some(value) ==> turn.effects == seq![
                Effect::Slider { target, value },
            ]
            &&& waits_for(b, target) is None ==> turn.effects.len() == 0
            &&& waits_for(turn.bar, target) is None
            &&& turn.bar.layer().button_in(t.key, t.index) matches Some(after) && !is_dragging(
                after,
            ) && stands_at(after) == stands_at(under(b, k))
            &&& turn.bar.touches == b.touches.remove(k)
            &&& b.cancel(slot, now).effects == turn.effects
        }),
{
    lemma_the_touch(b, slot, k);
    lemma_touched(b, now);
    let c = b.touched(now);
    let t = b.touches[k];
    let button = c.layer().button_in(t.key, t.index)->0;
    crate::layer::lemma_coherent(c.layer(), t.key, t.index);
    sliders_follow_fingers(button, Scalar { bits: 0 });
    lemma_with_button(c.layer(), t.key, t.index, crate::button::dragged_to(button, None, false));
    assert(c.layer().slider_at(t.key, t.index) == Some(target));
}

/// Slider positions that wait go out one by one, each once a twentieth of a
/// second has passed since the last: that of the panel before that of the
/// keyboard, and that before the volume.
pub proof fn waiting_positions_go_out(b: BarModel, now: Moment, target: SliderTarget, value: Scalar)
    requires
        b.wf(),
        b.throttle.last matches Some(at) ==> now.nanos - at.nanos >= 50_000_000,
        waits_for(b, target) == Some(value),
        target is KeyboardBrightness || target is Volume ==> b.throttle.pending[0] is None,
        target is Volume ==> b.throttle.pending[1] is None,
    ensures
        b.due_sent(now).effects == seq![Effect::Slider { target, value }],
        waits_for(b.due_sent(now).bar, target) is None,
        b.due_sent(now).bar.throttle.last == Some(now),
        b.due_sent(now).bar.layers == b.layers,
        b.due_sent(now).bar.touches == b.touches,
{
    reveal_with_fuel(crate::throttle::first_waiting, 4);
    let p = b.throttle.pending;
    assert(p.drop_first()[0] == p[1]);
    assert(p.drop_first().drop_first()[0] == p[2]);
}

/// Nothing that waits goes out too soon.
pub proof fn waiting_positions_wait(b: BarModel, now: Moment, at: Moment)
    requires
        b.throttle.last == Some(at),
        now.nanos - at.nanos < 50_000_000,
    ensures
        b.due_sent(now).effects.len() == 0,
        b.due_sent(now).bar == b,
{
}

/// Overlays close by themselves once nobody has touched them for as long as
/// the timeout says, and not before; a timeout of 0 never closes them.
pub proof fn idle_overlays_close_in_time(
    b: BarModel,
    now: Moment,
    at: Moment,
    timeout: u64,
    readings: SliderReadings,
)
    requires
        b.wf(),
        b.touches.len() == 0,
        b.layer().stack.len() > 0,
        b.layer().touched_at == Some(at),
        at.nanos <= now.nanos,
    ensures
        timeout > 0 && now.nanos - at.nanos >= timeout ==> b.timed_out(
            now,
            timeout,
            readings,
        ).layer().stack.len() == 0,
        now.nanos - at.nanos + 1_000_000 <= timeout ==> b.timed_out(now, timeout, readings) == b,
        timeout == 0 ==> b.timed_out(now, timeout, readings) == b,
{
    lemma_closed(b, readings);
    lemma_layer_closed(b.layer());
    lemma_synced_controls(b.layer().closed_all(), readings);
    let left = timeout - (now.nanos - at.nanos);
    if left >= 1_000_000 {
        assert(left / 1_000_000 >= 1) by (nonlinear_arith)
            requires
                left >= 1_000_000,
        ;
    }
}

/// Every touch starts the clock of the open overlays anew.
pub proof fn touches_keep_overlays_awake(
    b: BarModel,
    slot: u32,
    value: Option<Scalar>,
    on_button: bool,
    readings: SliderReadings,
    now: Moment,
)
    requires
        b.wf(),
        b.layer().stack.len() > 0,
    ensures
        b.motion(slot, value, on_button, now).bar.layer().touched_at == Some(now),
        b.cancel(slot, now).bar.layer().touched_at == Some(now),
        b.down(slot, HitModel::Miss, value, readings, now).bar.layer().touched_at == Some(now),
        b.motion(slot, value, on_button, now).bar.layer().stack == b.layer().stack,
{
    lemma_touched(b, now);
    let c = b.touched(now);
    lemma_find_touch(c.touches, slot);
    let k = find_touch(c.touches, slot) as int;
    if k < c.touches.len() {
        assert(c.touches[k].layer == c.active);
    }
}

/// The function key shows the second layer while it is down and the first
/// one while it is up. A layer that is left loses its overlays, its touches
/// are let go of, and the bar is drawn anew.
pub proof fn the_function_key_picks_the_layer(
    b: BarModel,
    down: bool,
    double_press_ms: u32,
    now: Moment,
)
    requires
        b.wf(),
    ensures
        ({
            let turn = b.fn_key(down, double_press_ms, now);
            &&& turn.bar.active == (if down {
                1int
            } else {
                0int
            })
            &&& turn.bar.active != b.active ==> turn.bar.layers[b.active as int].stack.len() == 0
                && turn.bar.touches.len() == 0 && turn.bar.redraw
            &&& only_releases(turn.effects)
            &&& down && double_press_ms > 0 ==> turn.bar.last_fn == now
            &&& !down || double_press_ms == 0 ==> turn.bar.last_fn == b.last_fn
        }),
{
    crate::bar_laws::only_fingers_act(b, b.layers, down, double_press_ms, now);
    crate::bar_laws::fn_keys_keep_the_bar_in_order(b, down, double_press_ms, now);
    lemma_drained(b);
    let first = b.double_pressed(down, double_press_ms, now).bar;
    lemma_swap_in_order(b, down, double_press_ms, now);
    lemma_drained(first);
    let d = first.drained().bar;
    assert(d.layers[first.active as int].wf());
    lemma_layer_closed(d.layers[first.active as int]);
}

proof fn lemma_swap_in_order(b: BarModel, down: bool, double_press_ms: u32, now: Moment)
    requires
        b.wf(),
    ensures
        b.double_pressed(down, double_press_ms, now).bar.wf(),
        b.double_pressed(down, double_press_ms, now).bar.active == b.active,
{
    crate::bar_laws::lemma_double_pressed(b, down, double_press_ms, now);
}

/// Pressing the function key twice within the configured time makes the two
/// layers change places; pressing it once, or more slowly, or letting go of
/// it, does not.
pub proof fn double_presses_swap_the_layers(
    b: BarModel,
    down: bool,
    double_press_ms: u32,
    now: Moment,
)
    requires
        b.wf(),
        b.last_fn.nanos <= now.nanos,
    ensures
        ({
            let turn = b.fn_key(down, double_press_ms, now);
            let quick = down && double_press_ms > 0 && now.nanos - b.last_fn.nanos
                < double_press_ms * 1_000_000;
            &&& forall|l: int|
                0 <= l < 2 ==> {
                    let m = #[trigger] turn.bar.layers[l];
                    let from = if quick {
                        b.layers[1 - l]
                    } else {
                        b.layers[l]
                    };
                    &&& m.kind == from.kind
                    &&& m.generation == from.generation
                    &&& m.model == from.model
                    &&& m.max_buttons == from.max_buttons
                    &&& m.base.buttons.len() == from.base.buttons.len()
                    &&& m.overlays.len() == from.overlays.len()
                }
        }),
{
    lemma_drained(b);
    lemma_drain_keeps_strips(b.layers, b.touches);
    lemma_drain_keeps_rows(b.layers, b.touches, 0);
    lemma_drain_keeps_rows(b.layers, b.touches, 1);
    let first = b.double_pressed(down, double_press_ms, now).bar;
    lemma_swap_in_order(b, down, double_press_ms, now);
    lemma_drained(first);
    lemma_drain_keeps_strips(first.layers, first.touches);
    lemma_drain_keeps_rows(first.layers, first.touches, 0);
    lemma_drain_keeps_rows(first.layers, first.touches, 1);
    let d = first.drained().bar;
    let at = first.active as int;
    assert(d.layers[at].wf());
    lemma_closing_keeps_rows(d.layers[at]);
    let turn = b.fn_key(down, double_press_ms, now);
    assert(turn.bar.layers[0] == first.layers[0] || turn.bar.layers[0] == d.layers[0]
        || turn.bar.layers[0] == d.layers[0].closed_all());
}

proof fn lemma_closing_keeps_rows(l: LayerModel)
    requires
        l.wf(),
    ensures
        l.closed_all().kind == l.kind,
        l.closed_all().generation == l.generation,
        l.closed_all().model == l.model,
        l.closed_all().max_buttons == l.max_buttons,
        l.closed_all().base.buttons.len() == l.base.buttons.len(),
        l.closed_all().overlays.len() == l.overlays.len(),
{
}

/// A new configuration takes the place of the old one at once: its layers,
/// the first of them shown, with nothing held and everything drawn anew.
pub proof fn reloads_replace_everything(b: BarModel, layers: Seq<LayerModel>)
    ensures
        b.reloaded(layers).bar.layers == layers,
        b.reloaded(layers).bar.active == 0,
        b.reloaded(layers).bar.touches.len() == 0,
        b.reloaded(layers).bar.redraw,
        only_releases(b.reloaded(layers).effects),
{
    lemma_drain_releases(b.layers, b.touches);
}

/// The clock asks for a redraw exactly when a time that is shown has moved
/// on: every second where seconds are shown, else every minute.
pub proof fn clocks_are_redrawn_in_time(b: BarModel, second: u32, minute: u32)
    requires
        b.wf(),
    ensures
        ({
            let after = b.ticked(second, minute);
            let shown = if b.layer().controls().faster_refresh {
                second
            } else {
                minute
            };
            &&& b.layer().controls().displays_time && b.drawn_ts != shown ==> after.redraw
                && after.drawn_ts == shown
            &&& !b.layer().controls().displays_time || b.drawn_ts == shown ==> after.redraw
                == b.redraw && after.drawn_ts == b.drawn_ts
            &&& after.touches == b.touches
            &&& !b.layer().controls().displays_battery ==> after.layers == b.layers
            &&& b.layer().controls().displays_battery ==> after.layer().controls().buttons.len()
                == b.layer().controls().buttons.len() && forall|i: int|
                0 <= i < b.layer().controls().buttons.len()
                    && b.layer().controls().buttons[i].image is Battery ==> (
                #[trigger] after.layer().controls().buttons[i]).changed
        }),
{
    let l = b.layer();
    assert(l.wf());
    lemma_slot(l, l.controls_key());
    let f = |x: ButtonModel| crate::button_set::marked_if_battery(x);
    crate::layer::lemma_set_each(l.controls(), f);
    lemma_with_set(l, l.controls_slot(), each(l.controls(), f));
    let after = b.ticked(second, minute);
    if l.controls().displays_battery {
        assert(after.layer() == l.batteries_marked());
    }
}

/// A bar that was drawn needs no drawing until something changes.
pub proof fn drawn_bars_rest(b: BarModel)
    requires
        b.wf(),
    ensures
        !b.painted().redraw,
        !any_visible_change(b.painted().layer()),
        b.painted().touches == b.touches,
        b.painted().layer().stack == b.layer().stack,
{
    let l = b.layer();
    assert(l.wf());
    let f = |x: ButtonModel| drawn(x);
    let m = if l.kind == LayerKind::Regions {
        LayerModel { strip: each(l.strip, f), ..l }
    } else {
        l
    };
    lemma_layer_painted(l);
    lemma_slot(l, l.controls_key());
    crate::layer::lemma_set_each(l.controls(), f);
    if l.kind == LayerKind::Regions {
        crate::layer::lemma_set_each(l.strip, f);
        lemma_with_set(l, Slot::Strip, each(l.strip, f));
        assert(m == l.with_set(Slot::Strip, each(l.set_at(Slot::Strip), f)));
    }
    lemma_with_set(m, m.controls_slot(), each(m.controls(), f));
    let p = b.painted().layer();
    assert(p == l.painted());
    assert(!any_changed_spec(p.controls().buttons));
}

} // verus!
