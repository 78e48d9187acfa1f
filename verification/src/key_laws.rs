//! Keys go up as often as they go down: what the bar has sent for a key,
//! downs less ups, is always the number of pressed buttons that hold it.
use crate::bar::{find_touch, BarModel, Turn};
use crate::bar_laws::{
    bars_without_fingers_hold_nothing, fn_keys_keep_the_bar_in_order, lemma_activated,
    lemma_controls_each, lemma_decoration_alike, lemma_drained, lemma_find_touch, lemma_freed,
    lemma_layer_activated, lemma_layer_closed, lemma_layer_synced, lemma_released,
    lemma_strips_quiet, lemma_touched, lemma_alike_chain,
};
use crate::button::{
    dragged_to, keys_of, let_go, press_effects, pressed_to, ActionModel, ButtonModel, Effect,
};
use crate::button_set::{marked_if_battery, with_button, SliderReadings};
use crate::config::SliderTarget;
use crate::helper_proto::WsEntry;
use crate::layer::{lemma_slot, lemma_with_button, KeyModel, LayerModel, OverlayModel, Slot};
use crate::layer_hit::HitModel;
use crate::moment::Moment;
use crate::scalar::Scalar;
use crate::touches::{
    all_wf, any_structure, drain_effects, drained, exists_at, holds_alike, is_held, let_go_effects,
    let_go_of, on_layers, quiet, strips_applied, TouchModel,
};
use vstd::prelude::*;

verus! {

/// How often a key occurs among some.
pub open spec fn occurrences(codes: Seq<u16>, code: u16) -> int
    decreases codes.len(),
{
    if codes.len() == 0 {
        0
    } else {
        occurrences(codes.drop_last(), code) + if codes.last() == code {
            1int
        } else {
            0int
        }
    }
}

/// How often a button holds a key down.
pub open spec fn holds(b: ButtonModel, code: u16) -> int {
    if b.pressed {
        occurrences(keys_of(b.action), code)
    } else {
        0
    }
}

pub open spec fn row_holds(buttons: Seq<ButtonModel>, code: u16) -> int
    decreases buttons.len(),
{
    if buttons.len() == 0 {
        0
    } else {
        row_holds(buttons.drop_last(), code) + holds(buttons.last(), code)
    }
}

pub open spec fn overlays_hold(overlays: Seq<OverlayModel>, code: u16) -> int
    decreases overlays.len(),
{
    if overlays.len() == 0 {
        0
    } else {
        overlays_hold(overlays.drop_last(), code) + row_holds(overlays.last().set.buttons, code)
    }
}

pub open spec fn layer_holds(l: LayerModel, code: u16) -> int {
    row_holds(l.base.buttons, code) + overlays_hold(l.overlays, code) + row_holds(
        l.strip.buttons,
        code,
    )
}

/// How many pressed buttons of the bar hold a key down.
pub open spec fn bar_holds(b: BarModel, code: u16) -> int {
    layer_holds(b.layers[0], code) + layer_holds(b.layers[1], code)
}

/// What was sent for a key: downs less ups.
pub open spec fn balance(effects: Seq<Effect>, code: u16) -> int
    decreases effects.len(),
{
    if effects.len() == 0 {
        0
    } else {
        balance(effects.drop_last(), code) + match effects.last() {
            Effect::Key { code: c, down } => if c == code {
                if down {
                    1int
                } else {
                    -1int
                }
            } else {
                0int
            },
            _ => 0int,
        }
    }
}

pub(crate) proof fn lemma_balance_sum(a: Seq<Effect>, b: Seq<Effect>, code: u16)
    ensures
        balance(a + b, code) == balance(a, code) + balance(b, code),
    decreases b.len(),
{
    if b.len() == 0 {
        assert(a + b =~= a);
    } else {
        assert((a + b).drop_last() =~= a + b.drop_last());
        lemma_balance_sum(a, b.drop_last(), code);
    }
}

proof fn lemma_balance_keys(codes: Seq<u16>, down: bool, code: u16)
    ensures
        balance(codes.map_values(|c: u16| Effect::Key { code: c, down }), code) == (if down {
            occurrences(codes, code)
        } else {
            -occurrences(codes, code)
        }),
    decreases codes.len(),
{
    let events = codes.map_values(|c: u16| Effect::Key { code: c, down });
    if codes.len() > 0 {
        lemma_balance_keys(codes.drop_last(), down, code);
        assert(events.drop_last() =~= codes.drop_last().map_values(
            |c: u16| Effect::Key { code: c, down },
        ));
    }
}

/// Pressing or releasing a button sends exactly what it then holds more or
/// less.
pub proof fn presses_are_balanced(b: ButtonModel, active: bool, code: u16)
    ensures
        holds(pressed_to(b, active), code) == holds(b, code) + balance(
            press_effects(b, active),
            code,
        ),
        holds(let_go(b), code) == holds(b, code) + balance(press_effects(b, false), code),
{
    let codes = keys_of(b.action);
    lemma_balance_keys(codes, active, code);
    lemma_balance_keys(codes, false, code);
    let up = codes.map_values(|c: u16| Effect::Key { code: c, down: false });
    let other = codes.map_values(|c: u16| Effect::Key { code: c, down: active });
    assert(up.push(Effect::Report).drop_last() =~= up);
    assert(other.push(Effect::Report).drop_last() =~= other);
}

proof fn lemma_row_update(buttons: Seq<ButtonModel>, i: int, b: ButtonModel, code: u16)
    requires
        0 <= i < buttons.len(),
    ensures
        row_holds(buttons.update(i, b), code) == row_holds(buttons, code) - holds(
            buttons[i],
            code,
        ) + holds(b, code),
    decreases buttons.len(),
{
    let next = buttons.update(i, b);
    if i == buttons.len() - 1 {
        assert(next.drop_last() =~= buttons.drop_last());
    } else {
        lemma_row_update(buttons.drop_last(), i, b, code);
        assert(next.drop_last() =~= buttons.drop_last().update(i, b));
    }
}

proof fn lemma_overlay_update(overlays: Seq<OverlayModel>, i: int, o: OverlayModel, code: u16)
    requires
        0 <= i < overlays.len(),
    ensures
        overlays_hold(overlays.update(i, o), code) == overlays_hold(overlays, code) - row_holds(
            overlays[i].set.buttons,
            code,
        ) + row_holds(o.set.buttons, code),
    decreases overlays.len(),
{
    let next = overlays.update(i, o);
    if i == overlays.len() - 1 {
        assert(next.drop_last() =~= overlays.drop_last());
    } else {
        lemma_overlay_update(overlays.drop_last(), i, o, code);
        assert(next.drop_last() =~= overlays.drop_last().update(i, o));
    }
}

/// A layer with one button replaced holds what the new button holds in place
/// of the old one.
proof fn lemma_layer_update(l: LayerModel, key: KeyModel, index: usize, b: ButtonModel, code: u16)
    requires
        l.wf(),
        l.button_in(key, index) is Some,
    ensures
        layer_holds(l.with_button_in(key, index, b), code) == layer_holds(l, code) - holds(
            l.button_in(key, index)->0,
            code,
        ) + holds(b, code),
{
    lemma_slot(l, key);
    let slot = l.slot_of(key)->0;
    lemma_row_update(l.set_at(slot).buttons, index as int, b, code);
    if let Slot::Overlay(i) = slot {
        lemma_overlay_update(
            l.overlays,
            i as int,
            OverlayModel {
                name: l.overlays[i as int].name,
                set: with_button(l.set_at(slot), index as int, b),
            },
            code,
        );
    }
}

proof fn lemma_rows_alike(a: Seq<ButtonModel>, b: Seq<ButtonModel>, code: u16)
    requires
        a.len() == b.len(),
        forall|i: int|
            0 <= i < a.len() ==> (#[trigger] a[i]).pressed == b[i].pressed && a[i].action
                == b[i].action,
    ensures
        row_holds(a, code) == row_holds(b, code),
    decreases a.len(),
{
    if a.len() > 0 {
        let ra = a.drop_last();
        let rb = b.drop_last();
        assert forall|i: int| 0 <= i < ra.len() implies (#[trigger] ra[i]).pressed == rb[i].pressed
            && ra[i].action == rb[i].action by {
            assert(a[i].pressed == b[i].pressed);
        }
        lemma_rows_alike(ra, rb, code);
        assert(a[a.len() - 1].pressed == b[b.len() - 1].pressed);
    }
}

proof fn lemma_slot_alike(l: LayerModel, m: LayerModel, slot: Slot, code: u16)
    requires
        holds_alike(l, m),
        l.has_slot(slot),
    ensures
        row_holds(l.set_at(slot).buttons, code) == row_holds(m.set_at(slot).buttons, code),
{
    let a = l.set_at(slot).buttons;
    let b = m.set_at(slot).buttons;
    assert(m.set_at(slot).buttons.len() == l.set_at(slot).buttons.len());
    assert forall|i: int| 0 <= i < a.len() implies (#[trigger] a[i]).pressed == b[i].pressed
        && a[i].action == b[i].action by {
        let x = m.set_at(slot).buttons[i];
    }
    lemma_rows_alike(a, b, code);
}

proof fn lemma_overlays_alike(l: LayerModel, m: LayerModel, n: int, code: u16)
    requires
        holds_alike(l, m),
        l.overlays.len() == m.overlays.len() <= usize::MAX,
        0 <= n <= l.overlays.len(),
    ensures
        overlays_hold(l.overlays.take(n), code) == overlays_hold(m.overlays.take(n), code),
    decreases n,
{
    if n > 0 {
        lemma_overlays_alike(l, m, n - 1, code);
        assert(l.overlays.take(n).drop_last() =~= l.overlays.take(n - 1));
        assert(m.overlays.take(n).drop_last() =~= m.overlays.take(n - 1));
        lemma_slot_alike(l, m, Slot::Overlay((n - 1) as usize), code);
    }
}

/// Layers that hold alike hold every key equally often.
proof fn lemma_layers_alike(l: LayerModel, m: LayerModel, code: u16)
    requires
        holds_alike(l, m),
        l.overlays.len() <= usize::MAX,
        m.overlays.len() <= usize::MAX,
    ensures
        layer_holds(l, code) == layer_holds(m, code),
{
    if l.overlays.len() < m.overlays.len() {
        let slot = Slot::Overlay(l.overlays.len() as usize);
        assert(m.has_slot(slot) == l.has_slot(slot));
    } else if m.overlays.len() < l.overlays.len() {
        let slot = Slot::Overlay(m.overlays.len() as usize);
        assert(m.has_slot(slot) == l.has_slot(slot));
    }
    lemma_slot_alike(l, m, Slot::Base, code);
    lemma_slot_alike(l, m, Slot::Strip, code);
    let n = l.overlays.len() as int;
    lemma_overlays_alike(l, m, n, code);
    assert(l.overlays.take(n) =~= l.overlays);
    assert(m.overlays.take(n) =~= m.overlays);
}

proof fn lemma_row_quiet(buttons: Seq<ButtonModel>, code: u16)
    requires
        forall|i: int| 0 <= i < buttons.len() ==> !(#[trigger] buttons[i]).pressed,
    ensures
        row_holds(buttons, code) == 0,
    decreases buttons.len(),
{
    if buttons.len() > 0 {
        assert forall|i: int| 0 <= i < buttons.drop_last().len() implies !(
        #[trigger] buttons.drop_last()[i]).pressed by {
            assert(!buttons[i].pressed);
        }
        lemma_row_quiet(buttons.drop_last(), code);
        assert(!buttons[buttons.len() - 1].pressed);
    }
}

proof fn lemma_slot_quiet(layers: Seq<LayerModel>, l: int, slot: Slot, code: u16)
    requires
        quiet(layers),
        0 <= l < layers.len(),
        layers[l].has_slot(slot),
    ensures
        row_holds(layers[l].set_at(slot).buttons, code) == 0,
{
    let buttons = layers[l].set_at(slot).buttons;
    assert forall|i: int| 0 <= i < buttons.len() implies !(#[trigger] buttons[i]).pressed by {
        assert(exists_at(layers, l, slot, i));
        assert(!is_held(layers, l, slot, i));
    }
    lemma_row_quiet(buttons, code);
}

proof fn lemma_overlays_quiet(layers: Seq<LayerModel>, l: int, n: int, code: u16)
    requires
        quiet(layers),
        0 <= l < layers.len(),
        layers[l].overlays.len() <= usize::MAX,
        0 <= n <= layers[l].overlays.len(),
    ensures
        overlays_hold(layers[l].overlays.take(n), code) == 0,
    decreases n,
{
    if n > 0 {
        lemma_overlays_quiet(layers, l, n - 1, code);
        assert(layers[l].overlays.take(n).drop_last() =~= layers[l].overlays.take(n - 1));
        lemma_slot_quiet(layers, l, Slot::Overlay((n - 1) as usize), code);
    }
}

/// Quiet layers hold no key.
proof fn lemma_quiet_holds(layers: Seq<LayerModel>, l: int, code: u16)
    requires
        quiet(layers),
        0 <= l < layers.len(),
        layers[l].overlays.len() <= usize::MAX,
    ensures
        layer_holds(layers[l], code) == 0,
{
    lemma_slot_quiet(layers, l, Slot::Base, code);
    lemma_slot_quiet(layers, l, Slot::Strip, code);
    let n = layers[l].overlays.len() as int;
    lemma_overlays_quiet(layers, l, n, code);
    assert(layers[l].overlays.take(n) =~= layers[l].overlays);
}

/// A turn sends exactly what the bar then holds more or less.
pub open spec fn balanced(b: BarModel, turn: Turn, code: u16) -> bool {
    bar_holds(turn.bar, code) == bar_holds(b, code) + balance(turn.effects, code)
}

/// A bar in order on which no finger rests has every key up.
pub proof fn without_fingers_every_key_is_up(b: BarModel, code: u16)
    requires
        b.wf(),
        b.touches.len() == 0,
    ensures
        bar_holds(b, code) == 0,
{
    bars_without_fingers_hold_nothing(b);
    assert(b.layers[0].wf() && b.layers[1].wf());
    lemma_quiet_holds(b.layers, 0, code);
    lemma_quiet_holds(b.layers, 1, code);
}

pub(crate) proof fn lemma_stand_in_balanced(b: BarModel, at: int, m: LayerModel, code: u16)
    requires
        b.layers.len() == 2,
        0 <= at < 2,
        b.layers[at].wf(),
        m.wf(),
        holds_alike(b.layers[at], m),
    ensures
        bar_holds(b.with_layer(at, m), code) == bar_holds(b, code),
{
    lemma_layers_alike(b.layers[at], m, code);
}

proof fn lemma_step_balanced(b: BarModel, at: int, key: KeyModel, index: usize, nb: ButtonModel, code: u16)
    requires
        b.layers.len() == 2,
        0 <= at < 2,
        b.layers[at].wf(),
        b.layers[at].button_in(key, index) is Some,
    ensures
        bar_holds(b.with_layer(at, b.layers[at].with_button_in(key, index, nb)), code)
            == bar_holds(b, code) - holds(b.layers[at].button_in(key, index)->0, code) + holds(
            nb,
            code,
        ),
{
    lemma_layer_update(b.layers[at], key, index, nb, code);
}

proof fn lemma_pressed_balanced(b: BarModel, t: TouchModel, active: bool, code: u16)
    requires
        b.layers.len() == 2,
        t.layer < 2,
        b.layers[t.layer as int].wf(),
    ensures
        balanced(b, b.pressed(t, active), code),
{
    let l = b.layers[t.layer as int];
    match l.button_in(t.key, t.index) {
        Some(old) => {
            presses_are_balanced(old, active, code);
            lemma_step_balanced(b, t.layer as int, t.key, t.index, pressed_to(old, active), code);
        },
        None => {
            assert(b.pressed(t, active).bar.layers =~= b.layers);
        },
    }
}

proof fn lemma_let_go_balanced(layers: Seq<LayerModel>, t: TouchModel, code: u16)
    requires
        layers.len() == 2,
        t.layer < 2,
        all_wf(layers),
    ensures
        layer_holds(let_go_of(layers, t)[0], code) + layer_holds(let_go_of(layers, t)[1], code)
            == layer_holds(layers[0], code) + layer_holds(layers[1], code) + balance(
            let_go_effects(layers, t),
            code,
        ),
{
    let l = layers[t.layer as int];
    assert(l.wf());
    match l.button_in(t.key, t.index) {
        Some(old) => {
            presses_are_balanced(old, false, code);
            lemma_layer_update(l, t.key, t.index, let_go(old), code);
        },
        None => {
            assert(let_go_of(layers, t) =~= layers);
        },
    }
}

proof fn lemma_drain_balanced(layers: Seq<LayerModel>, touches: Seq<TouchModel>, code: u16)
    requires
        layers.len() == 2,
        all_wf(layers),
        on_layers(touches, 2),
    ensures
        drained(layers, touches).len() == 2,
        layer_holds(drained(layers, touches)[0], code) + layer_holds(
            drained(layers, touches)[1],
            code,
        ) == layer_holds(layers[0], code) + layer_holds(layers[1], code) + balance(
            drain_effects(layers, touches),
            code,
        ),
    decreases touches.len(),
{
    if touches.len() > 0 {
        let t = touches[0];
        let rest = touches.drop_first();
        let next = let_go_of(layers, t);
        assert(t.layer < 2);
        lemma_let_go_balanced(layers, t, code);
        lemma_let_go_wf(layers, t);
        assert forall|k: int| 0 <= k < rest.len() implies (#[trigger] rest[k]).layer < 2 by {
            assert(touches[k + 1].layer < 2);
        }
        lemma_drain_balanced(next, rest, code);
        lemma_balance_sum(let_go_effects(layers, t), drain_effects(next, rest), code);
    }
}

proof fn lemma_let_go_wf(layers: Seq<LayerModel>, t: TouchModel)
    requires
        all_wf(layers),
        t.layer < layers.len(),
    ensures
        all_wf(let_go_of(layers, t)),
{
    let l = layers[t.layer as int];
    assert(l.wf());
    if l.button_in(t.key, t.index) is Some {
        let b = l.button_in(t.key, t.index)->0;
        crate::layer::lemma_coherent(l, t.key, t.index);
        lemma_with_button(l, t.key, t.index, let_go(b));
    }
    assert forall|i: int| 0 <= i < layers.len() implies (#[trigger] let_go_of(
        layers,
        t,
    )[i]).wf() by {
        assert(layers[i].wf());
    }
}

proof fn lemma_drained_balanced(b: BarModel, code: u16)
    requires
        b.layers.len() == 2,
        all_wf(b.layers),
        on_layers(b.touches, 2),
    ensures
        balanced(b, b.drained(), code),
{
    lemma_drain_balanced(b.layers, b.touches, code);
}

proof fn lemma_slider_moves_hold(b: BarModel, t: TouchModel, value: Option<Scalar>, dragging: bool, code: u16)
    requires
        b.layers.len() == 2,
        t.layer < 2,
        b.layers[t.layer as int].wf(),
    ensures
        bar_holds(
            b.with_layer(
                t.layer as int,
                b.layers[t.layer as int].slider_updated(t.key, t.index, value, dragging),
            ),
            code,
        ) == bar_holds(b, code),
{
    let l = b.layers[t.layer as int];
    match l.button_in(t.key, t.index) {
        Some(old) => {
            let nb = dragged_to(old, value, dragging);
            lemma_step_balanced(b, t.layer as int, t.key, t.index, nb, code);
        },
        None => {
            assert(b.layers.update(t.layer as int, l) =~= b.layers);
        },
    }
}

proof fn lemma_slider_balance(target: SliderTarget, value: Scalar, code: u16)
    ensures
        balance(crate::bar::slider_effect(target, value), code) == 0,
{
    reveal_with_fuel(balance, 2);
    let e = crate::bar::slider_effect(target, value);
    assert(e.drop_last() =~= Seq::empty());
}

proof fn lemma_moved_balanced(
    b: BarModel,
    t: TouchModel,
    target: SliderTarget,
    value: Scalar,
    now: Moment,
    code: u16,
)
    requires
        b.layers.len() == 2,
        t.layer < 2,
        b.layers[t.layer as int].wf(),
    ensures
        balanced(b, b.moved(t, target, value, now), code),
{
    lemma_slider_moves_hold(b, t, Some(value), true, code);
    lemma_slider_balance(target, value, code);
}

proof fn lemma_drag_ended_balanced(
    b: BarModel,
    t: TouchModel,
    target: SliderTarget,
    now: Moment,
    code: u16,
)
    requires
        b.layers.len() == 2,
        t.layer < 2,
        b.layers[t.layer as int].wf(),
    ensures
        balanced(b, b.drag_ended(t, target, now), code),
{
    lemma_slider_moves_hold(b, t, None, false, code);
    if let Some(v) = b.throttle.waiting(target) {
        lemma_slider_balance(target, v, code);
    }
}

proof fn lemma_closed_balanced(b: BarModel, readings: SliderReadings, code: u16)
    requires
        b.wf(),
    ensures
        bar_holds(b.closed(readings), code) == bar_holds(b, code),
        bar_holds(b.with_layer(b.active as int, b.layer().closed_all()), code) == bar_holds(
            b,
            code,
        ),
{
    let l = b.layer();
    assert(l.wf());
    lemma_layer_closed(l);
    lemma_layer_synced(l.closed_all(), readings);
    lemma_alike_chain(l, l.closed_all(), l.closed_all().sliders_synced(readings));
    lemma_stand_in_balanced(b, b.active as int, l.closed_all(), code);
    lemma_stand_in_balanced(
        b,
        b.active as int,
        l.closed_all().sliders_synced(readings),
        code,
    );
}

proof fn lemma_touched_balanced(b: BarModel, now: Moment, code: u16)
    requires
        b.wf(),
    ensures
        bar_holds(b.touched(now), code) == bar_holds(b, code),
{
    lemma_touched(b, now);
    assert(b.layer().wf());
    assert(b.touched(now).layers[b.active as int].wf());
    lemma_stand_in_balanced(b, b.active as int, b.layer().touched(now), code);
}

/// A finger that comes down sends exactly what the bar then holds more.
pub proof fn downs_are_balanced(
    b: BarModel,
    slot: u32,
    hit: HitModel,
    value: Option<Scalar>,
    readings: SliderReadings,
    now: Moment,
    code: u16,
)
    requires
        b.wf(),
        hit matches HitModel::Button(key, index) ==> b.layer().shows(key) && b.layer().button_in(
            key,
            index,
        ) is Some,
    ensures
        balanced(b, b.down(slot, hit, value, readings, now), code),
{
    lemma_touched(b, now);
    lemma_touched_balanced(b, now, code);
    let c = b.touched(now);
    match hit {
        HitModel::Button(key, index) => {
            lemma_freed(c, slot);
            lemma_find_touch(c.touches, slot);
            let k = find_touch(c.touches, slot) as int;
            if k < c.touches.len() {
                assert(c.touches[k].layer == c.active);
                lemma_let_go_balanced(c.layers, c.touches[k], code);
            }
            let freed = c.freed(slot);
            let d = freed.bar;
            assert(d.layer().wf());
            let t = TouchModel { slot, layer: d.active, key, index };
            let e = BarModel { touches: d.touches.push(t), ..d };
            match d.layer().slider_at(key, index) {
                Some(target) => {
                    if let Some(v) = value {
                        lemma_moved_balanced(e, t, target, v, now, code);
                    }
                },
                None => {
                    lemma_pressed_balanced(e, t, true, code);
                },
            }
            let landed = d.landed(slot, key, index, value, now);
            assert(balanced(d, landed, code));
            lemma_balance_sum(freed.effects, landed.effects, code);
        },
        HitModel::OutsideControls => {
            lemma_drained(c);
            lemma_drained_balanced(c, code);
            lemma_closed_balanced(c.drained().bar, readings, code);
        },
        HitModel::Miss => {},
    }
}

/// A finger that moves sends exactly what the bar then holds more or less.
pub proof fn motions_are_balanced(
    b: BarModel,
    slot: u32,
    value: Option<Scalar>,
    hit: bool,
    now: Moment,
    code: u16,
)
    requires
        b.wf(),
    ensures
        balanced(b, b.motion(slot, value, hit, now), code),
{
    lemma_touched(b, now);
    lemma_touched_balanced(b, now, code);
    let c = b.touched(now);
    lemma_find_touch(c.touches, slot);
    let k = find_touch(c.touches, slot) as int;
    if k < c.touches.len() {
        let t = c.touches[k];
        assert(t.layer == c.active);
        assert(c.layer().wf());
        match c.layer().slider_at(t.key, t.index) {
            Some(target) => {
                if let Some(v) = value {
                    lemma_moved_balanced(c, t, target, v, now, code);
                }
            },
            None => {
                lemma_pressed_balanced(c, t, hit, code);
            },
        }
    }
}

proof fn lemma_tapped_balanced(
    b: BarModel,
    action: ActionModel,
    anchor: Option<Scalar>,
    readings: SliderReadings,
    now: Moment,
    code: u16,
)
    requires
        b.wf(),
    ensures
        balanced(b, b.tapped(b.active as int, action, anchor, readings, now), code),
{
    let at = b.active as int;
    let l = b.layers[at];
    assert(l.wf());
    if let ActionModel::FocusWorkspace(id) = action {
        reveal_with_fuel(balance, 2);
        let e = seq![Effect::Focus(id)];
        assert(e.drop_last() =~= Seq::empty());
    } else if l.activates(action) {
        lemma_layer_activated(l, action, anchor, now);
        lemma_stand_in_balanced(b, at, l.activated(action, anchor, now), code);
        let c = b.with_layer(at, l.activated(action, anchor, now));
        lemma_activated(b, action, anchor, now);
        lemma_drained_balanced(c, code);
        let d = c.drained().bar;
        assert(d.layers[at].wf());
        lemma_layer_synced(d.layers[at], readings);
        lemma_stand_in_balanced(d, at, d.layers[at].sliders_synced(readings), code);
    }
}

/// A finger that is lifted sends exactly what the bar then holds less.
pub proof fn ups_are_balanced(
    b: BarModel,
    slot: u32,
    anchor: Option<Scalar>,
    readings: SliderReadings,
    now: Moment,
    code: u16,
)
    requires
        b.wf(),
    ensures
        balanced(b, b.up(slot, anchor, readings, now), code),
{
    lemma_touched(b, now);
    lemma_touched_balanced(b, now, code);
    let c = b.touched(now);
    lemma_find_touch(c.touches, slot);
    let k = find_touch(c.touches, slot) as int;
    if k < c.touches.len() {
        let t = c.touches[k];
        assert(t.layer == c.active);
        assert(c.layer().wf());
        let rest = c.forgotten(k);
        match c.layer().slider_at(t.key, t.index) {
            Some(target) => {
                lemma_drag_ended_balanced(rest, t, target, now, code);
            },
            None => {
                lemma_released(c, k);
                lemma_pressed_balanced(rest, t, false, code);
                let released = rest.pressed(t, false);
                let button = c.layer().button_in(t.key, t.index)->0;
                assert(released.bar.active == c.active);
                lemma_tapped_balanced(released.bar, button.action, anchor, readings, now, code);
                let tapped = released.bar.tapped(
                    t.layer as int,
                    button.action,
                    anchor,
                    readings,
                    now,
                );
                lemma_balance_sum(released.effects, tapped.effects, code);
            },
        }
    }
}

/// A cancelled touch sends exactly what the bar then holds less.
pub proof fn cancels_are_balanced(b: BarModel, slot: u32, now: Moment, code: u16)
    requires
        b.wf(),
    ensures
        balanced(b, b.cancel(slot, now), code),
{
    lemma_touched(b, now);
    lemma_touched_balanced(b, now, code);
    let c = b.touched(now);
    lemma_find_touch(c.touches, slot);
    let k = find_touch(c.touches, slot) as int;
    if k < c.touches.len() {
        let t = c.touches[k];
        assert(t.layer == c.active);
        assert(c.layer().wf());
        let rest = c.forgotten(k);
        match c.layer().slider_at(t.key, t.index) {
            Some(target) => {
                lemma_drag_ended_balanced(rest, t, target, now, code);
            },
            None => {
                lemma_pressed_balanced(rest, t, false, code);
            },
        }
    }
}

/// The function key lets go of every key that it hides.
pub proof fn fn_keys_are_balanced(
    b: BarModel,
    down: bool,
    double_press_ms: u32,
    now: Moment,
    code: u16,
)
    requires
        b.wf(),
    ensures
        balanced(b, b.fn_key(down, double_press_ms, now), code),
{
    fn_keys_keep_the_bar_in_order(b, down, double_press_ms, now);
    lemma_drained(b);
    lemma_drained_balanced(b, code);
    let first = b.double_pressed(down, double_press_ms, now);
    assert(balanced(b, first, code));
    let c = first.bar;
    lemma_drained(c);
    lemma_drained_balanced(c, code);
    let none = SliderReadings { display: None, keyboard: None, volume: None };
    lemma_closed_balanced(c.drained().bar, none, code);
    let to: usize = if down {
        1
    } else {
        0
    };
    let second = c.switched(to);
    assert(balanced(c, second, code));
    lemma_balance_sum(first.effects, second.effects, code);
}

/// A new configuration lets go of every key of the old one.
pub proof fn reloads_are_balanced(b: BarModel, layers: Seq<LayerModel>, code: u16)
    requires
        b.wf(),
        layers.len() == 2,
        all_wf(layers),
        quiet(layers),
    ensures
        balanced(b, b.reloaded(layers), code),
{
    lemma_drained(b);
    lemma_drained_balanced(b, code);
    let d = b.drained().bar;
    without_fingers_every_key_is_up(d, code);
    assert(layers[0].wf() && layers[1].wf());
    lemma_quiet_holds(layers, 0, code);
    lemma_quiet_holds(layers, 1, code);
}

/// Staged workspaces let go of every key before a strip is rebuilt, and
/// touch none otherwise.
pub proof fn staging_is_balanced(b: BarModel, now: Moment, code: u16)
    requires
        b.wf(),
    ensures
        balanced(b, b.staged_applied(now), code),
{
    if let Some(model) = b.staged {
        if b.may_apply(model, now) {
            if any_structure(b.layers, model) {
                lemma_drained(b);
                lemma_drained_balanced(b, code);
                let d = b.drained().bar;
                without_fingers_every_key_is_up(d, code);
                lemma_strips_quiet(d.layers, model);
                let after = strips_applied(d.layers, model);
                assert(after[0].wf() && after[1].wf());
                lemma_quiet_holds(after, 0, code);
                lemma_quiet_holds(after, 1, code);
            } else {
                assert(b.layers[0].wf() && b.layers[1].wf());
                lemma_decoration_alike(b.layers[0], model);
                lemma_decoration_alike(b.layers[1], model);
                lemma_layers_alike(b.layers[0], b.layers[0].strip_applied(model), code);
                lemma_layers_alike(b.layers[1], b.layers[1].strip_applied(model), code);
            }
        }
    }
}

/// Timeouts, news, slider positions and the clock move no key.
pub proof fn quiet_events_move_no_key(
    b: BarModel,
    now: Moment,
    timeout: u64,
    readings: SliderReadings,
    applied: bool,
    fresh: bool,
    model: Seq<Seq<WsEntry>>,
    second: u32,
    minute: u32,
    code: u16,
)
    requires
        b.wf(),
    ensures
        bar_holds(b.timed_out(now, timeout, readings), code) == bar_holds(b, code),
        bar_holds(b.news(applied, fresh, model, readings), code) == bar_holds(b, code),
        bar_holds(b.ticked(second, minute), code) == bar_holds(b, code),
        balanced(b, b.due_sent(now), code),
{
    lemma_closed_balanced(b, readings, code);
    assert(b.layers[0].wf() && b.layers[1].wf());
    lemma_layer_synced(b.layers[0], readings);
    lemma_layer_synced(b.layers[1], readings);
    lemma_layers_alike(b.layers[0], b.layers[0].sliders_synced(readings), code);
    lemma_layers_alike(b.layers[1], b.layers[1].sliders_synced(readings), code);
    let l = b.layer();
    lemma_controls_each(l, |x: ButtonModel| marked_if_battery(x));
    lemma_stand_in_balanced(b, b.active as int, l.batteries_marked(), code);
    let k = crate::throttle::first_waiting(b.throttle.pending) as int;
    lemma_slider_balance(crate::bar::waiting_target(k), b.throttle.pending[k]->0, code);
}

} // verus!
