//! Whatever happens to the bar, its strips show the workspaces that were
//! applied last, and nothing else.
use crate::bar::{find_touch, BarModel};
use crate::bar_laws::{
    lemma_drained, lemma_find_touch, lemma_touched, news_keep_the_bar_in_order,
    staging_keeps_the_bar_in_order,
};
use crate::button::{dragged_to, let_go, pressed_to, ActionModel, ButtonModel, ConfigError};
use crate::button_set::{drawn, each, marked, marked_if_battery, set_of, synced, SliderReadings};
use crate::config::{ButtonConfigModel, SliderTarget, WorkspacesModel};
use crate::helper_proto::WsEntry;
use crate::layer::{FrameModel, KeyModel, LayerKind, LayerModel, Slot};
use crate::layer_config::{configured_layers_are_well_formed, layer_of, ControlGroupModel};
use crate::layer_hit::HitModel;
use crate::layer_strip::{
    nothing_restores_the_fallback, same_look, same_looks, shows_entry,
    strips_show_what_was_applied,
};
use crate::moment::Moment;
use crate::scalar::Scalar;
use crate::strip::{flat, truncated};
use crate::touches::{all_wf, drained, let_go_of, on_layers, strips_applied, TouchModel};
use vstd::prelude::*;

verus! {

/// Every strip shows the workspaces that its layer remembers.
pub open spec fn strips_true(layers: Seq<LayerModel>) -> bool {
    forall|l: int|
        0 <= l < layers.len() && (#[trigger] layers[l]).kind == LayerKind::Regions
            ==> layers[l].shows_its_model()
}

/// The strips of two layers look alike and stand for the same workspaces.
spec fn same_face(l: LayerModel, m: LayerModel) -> bool {
    &&& l.kind == m.kind
    &&& l.model == m.model
    &&& l.max_buttons == m.max_buttons
    &&& l.fallback == m.fallback
    &&& same_looks(l.strip.buttons, m.strip.buttons)
}

spec fn same_faces(a: Seq<LayerModel>, b: Seq<LayerModel>) -> bool {
    &&& a.len() == b.len()
    &&& forall|l: int| 0 <= l < a.len() ==> same_face(#[trigger] a[l], b[l])
}

proof fn lemma_face(l: LayerModel, m: LayerModel)
    requires
        same_face(l, m),
        l.shows_its_model(),
    ensures
        m.shows_its_model(),
{
    let row = flat(l.model);
    if row.len() == 0 {
        let rest = set_of(l.fallback, None)->Ok_0.buttons;
        assert forall|i: int| 0 <= i < rest.len() implies same_look(
            #[trigger] rest[i],
            m.strip.buttons[i],
        ) by {
            assert(same_look(rest[i], l.strip.buttons[i]));
            assert(same_look(l.strip.buttons[i], m.strip.buttons[i]));
        }
    } else {
        assert forall|i: int| 0 <= i < row.len() implies shows_entry(
            #[trigger] m.strip.buttons[i],
            row[i],
        ) by {
            assert(shows_entry(l.strip.buttons[i], row[i]));
            assert(same_look(l.strip.buttons[i], m.strip.buttons[i]));
        }
    }
}

proof fn lemma_faces(a: Seq<LayerModel>, b: Seq<LayerModel>)
    requires
        same_faces(a, b),
        strips_true(a),
    ensures
        strips_true(b),
{
    assert forall|l: int| 0 <= l < b.len() && (#[trigger] b[l]).kind == LayerKind::Regions implies
        b[l].shows_its_model() by {
        assert(same_face(a[l], b[l]));
        lemma_face(a[l], b[l]);
    }
}

proof fn lemma_faces_follow(a: Seq<LayerModel>, b: Seq<LayerModel>, c: Seq<LayerModel>)
    requires
        same_faces(a, b),
        same_faces(b, c),
    ensures
        same_faces(a, c),
{
    assert forall|l: int| 0 <= l < a.len() implies same_face(#[trigger] a[l], c[l]) by {
        assert(same_face(a[l], b[l]));
        assert(same_face(b[l], c[l]));
        lemma_face_follows(a[l], b[l], c[l]);
    }
}

proof fn lemma_face_follows(a: LayerModel, b: LayerModel, c: LayerModel)
    requires
        same_face(a, b),
        same_face(b, c),
    ensures
        same_face(a, c),
{
    assert forall|i: int| 0 <= i < a.strip.buttons.len() implies same_look(
        #[trigger] a.strip.buttons[i],
        c.strip.buttons[i],
    ) by {
        assert(same_look(a.strip.buttons[i], b.strip.buttons[i]));
        assert(same_look(b.strip.buttons[i], c.strip.buttons[i]));
    }
}

proof fn lemma_same_faces(a: Seq<LayerModel>)
    ensures
        same_faces(a, a),
{
}

/// Replacing one layer by one with the same face.
proof fn lemma_one_face(a: Seq<LayerModel>, at: int, m: LayerModel)
    requires
        0 <= at < a.len(),
        same_face(a[at], m),
    ensures
        same_faces(a, a.update(at, m)),
{
}

spec fn keeps_look(f: spec_fn(ButtonModel) -> ButtonModel) -> bool {
    forall|b: ButtonModel| same_look(b, #[trigger] f(b))
}

proof fn lemma_each_face(l: LayerModel, slot: Slot, f: spec_fn(ButtonModel) -> ButtonModel)
    requires
        keeps_look(f),
    ensures
        same_face(l, l.with_set(slot, each(l.set_at(slot), f))),
{
    let m = l.with_set(slot, each(l.set_at(slot), f));
    assert forall|i: int| 0 <= i < l.strip.buttons.len() implies same_look(
        #[trigger] l.strip.buttons[i],
        m.strip.buttons[i],
    ) by {
        assert(same_look(l.strip.buttons[i], f(l.strip.buttons[i])));
    }
}

proof fn lemma_button_face(l: LayerModel, key: KeyModel, index: usize, b: ButtonModel)
    requires
        l.button_in(key, index) matches Some(old) ==> same_look(old, b),
    ensures
        same_face(l, l.with_button_in(key, index, b)),
{
}

proof fn lemma_marks_face(l: LayerModel)
    ensures
        same_face(l, l.controls_marked()),
        same_face(l, l.batteries_marked()),
        same_face(l, l.painted()),
{
    lemma_each_face(l, l.controls_slot(), |b: ButtonModel| marked(b));
    lemma_each_face(l, l.controls_slot(), |b: ButtonModel| marked_if_battery(b));
    let f = |b: ButtonModel| drawn(b);
    assert(keeps_look(f));
    assert forall|i: int| 0 <= i < l.strip.buttons.len() implies same_look(
        #[trigger] l.strip.buttons[i],
        l.painted().strip.buttons[i],
    ) by {
        assert(same_look(l.strip.buttons[i], f(l.strip.buttons[i])));
    }
}

proof fn lemma_synced_face(l: LayerModel, readings: SliderReadings)
    ensures
        same_face(l, l.sliders_synced(readings)),
{
    lemma_each_face(l, l.controls_slot(), |b: ButtonModel| synced(b, readings));
}

proof fn lemma_closed_face(l: LayerModel)
    ensures
        same_face(l, l.closed_all()),
{
    let m = LayerModel { stack: Seq::empty(), touched_at: None, ..l };
    lemma_marks_face(m);
    assert(same_face(l, m));
    lemma_face_follows(l, m, m.controls_marked());
}

proof fn lemma_activated_face(l: LayerModel, action: ActionModel, anchor: Option<Scalar>, now: Moment)
    ensures
        same_face(l, l.activated(action, anchor, now)),
{
    match action {
        ActionModel::OpenOverlay(name) => {
            let m = LayerModel {
                stack: l.stack.push(FrameModel { name, anchor_x: anchor }),
                touched_at: Some(now),
                ..l
            };
            lemma_marks_face(m);
            lemma_face_follows(l, m, m.controls_marked());
        },
        ActionModel::CloseOverlay => {
            let m = LayerModel {
                stack: l.stack.drop_last(),
                touched_at: if l.stack.len() > 1 {
                    Some(now)
                } else {
                    None
                },
                ..l
            };
            lemma_marks_face(m);
            lemma_face_follows(l, m, m.controls_marked());
        },
        _ => {},
    }
}

proof fn lemma_let_go_face(layers: Seq<LayerModel>, t: TouchModel)
    requires
        t.layer < layers.len(),
    ensures
        same_faces(layers, let_go_of(layers, t)),
{
    let l = layers[t.layer as int];
    if let Some(b) = l.button_in(t.key, t.index) {
        lemma_button_face(l, t.key, t.index, let_go(b));
    }
}

proof fn lemma_drained_faces(layers: Seq<LayerModel>, touches: Seq<TouchModel>)
    requires
        on_layers(touches, layers.len()),
    ensures
        same_faces(layers, drained(layers, touches)),
    decreases touches.len(),
{
    if touches.len() > 0 {
        let rest = touches.drop_first();
        let next = let_go_of(layers, touches[0]);
        lemma_let_go_face(layers, touches[0]);
        assert forall|k: int| 0 <= k < rest.len() implies (#[trigger] rest[k]).layer
            < next.len() by {
            assert(touches[k + 1].layer < layers.len());
        }
        lemma_drained_faces(next, rest);
        lemma_faces_follow(layers, next, drained(next, rest));
    }
}

proof fn lemma_bar_drained(b: BarModel)
    requires
        b.layers.len() == 2,
        on_layers(b.touches, 2),
    ensures
        same_faces(b.layers, b.drained().bar.layers),
{
    lemma_drained_faces(b.layers, b.touches);
}

proof fn lemma_closed_faces(b: BarModel, readings: SliderReadings)
    requires
        b.layers.len() == 2,
        b.active < 2,
    ensures
        same_faces(b.layers, b.closed(readings).layers),
{
    let l = b.layer();
    lemma_closed_face(l);
    lemma_synced_face(l.closed_all(), readings);
    lemma_face_follows(l, l.closed_all(), l.closed_all().sliders_synced(readings));
    lemma_one_face(b.layers, b.active as int, l.closed_all().sliders_synced(readings));
}

proof fn lemma_moved_faces(
    b: BarModel,
    t: TouchModel,
    target: SliderTarget,
    value: Scalar,
    now: Moment,
)
    requires
        t.layer < b.layers.len(),
    ensures
        same_faces(b.layers, b.moved(t, target, value, now).bar.layers),
{
    let l = b.layers[t.layer as int];
    if let Some(button) = l.button_in(t.key, t.index) {
        lemma_button_face(l, t.key, t.index, dragged_to(button, Some(value), true));
    }
}

proof fn lemma_pressed_faces(b: BarModel, t: TouchModel, active: bool)
    requires
        t.layer < b.layers.len(),
    ensures
        same_faces(b.layers, b.pressed(t, active).bar.layers),
{
    let l = b.layers[t.layer as int];
    if let Some(button) = l.button_in(t.key, t.index) {
        lemma_button_face(l, t.key, t.index, pressed_to(button, active));
    }
}

proof fn lemma_drag_ended_faces(b: BarModel, t: TouchModel, target: SliderTarget, now: Moment)
    requires
        t.layer < b.layers.len(),
    ensures
        same_faces(b.layers, b.drag_ended(t, target, now).bar.layers),
{
    let l = b.layers[t.layer as int];
    if let Some(button) = l.button_in(t.key, t.index) {
        lemma_button_face(l, t.key, t.index, dragged_to(button, None, false));
    }
}

proof fn lemma_touched_faces(b: BarModel, now: Moment)
    requires
        b.wf(),
    ensures
        same_faces(b.layers, b.touched(now).layers),
        b.touched(now).wf(),
{
    lemma_touched(b, now);
    lemma_one_face(b.layers, b.active as int, b.layer().touched(now));
}

proof fn lemma_landed_faces(
    b: BarModel,
    slot: u32,
    key: KeyModel,
    index: usize,
    value: Option<Scalar>,
    now: Moment,
)
    requires
        b.active < b.layers.len(),
    ensures
        same_faces(b.layers, b.landed(slot, key, index, value, now).bar.layers),
{
    let t = TouchModel { slot, layer: b.active, key, index };
    let with_touch = BarModel { touches: b.touches.push(t), ..b };
    lemma_pressed_faces(with_touch, t, true);
    if let (Some(target), Some(v)) = (b.layer().slider_at(key, index), value) {
        lemma_moved_faces(with_touch, t, target, v, now);
    }
}

proof fn lemma_down_faces(
    c: BarModel,
    slot: u32,
    hit: HitModel,
    value: Option<Scalar>,
    readings: SliderReadings,
    now: Moment,
)
    requires
        c.wf(),
        strips_true(c.layers),
    ensures
        hit matches HitModel::Button(key, index) ==> strips_true(
            c.freed(slot).bar.landed(slot, key, index, value, now).bar.layers,
        ),
        strips_true(c.drained().bar.closed(readings).layers),
{
    lemma_find_touch(c.touches, slot);
    let k = find_touch(c.touches, slot) as int;
    if k < c.touches.len() {
        assert(c.touches[k].layer == c.active);
        lemma_let_go_face(c.layers, c.touches[k]);
    } else {
        lemma_same_faces(c.layers);
    }
    let freed = c.freed(slot).bar;
    lemma_faces(c.layers, freed.layers);
    if let HitModel::Button(key, index) = hit {
        lemma_landed_faces(freed, slot, key, index, value, now);
        lemma_faces(freed.layers, freed.landed(slot, key, index, value, now).bar.layers);
    }
    lemma_drained(c);
    assert(on_layers(c.touches, 2));
    lemma_bar_drained(c);
    let d = c.drained().bar;
    lemma_faces(c.layers, d.layers);
    lemma_closed_faces(d, readings);
    lemma_faces(d.layers, d.closed(readings).layers);
}

proof fn lemma_motion_faces(
    b: BarModel,
    slot: u32,
    value: Option<Scalar>,
    on_button: bool,
    now: Moment,
)
    requires
        b.wf(),
        strips_true(b.layers),
    ensures
        strips_true(b.motion(slot, value, on_button, now).bar.layers),
{
    let c = b.touched(now);
    lemma_touched_faces(b, now);
    lemma_faces(b.layers, c.layers);
    lemma_find_touch(c.touches, slot);
    let k = find_touch(c.touches, slot) as int;
    if k < c.touches.len() {
        let t = c.touches[k];
        assert(t.layer == c.active);
        lemma_pressed_faces(c, t, on_button);
        lemma_faces(c.layers, c.pressed(t, on_button).bar.layers);
        if let (Some(target), Some(v)) = (c.layer().slider_at(t.key, t.index), value) {
            lemma_moved_faces(c, t, target, v, now);
            lemma_faces(c.layers, c.moved(t, target, v, now).bar.layers);
        }
    }
}

proof fn lemma_cancel_faces(b: BarModel, slot: u32, now: Moment)
    requires
        b.wf(),
        strips_true(b.layers),
    ensures
        strips_true(b.cancel(slot, now).bar.layers),
{
    let c = b.touched(now);
    lemma_touched_faces(b, now);
    lemma_faces(b.layers, c.layers);
    lemma_find_touch(c.touches, slot);
    let k = find_touch(c.touches, slot) as int;
    if k < c.touches.len() {
        let t = c.touches[k];
        assert(t.layer == c.active);
        let rest = c.forgotten(k);
        lemma_pressed_faces(rest, t, false);
        lemma_faces(rest.layers, rest.pressed(t, false).bar.layers);
        if let Some(target) = c.layer().slider_at(t.key, t.index) {
            lemma_drag_ended_faces(rest, t, target, now);
            lemma_faces(rest.layers, rest.drag_ended(t, target, now).bar.layers);
        }
    }
}

proof fn lemma_tapped_faces(
    b: BarModel,
    at: int,
    action: ActionModel,
    anchor: Option<Scalar>,
    readings: SliderReadings,
    now: Moment,
)
    requires
        b.layers.len() == 2,
        0 <= at < 2,
        on_layers(b.touches, 2),
    ensures
        same_faces(b.layers, b.tapped(at, action, anchor, readings, now).bar.layers),
{
    lemma_same_faces(b.layers);
    let l = b.layers[at];
    if l.activates(action) {
        lemma_activated_face(l, action, anchor, now);
        let opened = b.with_layer(at, l.activated(action, anchor, now));
        lemma_one_face(b.layers, at, l.activated(action, anchor, now));
        lemma_bar_drained(opened);
        let d = opened.drained().bar;
        lemma_faces_follow(b.layers, opened.layers, d.layers);
        lemma_synced_face(d.layers[at], readings);
        lemma_one_face(d.layers, at, d.layers[at].sliders_synced(readings));
        lemma_faces_follow(
            b.layers,
            d.layers,
            d.with_layer(at, d.layers[at].sliders_synced(readings)).layers,
        );
    }
}

proof fn lemma_up_faces(
    b: BarModel,
    slot: u32,
    anchor: Option<Scalar>,
    readings: SliderReadings,
    now: Moment,
)
    requires
        b.wf(),
        strips_true(b.layers),
    ensures
        strips_true(b.up(slot, anchor, readings, now).bar.layers),
{
    let c = b.touched(now);
    lemma_touched_faces(b, now);
    lemma_faces(b.layers, c.layers);
    lemma_find_touch(c.touches, slot);
    let k = find_touch(c.touches, slot) as int;
    if k < c.touches.len() {
        let t = c.touches[k];
        assert(t.layer == c.active);
        let rest = c.forgotten(k);
        assert forall|n: int| 0 <= n < rest.touches.len() implies (
        #[trigger] rest.touches[n]).layer < 2 by {
            let m = if n < k {
                n
            } else {
                n + 1
            };
            assert(rest.touches[n] == c.touches[m]);
            assert(c.touches[m].layer == c.active);
        }
        lemma_pressed_faces(rest, t, false);
        let released = rest.pressed(t, false).bar;
        lemma_faces(rest.layers, released.layers);
        if let Some(target) = c.layer().slider_at(t.key, t.index) {
            lemma_drag_ended_faces(rest, t, target, now);
            lemma_faces(rest.layers, rest.drag_ended(t, target, now).bar.layers);
        } else if let Some(button) = c.layer().button_in(t.key, t.index) {
            lemma_tapped_faces(released, t.layer as int, button.action, anchor, readings, now);
            lemma_faces(
                released.layers,
                released.tapped(
                    t.layer as int,
                    button.action,
                    anchor,
                    readings,
                    now,
                ).bar.layers,
            );
        }
    }
}

/// Fingers that come down, move, are lifted or are cancelled leave every
/// strip showing what was applied last.
pub proof fn fingers_leave_strips_true(
    b: BarModel,
    slot: u32,
    hit: HitModel,
    value: Option<Scalar>,
    on_button: bool,
    anchor: Option<Scalar>,
    readings: SliderReadings,
    now: Moment,
)
    requires
        b.wf(),
        strips_true(b.layers),
    ensures
        strips_true(b.down(slot, hit, value, readings, now).bar.layers),
        strips_true(b.motion(slot, value, on_button, now).bar.layers),
        strips_true(b.up(slot, anchor, readings, now).bar.layers),
        strips_true(b.cancel(slot, now).bar.layers),
{
    let c = b.touched(now);
    lemma_touched_faces(b, now);
    lemma_faces(b.layers, c.layers);
    lemma_down_faces(c, slot, hit, value, readings, now);
    lemma_motion_faces(b, slot, value, on_button, now);
    lemma_up_faces(b, slot, anchor, readings, now);
    lemma_cancel_faces(b, slot, now);
}

proof fn lemma_fn_key_faces(b: BarModel, down: bool, double_press_ms: u32, now: Moment)
    requires
        b.wf(),
        strips_true(b.layers),
    ensures
        strips_true(b.fn_key(down, double_press_ms, now).bar.layers),
{
    assert(on_layers(b.touches, 2));
    lemma_bar_drained(b);
    let d = b.drained().bar;
    lemma_faces(b.layers, d.layers);
    let first = b.double_pressed(down, double_press_ms, now).bar;
    assert(strips_true(first.layers)) by {
        assert(strips_true(d.swapped().layers)) by {
            assert(d.layers[0].kind == LayerKind::Regions ==> d.layers[0].shows_its_model());
            assert(d.layers[1].kind == LayerKind::Regions ==> d.layers[1].shows_its_model());
        }
    }
    assert(on_layers(first.touches, 2));
    lemma_bar_drained(first);
    let e = first.drained().bar;
    lemma_faces(first.layers, e.layers);
    lemma_closed_face(e.layer());
    lemma_one_face(e.layers, e.active as int, e.layer().closed_all());
    lemma_faces(e.layers, e.with_layer(e.active as int, e.layer().closed_all()).layers);
}

/// The function key, timeouts, slider positions that were due, the clock
/// and drawing leave every strip showing what was applied last; so does a
/// new configuration whose strips are true.
pub proof fn other_events_leave_strips_true(
    b: BarModel,
    down: bool,
    double_press_ms: u32,
    timeout: u64,
    readings: SliderReadings,
    second: u32,
    minute: u32,
    layers: Seq<LayerModel>,
    now: Moment,
)
    requires
        b.wf(),
        strips_true(b.layers),
        strips_true(layers),
    ensures
        strips_true(b.fn_key(down, double_press_ms, now).bar.layers),
        strips_true(b.timed_out(now, timeout, readings).layers),
        strips_true(b.due_sent(now).bar.layers),
        strips_true(b.ticked(second, minute).layers),
        strips_true(b.with_layer(b.active as int, b.layer().painted()).layers),
        strips_true(b.reloaded(layers).bar.layers),
{
    lemma_fn_key_faces(b, down, double_press_ms, now);
    lemma_closed_faces(b, readings);
    lemma_faces(b.layers, b.closed(readings).layers);
    lemma_marks_face(b.layer());
    lemma_one_face(b.layers, b.active as int, b.layer().batteries_marked());
    lemma_faces(b.layers, b.with_layer(b.active as int, b.layer().batteries_marked()).layers);
    lemma_one_face(b.layers, b.active as int, b.layer().painted());
    lemma_faces(b.layers, b.with_layer(b.active as int, b.layer().painted()).layers);
}

proof fn lemma_news_faces(
    b: BarModel,
    applied: bool,
    fresh: bool,
    model: Seq<Seq<WsEntry>>,
    readings: SliderReadings,
)
    ensures
        same_faces(b.layers, b.news(applied, fresh, model, readings).layers),
{
    assert forall|l: int| 0 <= l < b.layers.len() implies same_face(
        #[trigger] b.layers[l],
        b.synced(readings).layers[l],
    ) by {
        lemma_synced_face(b.layers[l], readings);
    }
}

/// News from the companion and the workspaces that it staged leave every
/// strip showing what was applied last. Workspaces that may be applied are
/// what every strip shows from then on, as far as they fit.
pub proof fn applied_workspaces_are_shown(
    b: BarModel,
    applied: bool,
    fresh: bool,
    model: Seq<Seq<WsEntry>>,
    readings: SliderReadings,
    now: Moment,
)
    requires
        b.wf(),
        strips_true(b.layers),
    ensures
        strips_true(b.news(applied, fresh, model, readings).layers),
        strips_true(b.staged_applied(now).bar.layers),
        b.staged is Some && b.may_apply(b.staged->0, now) ==> {
            let after = b.staged_applied(now).bar;
            forall|l: int|
                0 <= l < 2 && (#[trigger] after.layers[l]).kind == LayerKind::Regions
                    ==> after.layers[l].model == truncated(
                    b.staged->0,
                    after.layers[l].max_buttons as nat,
                )
        },
{
    lemma_news_faces(b, applied, fresh, model, readings);
    lemma_faces(b.layers, b.news(applied, fresh, model, readings).layers);
    if let Some(staged) = b.staged {
        if b.may_apply(staged, now) {
            lemma_applied_faces(b.layers, staged);
            lemma_drained(b);
            assert(on_layers(b.touches, 2));
            lemma_bar_drained(b);
            lemma_faces(b.layers, b.drained().bar.layers);
            lemma_applied_faces(b.drained().bar.layers, staged);
        }
    }
}

proof fn lemma_applied_faces(layers: Seq<LayerModel>, model: Seq<Seq<WsEntry>>)
    requires
        all_wf(layers),
        strips_true(layers),
    ensures
        strips_true(strips_applied(layers, model)),
        forall|l: int|
            0 <= l < layers.len() && (#[trigger] strips_applied(layers, model)[l]).kind
                == LayerKind::Regions ==> strips_applied(layers, model)[l].model == truncated(
                model,
                strips_applied(layers, model)[l].max_buttons as nat,
            ),
{
    let after = strips_applied(layers, model);
    assert forall|l: int| 0 <= l < layers.len() && (#[trigger] after[l]).kind
        == LayerKind::Regions implies after[l].shows_its_model() && after[l].model == truncated(
        model,
        after[l].max_buttons as nat,
    ) by {
        assert(after[l] == layers[l].strip_applied(model));
        strips_show_what_was_applied(layers[l], model);
    }
}

/// A companion that has fallen silent brings the configured buttons back:
/// once its silence may be applied, no strip shows a workspace of it.
pub proof fn silence_brings_the_fallback_back(
    b: BarModel,
    applied: bool,
    model: Seq<Seq<WsEntry>>,
    readings: SliderReadings,
    now: Moment,
)
    requires
        b.wf(),
        strips_true(b.layers),
        b.fresh,
        b.news(applied, false, model, readings).may_apply(Seq::empty(), now),
    ensures
        ({
            let after = b.news(applied, false, model, readings).staged_applied(now).bar;
            forall|l: int|
                0 <= l < 2 && (#[trigger] after.layers[l]).kind == LayerKind::Regions
                    ==> same_looks(
                    set_of(after.layers[l].fallback, None)->Ok_0.buttons,
                    after.layers[l].strip.buttons,
                )
        }),
{
    let told = b.news(applied, false, model, readings);
    news_keep_the_bar_in_order(b, applied, false, model, readings);
    applied_workspaces_are_shown(b, applied, false, model, readings, now);
    applied_workspaces_are_shown(told, applied, false, model, readings, now);
    staging_keeps_the_bar_in_order(told, now);
    let after = told.staged_applied(now).bar;
    assert forall|l: int| 0 <= l < 2 && (#[trigger] after.layers[l]).kind
        == LayerKind::Regions implies same_looks(
        set_of(after.layers[l].fallback, None)->Ok_0.buttons,
        after.layers[l].strip.buttons,
    ) by {
        let cap = after.layers[l].max_buttons as nat;
        assert(truncated(Seq::<Seq<WsEntry>>::empty(), cap) =~= Seq::empty());
        assert(after.layers[l].model == truncated(Seq::<Seq<WsEntry>>::empty(), cap));
        assert(flat(after.layers[l].model).len() == 0);
    }
}

/// A layer as it is configured shows the configured buttons on its strip.
pub proof fn configured_strips_are_true(
    cfg: Seq<ButtonConfigModel>,
    groups: Seq<ControlGroupModel>,
    workspaces: Option<WorkspacesModel>,
    battery: Option<Seq<char>>,
    l: LayerModel,
)
    requires
        layer_of(cfg, groups, workspaces, battery) == Ok::<LayerModel, ConfigError>(l),
        workspaces matches Some(ws) ==> ws.wf(),
        groups.len() <= usize::MAX,
    ensures
        l.kind == LayerKind::Regions ==> l.shows_its_model(),
{
    configured_layers_are_well_formed(cfg, groups, workspaces, battery);
    if l.kind == LayerKind::Regions {
        nothing_restores_the_fallback(l, battery);
        assert(truncated(l.model, l.max_buttons as nat) =~= l.model);
        assert(flat(l.model).len() == 0);
    }
}

} // verus!
