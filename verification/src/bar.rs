//! The bar as a state machine: two layers, the fingers on them, and what
//! every event from the outside does to them and asks of the world.
use crate::bar_laws::{
    cancels_keep_the_bar_in_order, clock_ticks_keep_the_bar_in_order, downs_keep_the_bar_in_order,
    due_values_keep_the_bar_in_order, fn_keys_keep_the_bar_in_order, lemma_activated, lemma_closed,
    lemma_drained, lemma_find_touch, lemma_freed, lemma_painted, lemma_quiet_sliders,
    lemma_released, lemma_reloaded, lemma_rest_is_quiet, lemma_synced, lemma_touched,
    motions_keep_the_bar_in_order, news_keep_the_bar_in_order, staging_keeps_the_bar_in_order,
    timeouts_keep_the_bar_in_order, ups_keep_the_bar_in_order,
};
use crate::button::{ActionModel, ButtonAction, Effect};
use crate::button_set::SliderReadings;
use crate::config::SliderTarget;
use crate::helper_proto::WsEntry;
use crate::layer::{timeout_spec, ButtonSetKey, FunctionLayer, KeyModel, LayerModel};
use crate::layer_hit::{HitModel, HitOutcome, PaintPlan};
use crate::moment::{elapsed, remainder, wait_left, wait_millis, Moment, NANOS_PER_MILLI};
use crate::run_laws::nobody_waits;
use crate::scalar::Scalar;
use crate::strip::model_of;
use crate::throttle::{first_waiting, EmitThrottle, ThrottleModel, SLIDER_TARGET_COUNT};
use crate::touches::{
    all_wf, any_structure, apply_helper_strip, can_apply, drain_effects, drain_touches, drained,
    layer_models, let_go_effects, let_go_of, needs_rebuild, none_stranded, on_layers,
    sliders_unpressed, strips_applied, touch_models, Touch, TouchModel,
};
use vstd::prelude::*;

verus! {

/// The longest wait for an event, in milliseconds.
pub const TIMEOUT_MS: i32 = 10_000;

/// Least time between two rebuilds of the strip: each one lets go of every
/// touch and redraws everything. The latest workspaces win.
pub const STRIP_REBUILD_INTERVAL_NANOS: u64 = 100_000_000;

#[derive(Debug)]
pub struct Bar {
    pub layers: Vec<FunctionLayer>,
    pub active_layer: usize,
    pub touches: Vec<Touch>,
    pub throttle: EmitThrottle,
    pub needs_complete_redraw: bool,
    /// When the function key went down last.
    pub last_fn_press: Moment,
    /// Live workspaces that are not applied yet.
    pub staged: Option<Vec<Vec<WsEntry>>>,
    pub last_rebuild: Option<Moment>,
    /// Whether the companion's state was fresh when it was last looked at.
    pub helper_fresh: bool,
    /// The second or minute that was drawn last.
    pub last_redraw_ts: u32,
}

#[verifier::ext_equal]
pub struct BarModel {
    pub layers: Seq<LayerModel>,
    pub active: usize,
    pub touches: Seq<TouchModel>,
    pub throttle: ThrottleModel,
    pub redraw: bool,
    pub last_fn: Moment,
    pub staged: Option<Seq<Seq<WsEntry>>>,
    pub last_rebuild: Option<Moment>,
    pub fresh: bool,
    pub drawn_ts: u32,
}

pub open spec fn staged_model(staged: Option<Vec<Vec<WsEntry>>>) -> Option<Seq<Seq<WsEntry>>> {
    match staged {
        Some(model) => Some(model_of(model@)),
        None => None,
    }
}

impl View for Bar {
    type V = BarModel;

    open spec fn view(&self) -> BarModel {
        BarModel {
            layers: layer_models(self.layers@),
            active: self.active_layer,
            touches: touch_models(self.touches@),
            throttle: self.throttle@,
            redraw: self.needs_complete_redraw,
            last_fn: self.last_fn_press,
            staged: staged_model(self.staged),
            last_rebuild: self.last_rebuild,
            fresh: self.helper_fresh,
            drawn_ts: self.last_redraw_ts,
        }
    }
}

/// The bar after an event, and what the event asks of the world.
#[verifier::ext_equal]
pub struct Turn {
    pub bar: BarModel,
    pub effects: Seq<Effect>,
}

/// Place of the touch with the given slot; the number of touches where there
/// is none.
pub open spec fn find_touch(touches: Seq<TouchModel>, slot: u32) -> nat
    decreases touches.len(),
{
    if touches.len() == 0 || touches[0].slot == slot {
        0
    } else {
        1 + find_touch(touches.drop_first(), slot)
    }
}

/// A touch is on that button already.
pub open spec fn owned(touches: Seq<TouchModel>, layer: usize, key: KeyModel, index: usize) -> bool {
    exists|k: int|
        0 <= k < touches.len() && (#[trigger] touches[k]).layer == layer && touches[k].key == key
            && touches[k].index == index
}

pub open spec fn slider_effect(target: SliderTarget, value: Scalar) -> Seq<Effect> {
    seq![Effect::Slider { target, value }]
}

/// Every touch is on a button of the active layer that can be seen.
pub open spec fn placed(layer: LayerModel, active: usize, touches: Seq<TouchModel>) -> bool {
    forall|k: int|
        0 <= k < touches.len() ==> {
            let t = #[trigger] touches[k];
            t.layer == active && layer.shows(t.key) && layer.button_in(t.key, t.index) is Some
        }
}

pub open spec fn distinct_slots(touches: Seq<TouchModel>) -> bool {
    forall|j: int, k: int|
        0 <= j < k < touches.len() ==> (#[trigger] touches[j]).slot != (#[trigger] touches[k]).slot
}

/// The shorter of two waits.
pub open spec fn shorter(a: int, b: Option<i32>) -> int {
    match b {
        Some(b) if b < a => b as int,
        _ => a,
    }
}

impl BarModel {
    /// The layers are in order, every finger is on a button that can be
    /// seen, and no button is held without a finger.
    pub open spec fn wf(self) -> bool {
        &&& self.layers.len() == 2
        &&& all_wf(self.layers)
        &&& self.active < 2
        &&& self.throttle.wf()
        &&& distinct_slots(self.touches)
        &&& placed(self.layer(), self.active, self.touches)
        &&& none_stranded(self.layers, self.touches)
        &&& sliders_unpressed(self.layers)
    }

    /// The layer that is shown.
    pub open spec fn layer(self) -> LayerModel {
        self.layers[self.active as int]
    }

    pub open spec fn with_layer(self, at: int, m: LayerModel) -> BarModel {
        BarModel { layers: self.layers.update(at, m), ..self }
    }

    /// Any touch counts as use of the open overlays.
    pub open spec fn touched(self, now: Moment) -> BarModel {
        self.with_layer(self.active as int, self.layer().touched(now))
    }

    /// Every touch let go of.
    pub open spec fn drained(self) -> Turn {
        Turn {
            bar: BarModel {
                layers: drained(self.layers, self.touches),
                touches: Seq::empty(),
                ..self
            },
            effects: drain_effects(self.layers, self.touches),
        }
    }

    /// The overlays of the active layer closed, and its sliders read.
    pub open spec fn closed(self, readings: SliderReadings) -> BarModel {
        if self.layer().stack.len() > 0 {
            BarModel {
                redraw: true,
                ..self.with_layer(
                    self.active as int,
                    self.layer().closed_all().sliders_synced(readings),
                )
            }
        } else {
            self
        }
    }

    /// A finger that still had the slot is let go of.
    pub open spec fn freed(self, slot: u32) -> Turn {
        let k = find_touch(self.touches, slot) as int;
        if k < self.touches.len() {
            let t = self.touches[k];
            Turn {
                bar: BarModel {
                    layers: let_go_of(self.layers, t),
                    touches: self.touches.remove(k),
                    ..self
                },
                effects: let_go_effects(self.layers, t),
            }
        } else {
            Turn { bar: self, effects: Seq::empty() }
        }
    }

    /// The slider under a touch moved to `value`.
    pub open spec fn moved(self, t: TouchModel, target: SliderTarget, value: Scalar, now: Moment) -> Turn {
        Turn {
            bar: BarModel {
                throttle: self.throttle.offered(target, value, now),
                ..self.with_layer(
                    t.layer as int,
                    self.layers[t.layer as int].slider_updated(t.key, t.index, Some(value), true),
                )
            },
            effects: if self.throttle.due(now) {
                slider_effect(target, value)
            } else {
                Seq::empty()
            },
        }
    }

    /// The button under a touch brought to the given press state.
    pub open spec fn pressed(self, t: TouchModel, active: bool) -> Turn {
        Turn {
            bar: self.with_layer(
                t.layer as int,
                self.layers[t.layer as int].button_pressed(t.key, t.index, active),
            ),
            effects: self.layers[t.layer as int].button_press_effects(t.key, t.index, active),
        }
    }

    /// A finger came down on a button. The first finger on a slider owns it;
    /// others on it are ignored.
    pub open spec fn landed(
        self,
        slot: u32,
        key: KeyModel,
        index: usize,
        value: Option<Scalar>,
        now: Moment,
    ) -> Turn {
        let t = TouchModel { slot, layer: self.active, key, index };
        let with_touch = BarModel { touches: self.touches.push(t), ..self };
        match self.layer().slider_at(key, index) {
            Some(target) => if owned(self.touches, self.active, key, index) {
                Turn { bar: self, effects: Seq::empty() }
            } else {
                match value {
                    Some(v) => with_touch.moved(t, target, v, now),
                    None => Turn { bar: with_touch, effects: Seq::empty() },
                }
            },
            None => with_touch.pressed(t, true),
        }
    }

    /// A finger came down. Beside an open overlay it closes the overlays and
    /// is forgotten, so that lifting it does nothing.
    pub open spec fn down(
        self,
        slot: u32,
        hit: HitModel,
        value: Option<Scalar>,
        readings: SliderReadings,
        now: Moment,
    ) -> Turn {
        let b = self.touched(now);
        match hit {
            HitModel::Button(key, index) => {
                let freed = b.freed(slot);
                let landed = freed.bar.landed(slot, key, index, value, now);
                Turn { bar: landed.bar, effects: freed.effects + landed.effects }
            },
            HitModel::OutsideControls => {
                let d = b.drained();
                Turn { bar: d.bar.closed(readings), effects: d.effects }
            },
            HitModel::Miss => Turn { bar: b, effects: Seq::empty() },
        }
    }

    /// A finger moved. A drag stays bound to its slider; another button is
    /// held for as long as the finger is on it.
    pub open spec fn motion(self, slot: u32, value: Option<Scalar>, hit: bool, now: Moment) -> Turn {
        let b = self.touched(now);
        let k = find_touch(b.touches, slot) as int;
        if k < b.touches.len() {
            let t = b.touches[k];
            let l = b.layers[t.layer as int];
            match l.slider_at(t.key, t.index) {
                Some(target) => match value {
                    Some(v) if l.shows(t.key) => b.moved(t, target, v, now),
                    _ => Turn { bar: b, effects: Seq::empty() },
                },
                None => b.pressed(t, hit),
            }
        } else {
            Turn { bar: b, effects: Seq::empty() }
        }
    }

    /// A touch without its finger.
    pub open spec fn forgotten(self, k: int) -> BarModel {
        BarModel { touches: self.touches.remove(k), ..self }
    }

    /// The drag under a touch ended: the last position lands.
    pub open spec fn drag_ended(self, t: TouchModel, target: SliderTarget, now: Moment) -> Turn {
        Turn {
            bar: BarModel {
                throttle: self.throttle.flushed(target, now),
                ..self.with_layer(
                    t.layer as int,
                    self.layers[t.layer as int].slider_updated(t.key, t.index, None, false),
                )
            },
            effects: match self.throttle.waiting(target) {
                Some(v) => slider_effect(target, v),
                None => Seq::empty(),
            },
        }
    }

    /// A button was tapped.
    pub open spec fn tapped(
        self,
        at: int,
        action: ActionModel,
        anchor: Option<Scalar>,
        readings: SliderReadings,
        now: Moment,
    ) -> Turn {
        let l = self.layers[at];
        match action {
            ActionModel::FocusWorkspace(id) => Turn {
                bar: self,
                effects: seq![Effect::Focus(id)],
            },
            _ => if l.activates(action) {
                let d = self.with_layer(at, l.activated(action, anchor, now)).drained();
                Turn {
                    bar: BarModel {
                        redraw: true,
                        ..d.bar.with_layer(at, d.bar.layers[at].sliders_synced(readings))
                    },
                    effects: d.effects,
                }
            } else {
                Turn { bar: self, effects: Seq::empty() }
            },
        }
    }

    /// A finger was lifted. A button that was still held acts, if it can
    /// still be seen.
    pub open spec fn up(
        self,
        slot: u32,
        anchor: Option<Scalar>,
        readings: SliderReadings,
        now: Moment,
    ) -> Turn {
        let b = self.touched(now);
        let k = find_touch(b.touches, slot) as int;
        if k < b.touches.len() {
            let t = b.touches[k];
            let rest = b.forgotten(k);
            let l = rest.layers[t.layer as int];
            match l.slider_at(t.key, t.index) {
                Some(target) => rest.drag_ended(t, target, now),
                None => {
                    let released = rest.pressed(t, false);
                    match l.button_in(t.key, t.index) {
                        Some(button) if button.pressed && l.shows(t.key) => {
                            let tapped = released.bar.tapped(
                                t.layer as int,
                                button.action,
                                anchor,
                                readings,
                                now,
                            );
                            Turn { bar: tapped.bar, effects: released.effects + tapped.effects }
                        },
                        _ => released,
                    }
                },
            }
        } else {
            Turn { bar: b, effects: Seq::empty() }
        }
    }

    /// A touch was cancelled: it ends like a lifted finger, but never acts.
    pub open spec fn cancel(self, slot: u32, now: Moment) -> Turn {
        let b = self.touched(now);
        let k = find_touch(b.touches, slot) as int;
        if k < b.touches.len() {
            let t = b.touches[k];
            let rest = b.forgotten(k);
            match rest.layers[t.layer as int].slider_at(t.key, t.index) {
                Some(target) => rest.drag_ended(t, target, now),
                None => rest.pressed(t, false),
            }
        } else {
            Turn { bar: b, effects: Seq::empty() }
        }
    }

    /// The two layers change places.
    pub open spec fn swapped(self) -> BarModel {
        BarModel { layers: seq![self.layers[1], self.layers[0]], ..self }
    }

    /// Pressing the function key twice within `double_press_ms` milliseconds
    /// swaps the layers for good; 0 switches that off.
    pub open spec fn double_pressed(self, down: bool, double_press_ms: u32, now: Moment) -> Turn {
        if double_press_ms > 0 && down {
            let turn = if elapsed(now, self.last_fn) < double_press_ms * 1_000_000 {
                let d = self.drained();
                Turn { bar: d.bar.swapped(), effects: d.effects }
            } else {
                Turn { bar: self, effects: Seq::empty() }
            };
            Turn { bar: BarModel { last_fn: now, ..turn.bar }, effects: turn.effects }
        } else {
            Turn { bar: self, effects: Seq::empty() }
        }
    }

    /// Another layer is shown; the one before it loses its overlays.
    pub open spec fn switched(self, to: usize) -> Turn {
        if self.active != to {
            let d = self.drained();
            let left = d.bar.with_layer(self.active as int, d.bar.layer().closed_all());
            Turn { bar: BarModel { active: to, redraw: true, ..left }, effects: d.effects }
        } else {
            Turn { bar: self, effects: Seq::empty() }
        }
    }

    /// The function key: held, it shows the second layer.
    pub open spec fn fn_key(self, down: bool, double_press_ms: u32, now: Moment) -> Turn {
        let first = self.double_pressed(down, double_press_ms, now);
        let second = first.bar.switched(
            if down {
                1
            } else {
                0
            },
        );
        Turn { bar: second.bar, effects: first.effects + second.effects }
    }

    /// The configuration changed: other layers, the first one shown.
    pub open spec fn reloaded(self, layers: Seq<LayerModel>) -> Turn {
        let d = self.drained();
        Turn {
            bar: BarModel { layers, active: 0, redraw: true, ..d.bar },
            effects: d.effects,
        }
    }

    /// Milliseconds until the overlays of the active layer close.
    pub open spec fn overlay_wait(self, now: Moment, timeout: u64) -> Option<i32> {
        if self.layer().stack.len() == 0 {
            None
        } else {
            timeout_spec(self.layer().touched_at, now, timeout)
        }
    }

    /// Overlays that have been idle for long enough close, but never under
    /// a finger.
    pub open spec fn timed_out(self, now: Moment, timeout: u64, readings: SliderReadings) -> BarModel {
        if self.overlay_wait(now, timeout) == Some(0i32) && self.touches.len() == 0 {
            self.closed(readings)
        } else {
            self
        }
    }

    /// A slider position that waited goes out once it is due.
    pub open spec fn due_sent(self, now: Moment) -> Turn {
        let k = first_waiting(self.throttle.pending);
        Turn {
            bar: BarModel { throttle: self.throttle.taken(now), ..self },
            effects: if self.throttle.due(now) && k < SLIDER_TARGET_COUNT {
                slider_effect(waiting_target(k as int), self.throttle.pending[k as int]->0)
            } else {
                Seq::empty()
            },
        }
    }

    /// All sliders that can be seen read, on both layers.
    pub open spec fn synced(self, readings: SliderReadings) -> BarModel {
        BarModel {
            layers: self.layers.map_values(|l: LayerModel| l.sliders_synced(readings)),
            ..self
        }
    }

    /// The companion was heard, or went silent: its workspaces are staged,
    /// none of them where its state is stale, and the sliders are read.
    pub open spec fn news(
        self,
        applied: bool,
        fresh: bool,
        model: Seq<Seq<WsEntry>>,
        readings: SliderReadings,
    ) -> BarModel {
        if applied || fresh != self.fresh {
            BarModel {
                fresh,
                staged: Some(
                    if fresh {
                        model
                    } else {
                        Seq::empty()
                    },
                ),
                ..self.synced(readings)
            }
        } else {
            self
        }
    }

    /// Whether staged workspaces may be applied: at once where no strip is
    /// rebuilt, else not too soon after the last time.
    pub open spec fn may_apply(self, model: Seq<Seq<WsEntry>>, now: Moment) -> bool {
        !any_structure(self.layers, model) || (self.last_rebuild matches Some(at) ==> elapsed(
            now,
            at,
        ) >= STRIP_REBUILD_INTERVAL_NANOS)
    }

    /// Staged workspaces applied, if they may be; held back otherwise.
    pub open spec fn staged_applied(self, now: Moment) -> Turn {
        match self.staged {
            Some(model) => if self.may_apply(model, now) {
                let taken = BarModel { staged: None, ..self };
                if any_structure(self.layers, model) {
                    let d = taken.drained();
                    Turn {
                        bar: BarModel {
                            layers: strips_applied(d.bar.layers, model),
                            redraw: true,
                            last_rebuild: Some(now),
                            ..d.bar
                        },
                        effects: d.effects,
                    }
                } else {
                    Turn {
                        bar: BarModel { layers: strips_applied(self.layers, model), ..taken },
                        effects: Seq::empty(),
                    }
                }
            } else {
                Turn { bar: self, effects: Seq::empty() }
            },
            None => Turn { bar: self, effects: Seq::empty() },
        }
    }

    /// The second where seconds are shown, else the minute.
    pub open spec fn tick_of(self, second: u32, minute: u32) -> u32 {
        if self.layer().controls().faster_refresh {
            second
        } else {
            minute
        }
    }

    /// The clock was read: a time that moved on is drawn anew, and so is the
    /// battery.
    pub open spec fn ticked(self, second: u32, minute: u32) -> BarModel {
        let ts = self.tick_of(second, minute);
        let moved = self.layer().controls().displays_time && ts != self.drawn_ts;
        let b = BarModel {
            redraw: self.redraw || moved,
            drawn_ts: if moved {
                ts
            } else {
                self.drawn_ts
            },
            ..self
        };
        if self.layer().controls().displays_battery {
            b.with_layer(self.active as int, self.layer().batteries_marked())
        } else {
            b
        }
    }

    /// The active layer was drawn: nothing has to be drawn any more.
    pub open spec fn painted(self) -> BarModel {
        BarModel {
            redraw: false,
            ..self.with_layer(self.active as int, self.layer().painted())
        }
    }
}

/// The slider target with the given place.
pub open spec fn waiting_target(k: int) -> SliderTarget {
    if k == 0 {
        SliderTarget::DisplayBrightness
    } else if k == 1 {
        SliderTarget::KeyboardBrightness
    } else {
        SliderTarget::Volume
    }
}

impl Bar {
    /// A bar with the given two layers, the first one shown.
    pub fn new(layers: Vec<FunctionLayer>, tick: u32, now: Moment) -> (b: Bar)
        requires
            layers@.len() == 2,
            all_wf(layer_models(layers@)),
            forall|l: int| 0 <= l < 2 ==> (#[trigger] layer_models(layers@)[l]).at_rest(),
        ensures
            b@ == (BarModel {
                layers: layer_models(layers@),
                active: 0,
                touches: Seq::empty(),
                throttle: ThrottleModel::new(),
                redraw: true,
                last_fn: now,
                staged: None,
                last_rebuild: None,
                fresh: false,
                drawn_ts: tick,
            }),
            b@.wf(),
            nobody_waits(b@.throttle),
    {
        let b = Bar {
            layers,
            active_layer: 0,
            touches: Vec::new(),
            throttle: EmitThrottle::new(),
            needs_complete_redraw: true,
            last_fn_press: now,
            staged: None,
            last_rebuild: None,
            helper_fresh: false,
            last_redraw_ts: tick,
        };
        proof {
            lemma_rest_is_quiet(b@.layers);
            lemma_quiet_sliders(b@.layers);
            assert(b@.touches =~= Seq::empty());
        }
        b
    }

    fn layer_mut(&mut self, at: usize) -> (r: &mut FunctionLayer)
        requires
            at < old(self)@.layers.len(),
        ensures
            r@ == old(self)@.layers[at as int],
            final(self)@ == old(self)@.with_layer(at as int, final(r)@),
    {
        &mut self.layers[at]
    }

    /// The layer that is shown.
    pub fn layer(&self) -> (r: &FunctionLayer)
        requires
            self@.wf(),
        ensures
            r@ == self@.layer(),
            r@.wf(),
    {
        &self.layers[self.active_layer]
    }

    /// Place of the touch with the given slot.
    fn find(&self, slot: u32) -> (r: usize)
        ensures
            r == find_touch(self@.touches, slot),
            r <= self.touches@.len(),
    {
        let n: usize = self.touches.len();
        let mut i: usize = 0;
        while i < n
            invariant
                i <= n == self.touches@.len(),
                forall|k: int| 0 <= k < i ==> (#[trigger] self@.touches[k]).slot != slot,
            decreases n - i,
        {
            if self.touches[i].slot == slot {
                proof {
                    assert(self@.touches[i as int].slot == slot);
                    lemma_find_touch(self@.touches, slot);
                }
                return i;
            }
            assert(self@.touches[i as int].slot != slot);
            i = i + 1;
        }
        proof {
            lemma_find_touch(self@.touches, slot);
        }
        n
    }

    /// The touch with the given slot.
    pub fn touch(&self, slot: u32) -> (r: Option<&Touch>)
        ensures
            match r {
                Some(t) => find_touch(self@.touches, slot) < self@.touches.len() && t@
                    == self@.touches[find_touch(self@.touches, slot) as int],
                None => find_touch(self@.touches, slot) >= self@.touches.len(),
            },
    {
        let k: usize = self.find(slot);
        if k < self.touches.len() {
            Some(&self.touches[k])
        } else {
            None
        }
    }

    fn mark_touched(&mut self, now: Moment)
        requires
            old(self)@.wf(),
        ensures
            final(self)@ == old(self)@.touched(now),
            final(self)@.wf(),
    {
        proof {
            lemma_touched(self@, now);
        }
        let at: usize = self.active_layer;
        self.layer_mut(at).mark_overlay_touched(now);
    }

    /// Lets go of every touch.
    fn drain(&mut self, effects: &mut Vec<Effect>)
        requires
            all_wf(old(self)@.layers),
            on_layers(old(self)@.touches, old(self)@.layers.len()),
        ensures
            final(self)@ == old(self)@.drained().bar,
            final(effects)@ == old(effects)@ + old(self)@.drained().effects,
    {
        drain_touches(&mut self.layers, &mut self.touches, effects);
        assert(self@.touches =~= Seq::empty());
    }

    /// Closes the overlays of the active layer and reads its sliders.
    fn close(&mut self, readings: SliderReadings)
        requires
            old(self)@.wf(),
            old(self)@.touches.len() == 0,
        ensures
            final(self)@ == old(self)@.closed(readings),
            final(self)@.wf(),
    {
        proof {
            lemma_closed(self@, readings);
        }
        let at: usize = self.active_layer;
        let ghost before = self@;
        if self.layer_mut(at).close_all_overlays() {
            assert(self@.layers[at as int] == before.layer().closed_all());
            self.layer_mut(at).sync_sliders(readings);
            self.needs_complete_redraw = true;
            assert(self@.layers =~= before.closed(readings).layers);
        } else {
            assert(self@.layers =~= before.layers);
        }
    }

    /// Lets go of a touch that still has the slot.
    fn free(&mut self, slot: u32, effects: &mut Vec<Effect>)
        requires
            old(self)@.wf(),
        ensures
            final(self)@ == old(self)@.freed(slot).bar,
            final(effects)@ == old(effects)@ + old(self)@.freed(slot).effects,
            final(self)@.wf(),
    {
        let ghost before = self@;
        proof {
            lemma_freed(before, slot);
            lemma_find_touch(before.touches, slot);
        }
        let k: usize = self.find(slot);
        if k < self.touches.len() {
            assert(before.touches[k as int].layer == before.active);
            let touch = self.touches.remove(k);
            assert(self@.touches =~= before.touches.remove(k as int));
            assert(touch@ == before.touches[k as int]);
            self.layer_mut(touch.layer).release(&touch.set, touch.index, effects);
        } else {
            assert(effects@ + Seq::<Effect>::empty() =~= effects@);
        }
    }

    /// Moves the slider under a touch, and sends its position where that is
    /// due.
    fn move_slider(
        &mut self,
        layer: usize,
        set: &ButtonSetKey,
        index: usize,
        target: SliderTarget,
        value: Scalar,
        now: Moment,
        effects: &mut Vec<Effect>,
    )
        requires
            layer < old(self)@.layers.len(),
            old(self)@.throttle.wf(),
        ensures
            ({
                let t = TouchModel { slot: 0, layer, key: set@, index };
                &&& final(self)@ == old(self)@.moved(t, target, value, now).bar
                &&& final(effects)@ == old(effects)@ + old(self)@.moved(
                    t,
                    target,
                    value,
                    now,
                ).effects
            }),
    {
        self.layer_mut(layer).update_slider(set, index, Some(value), true);
        if let Some((target, value)) = self.throttle.offer(target, value, now) {
            effects.push(Effect::Slider { target, value });
            assert(effects@ =~= old(effects)@ + slider_effect(target, value));
        } else {
            assert(effects@ =~= old(effects)@ + Seq::<Effect>::empty());
        }
    }

    /// Ends the drag under a touch; the last position lands.
    fn end_drag(
        &mut self,
        layer: usize,
        set: &ButtonSetKey,
        index: usize,
        target: SliderTarget,
        now: Moment,
        effects: &mut Vec<Effect>,
    )
        requires
            layer < old(self)@.layers.len(),
            old(self)@.throttle.wf(),
        ensures
            ({
                let t = TouchModel { slot: 0, layer, key: set@, index };
                &&& final(self)@ == old(self)@.drag_ended(t, target, now).bar
                &&& final(effects)@ == old(effects)@ + old(self)@.drag_ended(
                    t,
                    target,
                    now,
                ).effects
            }),
    {
        self.layer_mut(layer).update_slider(set, index, None, false);
        if let Some((target, value)) = self.throttle.flush(target, now) {
            effects.push(Effect::Slider { target, value });
            assert(effects@ =~= old(effects)@ + slider_effect(target, value));
        } else {
            assert(effects@ =~= old(effects)@ + Seq::<Effect>::empty());
        }
    }

    /// Whether a touch is on a button of the active layer already.
    fn is_owned(&self, set: &ButtonSetKey, index: usize) -> (r: bool)
        ensures
            r == owned(self@.touches, self@.active, set@, index),
    {
        let n: usize = self.touches.len();
        let mut i: usize = 0;
        while i < n
            invariant
                i <= n == self.touches@.len(),
                forall|k: int|
                    0 <= k < i ==> !((#[trigger] self@.touches[k]).layer == self@.active
                        && self@.touches[k].key == set@ && self@.touches[k].index == index),
            decreases n - i,
        {
            let t = &self.touches[i];
            assert(self@.touches[i as int] == t@);
            if t.layer == self.active_layer && t.set.same_as(set) && t.index == index {
                return true;
            }
            i = i + 1;
        }
        false
    }

    /// A finger came down on a button.
    fn land(
        &mut self,
        slot: u32,
        set: ButtonSetKey,
        index: usize,
        value: Option<Scalar>,
        now: Moment,
        effects: &mut Vec<Effect>,
    )
        requires
            old(self)@.wf(),
        ensures
            final(self)@ == old(self)@.landed(slot, set@, index, value, now).bar,
            final(effects)@ == old(effects)@ + old(self)@.landed(
                slot,
                set@,
                index,
                value,
                now,
            ).effects,
    {
        let ghost before = self@;
        let at: usize = self.active_layer;
        let ghost t = TouchModel { slot, layer: at, key: set@, index };
        let slider = self.layers[at].slider_target_at(&set, index);
        if let Some(target) = slider {
            if self.is_owned(&set, index) {
                assert(effects@ =~= old(effects)@ + Seq::<Effect>::empty());
                return;
            }
            self.touches.push(Touch { slot, layer: at, set: set.clone(), index });
            assert(self@.touches =~= before.touches.push(t));
            match value {
                Some(value) => {
                    self.move_slider(at, &set, index, target, value, now, effects);
                },
                None => {
                    assert(effects@ =~= old(effects)@ + Seq::<Effect>::empty());
                },
            }
        } else {
            self.touches.push(Touch { slot, layer: at, set: set.clone(), index });
            assert(self@.touches =~= before.touches.push(t));
            self.layer_mut(at).set_active(&set, index, effects, true);
        }
    }

    /// A finger came down on `hit`. For a slider, `value` is the position
    /// that the finger is at.
    pub fn touch_down(
        &mut self,
        slot: u32,
        hit: HitOutcome,
        value: Option<Scalar>,
        readings: SliderReadings,
        now: Moment,
        effects: &mut Vec<Effect>,
    )
        requires
            old(self)@.wf(),
            hit@ matches HitModel::Button(key, index) ==> old(self)@.layer().shows(key) && old(
                self,
            )@.layer().button_in(key, index) is Some,
        ensures
            final(self)@ == old(self)@.down(slot, hit@, value, readings, now).bar,
            final(effects)@ == old(effects)@ + old(self)@.down(
                slot,
                hit@,
                value,
                readings,
                now,
            ).effects,
            final(self)@.wf(),
    {
        proof {
            downs_keep_the_bar_in_order(self@, slot, hit@, value, readings, now);
        }
        self.mark_touched(now);
        let ghost b = self@;
        let ghost start = effects@;
        match hit {
            HitOutcome::Button(set, index) => {
                self.free(slot, effects);
                let ghost freed = b.freed(slot);
                self.land(slot, set, index, value, now, effects);
                let ghost landed = freed.bar.landed(slot, set@, index, value, now);
                assert(effects@ =~= start + (freed.effects + landed.effects));
            },
            HitOutcome::OutsideControls => {
                proof {
                    lemma_drained(b);
                }
                self.drain(effects);
                self.close(readings);
            },
            HitOutcome::Miss => {
                assert(effects@ =~= start + Seq::<Effect>::empty());
            },
        }
    }

    /// A finger moved: for a slider to the position `value`, else on or off
    /// its button.
    pub fn touch_motion(
        &mut self,
        slot: u32,
        value: Option<Scalar>,
        hit: bool,
        now: Moment,
        effects: &mut Vec<Effect>,
    )
        requires
            old(self)@.wf(),
        ensures
            final(self)@ == old(self)@.motion(slot, value, hit, now).bar,
            final(effects)@ == old(effects)@ + old(self)@.motion(slot, value, hit, now).effects,
            final(self)@.wf(),
    {
        proof {
            motions_keep_the_bar_in_order(self@, slot, value, hit, now);
        }
        self.mark_touched(now);
        let ghost b = self@;
        assert(effects@ =~= effects@ + Seq::<Effect>::empty());
        let k: usize = self.find(slot);
        if k >= self.touches.len() {
            return;
        }
        let ghost t = b.touches[k as int];
        assert(t == self.touches@[k as int]@);
        assert(t.layer == b.active);
        let layer: usize = self.touches[k].layer;
        let set = self.touches[k].set.clone();
        let index: usize = self.touches[k].index;
        let slider = self.layers[layer].slider_target_at(&set, index);
        if let Some(target) = slider {
            if let Some(value) = value {
                if self.layers[layer].is_set_visible(&set) {
                    self.move_slider(layer, &set, index, target, value, now, effects);
                }
            }
        } else {
            self.layer_mut(layer).set_active(&set, index, effects, hit);
        }
    }

    /// Acts on a tap.
    fn tap(
        &mut self,
        at: usize,
        action: ButtonAction,
        anchor: Option<Scalar>,
        readings: SliderReadings,
        now: Moment,
        effects: &mut Vec<Effect>,
    )
        requires
            old(self)@.wf(),
            at == old(self)@.active,
        ensures
            final(self)@ == old(self)@.tapped(at as int, action@, anchor, readings, now).bar,
            final(effects)@ == old(effects)@ + old(self)@.tapped(
                at as int,
                action@,
                anchor,
                readings,
                now,
            ).effects,
    {
        let ghost b = self@;
        let ghost start = effects@;
        if let ButtonAction::FocusWorkspace(id) = action {
            effects.push(Effect::Focus(id));
            assert(effects@ =~= start + seq![Effect::Focus(id)]);
            return;
        }
        let ghost act = action@;
        assert(b.layers[at as int].wf());
        if self.layer_mut(at).activate_button_action(action, anchor, now) {
            proof {
                lemma_activated(b, act, anchor, now);
            }
            self.drain(effects);
            let ghost d = self@;
            assert(d.layers[at as int].wf());
            self.layer_mut(at).sync_sliders(readings);
            self.needs_complete_redraw = true;
        } else {
            assert(self@.layers =~= b.layers);
            assert(effects@ =~= start + Seq::<Effect>::empty());
        }
    }

    /// A finger was lifted. `anchor` is the left edge of the button it came
    /// down on: an overlay that it opens begins there.
    pub fn touch_up(
        &mut self,
        slot: u32,
        anchor: Option<Scalar>,
        readings: SliderReadings,
        now: Moment,
        effects: &mut Vec<Effect>,
    )
        requires
            old(self)@.wf(),
        ensures
            final(self)@ == old(self)@.up(slot, anchor, readings, now).bar,
            final(effects)@ == old(effects)@ + old(self)@.up(slot, anchor, readings, now).effects,
            final(self)@.wf(),
    {
        proof {
            ups_keep_the_bar_in_order(self@, slot, anchor, readings, now);
        }
        self.mark_touched(now);
        let ghost b = self@;
        let ghost start = effects@;
        let k: usize = self.find(slot);
        if k >= self.touches.len() {
            assert(effects@ =~= start + Seq::<Effect>::empty());
            return;
        }
        let ghost t = b.touches[k as int];
        assert(t.layer == b.active && b.layer().button_in(t.key, t.index) is Some);
        let touch = self.touches.remove(k);
        assert(touch@ == t);
        assert(self@.touches =~= b.touches.remove(k as int));
        let ghost rest = self@;
        let layer: usize = touch.layer;
        let slider = self.layers[layer].slider_target_at(&touch.set, touch.index);
        if let Some(target) = slider {
            self.end_drag(layer, &touch.set, touch.index, target, now, effects);
            return;
        }
        let action = self.layers[layer].button_action_in_set(&touch.set, touch.index);
        let can_activate = self.layers[layer].is_set_visible(&touch.set);
        let mut hit: bool = false;
        if let Some(button) = self.layer_mut(layer).button_mut_in_set(&touch.set, touch.index) {
            hit = button.pressed;
            button.set_active(effects, false);
        }
        let ghost released = rest.pressed(t, false);
        assert(self@ =~= released.bar);
        proof {
            lemma_released(b, k as int);
        }
        if hit && can_activate {
            if let Some(action) = action {
                let ghost middle = effects@;
                let ghost act = action@;
                self.tap(layer, action, anchor, readings, now, effects);
                let ghost tapped = released.bar.tapped(layer as int, act, anchor, readings, now);
                assert(effects@ =~= start + (released.effects + tapped.effects));
            }
        }
    }

    /// A touch was cancelled.
    pub fn touch_cancel(&mut self, slot: u32, now: Moment, effects: &mut Vec<Effect>)
        requires
            old(self)@.wf(),
        ensures
            final(self)@ == old(self)@.cancel(slot, now).bar,
            final(effects)@ == old(effects)@ + old(self)@.cancel(slot, now).effects,
            final(self)@.wf(),
    {
        proof {
            cancels_keep_the_bar_in_order(self@, slot, now);
        }
        self.mark_touched(now);
        let ghost b = self@;
        assert(effects@ =~= effects@ + Seq::<Effect>::empty());
        let k: usize = self.find(slot);
        if k >= self.touches.len() {
            return;
        }
        assert(b.touches[k as int].layer == b.active);
        let touch = self.touches.remove(k);
        assert(touch@ == b.touches[k as int]);
        assert(self@.touches =~= b.touches.remove(k as int));
        let layer: usize = touch.layer;
        let slider = self.layers[layer].slider_target_at(&touch.set, touch.index);
        if let Some(target) = slider {
            self.end_drag(layer, &touch.set, touch.index, target, now, effects);
        } else {
            self.layer_mut(layer).set_active(&touch.set, touch.index, effects, false);
        }
    }

    /// The function key went down or up.
    pub fn fn_key(
        &mut self,
        down: bool,
        double_press_ms: u32,
        now: Moment,
        effects: &mut Vec<Effect>,
    )
        requires
            old(self)@.wf(),
        ensures
            final(self)@ == old(self)@.fn_key(down, double_press_ms, now).bar,
            final(effects)@ == old(effects)@ + old(self)@.fn_key(
                down,
                double_press_ms,
                now,
            ).effects,
            final(self)@.wf(),
    {
        let ghost b = self@;
        let ghost start = effects@;
        proof {
            fn_keys_keep_the_bar_in_order(b, down, double_press_ms, now);
            lemma_drained(b);
        }
        assert(effects@ =~= effects@ + Seq::<Effect>::empty());
        if double_press_ms > 0 && down {
            let window: u64 = double_press_ms as u64 * NANOS_PER_MILLI;
            if now.since(self.last_fn_press) < window {
                self.drain(effects);
                let ghost d = self@;
                let second = self.layers.pop();
                let first = self.layers.pop();
                if let (Some(first), Some(second)) = (first, second) {
                    self.layers.push(second);
                    self.layers.push(first);
                }
                assert(self@.layers =~= d.swapped().layers);
            }
            self.last_fn_press = now;
        }
        let ghost c = b.double_pressed(down, double_press_ms, now);
        assert(self@ =~= c.bar);
        assert(effects@ == start + c.effects);
        let to: usize = if down {
            1
        } else {
            0
        };
        if self.active_layer != to {
            proof {
                lemma_drained(c.bar);
                let none = SliderReadings { display: None, keyboard: None, volume: None };
                lemma_closed(c.bar.drained().bar, none);
            }
            self.drain(effects);
            let at: usize = self.active_layer;
            let _closed = self.layer_mut(at).close_all_overlays();
            self.active_layer = to;
            self.needs_complete_redraw = true;
        }
        assert(effects@ =~= start + (c.effects + c.bar.switched(to).effects));
    }

    /// The configuration changed: touches on the old layers end, and the
    /// new ones take their place.
    pub fn reload(&mut self, layers: Vec<FunctionLayer>, effects: &mut Vec<Effect>)
        requires
            old(self)@.wf(),
            layers@.len() == 2,
            all_wf(layer_models(layers@)),
            forall|l: int| 0 <= l < 2 ==> (#[trigger] layer_models(layers@)[l]).at_rest(),
        ensures
            final(self)@ == old(self)@.reloaded(layer_models(layers@)).bar,
            final(effects)@ == old(effects)@ + old(self)@.reloaded(layer_models(layers@)).effects,
            final(self)@.wf(),
    {
        proof {
            lemma_rest_is_quiet(layer_models(layers@));
            lemma_reloaded(self@, layer_models(layers@));
            lemma_drained(self@);
        }
        self.drain(effects);
        self.layers = layers;
        self.active_layer = 0;
        self.needs_complete_redraw = true;
    }

    /// Closes overlays that nobody has touched for `timeout` nanoseconds,
    /// unless a finger is down. Gives the milliseconds that are left, if
    /// they are to be waited for.
    pub fn overlay_timeout(&mut self, now: Moment, timeout: u64, readings: SliderReadings) -> (r:
        Option<i32>)
        requires
            old(self)@.wf(),
        ensures
            final(self)@ == old(self)@.timed_out(now, timeout, readings),
            r == (match old(self)@.overlay_wait(now, timeout) {
                Some(ms) if ms > 0 => Some(ms),
                _ => None,
            }),
            final(self)@.wf(),
    {
        proof {
            timeouts_keep_the_bar_in_order(self@, now, timeout, readings);
        }
        match self.layers[self.active_layer].overlay_timeout_remaining(now, timeout) {
            Some(ms) => {
                if ms > 0 {
                    return Some(ms);
                }
                if self.touches.len() == 0 {
                    self.close(readings);
                }
                None
            },
            None => None,
        }
    }

    /// Sends a slider position that waited, once it is due. Gives the
    /// milliseconds until the next one is.
    pub fn send_due(&mut self, now: Moment, effects: &mut Vec<Effect>) -> (r: Option<i32>)
        requires
            old(self)@.wf(),
        ensures
            final(self)@ == old(self)@.due_sent(now).bar,
            final(effects)@ == old(effects)@ + old(self)@.due_sent(now).effects,
            r is None <==> final(self)@.throttle.idle(),
            r matches Some(ms) ==> final(self)@.throttle.last matches Some(last) && ms
                == wait_millis(
                remainder(
                    crate::throttle::SLIDER_EMIT_INTERVAL_NANOS as nat,
                    elapsed(now, last),
                ),
            ),
            final(self)@.wf(),
    {
        proof {
            due_values_keep_the_bar_in_order(self@, now);
        }
        if let Some((target, value)) = self.throttle.take_due(now) {
            effects.push(Effect::Slider { target, value });
            assert(effects@ =~= old(effects)@ + slider_effect(target, value));
        } else {
            assert(effects@ =~= old(effects)@ + Seq::<Effect>::empty());
        }
        self.throttle.pending_wait_ms(now)
    }

    /// The companion was listened to: `applied` says whether it sent a
    /// state, `fresh` whether its state may be shown, and `model` are the
    /// workspaces of that state.
    pub fn on_helper(
        &mut self,
        applied: bool,
        fresh: bool,
        model: Vec<Vec<WsEntry>>,
        readings: SliderReadings,
    )
        requires
            old(self)@.wf(),
        ensures
            final(self)@ == old(self)@.news(applied, fresh, model_of(model@), readings),
            final(self)@.wf(),
    {
        let ghost b = self@;
        proof {
            news_keep_the_bar_in_order(b, applied, fresh, model_of(model@), readings);
        }
        if applied || fresh != self.helper_fresh {
            self.helper_fresh = fresh;
            let staged: Vec<Vec<WsEntry>> = if fresh {
                model
            } else {
                Vec::new()
            };
            assert(fresh || model_of(staged@) =~= Seq::empty());
            self.staged = Some(staged);
            assert(b.layers[0].wf() && b.layers[1].wf());
            self.layer_mut(0).sync_sliders(readings);
            self.layer_mut(1).sync_sliders(readings);
            assert(self@.layers =~= b.synced(readings).layers);
        }
    }

    /// Reads the sliders that can be seen on both layers.
    pub fn sync_all(&mut self, readings: SliderReadings)
        requires
            old(self)@.wf(),
        ensures
            final(self)@ == old(self)@.synced(readings),
            final(self)@.wf(),
    {
        let ghost b = self@;
        proof {
            lemma_synced(b, 0, readings);
            lemma_synced(
                b.with_layer(0, b.layers[0].sliders_synced(readings)),
                1,
                readings,
            );
        }
        assert(b.layers[0].wf() && b.layers[1].wf());
        self.layer_mut(0).sync_sliders(readings);
        self.layer_mut(1).sync_sliders(readings);
        assert(self@.layers =~= b.synced(readings).layers);
    }

    /// Applies staged workspaces, unless a strip would have to be rebuilt
    /// too soon after the last time: then they are held back. Gives the
    /// milliseconds until they may be applied.
    pub fn apply_staged(&mut self, now: Moment, effects: &mut Vec<Effect>) -> (r: Option<i32>)
        requires
            old(self)@.wf(),
            old(self)@.staged matches Some(model) ==> can_apply(old(self)@.layers, model),
        ensures
            final(self)@ == old(self)@.staged_applied(now).bar,
            final(effects)@ == old(effects)@ + old(self)@.staged_applied(now).effects,
            r is Some <==> final(self)@.staged is Some,
            r matches Some(ms) ==> old(self)@.last_rebuild matches Some(at) && ms == wait_millis(
                remainder(STRIP_REBUILD_INTERVAL_NANOS as nat, elapsed(now, at)),
            ),
            final(self)@.wf(),
    {
        let ghost b = self@;
        proof {
            staging_keeps_the_bar_in_order(b, now);
            lemma_drained(b);
        }
        assert(effects@ =~= effects@ + Seq::<Effect>::empty());
        let mut staged: Option<Vec<Vec<WsEntry>>> = None;
        std::mem::swap(&mut staged, &mut self.staged);
        let model = match staged {
            Some(model) => model,
            None => {
                return None;
            },
        };
        if needs_rebuild(&self.layers, &model) {
            if let Some(at) = self.last_rebuild {
                if now.since(at) < STRIP_REBUILD_INTERVAL_NANOS {
                    self.staged = Some(model);
                    return Some(wait_left(STRIP_REBUILD_INTERVAL_NANOS, now, at));
                }
            }
        }
        let redraw = apply_helper_strip(&mut self.layers, &mut self.touches, effects, &model);
        if redraw {
            self.needs_complete_redraw = true;
            self.last_rebuild = Some(now);
            assert(self@.touches =~= Seq::empty());
        }
        None
    }

    /// The clock was read.
    pub fn tick(&mut self, second: u32, minute: u32)
        requires
            old(self)@.wf(),
        ensures
            final(self)@ == old(self)@.ticked(second, minute),
            final(self)@.wf(),
    {
        let ghost b = self@;
        proof {
            clock_ticks_keep_the_bar_in_order(b, second, minute);
        }
        let at: usize = self.active_layer;
        assert(b.layer().wf());
        let ts: u32 = if self.layers[at].faster_refresh() {
            second
        } else {
            minute
        };
        if self.layers[at].displays_time() && ts != self.last_redraw_ts {
            self.needs_complete_redraw = true;
            self.last_redraw_ts = ts;
        }
        if self.layers[at].displays_battery() {
            self.layer_mut(at).mark_battery_buttons_changed();
        }
    }

    /// Whether anything has to be drawn.
    pub fn needs_drawing(&self) -> (r: bool)
        requires
            self@.wf(),
        ensures
            r == (self@.redraw || any_visible_change(self@.layer())),
    {
        self.needs_complete_redraw || self.layer().any_button_changed()
    }

    /// What has to be drawn of the active layer: all of it where a complete
    /// redraw is due. Afterwards nothing is due any more.
    pub fn paint(&mut self, outlines: bool) -> (r: PaintPlan)
        requires
            old(self)@.wf(),
        ensures
            final(self)@ == old(self)@.painted(),
            r.controls@ == crate::button_set::paints(
                old(self)@.layer().controls().buttons,
                old(self)@.redraw,
                outlines,
            ),
            r.strip@ == (if old(self)@.layer().kind == crate::layer::LayerKind::Regions {
                crate::button_set::paints(
                    old(self)@.layer().strip.buttons,
                    old(self)@.redraw,
                    outlines,
                )
            } else {
                Seq::empty()
            }),
            final(self)@.wf(),
    {
        let ghost b = self@;
        proof {
            lemma_painted(b);
        }
        assert(b.layer().wf());
        let at: usize = self.active_layer;
        let complete = self.needs_complete_redraw;
        let plan = self.layer_mut(at).paint(complete, outlines);
        self.needs_complete_redraw = false;
        assert(self@.layer() == b.with_layer(at as int, b.layer().painted()).layer());
        plan
    }
}

/// Whether something that can be seen of a layer has to be drawn.
pub open spec fn any_visible_change(l: LayerModel) -> bool {
    crate::button_set::any_changed_spec(l.controls().buttons) || (l.kind
        == crate::layer::LayerKind::Regions && crate::button_set::any_changed_spec(
        l.strip.buttons,
    ))
}

/// Milliseconds until the minute is over, at most the longest wait.
pub fn base_timeout_ms(second: u32) -> (r: i32)
    requires
        second <= 60,
    ensures
        r == (if (60 - second) * 1000 < TIMEOUT_MS {
            (60 - second) * 1000
        } else {
            TIMEOUT_MS as int
        }),
{
    let left: i32 = (60 - second as i32) * 1000;
    if left < TIMEOUT_MS {
        left
    } else {
        TIMEOUT_MS
    }
}

/// The shorter of two waits, where there is a second one.
pub fn shorter_wait(wait: i32, other: Option<i32>) -> (r: i32)
    ensures
        r == shorter(wait as int, other),
{
    match other {
        Some(other) => if other < wait {
            other
        } else {
            wait
        },
        None => wait,
    }
}

} // verus!
