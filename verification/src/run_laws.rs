//! What holds of whole runs: of everything that can happen to the bar, one
//! event after another.
use crate::bar::{BarModel, Turn};
use crate::bar_laws::{
    cancels_keep_the_bar_in_order, clock_ticks_keep_the_bar_in_order, downs_keep_the_bar_in_order,
    due_values_keep_the_bar_in_order, fn_keys_keep_the_bar_in_order, lemma_drain_releases,
    lemma_layer_painted, lemma_painted, lemma_reloaded, lemma_rest_is_quiet,
    motions_keep_the_bar_in_order, news_keep_the_bar_in_order, only_fingers_act, only_releases,
    staging_keeps_the_bar_in_order, timeouts_keep_the_bar_in_order, ups_keep_the_bar_in_order,
};
use crate::button_set::SliderReadings;
use crate::helper_proto::WsEntry;
use crate::key_laws::{
    balance, balanced, bar_holds, cancels_are_balanced, downs_are_balanced, fn_keys_are_balanced,
    lemma_balance_sum, lemma_stand_in_balanced, motions_are_balanced, quiet_events_move_no_key,
    reloads_are_balanced, staging_is_balanced, ups_are_balanced, without_fingers_every_key_is_up,
};
use crate::layer::LayerModel;
use crate::layer_hit::HitModel;
use crate::moment::Moment;
use crate::scalar::Scalar;
use crate::throttle::{lemma_nobody_waits, ThrottleModel, SLIDER_TARGET_COUNT};
use crate::touches::{all_wf, any_structure, heartbeats_change_nothing, strips_applied, TouchModel};
use vstd::prelude::*;

verus! {

/// Everything that happens to the bar.
pub enum Event {
    /// A finger came down.
    Down {
        slot: u32,
        hit: HitModel,
        value: Option<Scalar>,
        readings: SliderReadings,
        now: Moment,
    },
    /// A finger moved.
    Motion { slot: u32, value: Option<Scalar>, hit: bool, now: Moment },
    /// A finger was lifted.
    Up { slot: u32, anchor: Option<Scalar>, readings: SliderReadings, now: Moment },
    /// A touch was cancelled.
    Cancel { slot: u32, now: Moment },
    /// The function key went down or up.
    FnKey { down: bool, double_press_ms: u32, now: Moment },
    /// The configuration changed.
    Reload { layers: Seq<LayerModel> },
    /// The open overlays were looked at.
    OverlayTimeout { now: Moment, timeout: u64, readings: SliderReadings },
    /// Slider positions that wait were looked at.
    SendDue { now: Moment },
    /// The companion was listened to.
    Helper {
        applied: bool,
        fresh: bool,
        model: Seq<Seq<WsEntry>>,
        readings: SliderReadings,
    },
    /// Staged workspaces were looked at.
    ApplyStaged { now: Moment },
    /// The sliders were read.
    Sync { readings: SliderReadings },
    /// The clock was read.
    Tick { second: u32, minute: u32 },
    /// The bar was drawn.
    Paint,
    /// A complete redraw was asked for.
    Redraw,
}

impl Event {
    /// Whether it comes from a finger.
    pub open spec fn is_touch(self) -> bool {
        self is Down || self is Motion || self is Up || self is Cancel
    }

    /// What it does to the bar and asks of the world.
    pub open spec fn turn(self, b: BarModel) -> Turn {
        match self {
            Event::Down { slot, hit, value, readings, now } => b.down(
                slot,
                hit,
                value,
                readings,
                now,
            ),
            Event::Motion { slot, value, hit, now } => b.motion(slot, value, hit, now),
            Event::Up { slot, anchor, readings, now } => b.up(slot, anchor, readings, now),
            Event::Cancel { slot, now } => b.cancel(slot, now),
            Event::FnKey { down, double_press_ms, now } => b.fn_key(down, double_press_ms, now),
            Event::Reload { layers } => b.reloaded(layers),
            Event::OverlayTimeout { now, timeout, readings } => silent(
                b.timed_out(now, timeout, readings),
            ),
            Event::SendDue { now } => b.due_sent(now),
            Event::Helper { applied, fresh, model, readings } => silent(
                b.news(applied, fresh, model, readings),
            ),
            Event::ApplyStaged { now } => b.staged_applied(now),
            Event::Sync { readings } => silent(b.synced(readings)),
            Event::Tick { second, minute } => silent(b.ticked(second, minute)),
            Event::Paint => silent(b.painted()),
            Event::Redraw => silent(BarModel { redraw: true, ..b }),
        }
    }

    /// Whether it can happen to the bar: a finger comes down on buttons that
    /// can be seen, and a configuration describes two layers in order.
    pub open spec fn can_happen(self, b: BarModel) -> bool {
        match self {
            Event::Down { hit, .. } => hit matches HitModel::Button(key, index)
                ==> b.layer().shows(key) && b.layer().button_in(key, index) is Some,
            Event::Reload { layers } => {
                &&& layers.len() == 2
                &&& all_wf(layers)
                &&& forall|l: int| 0 <= l < 2 ==> (#[trigger] layers[l]).at_rest()
            },
            _ => true,
        }
    }
}

/// A turn that asks nothing of the world.
pub open spec fn silent(bar: BarModel) -> Turn {
    Turn { bar, effects: Seq::empty() }
}

/// The bar after a run of events, and all that they asked of the world.
pub open spec fn run(b: BarModel, events: Seq<Event>) -> Turn
    decreases events.len(),
{
    if events.len() == 0 {
        silent(b)
    } else {
        let before = run(b, events.drop_last());
        let last = events.last().turn(before.bar);
        Turn { bar: last.bar, effects: before.effects + last.effects }
    }
}

/// Every event of a run can happen when it does.
pub open spec fn run_can_happen(b: BarModel, events: Seq<Event>) -> bool
    decreases events.len(),
{
    events.len() > 0 ==> run_can_happen(b, events.drop_last()) && events.last().can_happen(
        run(b, events.drop_last()).bar,
    )
}

/// No event of a run comes from a finger.
pub open spec fn no_touches(events: Seq<Event>) -> bool {
    forall|i: int| 0 <= i < events.len() ==> !(#[trigger] events[i]).is_touch()
}

/// No slider position waits to be sent.
pub open spec fn nobody_waits(throttle: ThrottleModel) -> bool {
    throttle.pending.len() == SLIDER_TARGET_COUNT && throttle.idle()
}

proof fn lemma_no_touch(b: BarModel, e: Event)
    requires
        !e.is_touch(),
        nobody_waits(b.throttle),
    ensures
        only_releases(e.turn(b).effects),
        b.touches.len() == 0 ==> e.turn(b).effects.len() == 0 && e.turn(b).bar.touches.len() == 0,
        e.turn(b).bar.throttle == b.throttle,
{
    lemma_nobody_waits(b.throttle);
    match e {
        Event::FnKey { down, double_press_ms, now } => {
            only_fingers_act(b, b.layers, down, double_press_ms, now);
            let first = b.double_pressed(down, double_press_ms, now);
            if b.touches.len() == 0 {
                assert(first.effects =~= Seq::empty());
            }
        },
        Event::Reload { layers } => {
            lemma_drain_releases(b.layers, b.touches);
        },
        Event::ApplyStaged { now } => {
            lemma_drain_releases(b.layers, b.touches);
        },
        _ => {},
    }
}

/// While no finger touches the bar, it acts on nothing: whatever the
/// companion says, and whatever else happens in whatever order, no key
/// event, no slider position and no focus request ever goes out. News change
/// only what is drawn.
pub proof fn untouched_bars_are_silent(b: BarModel, events: Seq<Event>)
    requires
        b.touches.len() == 0,
        nobody_waits(b.throttle),
        no_touches(events),
    ensures
        run(b, events).effects.len() == 0,
        run(b, events).bar.touches.len() == 0,
        nobody_waits(run(b, events).bar.throttle),
    decreases events.len(),
{
    if events.len() > 0 {
        let rest = events.drop_last();
        assert forall|i: int| 0 <= i < rest.len() implies !(#[trigger] rest[i]).is_touch() by {
            assert(rest[i] == events[i]);
        }
        untouched_bars_are_silent(b, rest);
        assert(!events[events.len() - 1].is_touch());
        lemma_no_touch(run(b, rest).bar, events.last());
    }
}

/// Fingers that rest on the bar are let go of at most: in a run in which
/// none of them moves or is lifted, and no other comes down, no key goes
/// down, no slider position is sent and no focus is asked for.
pub proof fn resting_fingers_are_only_let_go_of(b: BarModel, events: Seq<Event>)
    requires
        nobody_waits(b.throttle),
        no_touches(events),
    ensures
        only_releases(run(b, events).effects),
        nobody_waits(run(b, events).bar.throttle),
    decreases events.len(),
{
    if events.len() > 0 {
        let rest = events.drop_last();
        assert forall|i: int| 0 <= i < rest.len() implies !(#[trigger] rest[i]).is_touch() by {
            assert(rest[i] == events[i]);
        }
        resting_fingers_are_only_let_go_of(b, rest);
        assert(!events[events.len() - 1].is_touch());
        lemma_no_touch(run(b, rest).bar, events.last());
    }
}

proof fn lemma_event_in_order(b: BarModel, e: Event)
    requires
        b.wf(),
        e.can_happen(b),
    ensures
        e.turn(b).bar.wf(),
{
    match e {
        Event::Down { slot, hit, value, readings, now } => {
            downs_keep_the_bar_in_order(b, slot, hit, value, readings, now);
        },
        Event::Motion { slot, value, hit, now } => {
            motions_keep_the_bar_in_order(b, slot, value, hit, now);
        },
        Event::Up { slot, anchor, readings, now } => {
            ups_keep_the_bar_in_order(b, slot, anchor, readings, now);
        },
        Event::Cancel { slot, now } => {
            cancels_keep_the_bar_in_order(b, slot, now);
        },
        Event::FnKey { down, double_press_ms, now } => {
            fn_keys_keep_the_bar_in_order(b, down, double_press_ms, now);
        },
        Event::Reload { layers } => {
            lemma_rest_is_quiet(layers);
            lemma_reloaded(b, layers);
        },
        Event::OverlayTimeout { now, timeout, readings } => {
            timeouts_keep_the_bar_in_order(b, now, timeout, readings);
        },
        Event::SendDue { now } => {
            due_values_keep_the_bar_in_order(b, now);
        },
        Event::Helper { applied, fresh, model, readings } => {
            news_keep_the_bar_in_order(b, applied, fresh, model, readings);
        },
        Event::ApplyStaged { now } => {
            staging_keeps_the_bar_in_order(b, now);
        },
        Event::Sync { readings } => {
            news_keep_the_bar_in_order(b, true, b.fresh, Seq::empty(), readings);
            let told = b.news(true, b.fresh, Seq::empty(), readings);
            assert(b.synced(readings).layer() == told.layer());
        },
        Event::Tick { second, minute } => {
            clock_ticks_keep_the_bar_in_order(b, second, minute);
        },
        Event::Paint => {
            lemma_painted(b);
        },
        Event::Redraw => {
            assert(BarModel { redraw: true, ..b }.layer() == b.layer());
        },
    }
}

/// Whatever happens, the bar stays in order.
pub proof fn runs_keep_the_bar_in_order(b: BarModel, events: Seq<Event>)
    requires
        b.wf(),
        run_can_happen(b, events),
    ensures
        run(b, events).bar.wf(),
    decreases events.len(),
{
    if events.len() > 0 {
        runs_keep_the_bar_in_order(b, events.drop_last());
        lemma_event_in_order(run(b, events.drop_last()).bar, events.last());
    }
}

proof fn lemma_event_balanced(b: BarModel, e: Event, code: u16)
    requires
        b.wf(),
        e.can_happen(b),
    ensures
        balanced(b, e.turn(b), code),
{
    match e {
        Event::Down { slot, hit, value, readings, now } => {
            downs_are_balanced(b, slot, hit, value, readings, now, code);
        },
        Event::Motion { slot, value, hit, now } => {
            motions_are_balanced(b, slot, value, hit, now, code);
        },
        Event::Up { slot, anchor, readings, now } => {
            ups_are_balanced(b, slot, anchor, readings, now, code);
        },
        Event::Cancel { slot, now } => {
            cancels_are_balanced(b, slot, now, code);
        },
        Event::FnKey { down, double_press_ms, now } => {
            fn_keys_are_balanced(b, down, double_press_ms, now, code);
        },
        Event::Reload { layers } => {
            lemma_rest_is_quiet(layers);
            reloads_are_balanced(b, layers, code);
        },
        Event::OverlayTimeout { now, timeout, readings } => {
            quiet_events_move_no_key(
                b, now, timeout, readings, true, true, Seq::empty(), 0, 0, code,
            );
        },
        Event::SendDue { now } => {
            let none = SliderReadings { display: None, keyboard: None, volume: None };
            quiet_events_move_no_key(b, now, 0, none, true, true, Seq::empty(), 0, 0, code);
        },
        Event::Helper { applied, fresh, model, readings } => {
            let now = Moment { nanos: 0 };
            quiet_events_move_no_key(b, now, 0, readings, applied, fresh, model, 0, 0, code);
        },
        Event::ApplyStaged { now } => {
            staging_is_balanced(b, now, code);
        },
        Event::Sync { readings } => {
            let now = Moment { nanos: 0 };
            quiet_events_move_no_key(
                b, now, 0, readings, true, b.fresh, Seq::empty(), 0, 0, code,
            );
        },
        Event::Tick { second, minute } => {
            let now = Moment { nanos: 0 };
            let none = SliderReadings { display: None, keyboard: None, volume: None };
            quiet_events_move_no_key(
                b, now, 0, none, true, true, Seq::empty(), second, minute, code,
            );
        },
        Event::Paint => {
            assert(b.layer().wf());
            lemma_layer_painted(b.layer());
            lemma_stand_in_balanced(b, b.active as int, b.layer().painted(), code);
        },
        Event::Redraw => {},
    }
}

/// Over a whole run, what is sent for every key adds up to what the buttons
/// hold.
pub proof fn runs_are_balanced(b: BarModel, events: Seq<Event>, code: u16)
    requires
        b.wf(),
        run_can_happen(b, events),
    ensures
        balanced(b, run(b, events), code),
    decreases events.len(),
{
    if events.len() > 0 {
        let rest = events.drop_last();
        let before = run(b, rest);
        runs_are_balanced(b, rest, code);
        runs_keep_the_bar_in_order(b, rest);
        lemma_event_balanced(before.bar, events.last(), code);
        lemma_balance_sum(before.effects, events.last().turn(before.bar).effects, code);
    }
}

/// No key is ever left down: a run that begins and ends without fingers on
/// the bar has sent as many downs as ups of every key.
pub proof fn no_key_is_left_down(b: BarModel, events: Seq<Event>, code: u16)
    requires
        b.wf(),
        run_can_happen(b, events),
        b.touches.len() == 0,
        run(b, events).bar.touches.len() == 0,
    ensures
        balance(run(b, events).effects, code) == 0,
{
    runs_are_balanced(b, events, code);
    runs_keep_the_bar_in_order(b, events);
    without_fingers_every_key_is_up(b, code);
    without_fingers_every_key_is_up(run(b, events).bar, code);
}

/// Workspaces that are applied already change nothing when they arrive
/// again, however many fingers came down in between: nothing goes out,
/// nobody is let go of, no strip moves and nothing is drawn anew.
pub proof fn repeated_workspaces_change_nothing(
    b: BarModel,
    model: Seq<Seq<WsEntry>>,
    first: Moment,
    touches: Seq<TouchModel>,
    again: Moment,
)
    requires
        b.staged == Some(model),
        b.may_apply(model, first),
    ensures
        ({
            let applied = b.staged_applied(first).bar;
            let told = BarModel { staged: Some(model), touches, ..applied };
            told.staged_applied(again) == silent(BarModel { touches, ..applied })
        }),
{
    let drained = BarModel { staged: None, ..b }.drained().bar;
    let applied = b.staged_applied(first).bar;
    let told = BarModel { staged: Some(model), touches, ..applied };
    heartbeats_change_nothing(b.layers, model);
    heartbeats_change_nothing(drained.layers, model);
    assert(applied.layers == strips_applied(b.layers, model) || applied.layers == strips_applied(
        drained.layers,
        model,
    ));
    assert(!any_structure(told.layers, model));
    assert(told.staged_applied(again).bar =~= BarModel { touches, ..applied });
}

} // verus!
