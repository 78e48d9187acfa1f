//! What opening and closing overlays promises, and who wins over a slider.
use crate::button::{is_dragging, ActionModel, ButtonModel};
use crate::button_set::{each, marked, synced, SliderReadings};
use crate::layer::{
    find_overlay, lemma_set_each, lemma_slot, lemma_with_set, KeyModel, LayerKind, LayerModel,
    MAX_OVERLAY_DEPTH,
};
use crate::moment::Moment;
use crate::scalar::Scalar;
use vstd::prelude::*;

verus! {

/// An overlay that opens is the one that is shown, and closing it shows
/// again what was shown before.
pub proof fn overlays_close_as_they_opened(
    l: LayerModel,
    name: Seq<char>,
    anchor: Option<Scalar>,
    now: Moment,
    later: Moment,
)
    requires
        l.wf(),
        l.can_open(name),
    ensures
        l.opened(name, anchor, now).controls_key() == KeyModel::Overlay(name),
        l.opened(name, anchor, now).stack.len() == l.stack.len() + 1 <= MAX_OVERLAY_DEPTH,
        l.opened(name, anchor, now).closed_top(later).stack == l.stack,
        l.opened(name, anchor, now).closed_top(later).controls_key() == l.controls_key(),
{
    let m = l.opened(name, anchor, now);
    assert(m.stack.drop_last() =~= l.stack);
}

/// Whenever what is open changes, every button that can be seen is drawn
/// anew, and is otherwise as it was; the clock of what is still open starts
/// again.
pub proof fn opened_and_closed_controls_are_drawn_anew(
    l: LayerModel,
    m: LayerModel,
    name: Seq<char>,
    anchor: Option<Scalar>,
    now: Moment,
    i: int,
)
    requires
        l.wf(),
        m == l.opened(name, anchor, now) && l.can_open(name) || m == l.closed_top(now)
            && l.stack.len() > 0 || m == l.closed_all() && l.stack.len() > 0,
        0 <= i < m.controls().buttons.len(),
    ensures
        m.controls().buttons[i].changed,
        ({
            let shown = match m.slot_of(m.controls_key()) {
                Some(slot) => l.set_at(slot).buttons,
                None => Seq::empty(),
            };
            &&& m.controls().buttons.len() == shown.len()
            &&& m.controls().buttons[i] == (ButtonModel { changed: true, ..shown[i] })
        }),
        m.stack.len() > 0 ==> m.touched_at == Some(now),
        m.stack.len() == 0 ==> m.touched_at is None,
        m.strip == l.strip,
        m.model == l.model,
        m.generation == l.generation,
{
    let bare = LayerModel { base: l.base, overlays: l.overlays, ..m };
    if m == l.closed_top(now) {
        assert forall|k: int| 0 <= k < bare.stack.len() implies find_overlay(
            bare.overlays,
            (#[trigger] bare.stack[k]).name,
        ) < bare.overlays.len() by {
            assert(bare.stack[k] == l.stack[k]);
        }
    }
    let f = |b: ButtonModel| marked(b);
    let marked_row = each(bare.controls(), f);
    assert(bare.wf());
    lemma_slot(bare, bare.controls_key());
    lemma_set_each(bare.controls(), f);
    lemma_with_set(bare, bare.controls_slot(), marked_row);
    assert(m == bare.with_set(bare.controls_slot(), marked_row));
}

/// An overlay that does not exist, is on top already, or would nest too
/// deeply does not open, and nothing changes.
pub proof fn refused_overlays_change_nothing(
    l: LayerModel,
    name: Seq<char>,
    anchor: Option<Scalar>,
    now: Moment,
)
    requires
        find_overlay(l.overlays, name) >= l.overlays.len() || (l.stack.len() > 0
            && l.stack.last().name == name) || l.stack.len() >= MAX_OVERLAY_DEPTH,
    ensures
        l.opened(name, anchor, now) == l,
{
}

/// Closing everything shows the base row, and stops the clock that closes
/// overlays: no touch starts it again.
pub proof fn closing_everything_shows_the_base(l: LayerModel, now: Moment, timeout: u64)
    requires
        l.wf(),
    ensures
        l.closed_all().controls_key() == KeyModel::Base,
        l.closed_all().touched_at is None,
        l.closed_all().touched(now) == l.closed_all(),
        l.closed_all().closed_all() == l.closed_all(),
{
}

/// The space between the strip and the controls is free.
pub open spec fn middle_free(l: LayerModel) -> bool {
    l.kind == LayerKind::Regions && l.stack.len() == 0
}

/// The middle of the bar is hidden for as long as an overlay is open: it is
/// free exactly where the base row is shown beside a strip, opening an
/// overlay covers it, and closing all of them uncovers it.
pub proof fn overlays_cover_the_middle(
    l: LayerModel,
    name: Seq<char>,
    anchor: Option<Scalar>,
    now: Moment,
)
    ensures
        middle_free(l) <==> l.kind == LayerKind::Regions && l.controls_key() == KeyModel::Base,
        l.can_open(name) ==> !middle_free(l.opened(name, anchor, now)),
        l.kind == LayerKind::Regions ==> middle_free(l.closed_all()),
{
}

/// Only overlay buttons change what is open.
pub proof fn other_actions_leave_overlays_alone(
    l: LayerModel,
    action: ActionModel,
    anchor: Option<Scalar>,
    now: Moment,
)
    requires
        !(action is OpenOverlay) && !(action is CloseOverlay),
    ensures
        !l.activates(action),
        l.activated(action, anchor, now) == l,
{
}

/// While a finger is on a slider, readings do not move it.
pub proof fn fingers_win_over_readings(b: ButtonModel, readings: SliderReadings)
    requires
        is_dragging(b),
    ensures
        synced(b, readings) == b,
{
}

/// A slider whose reading is missing keeps the position that was last known.
pub proof fn silence_keeps_positions(b: ButtonModel, readings: SliderReadings)
    requires
        b.action matches ActionModel::Slider(target) ==> readings.of(target) is None,
    ensures
        synced(b, readings) == b,
{
}

/// Reading the sliders changes nothing but sliders, and reading the same
/// again changes nothing at all.
pub proof fn readings_settle(b: ButtonModel, readings: SliderReadings)
    requires
        b.action matches ActionModel::Slider(target) ==> (readings.of(target) matches Some(v)
            ==> !v.nan()),
    ensures
        !(b.action is Slider) ==> synced(b, readings) == b,
        synced(b, readings).pressed == b.pressed,
        is_dragging(synced(b, readings)) == is_dragging(b),
        synced(synced(b, readings), readings) == synced(b, readings),
{
}

/// The controls region always shows a set that exists and has a button.
pub proof fn there_is_always_something_to_show(l: LayerModel)
    requires
        l.wf(),
    ensures
        l.slot_of(l.controls_key()) is Some,
        l.controls().buttons.len() > 0,
        l.shows(l.controls_key()),
{
    lemma_slot(l, l.controls_key());
}

} // verus!
