//! What the strip is for: it shows the live workspaces in order, the focused
//! one bright, and a tap asks for the focus of the one that is touched.
use crate::bar::BarModel;
use crate::bar_laws::{lemma_drained, news_keep_the_bar_in_order};
use crate::button::{ActionModel, ImageModel};
use crate::button_laws::{complete_redraws_paint_everything, paints_truly};
use crate::button_set::{paints, Shade, SliderReadings};
use crate::helper_proto::{at_most, WsEntry};
use crate::layer::{LayerKind, LayerModel};
use crate::layer_strip::{lemma_strip_applied, strips_show_what_was_applied};
use crate::moment::{elapsed, Moment};
use crate::strip::{
    classified, flat, same_row, same_shape, truncated, truncation_keeps_the_front, StripChange,
};
use crate::strip_laws::{applied_workspaces_are_shown, strips_true};
use crate::text::decimal_spec;
use crate::touches::{any_structure, strips_applied};
use vstd::prelude::*;

verus! {

/// The row of all workspaces has those of the first output first, and then
/// those of the others.
pub proof fn rows_join_outputs_in_order(first: Seq<WsEntry>, others: Seq<Seq<WsEntry>>)
    ensures
        flat(seq![first] + others) == first + flat(others),
        flat(Seq::<Seq<WsEntry>>::empty()) == Seq::<WsEntry>::empty(),
{
    assert((seq![first] + others).drop_first() =~= others);
}

/// Workspaces that all fit are shown as they are, output by output.
pub proof fn what_fits_is_not_cut(model: Seq<Seq<WsEntry>>, cap: nat)
    requires
        flat(model).len() <= cap,
        forall|g: int| 0 <= g < model.len() ==> (#[trigger] model[g]).len() > 0,
    ensures
        truncated(model, cap) == model,
    decreases model.len(),
{
    if model.len() > 0 {
        let rest = model.drop_first();
        assert(model[0].len() > 0);
        assert forall|g: int| 0 <= g < rest.len() implies (#[trigger] rest[g]).len() > 0 by {
            assert(rest[g] == model[g + 1]);
        }
        what_fits_is_not_cut(rest, (cap - model[0].len()) as nat);
        assert(seq![model[0]] + rest =~= model);
    } else {
        assert(truncated(model, cap) =~= model);
    }
}

/// What is shown of many workspaces is the first of them, as many as there
/// is room for.
pub proof fn the_first_workspaces_are_shown(model: Seq<Seq<WsEntry>>, cap: nat, i: int)
    ensures
        flat(truncated(model, cap)).len() <= cap,
        flat(truncated(model, cap)).len() <= flat(model).len(),
        flat(truncated(model, cap)).len() == cap || flat(truncated(model, cap)).len() == flat(
            model,
        ).len(),
        0 <= i < flat(truncated(model, cap)).len() ==> flat(truncated(model, cap))[i] == flat(
            model,
        )[i],
{
    truncation_keeps_the_front(model, cap);
}

/// A strip is left alone where nothing changed, and only its marks move
/// where the same workspaces stay in the same places; anything else, be it
/// one workspace or one output, rebuilds it.
pub proof fn only_other_buttons_rebuild_a_strip(a: Seq<Seq<WsEntry>>, b: Seq<Seq<WsEntry>>)
    ensures
        classified(a, b) == StripChange::Unchanged <==> a == b,
        a.len() != b.len() ==> classified(a, b) == StripChange::Structure,
        forall|g: int|
            #![trigger a[g]]
            0 <= g < a.len() && a.len() == b.len() && a[g].len() != b[g].len() ==> classified(a, b)
                == StripChange::Structure,
        forall|g: int, i: int|
            #![trigger a[g][i]]
            0 <= g < a.len() && a.len() == b.len() && 0 <= i < a[g].len() && a[g].len()
                == b[g].len() && (a[g][i].id != b[g][i].id || a[g][i].idx != b[g][i].idx)
                ==> classified(a, b) == StripChange::Structure,
        a.len() == b.len() && (forall|g: int|
            0 <= g < a.len() ==> same_places(#[trigger] a[g], b[g])) ==> classified(a, b)
            != StripChange::Structure,
{
    assert forall|g: int|
        #![trigger a[g]]
        0 <= g < a.len() && a.len() == b.len() && a[g].len() != b[g].len() implies classified(a, b)
        == StripChange::Structure by {
        assert(!same_row(a[g], b[g]));
    }
    assert forall|g: int, i: int|
        #![trigger a[g][i]]
        0 <= g < a.len() && a.len() == b.len() && 0 <= i < a[g].len() && a[g].len() == b[g].len()
            && (a[g][i].id != b[g][i].id || a[g][i].idx != b[g][i].idx) implies classified(a, b)
        == StripChange::Structure by {
        assert(!same_row(a[g], b[g]));
    }
    if a.len() == b.len() && (forall|g: int|
        0 <= g < a.len() ==> same_places(#[trigger] a[g], b[g])) {
        assert forall|g: int| 0 <= g < a.len() implies same_row(#[trigger] a[g], b[g]) by {
            assert(same_places(a[g], b[g]));
        }
        assert(same_shape(a, b));
    }
}

/// Two outputs hold the same workspaces under the same labels.
pub open spec fn same_places(a: Seq<WsEntry>, b: Seq<WsEntry>) -> bool {
    a.len() == b.len() && forall|i: int|
        0 <= i < a.len() ==> (#[trigger] a[i]).id == b[i].id && a[i].idx == b[i].idx
}

/// The strip after a set of workspaces arrived: one button for each of the
/// first workspaces, labelled with its number, aimed at it, and highlighted
/// exactly where it has the focus. On a complete redraw the focused one is
/// bright, and no other is unless a finger holds it.
pub proof fn the_focused_workspace_is_lit(
    l: LayerModel,
    model: Seq<Seq<WsEntry>>,
    outlines: bool,
    i: int,
)
    requires
        l.wf(),
        l.kind == LayerKind::Regions,
        l.shows_its_model(),
        0 <= i < flat(model).len(),
        i < l.max_buttons,
    ensures
        ({
            let strip = l.strip_applied(model).strip.buttons;
            let e = flat(model)[i];
            let row = paints(strip, true, outlines);
            &&& strip.len() <= l.max_buttons
            &&& i < strip.len() <= flat(model).len()
            &&& strip[i].action == ActionModel::FocusWorkspace(e.id)
            &&& strip[i].image == ImageModel::Text(decimal_spec(e.idx as nat))
            &&& strip[i].highlighted == e.foc
            &&& row.len() == strip.len()
            &&& row[i].index == i
            &&& row[i].shade == Shade::Active <==> e.foc || strip[i].pressed
        }),
{
    let m = l.strip_applied(model);
    let cap = l.max_buttons as nat;
    strips_show_what_was_applied(l, model);
    lemma_strip_applied(l, model);
    truncation_keeps_the_front(model, cap);
    let row = flat(m.model);
    assert(row == at_most(flat(model), cap));
    assert(row[i] == flat(model)[i]);
    assert(crate::layer_strip::shows_entry(m.strip.buttons[i], row[i]));
    complete_redraws_paint_everything(m.strip.buttons, outlines);
    assert(paints_truly(paints(m.strip.buttons, true, outlines)[i], m.strip.buttons, outlines));
}

/// Live workspaces reach the strip: once those that were staged are applied,
/// every strip of the bar has them, in order, with the focus where it is.
pub proof fn staged_workspaces_reach_the_strip(
    b: BarModel,
    model: Seq<Seq<WsEntry>>,
    now: Moment,
    l: int,
    i: int,
)
    requires
        b.wf(),
        strips_true(b.layers),
        b.staged == Some(model),
        b.last_rebuild matches Some(at) ==> now.nanos - at.nanos >= 100_000_000,
        0 <= l < 2,
        b.layers[l].kind == LayerKind::Regions,
        0 <= i < flat(model).len(),
        i < b.layers[l].max_buttons,
    ensures
        ({
            let after = b.staged_applied(now).bar;
            let strip = after.layers[l].strip.buttons;
            let e = flat(model)[i];
            &&& after.staged is None
            &&& i < strip.len() <= flat(model).len()
            &&& strip[i].action == ActionModel::FocusWorkspace(e.id)
            &&& strip[i].image == ImageModel::Text(decimal_spec(e.idx as nat))
            &&& strip[i].highlighted == e.foc
        }),
{
    let none = SliderReadings { display: None, keyboard: None, volume: None };
    assert(b.may_apply(model, now));
    applied_workspaces_are_shown(b, false, b.fresh, model, none, now);
    crate::bar_laws::staging_keeps_the_bar_in_order(b, now);
    lemma_drained(b);
    let after = b.staged_applied(now).bar;
    lemma_kept(b, model, now, l);
    let m = after.layers[l];
    assert(m.shows_its_model());
    truncation_keeps_the_front(model, m.max_buttons as nat);
    assert(crate::layer_strip::shows_entry(m.strip.buttons[i], flat(m.model)[i]));
}

proof fn lemma_kept(b: BarModel, model: Seq<Seq<WsEntry>>, now: Moment, l: int)
    requires
        b.wf(),
        b.staged == Some(model),
        b.may_apply(model, now),
        0 <= l < 2,
    ensures
        b.staged_applied(now).bar.layers[l].kind == b.layers[l].kind,
        b.staged_applied(now).bar.layers[l].max_buttons == b.layers[l].max_buttons,
{
    lemma_drained(b);
    assert(crate::touches::on_layers(b.touches, 2));
    crate::touches::lemma_drain_keeps_strips(b.layers, b.touches);
    let d = b.drained().bar.layers;
    assert(d[l].kind == b.layers[l].kind);
    assert(strips_applied(d, model)[l] == d[l].strip_applied(model));
    assert(strips_applied(b.layers, model)[l] == b.layers[l].strip_applied(model));
}

/// What the companion says is staged: its workspaces while its state is
/// fresh, none of them once it is stale. Silence that was known already
/// stages nothing, and the sliders are read with the news.
pub proof fn news_are_staged(
    b: BarModel,
    applied: bool,
    fresh: bool,
    model: Seq<Seq<WsEntry>>,
    readings: SliderReadings,
)
    requires
        b.wf(),
    ensures
        applied && fresh ==> b.news(applied, fresh, model, readings).staged == Some(model),
        b.fresh && !fresh ==> b.news(applied, fresh, model, readings).staged == Some(
            Seq::<Seq<WsEntry>>::empty(),
        ),
        !b.fresh && fresh ==> b.news(applied, fresh, model, readings).staged == Some(model),
        !applied && fresh == b.fresh ==> b.news(applied, fresh, model, readings) == b,
        b.news(applied, fresh, model, readings).fresh == fresh,
        b.news(applied, fresh, model, readings).touches == b.touches,
        b.news(applied, fresh, model, readings).active == b.active,
{
    news_keep_the_bar_in_order(b, applied, fresh, model, readings);
}

/// Staged workspaces are held back only while a strip that they rebuild was
/// rebuilt less than a tenth of a second ago. Then nothing happens; the
/// latest ones wait.
pub proof fn only_rebuilds_are_held_back(b: BarModel, model: Seq<Seq<WsEntry>>, now: Moment)
    requires
        b.staged == Some(model),
    ensures
        b.last_rebuild is None ==> b.staged_applied(now).bar.staged is None,
        !any_structure(b.layers, model) ==> b.staged_applied(now).bar.staged is None,
        (b.last_rebuild matches Some(at) && now.nanos >= at.nanos && now.nanos - at.nanos
            >= 100_000_000) ==> b.staged_applied(now).bar.staged is None,
        any_structure(b.layers, model) && (b.last_rebuild matches Some(at) && elapsed(now, at)
            < 100_000_000) ==> b.staged_applied(now).bar == b && b.staged_applied(
            now,
        ).effects.len() == 0,
        any_structure(b.layers, model) && b.staged_applied(now).bar.staged is None
            ==> b.staged_applied(now).bar.redraw && b.staged_applied(now).bar.touches.len() == 0
            && b.staged_applied(now).bar.last_rebuild == Some(now),
{
}

/// A strip that is rebuilt has a group of buttons for every output, with a
/// button for each of its workspaces; without workspaces it has the static
/// buttons in one group. Its old buttons cannot be touched any more.
pub proof fn outputs_are_set_apart(l: LayerModel, model: Seq<Seq<WsEntry>>, g: int)
    requires
        l.generation < u64::MAX,
        l.max_buttons <= 1000,
        flat(model).len() <= l.max_buttons,
        forall|h: int| 0 <= h < model.len() ==> (#[trigger] model[h]).len() > 0,
    ensures
        l.rebuilt(model).groups.len() == if model.len() == 0 {
            1
        } else {
            model.len()
        },
        0 <= g < model.len() ==> l.rebuilt(model).groups[g] == model[g].len(),
        model.len() == 0 && l.fallback.len() <= usize::MAX ==> l.rebuilt(model).groups[0]
            == l.fallback.len(),
        l.rebuilt(model).generation == l.generation + 1,
        l.rebuilt(model).model == model,
        l.rebuilt(model).base == l.base,
        l.rebuilt(model).overlays == l.overlays,
        l.rebuilt(model).stack == l.stack,
{
    what_fits_is_not_cut(model, l.max_buttons as nat);
    if model.len() > 0 {
        assert(model[0].len() > 0);
        assert(flat(model).len() >= model[0].len());
        if 0 <= g < model.len() {
            lemma_part(model, g);
        }
    }
}

proof fn lemma_part(model: Seq<Seq<WsEntry>>, g: int)
    requires
        0 <= g < model.len(),
    ensures
        model[g].len() <= flat(model).len(),
    decreases model.len(),
{
    if g > 0 {
        lemma_part(model.drop_first(), g - 1);
    }
}

} // verus!
