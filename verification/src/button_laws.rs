//! What buttons are for: how they are drawn, what they send, where their
//! sliders stand, and what the configuration makes of them.
use crate::button::{
    action_of, button_of, dragged_to, highlighted_to, is_dragging, known_locale, let_go,
    locale_spec, press_effects, pressed_to, seeded, ActionModel, ButtonModel, ConfigError, Effect, ImageModel,
};
use crate::button_set::{
    any_changed_spec, configured_sets_are_well_formed, drawn, each, paints, set_of, stretch_sum,
    synced, with_button, Paint, SetModel, Shade, SliderReadings,
};
use crate::config::{ButtonConfigModel, SliderTarget};
use crate::scalar::Scalar;
use vstd::prelude::*;

verus! {

/// What an entry of a painted row says about the button that it stands for.
pub open spec fn paints_truly(p: Paint, buttons: Seq<ButtonModel>, outlines: bool) -> bool {
    &&& p.index < buttons.len()
    &&& ({
        let b = buttons[p.index as int];
        &&& (p.shade == Shade::Active <==> b.pressed || b.highlighted)
        &&& (p.shade == Shade::Outlined <==> !b.pressed && !b.highlighted && outlines)
        &&& (p.shade == Shade::Dark <==> !b.pressed && !b.highlighted && !outlines)
        &&& (p.body <==> b.image != ImageModel::Spacer)
    })
}

/// A row is painted as it stands: an entry is bright exactly where its
/// button is pressed or highlighted, and every button that changed, or every
/// button of all on a complete redraw, has exactly one entry, in order.
pub proof fn rows_are_painted_as_they_stand(
    buttons: Seq<ButtonModel>,
    complete: bool,
    outlines: bool,
)
    requires
        buttons.len() <= usize::MAX,
    ensures
        forall|k: int|
            0 <= k < paints(buttons, complete, outlines).len() ==> {
                let p = #[trigger] paints(buttons, complete, outlines)[k];
                &&& paints_truly(p, buttons, outlines)
                &&& complete || buttons[p.index as int].changed
            },
        forall|j: int, k: int|
            0 <= j < k < paints(buttons, complete, outlines).len() ==> (#[trigger] paints(
                buttons,
                complete,
                outlines,
            )[j]).index < (#[trigger] paints(buttons, complete, outlines)[k]).index,
        forall|i: int|
            0 <= i < buttons.len() && (complete || (#[trigger] buttons[i]).changed)
                ==> is_painted(paints(buttons, complete, outlines), i),
    decreases buttons.len(),
{
    if buttons.len() > 0 {
        let rest = buttons.drop_last();
        rows_are_painted_as_they_stand(rest, complete, outlines);
        let before = paints(rest, complete, outlines);
        let all = paints(buttons, complete, outlines);
        let n = buttons.len() - 1;
        assert forall|k: int| 0 <= k < all.len() implies ({
            let p = #[trigger] all[k];
            &&& paints_truly(p, buttons, outlines)
            &&& complete || buttons[p.index as int].changed
        }) by {
            if k < before.len() {
                assert(all[k] == before[k]);
                assert(paints_truly(before[k], rest, outlines));
                assert(buttons[before[k].index as int] == rest[before[k].index as int]);
            }
        }
        assert forall|j: int, k: int| 0 <= j < k < all.len() implies (#[trigger] all[j]).index < (
        #[trigger] all[k]).index by {
            assert(all[j] == before[j]);
            assert(paints_truly(before[j], rest, outlines));
            if k < before.len() {
                assert(all[k] == before[k]);
            }
        }
        assert forall|i: int|
            0 <= i < buttons.len() && (complete || (
            #[trigger] buttons[i]).changed) implies is_painted(all, i) by {
            if i < n {
                assert(rest[i] == buttons[i]);
                assert(is_painted(before, i));
                let k = choose|k: int| 0 <= k < before.len() && (#[trigger] before[k]).index == i;
                assert(all[k].index == i);
            } else {
                assert(all[before.len() as int].index == i);
            }
        }
    }
}

/// Button `i` of a row is painted.
pub open spec fn is_painted(row: Seq<Paint>, i: int) -> bool {
    exists|k: int| 0 <= k < row.len() && (#[trigger] row[k]).index == i
}

/// On a complete redraw entry `i` is button `i`.
pub proof fn complete_redraws_paint_everything(buttons: Seq<ButtonModel>, outlines: bool)
    requires
        buttons.len() <= usize::MAX,
    ensures
        paints(buttons, true, outlines).len() == buttons.len(),
        forall|i: int|
            0 <= i < buttons.len() ==> (#[trigger] paints(buttons, true, outlines)[i]).index == i
                && paints_truly(paints(buttons, true, outlines)[i], buttons, outlines),
    decreases buttons.len(),
{
    rows_are_painted_as_they_stand(buttons, true, outlines);
    if buttons.len() > 0 {
        let rest = buttons.drop_last();
        complete_redraws_paint_everything(rest, outlines);
        let all = paints(buttons, true, outlines);
        let before = paints(rest, true, outlines);
        assert forall|i: int| 0 <= i < buttons.len() implies (#[trigger] all[i]).index == i
            && paints_truly(all[i], buttons, outlines) by {
            if i < before.len() {
                assert(all[i] == before[i]);
            }
        }
    }
}

/// A row that was painted has nothing left to draw, and is otherwise as it
/// was: painting it again without a complete redraw paints nothing.
pub proof fn painted_rows_rest(s: SetModel, outlines: bool)
    ensures
        ({
            let after = each(s, |b: ButtonModel| drawn(b));
            &&& after.buttons.len() == s.buttons.len()
            &&& forall|i: int|
                0 <= i < s.buttons.len() ==> {
                    let b = #[trigger] after.buttons[i];
                    &&& !b.changed
                    &&& b == (ButtonModel { changed: b.changed, ..s.buttons[i] })
                }
            &&& !any_changed_spec(after.buttons)
            &&& paints(after.buttons, false, outlines).len() == 0
        }),
{
    let after = each(s, |b: ButtonModel| drawn(b));
    lemma_nothing_to_paint(after.buttons, outlines);
}

proof fn lemma_nothing_to_paint(buttons: Seq<ButtonModel>, outlines: bool)
    requires
        forall|i: int| 0 <= i < buttons.len() ==> !(#[trigger] buttons[i]).changed,
    ensures
        paints(buttons, false, outlines).len() == 0,
    decreases buttons.len(),
{
    if buttons.len() > 0 {
        let rest = buttons.drop_last();
        assert forall|i: int| 0 <= i < rest.len() implies !(#[trigger] rest[i]).changed by {
            assert(rest[i] == buttons[i]);
        }
        lemma_nothing_to_paint(rest, outlines);
        assert(!buttons[buttons.len() - 1].changed);
    }
}

/// Pressing a button, or letting go of it, sends exactly its keys, each once
/// and in order, followed by one report. A button that already is as asked,
/// or that has no keys, sends nothing.
pub proof fn presses_send_the_keys(b: ButtonModel, active: bool)
    ensures
        b.pressed == active ==> press_effects(b, active).len() == 0,
        b.pressed != active ==> match b.action {
            ActionModel::Keys(codes) => {
                let sent = press_effects(b, active);
                &&& sent.len() == (if codes.len() == 0 {
                    0
                } else {
                    codes.len() + 1
                })
                &&& forall|i: int|
                    0 <= i < codes.len() ==> #[trigger] sent[i] == (Effect::Key {
                        code: codes[i],
                        down: active,
                    })
                &&& codes.len() > 0 ==> sent[codes.len() as int] == Effect::Report
            },
            _ => press_effects(b, active).len() == 0,
        },
{
}

/// A button is as it was asked to be, is drawn anew exactly where that is
/// news, and is otherwise as it was.
pub proof fn presses_take_effect(b: ButtonModel, active: bool, highlighted: bool)
    ensures
        pressed_to(b, active).pressed == active,
        pressed_to(b, active) == (ButtonModel {
            pressed: active,
            changed: b.changed || b.pressed != active,
            ..b
        }),
        highlighted_to(b, highlighted).highlighted == highlighted,
        highlighted_to(b, highlighted) == (ButtonModel {
            highlighted,
            changed: b.changed || b.highlighted != highlighted,
            ..b
        }),
{
}

/// Where the slider of a button stands.
pub open spec fn stands_at(b: ButtonModel) -> Scalar {
    b.image->Slider_0.value
}

/// A slider follows the finger: it stands where the finger is, as a number,
/// and counts as dragged for as long as it is. Ending the drag leaves it
/// where it is.
pub proof fn sliders_follow_fingers(b: ButtonModel, value: Scalar)
    requires
        b.image is Slider,
    ensures
        dragged_to(b, Some(value), true).image is Slider,
        is_dragging(dragged_to(b, Some(value), true)),
        !value.nan() ==> stands_at(dragged_to(b, Some(value), true)).same(value),
        !stands_at(b).same(value) ==> dragged_to(b, Some(value), true).changed,
        dragged_to(b, None, false).image is Slider,
        !is_dragging(dragged_to(b, None, false)),
        stands_at(dragged_to(b, None, false)) == stands_at(b),
        let_go(b).image is Slider,
        !is_dragging(let_go(b)),
        !let_go(b).pressed,
        stands_at(let_go(b)) == stands_at(b),
        let_go(b).action == b.action,
        dragged_to(b, Some(value), true).action == b.action,
        dragged_to(b, Some(value), true).pressed == b.pressed,
{
}

/// A slider is drawn anew exactly where its position or its drag is news, and
/// nothing but these two changes.
pub proof fn moved_sliders_are_drawn_anew(b: ButtonModel, value: Option<Scalar>, dragging: bool)
    requires
        b.image is Slider,
    ensures
        ({
            let after = dragged_to(b, value, dragging);
            let news = value matches Some(v) && !stands_at(b).same(v);
            &&& after.changed == (b.changed || news || is_dragging(b) != dragging)
            &&& is_dragging(after) == dragging
            &&& (!news ==> stands_at(after) == stands_at(b))
            &&& after == (ButtonModel { image: after.image, changed: after.changed, ..b })
        }),
{
}

/// A button that is let go of is drawn anew exactly where it was held.
pub proof fn released_buttons_are_drawn_anew(b: ButtonModel)
    ensures
        let_go(b).changed == (b.changed || b.pressed || is_dragging(b)),
        !let_go(b).pressed,
        !is_dragging(let_go(b)),
        !(b.image is Slider) ==> let_go(b).image == b.image,
        let_go(b) == (ButtonModel {
            image: let_go(b).image,
            changed: let_go(b).changed,
            pressed: false,
            ..b
        }),
{
}

/// A button whose backend was read is drawn anew exactly where that moved
/// its slider.
pub proof fn read_sliders_are_drawn_anew(b: ButtonModel, readings: SliderReadings)
    ensures
        ({
            let after = synced(b, readings);
            let moves = match (b.action, b.image) {
                (ActionModel::Slider(target), ImageModel::Slider(s)) => match read_for(
                    readings,
                    target,
                ) {
                    Some(v) => !s.dragging && !s.value.same(v),
                    None => false,
                },
                _ => false,
            };
            &&& after.changed == (b.changed || moves)
            &&& (!moves ==> after == b)
            &&& after == (ButtonModel { image: after.image, changed: after.changed, ..b })
        }),
{
}

/// A row has changed exactly where one of its buttons has.
pub proof fn changed_buttons_are_noticed(buttons: Seq<ButtonModel>, i: int)
    ensures
        0 <= i < buttons.len() && buttons[i].changed ==> any_changed_spec(buttons),
        (forall|j: int| 0 <= j < buttons.len() ==> !(#[trigger] buttons[j]).changed)
            ==> !any_changed_spec(buttons),
{
}

/// What happens to the buttons of a row leaves the row as it is laid out,
/// and what it knows of clocks and batteries.
pub proof fn rows_keep_their_shape(
    s: SetModel,
    f: spec_fn(ButtonModel) -> ButtonModel,
    i: int,
    b: ButtonModel,
)
    requires
        0 <= i < s.buttons.len(),
    ensures
        each(s, f) == (SetModel { buttons: each(s, f).buttons, ..s }),
        each(s, f).buttons.len() == s.buttons.len(),
        each(s, f).buttons[i] == f(s.buttons[i]),
        with_button(s, i, b) == (SetModel { buttons: with_button(s, i, b).buttons, ..s }),
        with_button(s, i, b).buttons.len() == s.buttons.len(),
        with_button(s, i, b).buttons[i] == b,
        forall|j: int|
            0 <= j < s.buttons.len() && j != i ==> #[trigger] with_button(s, i, b).buttons[j]
                == s.buttons[j],
{
}

/// A time is written in its locale where there is such a one, and else in
/// the plainest.
pub proof fn times_are_written_in_their_locale(locale: Option<Seq<char>>)
    ensures
        locale is None ==> locale_spec(locale) == "POSIX"@,
        locale matches Some(name) ==> (known_locale(name) ==> locale_spec(locale) == name),
        locale matches Some(name) ==> (!known_locale(name) ==> locale_spec(locale) == "POSIX"@),
{
}

/// What was read for a slider's backend.
pub open spec fn read_for(readings: SliderReadings, target: SliderTarget) -> Option<Scalar> {
    match target {
        SliderTarget::DisplayBrightness => readings.display,
        SliderTarget::KeyboardBrightness => readings.keyboard,
        SliderTarget::Volume => readings.volume,
    }
}

/// The slider of a button, where it has one, shows what was read for its
/// backend: it stands there, as a number, unless a finger is on it.
pub open spec fn shows_reading(b: ButtonModel, readings: SliderReadings) -> bool {
    match (b.action, b.image) {
        (ActionModel::Slider(target), ImageModel::Slider(s)) => match read_for(readings, target) {
            Some(v) => v.nan() || s.dragging || s.value.same(v),
            None => true,
        },
        _ => true,
    }
}

/// A slider that was read shows the reading of its own backend, and of no
/// other: without one it stays. Whatever is no slider stays as it is.
pub proof fn readings_are_shown(b: ButtonModel, readings: SliderReadings)
    ensures
        shows_reading(synced(b, readings), readings),
        !(b.image is Slider) ==> synced(b, readings) == b,
        synced(b, readings).image is Slider <==> b.image is Slider,
        synced(b, readings).action == b.action,
        is_dragging(synced(b, readings)) == is_dragging(b),
        (b.action matches ActionModel::Slider(t) && read_for(readings, t) is None) ==> synced(
            b,
            readings,
        ) == b,
        forall|v: Scalar|
            b.image is Slider && !is_dragging(b) && !v.nan() ==> stands_at(
                #[trigger] seeded(b, Some(v)),
            ).same(v),
{
}

/// What a button does when it is tapped: a slider slides, whatever else is
/// configured; then an overlay is opened, then one is closed, then keys are
/// sent.
pub proof fn actions_are_as_configured(cfg: ButtonConfigModel)
    ensures
        cfg.slider matches Some(t) ==> action_of(cfg) == ActionModel::Slider(t),
        cfg.slider is None ==> (cfg.open_overlay matches Some(name) ==> action_of(cfg)
            == ActionModel::OpenOverlay(name)),
        cfg.slider is None && cfg.open_overlay is None && cfg.close_overlay == Some(true)
            ==> action_of(cfg) == ActionModel::CloseOverlay,
        cfg.slider is None && cfg.open_overlay is None && cfg.close_overlay != Some(true)
            && cfg.action.len() > 0 ==> action_of(cfg) == ActionModel::Keys(cfg.action),
        cfg.slider is None && cfg.open_overlay is None && cfg.close_overlay != Some(true)
            && cfg.action.len() == 0 ==> action_of(cfg) == ActionModel::Nothing,
{
}

/// A button that was made rests: nobody holds it, nothing marks it, and it
/// keeps its name. Its slider stands at 0.
pub proof fn buttons_begin_at_rest(cfg: ButtonConfigModel, battery: Option<Seq<char>>)
    requires
        button_of(cfg, battery) is Ok,
    ensures
        ({
            let b = button_of(cfg, battery)->Ok_0;
            &&& !b.pressed
            &&& !b.highlighted
            &&& !b.changed
            &&& b.id == cfg.id
            &&& b.image matches ImageModel::Slider(s) ==> s.value.bits == 0 && !s.dragging
        }),
{
}

/// What a button shows: a slider, else its text, else its icon, else the
/// time, else the battery of the machine, else nothing at all. Everything
/// that shows something does what its entry says; what shows nothing does
/// nothing.
pub proof fn buttons_show_what_is_configured(cfg: ButtonConfigModel, battery: Option<Seq<char>>)
    ensures
        cfg.slider is Some ==> button_of(cfg, battery) is Ok && button_of(
            cfg,
            battery,
        )->Ok_0.image is Slider,
        cfg.slider is None ==> (cfg.text matches Some(text) ==> button_of(cfg, battery) is Ok
            && button_of(cfg, battery)->Ok_0.image == ImageModel::Text(text)),
        cfg.slider is None && cfg.text is None ==> (cfg.icon matches Some(name) ==> {
            &&& button_of(cfg, battery) is Ok
            &&& ({
                let b = button_of(cfg, battery)->Ok_0;
                &&& b.image == (ImageModel::Icon { name, theme: cfg.theme })
                &&& b.icon_width == (match cfg.icon_width {
                    Some(n) => n,
                    None => 48i32,
                })
                &&& b.icon_height == (match cfg.icon_height {
                    Some(n) => n,
                    None => 48i32,
                })
            })
        }),
        cfg.slider is None && cfg.text is None && cfg.icon is None && cfg.time is Some ==> (
        button_of(cfg, battery) matches Ok(b) ==> b.image is Time),
        cfg.slider is None && cfg.text is None && cfg.icon is None && cfg.time is None
            && cfg.battery is Some ==> {
            &&& (battery matches Some(device) ==> (button_of(cfg, battery) matches Ok(b) ==> (
            b.image matches ImageModel::Battery { device: d, theme, .. } && d == device && theme
                == cfg.theme)))
            &&& battery is None ==> button_of(cfg, battery) is Ok && button_of(
                cfg,
                battery,
            )->Ok_0.image == ImageModel::Text("Battery N/A"@)
        },
        cfg.slider is None && cfg.text is None && cfg.icon is None && cfg.time is None
            && cfg.battery is None ==> button_of(cfg, battery) is Ok && button_of(
            cfg,
            battery,
        )->Ok_0.image == ImageModel::Spacer && button_of(cfg, battery)->Ok_0.action
            == ActionModel::Nothing,
        button_of(cfg, battery) matches Ok(b) && !(b.image is Spacer) ==> button_of(
            cfg,
            battery,
        )->Ok_0.action == action_of(cfg),
        button_of(cfg, battery) matches Err(e) ==> e == ConfigError::TimeFormat || e
            == ConfigError::BatteryMode,
{
}

/// The columns of a row follow one another without a gap: each button takes
/// as many as it is stretched over, one where that is not said, and the row
/// ends with its last button.
pub proof fn columns_follow_one_another(cfg: Seq<ButtonConfigModel>, battery: Option<Seq<char>>)
    requires
        set_of(cfg, battery) is Ok,
    ensures
        ({
            let s = set_of(cfg, battery)->Ok_0;
            &&& s.starts.len() == cfg.len()
            &&& s.starts[0] == 0
            &&& forall|i: int|
                0 <= i < cfg.len() ==> {
                    let end: int = if i + 1 < cfg.len() {
                        s.starts[i + 1] as int
                    } else {
                        s.columns as int
                    };
                    let wide: int = match (#[trigger] cfg[i]).stretch {
                        Some(n) if n > 1 => n as int,
                        _ => 1,
                    };
                    end - s.starts[i] == wide
                }
        }),
{
    configured_sets_are_well_formed(cfg, battery);
    let s = set_of(cfg, battery)->Ok_0;
    lemma_row_fits(cfg, battery);
    assert(cfg.take(cfg.len() as int) =~= cfg);
    assert(cfg.take(0) =~= Seq::empty());
    assert forall|i: int| 0 <= i < cfg.len() implies ({
        let end: int = if i + 1 < cfg.len() {
            s.starts[i + 1] as int
        } else {
            s.columns as int
        };
        let wide: int = match (#[trigger] cfg[i]).stretch {
            Some(n) if n > 1 => n as int,
            _ => 1,
        };
        end - s.starts[i] == wide
    }) by {
        let upto = cfg.take(i + 1);
        assert(upto.drop_last() =~= cfg.take(i));
        assert(upto.last() == cfg[i]);
        lemma_part_fits(cfg, i + 1);
        lemma_part_fits(cfg, i);
    }
}

proof fn lemma_part_fits(cfg: Seq<ButtonConfigModel>, n: int)
    requires
        0 <= n <= cfg.len(),
    ensures
        stretch_sum(cfg.take(n)) <= stretch_sum(cfg),
    decreases cfg.len() - n,
{
    if n < cfg.len() {
        assert(cfg.take(n + 1).drop_last() =~= cfg.take(n));
        lemma_part_fits(cfg, n + 1);
    } else {
        assert(cfg.take(n) =~= cfg);
    }
}

proof fn lemma_row_fits(cfg: Seq<ButtonConfigModel>, battery: Option<Seq<char>>)
    requires
        set_of(cfg, battery) is Ok,
    ensures
        stretch_sum(cfg) <= usize::MAX,
{
    if cfg.len() > 0 {
        assert(crate::button_set::buttons_of(cfg, battery) is Ok);
    }
}

/// A row has a clock where an entry asks for the time, a battery where one
/// asks for that, and is drawn every second where a clock shows seconds. A
/// row without entries is refused.
pub proof fn rows_know_what_they_show(cfg: Seq<ButtonConfigModel>, battery: Option<Seq<char>>)
    ensures
        cfg.len() == 0 ==> set_of(cfg, battery) == Err::<SetModel, ConfigError>(
            ConfigError::NoButtons,
        ),
        set_of(cfg, battery) matches Ok(s) ==> {
            &&& s.displays_time <==> exists|i: int|
                0 <= i < cfg.len() && (#[trigger] cfg[i]).time is Some
            &&& s.displays_battery <==> exists|i: int|
                0 <= i < cfg.len() && (#[trigger] cfg[i]).battery is Some
            &&& s.faster_refresh <==> exists|i: int|
                0 <= i < s.buttons.len() && ticks_fast(#[trigger] s.buttons[i])
        },
{
    if set_of(cfg, battery) is Ok {
        let s = set_of(cfg, battery)->Ok_0;
        if s.faster_refresh {
            let i = choose|i: int|
                0 <= i < s.buttons.len() && crate::button::needs_seconds(
                    (#[trigger] s.buttons[i]).image,
                );
            assert(ticks_fast(s.buttons[i]));
        }
        if exists|i: int| 0 <= i < s.buttons.len() && ticks_fast(#[trigger] s.buttons[i]) {
            let i = choose|i: int| 0 <= i < s.buttons.len() && ticks_fast(#[trigger] s.buttons[i]);
            assert(crate::button::needs_seconds(s.buttons[i].image));
        }
    }
}

/// A button shows a time with seconds, or finer.
pub open spec fn ticks_fast(b: ButtonModel) -> bool {
    b.image matches ImageModel::Time { items, .. } && exists|i: int|
        0 <= i < items.len() && ((#[trigger] items[i]) is Second || items[i] is Nanosecond
            || items[i] is Timestamp)
}

/// The two names of common formats stand for a clock with the day; every
/// other format stands for itself.
pub proof fn formats_have_names(format: Seq<char>)
    ensures
        crate::button::time_format_spec("24hr"@) == "%H:%M    %a %-e %b"@,
        crate::button::time_format_spec("12hr"@) == "%-l:%M %p    %a %-e %b"@,
        format != "24hr"@ && format != "12hr"@ ==> crate::button::time_format_spec(format)
            == format,
{
    reveal_strlit("24hr");
    reveal_strlit("12hr");
    assert("24hr"@[0] != "12hr"@[0]);
}

} // verus!
