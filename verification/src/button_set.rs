//! A row of buttons, each as wide as one or more columns.
use crate::button::{
    button_of, needs_seconds, seeded, ActionModel, Button, ButtonAction, ButtonImage, ButtonModel,
    ConfigError,
};
use crate::config::{button_configs, ButtonConfig, ButtonConfigModel, SliderTarget};
use crate::scalar::Scalar;
use crate::text::text_model;
use vstd::prelude::*;

verus! {

/// Buttons with the column at which each starts.
#[derive(Debug)]
pub struct ButtonSet {
    pub displays_time: bool,
    pub displays_battery: bool,
    pub buttons: Vec<(usize, Button)>,
    pub virtual_button_count: usize,
    pub faster_refresh: bool,
}

#[verifier::ext_equal]
pub struct SetModel {
    pub displays_time: bool,
    pub displays_battery: bool,
    pub starts: Seq<usize>,
    pub buttons: Seq<ButtonModel>,
    pub columns: usize,
    pub faster_refresh: bool,
}

pub open spec fn start_models(buttons: Seq<(usize, Button)>) -> Seq<usize> {
    buttons.map_values(|b: (usize, Button)| b.0)
}

pub open spec fn button_models(buttons: Seq<(usize, Button)>) -> Seq<ButtonModel> {
    buttons.map_values(|b: (usize, Button)| b.1@)
}

impl View for ButtonSet {
    type V = SetModel;

    open spec fn view(&self) -> SetModel {
        SetModel {
            displays_time: self.displays_time,
            displays_battery: self.displays_battery,
            starts: start_models(self.buttons@),
            buttons: button_models(self.buttons@),
            columns: self.virtual_button_count,
            faster_refresh: self.faster_refresh,
        }
    }
}

/// How many columns a button takes: at least one.
pub open spec fn stretch_of(cfg: ButtonConfigModel) -> nat {
    match cfg.stretch {
        Some(n) if n >= 1 => n as nat,
        _ => 1,
    }
}

/// How many columns a row takes.
pub open spec fn stretch_sum(cfg: Seq<ButtonConfigModel>) -> nat
    decreases cfg.len(),
{
    if cfg.len() == 0 {
        0
    } else {
        stretch_sum(cfg.drop_last()) + stretch_of(cfg.last())
    }
}

/// The buttons of a row, or what is wrong with the first one that cannot be
/// made.
pub open spec fn buttons_of(cfg: Seq<ButtonConfigModel>, battery: Option<Seq<char>>) -> Result<
    Seq<ButtonModel>,
    ConfigError,
>
    decreases cfg.len(),
{
    if cfg.len() == 0 {
        Ok(Seq::empty())
    } else {
        match buttons_of(cfg.drop_last(), battery) {
            Err(e) => Err(e),
            Ok(before) => if stretch_sum(cfg) > usize::MAX {
                Err(ConfigError::TooWide)
            } else {
                match button_of(cfg.last(), battery) {
                    Err(e) => Err(e),
                    Ok(b) => Ok(before.push(b)),
                }
            },
        }
    }
}

pub open spec fn any_time(cfg: Seq<ButtonConfigModel>) -> bool {
    exists|i: int| 0 <= i < cfg.len() && (#[trigger] cfg[i]).time is Some
}

pub open spec fn any_battery(cfg: Seq<ButtonConfigModel>) -> bool {
    exists|i: int| 0 <= i < cfg.len() && (#[trigger] cfg[i]).battery is Some
}

pub open spec fn any_fast(buttons: Seq<ButtonModel>) -> bool {
    exists|i: int| 0 <= i < buttons.len() && needs_seconds((#[trigger] buttons[i]).image)
}

/// The column at which button `i` of a row starts.
pub open spec fn start_of(cfg: Seq<ButtonConfigModel>, i: int) -> usize {
    stretch_sum(cfg.take(i)) as usize
}

/// The row that a configuration describes. A row without buttons is an
/// error.
pub open spec fn set_of(cfg: Seq<ButtonConfigModel>, battery: Option<Seq<char>>) -> Result<
    SetModel,
    ConfigError,
> {
    if cfg.len() == 0 {
        Err(ConfigError::NoButtons)
    } else {
        match buttons_of(cfg, battery) {
            Err(e) => Err(e),
            Ok(buttons) => Ok(
                SetModel {
                    displays_time: any_time(cfg),
                    displays_battery: any_battery(cfg),
                    starts: Seq::new(cfg.len(), |i: int| start_of(cfg, i)),
                    buttons,
                    columns: stretch_sum(cfg) as usize,
                    faster_refresh: any_fast(buttons),
                },
            ),
        }
    }
}

/// A button slides exactly where it shows a slider.
pub open spec fn coherent(b: ButtonModel) -> bool {
    b.action is Slider <==> b.image is Slider
}

impl SetModel {
    /// At least one button; they start at column 0, one after the other,
    /// within the row.
    pub open spec fn wf(self) -> bool {
        &&& self.buttons.len() == self.starts.len()
        &&& self.starts.len() > 0
        &&& self.starts[0] == 0
        &&& forall|i: int, j: int|
            0 <= i < j < self.starts.len() ==> #[trigger] self.starts[i] < #[trigger] self.starts[j]
        &&& forall|i: int|
            0 <= i < self.starts.len() ==> #[trigger] self.starts[i] < self.columns
        &&& forall|i: int| 0 <= i < self.buttons.len() ==> coherent(#[trigger] self.buttons[i])
    }
}

proof fn lemma_stretch_grows(cfg: Seq<ButtonConfigModel>, i: int, j: int)
    requires
        0 <= i < j <= cfg.len(),
    ensures
        stretch_sum(cfg.take(i)) < stretch_sum(cfg.take(j)),
    decreases j - i,
{
    assert(cfg.take(j).drop_last() =~= cfg.take(j - 1));
    if i < j - 1 {
        lemma_stretch_grows(cfg, i, j - 1);
    }
}

proof fn lemma_buttons(cfg: Seq<ButtonConfigModel>, battery: Option<Seq<char>>)
    requires
        buttons_of(cfg, battery) is Ok,
    ensures
        buttons_of(cfg, battery)->Ok_0.len() == cfg.len(),
        stretch_sum(cfg) <= usize::MAX,
        forall|i: int|
            0 <= i < cfg.len() ==> coherent(#[trigger] buttons_of(cfg, battery)->Ok_0[i]),
        forall|i: int|
            0 <= i < cfg.len() ==> #[trigger] button_of(cfg[i], battery)
                == Ok::<ButtonModel, ConfigError>(buttons_of(cfg, battery)->Ok_0[i]),
    decreases cfg.len(),
{
    if cfg.len() > 0 {
        lemma_buttons(cfg.drop_last(), battery);
        let all = buttons_of(cfg, battery)->Ok_0;
        let before = buttons_of(cfg.drop_last(), battery)->Ok_0;
        assert forall|i: int| 0 <= i < cfg.len() implies coherent(#[trigger] all[i]) by {
            if i < before.len() {
                assert(all[i] == before[i]);
            }
        }
        assert forall|i: int| 0 <= i < cfg.len() implies #[trigger] button_of(cfg[i], battery)
            == Ok::<ButtonModel, ConfigError>(all[i]) by {
            if i < before.len() {
                assert(button_of(cfg.drop_last()[i], battery) is Ok);
            }
        }
    }
}

/// Every row that a configuration describes has its columns in order, and
/// its buttons are those of its entries, at rest.
pub proof fn configured_sets_are_well_formed(
    cfg: Seq<ButtonConfigModel>,
    battery: Option<Seq<char>>,
)
    requires
        set_of(cfg, battery) is Ok,
    ensures
        set_of(cfg, battery)->Ok_0.wf(),
        set_of(cfg, battery)->Ok_0.buttons.len() == cfg.len(),
        forall|i: int|
            0 <= i < cfg.len() ==> {
                let b = #[trigger] set_of(cfg, battery)->Ok_0.buttons[i];
                &&& button_of(cfg[i], battery) == Ok::<ButtonModel, ConfigError>(b)
                &&& !b.pressed
                &&& !crate::button::is_dragging(b)
            },
{
    lemma_buttons(cfg, battery);
    let s = set_of(cfg, battery)->Ok_0;
    assert(cfg.take(cfg.len() as int) =~= cfg);
    assert(cfg.take(0) =~= Seq::empty());
    assert forall|i: int, j: int| 0 <= i < j < s.starts.len() implies #[trigger] s.starts[i]
        < #[trigger] s.starts[j] by {
        lemma_stretch_grows(cfg, i, j);
        lemma_stretch_grows(cfg, j, cfg.len() as int);
    }
    assert forall|i: int| 0 <= i < s.starts.len() implies #[trigger] s.starts[i] < s.columns by {
        lemma_stretch_grows(cfg, i, cfg.len() as int);
    }
    assert forall|i: int| 0 <= i < cfg.len() implies ({
        let b = #[trigger] s.buttons[i];
        &&& button_of(cfg[i], battery) == Ok::<ButtonModel, ConfigError>(b)
        &&& !b.pressed
        &&& !crate::button::is_dragging(b)
    }) by {
        assert(button_of(cfg[i], battery) is Ok);
    }
}

/// What the backends of the sliders report; `None` is no answer, and keeps
/// the position last known.
#[derive(Clone, Copy, Debug, PartialEq, Eq, Structural)]
pub struct SliderReadings {
    pub display: Option<Scalar>,
    pub keyboard: Option<Scalar>,
    pub volume: Option<Scalar>,
}

impl SliderReadings {
    pub open spec fn of(self, target: SliderTarget) -> Option<Scalar> {
        match target {
            SliderTarget::DisplayBrightness => self.display,
            SliderTarget::KeyboardBrightness => self.keyboard,
            SliderTarget::Volume => self.volume,
        }
    }

    /// What was read for a target.
    pub fn reading(self, target: SliderTarget) -> (r: Option<Scalar>)
        ensures
            r == self.of(target),
    {
        match target {
            SliderTarget::DisplayBrightness => self.display,
            SliderTarget::KeyboardBrightness => self.keyboard,
            SliderTarget::Volume => self.volume,
        }
    }
}

/// A button after its backend, if it has one, was read.
pub open spec fn synced(b: ButtonModel, readings: SliderReadings) -> ButtonModel {
    match b.action {
        ActionModel::Slider(target) => seeded(b, readings.of(target)),
        _ => b,
    }
}

pub open spec fn marked(b: ButtonModel) -> ButtonModel {
    ButtonModel { changed: true, ..b }
}

pub open spec fn marked_if_battery(b: ButtonModel) -> ButtonModel {
    if b.image is Battery {
        marked(b)
    } else {
        b
    }
}

/// How bright a button's body is drawn.
#[derive(Clone, Copy, Debug, PartialEq, Eq, Structural)]
pub enum Shade {
    Active,
    Outlined,
    Dark,
}

/// One button that has to be drawn. Spacers have no body.
#[derive(Clone, Copy, Debug, PartialEq, Eq, Structural)]
pub struct Paint {
    pub index: usize,
    pub shade: Shade,
    pub body: bool,
}

pub open spec fn paint_of(b: ButtonModel, index: int, outlines: bool) -> Paint {
    Paint {
        index: index as usize,
        shade: if b.pressed || b.highlighted {
            Shade::Active
        } else if outlines {
            Shade::Outlined
        } else {
            Shade::Dark
        },
        body: !(b.image is Spacer),
    }
}

/// What has to be drawn of a row: everything on a complete redraw, else what
/// changed, in order.
pub open spec fn paints(buttons: Seq<ButtonModel>, complete: bool, outlines: bool) -> Seq<Paint>
    decreases buttons.len(),
{
    if buttons.len() == 0 {
        Seq::empty()
    } else {
        let before = paints(buttons.drop_last(), complete, outlines);
        if complete || buttons.last().changed {
            before.push(paint_of(buttons.last(), buttons.len() - 1, outlines))
        } else {
            before
        }
    }
}

pub open spec fn drawn(b: ButtonModel) -> ButtonModel {
    ButtonModel { changed: false, ..b }
}

/// A row with every button replaced by what `f` makes of it.
pub open spec fn each(s: SetModel, f: spec_fn(ButtonModel) -> ButtonModel) -> SetModel {
    SetModel { buttons: s.buttons.map_values(f), ..s }
}

/// A row with button `i` replaced.
pub open spec fn with_button(s: SetModel, i: int, b: ButtonModel) -> SetModel {
    SetModel { buttons: s.buttons.update(i, b), ..s }
}

pub open spec fn any_changed_spec(buttons: Seq<ButtonModel>) -> bool {
    exists|i: int| 0 <= i < buttons.len() && (#[trigger] buttons[i]).changed
}

fn has_time(cfg: &Vec<ButtonConfig>) -> (r: bool)
    ensures
        r == any_time(button_configs(cfg@)),
{
    let mut i: usize = 0;
    while i < cfg.len()
        invariant
            i <= cfg@.len(),
            forall|j: int| 0 <= j < i ==> (#[trigger] button_configs(cfg@)[j]).time is None,
        decreases cfg@.len() - i,
    {
        if cfg[i].time.is_some() {
            assert(button_configs(cfg@)[i as int].time is Some);
            return true;
        }
        i = i + 1;
    }
    false
}

fn has_battery(cfg: &Vec<ButtonConfig>) -> (r: bool)
    ensures
        r == any_battery(button_configs(cfg@)),
{
    let mut i: usize = 0;
    while i < cfg.len()
        invariant
            i <= cfg@.len(),
            forall|j: int| 0 <= j < i ==> (#[trigger] button_configs(cfg@)[j]).battery is None,
        decreases cfg@.len() - i,
    {
        if cfg[i].battery.is_some() {
            assert(button_configs(cfg@)[i as int].battery is Some);
            return true;
        }
        i = i + 1;
    }
    false
}

proof fn lemma_error_stays(cfg: Seq<ButtonConfigModel>, battery: Option<Seq<char>>, n: int)
    requires
        0 <= n <= cfg.len(),
        buttons_of(cfg.take(n), battery) is Err,
    ensures
        buttons_of(cfg, battery) == buttons_of(cfg.take(n), battery),
    decreases cfg.len() - n,
{
    if n < cfg.len() {
        assert(cfg.take(n + 1).drop_last() =~= cfg.take(n));
        lemma_error_stays(cfg, battery, n + 1);
    } else {
        assert(cfg.take(n) =~= cfg);
    }
}

impl ButtonSet {
    /// A row without buttons.
    pub fn empty() -> (s: ButtonSet)
        ensures
            s@ == (SetModel {
                displays_time: false,
                displays_battery: false,
                starts: Seq::empty(),
                buttons: Seq::empty(),
                columns: 0,
                faster_refresh: false,
            }),
    {
        let s = ButtonSet {
            displays_time: false,
            displays_battery: false,
            buttons: Vec::new(),
            virtual_button_count: 0,
            faster_refresh: false,
        };
        assert(s@.starts =~= Seq::empty());
        assert(s@.buttons =~= Seq::empty());
        s
    }

    /// The row that a configuration describes, on a machine with the given
    /// battery.
    pub fn with_config(cfg: Vec<ButtonConfig>, battery: &Option<String>) -> (r: Result<
        ButtonSet,
        ConfigError,
    >)
        ensures
            match r {
                Ok(s) => set_of(button_configs(cfg@), text_model(*battery)) == Ok::<
                    SetModel,
                    ConfigError,
                >(s@),
                Err(e) => set_of(button_configs(cfg@), text_model(*battery)) == Err::<
                    SetModel,
                    ConfigError,
                >(e),
            },
    {
        if cfg.len() == 0 {
            return Err(ConfigError::NoButtons);
        }
        let ghost models = button_configs(cfg@);
        let ghost device = text_model(*battery);
        let displays_time = has_time(&cfg);
        let displays_battery = has_battery(&cfg);
        let mut buttons: Vec<(usize, Button)> = Vec::new();
        let mut columns: usize = 0;
        let mut faster_refresh: bool = false;
        assert(models.take(0) =~= Seq::empty());
        assert(button_models(buttons@) =~= Seq::empty());
        for entry in it: cfg
            invariant
                button_configs(it.seq()) == models,
                models == button_configs(cfg@),
                device == text_model(*battery),
                buttons@.len() == it.index(),
                buttons_of(models.take(it.index()), device) == Ok::<Seq<ButtonModel>, ConfigError>(
                    button_models(buttons@),
                ),
                columns == stretch_sum(models.take(it.index())),
                faster_refresh == any_fast(button_models(buttons@)),
                forall|j: int|
                    0 <= j < buttons@.len() ==> (#[trigger] buttons@[j]).0 == start_of(models, j),
        {
            let ghost n = it.index();
            let ghost before = button_models(buttons@);
            assert(models[n] == entry@);
            assert(models.take(n + 1).drop_last() =~= models.take(n));
            assert(models.take(n + 1).last() == entry@);
            let stretch: usize = match entry.stretch {
                Some(s) if s >= 1 => s,
                _ => 1,
            };
            let start: usize = columns;
            match columns.checked_add(stretch) {
                Some(sum) => {
                    columns = sum;
                },
                None => {
                    proof {
                        lemma_error_stays(models, device, n + 1);
                    }
                    return Err(ConfigError::TooWide);
                },
            }
            match Button::with_config(entry, battery) {
                Ok(button) => {
                    let fast = button.needs_faster_refresh();
                    let ghost made = button@;
                    buttons.push((start, button));
                    faster_refresh = faster_refresh || fast;
                    let ghost after = button_models(buttons@);
                    assert(after =~= before.push(made));
                    proof {
                        if any_fast(before) {
                            let k = choose|k: int|
                                0 <= k < before.len() && needs_seconds(
                                    (#[trigger] before[k]).image,
                                );
                            assert(needs_seconds(after[k].image));
                        }
                        if fast {
                            assert(needs_seconds(after[n].image));
                        }
                        if any_fast(after) && !fast {
                            let k = choose|k: int|
                                0 <= k < after.len() && needs_seconds((#[trigger] after[k]).image);
                            assert(needs_seconds(before[k].image));
                        }
                    }
                },
                Err(e) => {
                    proof {
                        lemma_error_stays(models, device, n + 1);
                    }
                    return Err(e);
                },
            }
        }
        assert(models.take(models.len() as int) =~= models);
        let set = ButtonSet {
            displays_time,
            displays_battery,
            buttons,
            virtual_button_count: columns,
            faster_refresh,
        };
        assert(set@.starts =~= Seq::new(models.len(), |i: int| start_of(models, i)));
        Ok(set)
    }

    /// The columns at which the buttons start.
    pub fn button_starts(&self) -> (r: Vec<usize>)
        ensures
            r@ == self@.starts,
    {
        let mut r: Vec<usize> = Vec::new();
        let mut i: usize = 0;
        while i < self.buttons.len()
            invariant
                i <= self.buttons@.len(),
                r@ == self@.starts.take(i as int),
            decreases self.buttons@.len() - i,
        {
            r.push(self.buttons[i].0);
            assert(self@.starts.take(i + 1) =~= self@.starts.take(i as int).push(
                self@.starts[i as int],
            ));
            i = i + 1;
        }
        assert(self@.starts.take(i as int) =~= self@.starts);
        r
    }

    /// Whether some button has to be drawn.
    pub fn any_changed(&self) -> (r: bool)
        ensures
            r == any_changed_spec(self@.buttons),
    {
        let mut i: usize = 0;
        while i < self.buttons.len()
            invariant
                i <= self.buttons@.len(),
                forall|j: int| 0 <= j < i ==> !(#[trigger] self@.buttons[j]).changed,
            decreases self.buttons@.len() - i,
        {
            if self.buttons[i].1.changed {
                assert(self@.buttons[i as int].changed);
                return true;
            }
            i = i + 1;
        }
        false
    }

    /// The button at `index`, for changing it.
    pub fn button_mut(&mut self, index: usize) -> (r: Option<&mut Button>)
        ensures
            match r {
                Some(b) => {
                    &&& index < old(self)@.buttons.len()
                    &&& b@ == old(self)@.buttons[index as int]
                    &&& final(self)@ == with_button(old(self)@, index as int, final(b)@)
                },
                None => index >= old(self)@.buttons.len() && final(self)@ == old(self)@,
            },
    {
        if index < self.buttons.len() {
            Some(&mut self.buttons[index].1)
        } else {
            None
        }
    }

    /// Marks every button for drawing.
    pub fn mark_all(&mut self)
        ensures
            final(self)@ == each(old(self)@, |b: ButtonModel| marked(b)),
    {
        let ghost s = self@;
        let n: usize = self.buttons.len();
        let mut i: usize = 0;
        while i < n
            invariant
                i <= n == self.buttons@.len() == s.buttons.len(),
                s == old(self)@,
                self@ == (SetModel { buttons: self@.buttons, ..s }),
                forall|j: int|
                    0 <= j < n ==> #[trigger] self@.buttons[j] == (if j < i {
                        marked(s.buttons[j])
                    } else {
                        s.buttons[j]
                    }),
            decreases n - i,
        {
            let ghost before = self@;
            assert(before.buttons[i as int] == s.buttons[i as int]);
            self.buttons[i].1.changed = true;
            assert(self@.starts =~= before.starts);
            assert(self@.buttons =~= before.buttons.update(i as int, marked(s.buttons[i as int])));
            i = i + 1;
        }
        assert(self@.buttons =~= s.buttons.map_values(|b: ButtonModel| marked(b)));
    }

    /// Marks every battery button for drawing.
    pub fn mark_batteries(&mut self)
        ensures
            final(self)@ == each(old(self)@, |b: ButtonModel| marked_if_battery(b)),
    {
        let ghost s = self@;
        let n: usize = self.buttons.len();
        let mut i: usize = 0;
        while i < n
            invariant
                i <= n == self.buttons@.len() == s.buttons.len(),
                s == old(self)@,
                self@ == (SetModel { buttons: self@.buttons, ..s }),
                forall|j: int|
                    0 <= j < n ==> #[trigger] self@.buttons[j] == (if j < i {
                        marked_if_battery(s.buttons[j])
                    } else {
                        s.buttons[j]
                    }),
            decreases n - i,
        {
            let ghost before = self@;
            assert(before.buttons[i as int] == s.buttons[i as int]);
            if let ButtonImage::Battery { .. } = &self.buttons[i].1.image {
                self.buttons[i].1.changed = true;
            }
            assert(self@.starts =~= before.starts);
            assert(self@.buttons =~= before.buttons.update(
                i as int,
                marked_if_battery(s.buttons[i as int]),
            ));
            i = i + 1;
        }
        assert(self@.buttons =~= s.buttons.map_values(|b: ButtonModel| marked_if_battery(b)));
    }

    /// Shows what the backends report on every slider that no finger is on.
    pub fn sync(&mut self, readings: SliderReadings)
        ensures
            final(self)@ == each(old(self)@, |b: ButtonModel| synced(b, readings)),
    {
        let ghost s = self@;
        let n: usize = self.buttons.len();
        let mut i: usize = 0;
        while i < n
            invariant
                i <= n == self.buttons@.len() == s.buttons.len(),
                s == old(self)@,
                self@ == (SetModel { buttons: self@.buttons, ..s }),
                forall|j: int|
                    0 <= j < n ==> #[trigger] self@.buttons[j] == (if j < i {
                        synced(s.buttons[j], readings)
                    } else {
                        s.buttons[j]
                    }),
            decreases n - i,
        {
            let ghost before = self@;
            assert(before.buttons[i as int] == s.buttons[i as int]);
            if let ButtonAction::Slider(target) = self.buttons[i].1.action {
                self.buttons[i].1.seed(readings.reading(target));
            }
            assert(self@.starts =~= before.starts);
            assert(self@.buttons =~= before.buttons.update(
                i as int,
                synced(s.buttons[i as int], readings),
            ));
            i = i + 1;
        }
        assert(self@.buttons =~= s.buttons.map_values(|b: ButtonModel| synced(b, readings)));
    }

    /// What has to be drawn; afterwards nothing has changed any more.
    pub fn paint(&mut self, complete: bool, outlines: bool) -> (r: Vec<Paint>)
        ensures
            r@ == paints(old(self)@.buttons, complete, outlines),
            final(self)@ == each(old(self)@, |b: ButtonModel| drawn(b)),
    {
        let ghost s = self@;
        let mut r: Vec<Paint> = Vec::new();
        let n: usize = self.buttons.len();
        let mut i: usize = 0;
        assert(s.buttons.take(0) =~= Seq::empty());
        while i < n
            invariant
                i <= n == self.buttons@.len() == s.buttons.len(),
                s == old(self)@,
                self@ == (SetModel { buttons: self@.buttons, ..s }),
                r@ == paints(s.buttons.take(i as int), complete, outlines),
                forall|j: int|
                    0 <= j < n ==> #[trigger] self@.buttons[j] == (if j < i {
                        drawn(s.buttons[j])
                    } else {
                        s.buttons[j]
                    }),
            decreases n - i,
        {
            let ghost before = self@;
            assert(before.buttons[i as int] == s.buttons[i as int]);
            assert(s.buttons.take(i + 1).drop_last() =~= s.buttons.take(i as int));
            assert(s.buttons.take(i + 1).last() == s.buttons[i as int]);
            if complete || self.buttons[i].1.changed {
                let shade = if self.buttons[i].1.is_visually_active() {
                    Shade::Active
                } else if outlines {
                    Shade::Outlined
                } else {
                    Shade::Dark
                };
                let body = match &self.buttons[i].1.image {
                    ButtonImage::Spacer => false,
                    _ => true,
                };
                r.push(Paint { index: i, shade, body });
                self.buttons[i].1.changed = false;
            }
            assert(self@.starts =~= before.starts);
            assert(self@.buttons =~= before.buttons.update(i as int, drawn(s.buttons[i as int])));
            i = i + 1;
        }
        assert(s.buttons.take(n as int) =~= s.buttons);
        assert(self@.buttons =~= s.buttons.map_values(|b: ButtonModel| drawn(b)));
        r
    }
}

} // verus!
