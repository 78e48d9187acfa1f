//! One layer of the bar: its row of buttons, the overlays that take the
//! row's place, and the workspace strip beside it.
use crate::button::{
    dragged_to, is_dragging, let_go, press_effects, pressed_to, ActionModel, Button, ButtonAction,
    ButtonModel, Effect,
};
use crate::button_set::{
    any_changed_spec, drawn, each, marked, marked_if_battery, paints, synced, with_button,
    ButtonSet, Paint, SetModel, SliderReadings,
};
use crate::config::{
    button_configs, ButtonConfig, ButtonConfigModel, SliderTarget, WORKSPACE_BUTTON_HARD_CAP,
};
use crate::helper_proto::WsEntry;
use crate::layout::{groups_wf, total};
use crate::moment::{elapsed, remainder, Moment, NANOS_PER_MILLI};
use crate::scalar::Scalar;
use crate::strip::model_of;
use crate::text::same_text;
use vstd::prelude::*;

verus! {

/// Bound on overlay nesting, so that overlays that open each other cannot
/// grow the stack without limit.
pub const MAX_OVERLAY_DEPTH: usize = 8;

#[derive(Clone, Copy, Debug, PartialEq, Eq, Structural)]
pub enum LayerKind {
    /// The whole bar is one row of buttons.
    Classic,
    /// A workspace strip on the left, and a controls region that overlays
    /// take the place of.
    Regions,
}

/// Names a set of buttons. A strip is named with its generation, so that a
/// touch that began on an older strip never lands on a new one.
#[derive(Debug, PartialEq, Eq)]
pub enum ButtonSetKey {
    Base,
    Overlay(String),
    Strip(u64),
}

#[verifier::ext_equal]
pub enum KeyModel {
    Base,
    Overlay(Seq<char>),
    Strip(u64),
}

impl View for ButtonSetKey {
    type V = KeyModel;

    open spec fn view(&self) -> KeyModel {
        match self {
            ButtonSetKey::Base => KeyModel::Base,
            ButtonSetKey::Overlay(name) => KeyModel::Overlay(name@),
            ButtonSetKey::Strip(generation) => KeyModel::Strip(*generation),
        }
    }
}

impl Clone for ButtonSetKey {
    fn clone(&self) -> (r: ButtonSetKey)
        ensures
            r@ == self@,
    {
        match self {
            ButtonSetKey::Base => ButtonSetKey::Base,
            ButtonSetKey::Overlay(name) => ButtonSetKey::Overlay(name.clone()),
            ButtonSetKey::Strip(generation) => ButtonSetKey::Strip(*generation),
        }
    }
}

impl ButtonSetKey {
    /// Whether two keys name the same set.
    pub fn same_as(&self, other: &ButtonSetKey) -> (r: bool)
        ensures
            r == (self@ == other@),
    {
        match (self, other) {
            (ButtonSetKey::Base, ButtonSetKey::Base) => true,
            (ButtonSetKey::Overlay(a), ButtonSetKey::Overlay(b)) => same_text(
                a.as_str(),
                b.as_str(),
            ),
            (ButtonSetKey::Strip(a), ButtonSetKey::Strip(b)) => *a == *b,
            _ => false,
        }
    }
}

/// An open overlay, and the left edge of the button that opened it, before
/// any clamping.
#[derive(Debug, PartialEq, Eq)]
pub struct OverlayFrame {
    pub name: String,
    pub anchor_x: Option<Scalar>,
}

#[verifier::ext_equal]
pub struct FrameModel {
    pub name: Seq<char>,
    pub anchor_x: Option<Scalar>,
}

impl View for OverlayFrame {
    type V = FrameModel;

    open spec fn view(&self) -> FrameModel {
        FrameModel { name: self.name@, anchor_x: self.anchor_x }
    }
}

#[derive(Debug)]
pub struct FunctionLayer {
    pub kind: LayerKind,
    pub base: ButtonSet,
    pub overlays: Vec<(String, ButtonSet)>,
    pub overlay_stack: Vec<OverlayFrame>,
    /// When the open overlays were last touched or changed.
    pub overlay_touched_at: Option<Moment>,
    pub strip: ButtonSet,
    /// How many strip buttons each output has.
    pub strip_groups: Vec<usize>,
    pub strip_generation: u64,
    /// The workspaces that were applied last; none means the fallback.
    pub strip_model: Vec<Vec<WsEntry>>,
    pub fallback_strip_cfg: Vec<ButtonConfig>,
    pub strip_max_buttons: usize,
}

#[verifier::ext_equal]
pub struct OverlayModel {
    pub name: Seq<char>,
    pub set: SetModel,
}

#[verifier::ext_equal]
pub struct LayerModel {
    pub kind: LayerKind,
    pub base: SetModel,
    pub overlays: Seq<OverlayModel>,
    pub stack: Seq<FrameModel>,
    pub touched_at: Option<Moment>,
    pub strip: SetModel,
    pub groups: Seq<usize>,
    pub generation: u64,
    pub model: Seq<Seq<WsEntry>>,
    pub fallback: Seq<ButtonConfigModel>,
    pub max_buttons: usize,
}

pub open spec fn overlay_model(o: (String, ButtonSet)) -> OverlayModel {
    OverlayModel { name: o.0@, set: o.1@ }
}

pub open spec fn overlay_models(overlays: Seq<(String, ButtonSet)>) -> Seq<OverlayModel> {
    overlays.map_values(|o: (String, ButtonSet)| overlay_model(o))
}

impl View for FunctionLayer {
    type V = LayerModel;

    open spec fn view(&self) -> LayerModel {
        LayerModel {
            kind: self.kind,
            base: self.base@,
            overlays: overlay_models(self.overlays@),
            stack: self.overlay_stack@.map_values(|f: OverlayFrame| f@),
            touched_at: self.overlay_touched_at,
            strip: self.strip@,
            groups: self.strip_groups@,
            generation: self.strip_generation,
            model: model_of(self.strip_model@),
            fallback: button_configs(self.fallback_strip_cfg@),
            max_buttons: self.strip_max_buttons,
        }
    }
}

/// Where a set of buttons is kept.
#[derive(Clone, Copy, Debug, PartialEq, Eq, Structural)]
pub enum Slot {
    Base,
    Overlay(usize),
    Strip,
}

/// No two overlays share a name.
pub open spec fn distinct_names(overlays: Seq<OverlayModel>) -> bool {
    forall|i: int, j: int|
        0 <= i < j < overlays.len() ==> (#[trigger] overlays[i]).name != (
        #[trigger] overlays[j]).name
}

/// Place of the first overlay with the given name; the number of overlays
/// where there is none.
pub open spec fn find_overlay(overlays: Seq<OverlayModel>, name: Seq<char>) -> nat
    decreases overlays.len(),
{
    if overlays.len() == 0 || overlays[0].name == name {
        0
    } else {
        1 + find_overlay(overlays.drop_first(), name)
    }
}

/// A button as the static strip has it: a label, some keys.
pub open spec fn plain_text(c: ButtonConfigModel) -> bool {
    c.text is Some && c.slider is None && c.stretch is None
}

impl LayerModel {
    pub open spec fn slot_of(self, key: KeyModel) -> Option<Slot> {
        match key {
            KeyModel::Base => Some(Slot::Base),
            KeyModel::Overlay(name) => {
                let i = find_overlay(self.overlays, name);
                if i < self.overlays.len() {
                    Some(Slot::Overlay(i as usize))
                } else {
                    None
                }
            },
            KeyModel::Strip(generation) => if self.kind == LayerKind::Regions && generation
                == self.generation {
                Some(Slot::Strip)
            } else {
                None
            },
        }
    }

    pub open spec fn has_slot(self, slot: Slot) -> bool {
        slot matches Slot::Overlay(i) ==> i < self.overlays.len()
    }

    pub open spec fn set_at(self, slot: Slot) -> SetModel {
        match slot {
            Slot::Base => self.base,
            Slot::Overlay(i) => self.overlays[i as int].set,
            Slot::Strip => self.strip,
        }
    }

    pub open spec fn with_set(self, slot: Slot, set: SetModel) -> LayerModel {
        match slot {
            Slot::Base => LayerModel { base: set, ..self },
            Slot::Overlay(i) => LayerModel {
                overlays: self.overlays.update(
                    i as int,
                    OverlayModel { name: self.overlays[i as int].name, set },
                ),
                ..self
            },
            Slot::Strip => LayerModel { strip: set, ..self },
        }
    }

    /// The button with the given place in the set that `key` names.
    pub open spec fn button_in(self, key: KeyModel, index: usize) -> Option<ButtonModel> {
        match self.slot_of(key) {
            Some(slot) => if index < self.set_at(slot).buttons.len() {
                Some(self.set_at(slot).buttons[index as int])
            } else {
                None
            },
            None => None,
        }
    }

    /// The layer with that button replaced; unchanged where there is none.
    pub open spec fn with_button_in(self, key: KeyModel, index: usize, b: ButtonModel) -> LayerModel {
        match self.button_in(key, index) {
            Some(_) => {
                let slot = self.slot_of(key)->0;
                self.with_set(slot, with_button(self.set_at(slot), index as int, b))
            },
            None => self,
        }
    }

    /// Names the set in the controls region: the innermost open overlay, or
    /// the base row.
    pub open spec fn controls_key(self) -> KeyModel {
        if self.stack.len() == 0 {
            KeyModel::Base
        } else {
            KeyModel::Overlay(self.stack.last().name)
        }
    }

    /// Where the set in the controls region is kept.
    pub open spec fn controls_slot(self) -> Slot {
        self.slot_of(self.controls_key())->0
    }

    pub open spec fn controls(self) -> SetModel {
        self.set_at(self.controls_slot())
    }

    /// Whether a set can be seen, and touched.
    pub open spec fn shows(self, key: KeyModel) -> bool {
        match key {
            KeyModel::Strip(generation) => self.kind == LayerKind::Regions && generation
                == self.generation,
            _ => self.controls_key() == key,
        }
    }

    /// The static strip is a short row of plain buttons.
    pub open spec fn fallback_wf(self) -> bool {
        &&& 1 <= self.fallback.len() <= WORKSPACE_BUTTON_HARD_CAP
        &&& forall|i: int|
            0 <= i < self.fallback.len() ==> plain_text(#[trigger] self.fallback[i])
    }

    /// Every set is in order, every overlay has a name of its own, what is
    /// open exists and is not nested too deeply, and the strip has a button
    /// for every member of its groups.
    pub open spec fn wf(self) -> bool {
        &&& self.base.wf()
        &&& self.overlays.len() <= usize::MAX
        &&& distinct_names(self.overlays)
        &&& forall|i: int| 0 <= i < self.overlays.len() ==> (#[trigger] self.overlays[i]).set.wf()
        &&& self.stack.len() <= MAX_OVERLAY_DEPTH
        &&& forall|i: int|
            0 <= i < self.stack.len() ==> find_overlay(
                self.overlays,
                (#[trigger] self.stack[i]).name,
            ) < self.overlays.len()
        &&& self.touched_at is Some <==> self.stack.len() > 0
        &&& self.kind == LayerKind::Regions ==> {
            &&& self.strip.wf()
            &&& groups_wf(self.groups)
            &&& total(self.groups) == self.strip.buttons.len()
            &&& self.fallback_wf()
            &&& self.max_buttons <= WORKSPACE_BUTTON_HARD_CAP
        }
    }

    /// No button is pressed and no slider dragged.
    pub open spec fn at_rest(self) -> bool {
        forall|slot: Slot, i: int|
            #![trigger self.set_at(slot).buttons[i]]
            self.has_slot(slot) && 0 <= i < self.set_at(slot).buttons.len() ==> {
                let b = self.set_at(slot).buttons[i];
                !b.pressed && !is_dragging(b)
            }
    }

    /// The layer with every button of the controls region marked for
    /// drawing.
    pub open spec fn controls_marked(self) -> LayerModel {
        self.with_set(self.controls_slot(), each(self.controls(), |b: ButtonModel| marked(b)))
    }

    /// The layer with the battery buttons of the controls region marked for
    /// drawing.
    pub open spec fn batteries_marked(self) -> LayerModel {
        self.with_set(
            self.controls_slot(),
            each(self.controls(), |b: ButtonModel| marked_if_battery(b)),
        )
    }

    pub open spec fn can_open(self, name: Seq<char>) -> bool {
        &&& find_overlay(self.overlays, name) < self.overlays.len()
        &&& !(self.stack.len() > 0 && self.stack.last().name == name)
        &&& self.stack.len() < MAX_OVERLAY_DEPTH
    }

    pub open spec fn opened(self, name: Seq<char>, anchor_x: Option<Scalar>, now: Moment) -> LayerModel {
        if self.can_open(name) {
            (LayerModel {
                stack: self.stack.push(FrameModel { name, anchor_x }),
                touched_at: Some(now),
                ..self
            }).controls_marked()
        } else {
            self
        }
    }

    pub open spec fn closed_top(self, now: Moment) -> LayerModel {
        if self.stack.len() > 0 {
            (LayerModel {
                stack: self.stack.drop_last(),
                touched_at: if self.stack.len() > 1 {
                    Some(now)
                } else {
                    None
                },
                ..self
            }).controls_marked()
        } else {
            self
        }
    }

    pub open spec fn closed_all(self) -> LayerModel {
        if self.stack.len() > 0 {
            (LayerModel { stack: Seq::empty(), touched_at: None, ..self }).controls_marked()
        } else {
            self
        }
    }

    pub open spec fn touched(self, now: Moment) -> LayerModel {
        if self.stack.len() > 0 {
            LayerModel { touched_at: Some(now), ..self }
        } else {
            self
        }
    }

    /// The layer after a button's action, as far as it concerns overlays.
    pub open spec fn activated(
        self,
        action: ActionModel,
        anchor_x: Option<Scalar>,
        now: Moment,
    ) -> LayerModel {
        match action {
            ActionModel::OpenOverlay(name) => self.opened(name, anchor_x, now),
            ActionModel::CloseOverlay => self.closed_top(now),
            _ => self,
        }
    }

    /// Whether a button's action changes what is open.
    pub open spec fn activates(self, action: ActionModel) -> bool {
        match action {
            ActionModel::OpenOverlay(name) => self.can_open(name),
            ActionModel::CloseOverlay => self.stack.len() > 0,
            _ => false,
        }
    }

    pub open spec fn sliders_synced(self, readings: SliderReadings) -> LayerModel {
        self.with_set(
            self.controls_slot(),
            each(self.controls(), |b: ButtonModel| synced(b, readings)),
        )
    }

    pub open spec fn slider_at(self, key: KeyModel, index: usize) -> Option<SliderTarget> {
        match self.button_in(key, index) {
            Some(b) => match b.action {
                ActionModel::Slider(target) => Some(target),
                _ => None,
            },
            None => None,
        }
    }

    pub open spec fn slider_updated(
        self,
        key: KeyModel,
        index: usize,
        value: Option<Scalar>,
        dragging: bool,
    ) -> LayerModel {
        match self.button_in(key, index) {
            Some(b) => self.with_button_in(key, index, dragged_to(b, value, dragging)),
            None => self,
        }
    }

    pub open spec fn button_pressed(self, key: KeyModel, index: usize, active: bool) -> LayerModel {
        match self.button_in(key, index) {
            Some(b) => self.with_button_in(key, index, pressed_to(b, active)),
            None => self,
        }
    }

    pub open spec fn button_press_effects(
        self,
        key: KeyModel,
        index: usize,
        active: bool,
    ) -> Seq<Effect> {
        match self.button_in(key, index) {
            Some(b) => press_effects(b, active),
            None => Seq::empty(),
        }
    }

    pub open spec fn button_let_go(self, key: KeyModel, index: usize) -> LayerModel {
        match self.button_in(key, index) {
            Some(b) => self.with_button_in(key, index, let_go(b)),
            None => self,
        }
    }
}

proof fn lemma_find(overlays: Seq<OverlayModel>, name: Seq<char>, n: int)
    requires
        0 <= n <= overlays.len(),
        forall|i: int| 0 <= i < n ==> (#[trigger] overlays[i]).name != name,
        n < overlays.len() ==> overlays[n].name == name,
    ensures
        find_overlay(overlays, name) == n,
    decreases overlays.len(),
{
    if n > 0 {
        assert(overlays[0].name != name);
        let rest = overlays.drop_first();
        assert forall|i: int| 0 <= i < n - 1 implies (#[trigger] rest[i]).name != name by {
            assert(rest[i] == overlays[i + 1]);
        }
        lemma_find(rest, name, n - 1);
    }
}

pub(crate) proof fn lemma_found(overlays: Seq<OverlayModel>, name: Seq<char>)
    ensures
        find_overlay(overlays, name) <= overlays.len(),
        find_overlay(overlays, name) < overlays.len() ==> overlays[find_overlay(
            overlays,
            name,
        ) as int].name == name,
        forall|i: int|
            0 <= i < find_overlay(overlays, name) ==> (#[trigger] overlays[i]).name != name,
    decreases overlays.len(),
{
    if overlays.len() > 0 && overlays[0].name != name {
        let rest = overlays.drop_first();
        lemma_found(rest, name);
        assert forall|i: int| 0 <= i < find_overlay(overlays, name) implies (
        #[trigger] overlays[i]).name != name by {
            if i > 0 {
                assert(overlays[i] == rest[i - 1]);
            }
        }
    }
}

/// Place of the overlay with the given name.
pub(crate) fn find_named(overlays: &Vec<(String, ButtonSet)>, name: &str) -> (r: usize)
    ensures
        r == find_overlay(overlay_models(overlays@), name@),
        r <= overlays@.len(),
{
    let n: usize = overlays.len();
    let mut i: usize = 0;
    while i < n
        invariant
            i <= n == overlays@.len(),
            forall|j: int| 0 <= j < i ==> (#[trigger] overlay_models(overlays@)[j]).name != name@,
        decreases n - i,
    {
        if same_text(overlays[i].0.as_str(), name) {
            proof {
                assert(overlay_models(overlays@)[i as int].name == name@);
                lemma_find(overlay_models(overlays@), name@, i as int);
            }
            return i;
        }
        i = i + 1;
    }
    proof {
        lemma_find(overlay_models(overlays@), name@, n as int);
    }
    n
}

/// Replacing sets under the same names moves no overlay.
pub(crate) proof fn lemma_same_names(a: Seq<OverlayModel>, b: Seq<OverlayModel>, name: Seq<char>)
    requires
        a.len() == b.len(),
        forall|i: int| 0 <= i < a.len() ==> (#[trigger] a[i]).name == b[i].name,
    ensures
        find_overlay(a, name) == find_overlay(b, name),
{
    lemma_found(a, name);
    let n = find_overlay(a, name) as int;
    assert forall|i: int| 0 <= i < n implies (#[trigger] b[i]).name != name by {
        assert(a[i].name != name);
    }
    lemma_find(b, name, n);
}

/// Replacing a set by one that is in order keeps the layer in order, and
/// every key names the set that it named before.
pub(crate) proof fn lemma_with_set(l: LayerModel, slot: Slot, set: SetModel)
    requires
        l.wf(),
        l.has_slot(slot),
        set.wf(),
        set.buttons.len() == l.set_at(slot).buttons.len(),
    ensures
        l.with_set(slot, set).wf(),
        l.with_set(slot, set).set_at(slot) == set,
        l.with_set(slot, set).controls_key() == l.controls_key(),
        l.with_set(slot, set).controls_slot() == l.controls_slot(),
        forall|key: KeyModel| #[trigger]
            l.with_set(slot, set).slot_of(key) == l.slot_of(key),
        forall|key: KeyModel| #[trigger] l.with_set(slot, set).shows(key) == l.shows(key),
        forall|other: Slot|
            other != slot ==> #[trigger] l.with_set(slot, set).set_at(other) == l.set_at(other)
                || !l.has_slot(other),
        forall|other: Slot| #[trigger]
            l.with_set(slot, set).has_slot(other) == l.has_slot(other),
{
    let m = l.with_set(slot, set);
    assert forall|name: Seq<char>| #[trigger]
        find_overlay(m.overlays, name) == find_overlay(l.overlays, name) by {
        lemma_same_names(m.overlays, l.overlays, name);
    }
    assert forall|i: int| 0 <= i < m.overlays.len() implies (
    #[trigger] m.overlays[i]).set.wf() by {
        assert(l.overlays[i].set.wf());
    }
    assert forall|i: int| 0 <= i < m.stack.len() implies find_overlay(
        m.overlays,
        (#[trigger] m.stack[i]).name,
    ) < m.overlays.len() by {
        assert(find_overlay(l.overlays, l.stack[i].name) < l.overlays.len());
    }
}

/// Every key names a set that is in order.
pub(crate) proof fn lemma_slot(l: LayerModel, key: KeyModel)
    requires
        l.wf(),
    ensures
        l.slot_of(key) matches Some(slot) ==> l.has_slot(slot) && l.set_at(slot).wf(),
        l.shows(key) ==> l.slot_of(key) is Some,
        l.slot_of(l.controls_key()) is Some,
        l.has_slot(l.controls_slot()),
        l.controls().wf(),
{
    if l.stack.len() > 0 {
        assert(find_overlay(l.overlays, l.stack[l.stack.len() - 1].name) < l.overlays.len());
    }
}

/// A row stays in order when its buttons change but keep what they are for.
pub(crate) proof fn lemma_set_each(s: SetModel, f: spec_fn(ButtonModel) -> ButtonModel)
    requires
        s.wf(),
        forall|b: ButtonModel| #[trigger] f(b).action == b.action && (f(b).image is Slider
            <==> b.image is Slider),
    ensures
        each(s, f).wf(),
        each(s, f).buttons.len() == s.buttons.len(),
{
    let t = each(s, f);
    assert forall|i: int| 0 <= i < t.buttons.len() implies crate::button_set::coherent(
        #[trigger] t.buttons[i],
    ) by {
        assert(crate::button_set::coherent(s.buttons[i]));
        assert(t.buttons[i] == f(s.buttons[i]));
    }
}

pub(crate) proof fn lemma_set_button(s: SetModel, i: int, b: ButtonModel)
    requires
        s.wf(),
        0 <= i < s.buttons.len(),
        crate::button_set::coherent(b),
    ensures
        with_button(s, i, b).wf(),
        with_button(s, i, b).buttons.len() == s.buttons.len(),
{
    let t = with_button(s, i, b);
    assert forall|k: int| 0 <= k < t.buttons.len() implies crate::button_set::coherent(
        #[trigger] t.buttons[k],
    ) by {
        assert(crate::button_set::coherent(s.buttons[k]));
    }
}

/// Replacing a button by one that slides exactly where it shows a slider
/// keeps the layer in order, and touches no other button.
pub(crate) proof fn lemma_with_button(l: LayerModel, key: KeyModel, index: usize, b: ButtonModel)
    requires
        l.wf(),
        l.button_in(key, index) is Some,
        crate::button_set::coherent(b),
    ensures
        l.with_button_in(key, index, b).wf(),
        l.with_button_in(key, index, b).button_in(key, index) == Some(b),
        l.with_button_in(key, index, b).controls_key() == l.controls_key(),
        l.with_button_in(key, index, b).controls_slot() == l.controls_slot(),
        forall|k: KeyModel| #[trigger]
            l.with_button_in(key, index, b).slot_of(k) == l.slot_of(k),
        forall|k: KeyModel| #[trigger] l.with_button_in(key, index, b).shows(k) == l.shows(k),
        forall|slot: Slot| #[trigger]
            l.with_button_in(key, index, b).has_slot(slot) == l.has_slot(slot),
        forall|slot: Slot|
            l.has_slot(slot) ==> (#[trigger] l.with_button_in(key, index, b).set_at(slot))
                == (if slot == l.slot_of(key)->0 {
                with_button(l.set_at(slot), index as int, b)
            } else {
                l.set_at(slot)
            }),
{
    lemma_slot(l, key);
    let slot = l.slot_of(key)->0;
    lemma_set_button(l.set_at(slot), index as int, b);
    lemma_with_set(l, slot, with_button(l.set_at(slot), index as int, b));
}

/// The buttons of a layer slide exactly where they show a slider.
pub(crate) proof fn lemma_coherent(l: LayerModel, key: KeyModel, index: usize)
    requires
        l.wf(),
        l.button_in(key, index) is Some,
    ensures
        crate::button_set::coherent(l.button_in(key, index)->0),
{
    lemma_slot(l, key);
}

impl FunctionLayer {
    /// Where the set that `key` names is kept.
    fn slot(&self, key: &ButtonSetKey) -> (r: Option<Slot>)
        ensures
            r == self@.slot_of(key@),
            r matches Some(slot) ==> self@.has_slot(slot),
    {
        match key {
            ButtonSetKey::Base => Some(Slot::Base),
            ButtonSetKey::Overlay(name) => {
                let n: usize = self.find(name.as_str());
                if n < self.overlays.len() {
                    Some(Slot::Overlay(n))
                } else {
                    None
                }
            },
            ButtonSetKey::Strip(generation) => {
                if self.is_regions() && *generation == self.strip_generation {
                    Some(Slot::Strip)
                } else {
                    None
                }
            },
        }
    }

    pub fn is_regions(&self) -> (r: bool)
        ensures
            r == (self@.kind == LayerKind::Regions),
    {
        match self.kind {
            LayerKind::Regions => true,
            LayerKind::Classic => false,
        }
    }

    /// Place of the overlay with the given name.
    fn find(&self, name: &str) -> (r: usize)
        ensures
            r == find_overlay(self@.overlays, name@),
            r <= self.overlays@.len(),
    {
        find_named(&self.overlays, name)
    }

    fn set_ref(&self, slot: Slot) -> (r: &ButtonSet)
        requires
            self@.has_slot(slot),
        ensures
            r@ == self@.set_at(slot),
    {
        match slot {
            Slot::Base => &self.base,
            Slot::Overlay(i) => &self.overlays[i].1,
            Slot::Strip => &self.strip,
        }
    }

    fn set_mut(&mut self, slot: Slot) -> (r: &mut ButtonSet)
        requires
            old(self)@.has_slot(slot),
        ensures
            r@ == old(self)@.set_at(slot),
            final(self)@ == old(self)@.with_set(slot, final(r)@),
    {
        match slot {
            Slot::Base => &mut self.base,
            Slot::Overlay(i) => &mut self.overlays[i].1,
            Slot::Strip => &mut self.strip,
        }
    }

    /// Names the set in the controls region.
    pub fn controls_key(&self) -> (r: ButtonSetKey)
        ensures
            r@ == self@.controls_key(),
    {
        let n: usize = self.overlay_stack.len();
        if n == 0 {
            ButtonSetKey::Base
        } else {
            assert(self@.stack.last() == self.overlay_stack@[n - 1]@);
            ButtonSetKey::Overlay(self.overlay_stack[n - 1].name.clone())
        }
    }

    /// The set that `key` names.
    pub fn button_set(&self, key: &ButtonSetKey) -> (r: Option<&ButtonSet>)
        ensures
            match r {
                Some(set) => self@.slot_of(key@) matches Some(slot) && set@ == self@.set_at(slot),
                None => self@.slot_of(key@) is None,
            },
    {
        match self.slot(key) {
            Some(slot) => Some(self.set_ref(slot)),
            None => None,
        }
    }

    /// The button at `index` of the set that `key` names, for changing it.
    pub fn button_mut_in_set(&mut self, key: &ButtonSetKey, index: usize) -> (r: Option<
        &mut Button,
    >)
        ensures
            match r {
                Some(b) => {
                    &&& old(self)@.button_in(key@, index) == Some(b@)
                    &&& final(self)@ == old(self)@.with_button_in(key@, index, final(b)@)
                },
                None => old(self)@.button_in(key@, index) is None && final(self)@ == old(self)@,
            },
    {
        match self.slot(key) {
            Some(slot) => self.set_mut(slot).button_mut(index),
            None => None,
        }
    }

    fn controls_slot(&self) -> (r: Slot)
        requires
            self@.wf(),
        ensures
            r == self@.controls_slot(),
            self@.has_slot(r),
    {
        proof {
            lemma_slot(self@, self@.controls_key());
        }
        let key = self.controls_key();
        match self.slot(&key) {
            Some(slot) => slot,
            None => Slot::Base,
        }
    }

    /// The set in the controls region.
    pub fn visible(&self) -> (r: &ButtonSet)
        requires
            self@.wf(),
        ensures
            r@ == self@.controls(),
            r@.wf(),
    {
        proof {
            lemma_slot(self@, self@.controls_key());
        }
        self.set_ref(self.controls_slot())
    }

    /// Whether a set can be seen, and touched.
    pub fn is_set_visible(&self, key: &ButtonSetKey) -> (r: bool)
        ensures
            r == self@.shows(key@),
    {
        match key {
            ButtonSetKey::Strip(generation) => self.is_regions() && *generation
                == self.strip_generation,
            _ => self.controls_key().same_as(key),
        }
    }

    pub fn displays_time(&self) -> (r: bool)
        requires
            self@.wf(),
        ensures
            r == self@.controls().displays_time,
    {
        self.visible().displays_time
    }

    pub fn displays_battery(&self) -> (r: bool)
        requires
            self@.wf(),
        ensures
            r == self@.controls().displays_battery,
    {
        self.visible().displays_battery
    }

    pub fn faster_refresh(&self) -> (r: bool)
        requires
            self@.wf(),
        ensures
            r == self@.controls().faster_refresh,
    {
        self.visible().faster_refresh
    }

    /// Whether anything that can be seen has to be drawn.
    pub fn any_button_changed(&self) -> (r: bool)
        requires
            self@.wf(),
        ensures
            r == (any_changed_spec(self@.controls().buttons) || (self@.kind == LayerKind::Regions
                && any_changed_spec(self@.strip.buttons))),
    {
        self.visible().any_changed() || (self.is_regions() && self.strip.any_changed())
    }

    /// Marks the battery buttons of the controls region for drawing.
    pub fn mark_battery_buttons_changed(&mut self)
        requires
            old(self)@.wf(),
        ensures
            final(self)@ == old(self)@.batteries_marked(),
            final(self)@.wf(),
    {
        proof {
            lemma_slot(self@, self@.controls_key());
            let f = |b: ButtonModel| marked_if_battery(b);
            lemma_set_each(self@.controls(), f);
            lemma_with_set(self@, self@.controls_slot(), each(self@.controls(), f));
        }
        let slot = self.controls_slot();
        self.set_mut(slot).mark_batteries();
    }

    /// Marks every button of the controls region for drawing.
    fn mark_visible_set_changed(&mut self)
        requires
            old(self)@.wf(),
        ensures
            final(self)@ == old(self)@.controls_marked(),
            final(self)@.wf(),
    {
        proof {
            lemma_slot(self@, self@.controls_key());
            let f = |b: ButtonModel| marked(b);
            lemma_set_each(self@.controls(), f);
            lemma_with_set(self@, self@.controls_slot(), each(self@.controls(), f));
        }
        let slot = self.controls_slot();
        self.set_mut(slot).mark_all();
    }

    /// What has to be drawn of the controls region.
    pub(crate) fn paint_controls(&mut self, complete: bool, outlines: bool) -> (r: Vec<Paint>)
        requires
            old(self)@.wf(),
        ensures
            r@ == paints(old(self)@.controls().buttons, complete, outlines),
            final(self)@ == old(self)@.with_set(
                old(self)@.controls_slot(),
                each(old(self)@.controls(), |b: ButtonModel| drawn(b)),
            ),
    {
        let slot = self.controls_slot();
        self.set_mut(slot).paint(complete, outlines)
    }

    /// What the button at `index` of a set does.
    pub fn button_action_in_set(&self, key: &ButtonSetKey, index: usize) -> (r: Option<
        ButtonAction,
    >)
        ensures
            match r {
                Some(a) => self@.button_in(key@, index) matches Some(b) && a@ == b.action,
                None => self@.button_in(key@, index) is None,
            },
    {
        match self.button_set(key) {
            Some(set) => if index < set.buttons.len() {
                assert(set@.buttons[index as int] == set.buttons@[index as int].1@);
                Some(set.buttons[index].1.action.clone())
            } else {
                None
            },
            None => None,
        }
    }

    /// What a slider at `index` of a set drives.
    pub fn slider_target_at(&self, key: &ButtonSetKey, index: usize) -> (r: Option<SliderTarget>)
        ensures
            r == self@.slider_at(key@, index),
    {
        match self.button_action_in_set(key, index) {
            Some(ButtonAction::Slider(target)) => Some(target),
            _ => None,
        }
    }

    /// Moves a slider and sets its drag phase; marks it for drawing where
    /// either changed.
    pub fn update_slider(
        &mut self,
        key: &ButtonSetKey,
        index: usize,
        value: Option<Scalar>,
        dragging: bool,
    )
        ensures
            final(self)@ == old(self)@.slider_updated(key@, index, value, dragging),
            old(self)@.wf() ==> final(self)@.wf(),
    {
        proof {
            if self@.wf() && self@.button_in(key@, index) is Some {
                lemma_coherent(self@, key@, index);
                let b = self@.button_in(key@, index)->0;
                lemma_with_button(self@, key@, index, dragged_to(b, value, dragging));
            }
        }
        if let Some(button) = self.button_mut_in_set(key, index) {
            button.drag(value, dragging);
        }
    }

    /// Presses or releases a button, with its key events.
    pub fn set_active(
        &mut self,
        key: &ButtonSetKey,
        index: usize,
        effects: &mut Vec<Effect>,
        active: bool,
    )
        ensures
            final(self)@ == old(self)@.button_pressed(key@, index, active),
            final(effects)@ == old(effects)@ + old(self)@.button_press_effects(
                key@,
                index,
                active,
            ),
            old(self)@.wf() ==> final(self)@.wf(),
    {
        proof {
            if self@.wf() && self@.button_in(key@, index) is Some {
                lemma_coherent(self@, key@, index);
                let b = self@.button_in(key@, index)->0;
                lemma_with_button(self@, key@, index, pressed_to(b, active));
            }
        }
        if let Some(button) = self.button_mut_in_set(key, index) {
            button.set_active(effects, active);
        } else {
            assert(effects@ + Seq::<Effect>::empty() =~= effects@);
        }
    }

    /// Lets go of a button: its keys up, its drag over.
    pub fn release(&mut self, key: &ButtonSetKey, index: usize, effects: &mut Vec<Effect>)
        ensures
            final(self)@ == old(self)@.button_let_go(key@, index),
            final(effects)@ == old(effects)@ + old(self)@.button_press_effects(
                key@,
                index,
                false,
            ),
            old(self)@.wf() ==> final(self)@.wf(),
    {
        proof {
            if self@.wf() && self@.button_in(key@, index) is Some {
                lemma_coherent(self@, key@, index);
                let b = self@.button_in(key@, index)->0;
                lemma_with_button(self@, key@, index, let_go(b));
            }
        }
        if let Some(button) = self.button_mut_in_set(key, index) {
            button.release(effects);
        } else {
            assert(effects@ + Seq::<Effect>::empty() =~= effects@);
        }
    }

    /// Shows what the sliders' backends report, so that a widget reflects
    /// reality when it becomes visible. While a finger is on a slider the
    /// finger wins.
    pub fn sync_sliders(&mut self, readings: SliderReadings)
        requires
            old(self)@.wf(),
        ensures
            final(self)@ == old(self)@.sliders_synced(readings),
            final(self)@.wf(),
    {
        proof {
            lemma_slot(self@, self@.controls_key());
            let f = |b: ButtonModel| synced(b, readings);
            lemma_set_each(self@.controls(), f);
            lemma_with_set(self@, self@.controls_slot(), each(self@.controls(), f));
        }
        let slot = self.controls_slot();
        self.set_mut(slot).sync(readings);
    }

    /// Opens an overlay over what is visible, unless it does not exist, is
    /// the one on top already, or the stack is full.
    pub fn open_overlay(&mut self, name: &str, anchor_x: Option<Scalar>, now: Moment) -> (r: bool)
        requires
            old(self)@.wf(),
        ensures
            r == old(self)@.can_open(name@),
            final(self)@ == old(self)@.opened(name@, anchor_x, now),
            final(self)@.wf(),
    {
        let n: usize = self.overlay_stack.len();
        if self.find(name) >= self.overlays.len() || n >= MAX_OVERLAY_DEPTH {
            return false;
        }
        if n > 0 {
            assert(self@.stack.last() == self.overlay_stack@[n - 1]@);
            if same_text(self.overlay_stack[n - 1].name.as_str(), name) {
                return false;
            }
        }
        let ghost before = self@;
        let name = name.to_string();
        self.overlay_stack.push(OverlayFrame { name, anchor_x });
        self.overlay_touched_at = Some(now);
        proof {
            assert(self@.stack =~= before.stack.push(FrameModel { name: name@, anchor_x }));
            assert forall|i: int| 0 <= i < self@.stack.len() implies find_overlay(
                self@.overlays,
                (#[trigger] self@.stack[i]).name,
            ) < self@.overlays.len() by {
                if i < before.stack.len() {
                    assert(find_overlay(before.overlays, before.stack[i].name)
                        < before.overlays.len());
                }
            }
        }
        self.mark_visible_set_changed();
        true
    }

    /// Closes the innermost overlay.
    pub fn close_top_overlay(&mut self, now: Moment) -> (r: bool)
        requires
            old(self)@.wf(),
        ensures
            r == (old(self)@.stack.len() > 0),
            final(self)@ == old(self)@.closed_top(now),
            final(self)@.wf(),
    {
        let ghost before = self@;
        if self.overlay_stack.len() == 0 {
            return false;
        }
        let _top = self.overlay_stack.pop();
        self.overlay_touched_at = if self.overlay_stack.len() > 0 {
            Some(now)
        } else {
            None
        };
        proof {
            assert(self@.stack =~= before.stack.drop_last());
            assert forall|i: int| 0 <= i < self@.stack.len() implies find_overlay(
                self@.overlays,
                (#[trigger] self@.stack[i]).name,
            ) < self@.overlays.len() by {
                assert(find_overlay(before.overlays, before.stack[i].name)
                    < before.overlays.len());
            }
        }
        self.mark_visible_set_changed();
        true
    }

    /// Closes every overlay.
    pub fn close_all_overlays(&mut self) -> (r: bool)
        requires
            old(self)@.wf(),
        ensures
            r == (old(self)@.stack.len() > 0),
            final(self)@ == old(self)@.closed_all(),
            final(self)@.wf(),
    {
        if self.overlay_stack.len() == 0 {
            return false;
        }
        self.overlay_stack.clear();
        self.overlay_touched_at = None;
        assert(self@.stack =~= Seq::empty());
        self.mark_visible_set_changed();
        true
    }

    pub fn has_open_overlay(&self) -> (r: bool)
        ensures
            r == (self@.stack.len() > 0),
    {
        self.overlay_stack.len() > 0
    }

    /// Whether the space between the strip and the controls is free for
    /// what is drawn there: there is a strip, and no overlay is open.
    pub fn middle_is_free(&self) -> (r: bool)
        ensures
            r == (self@.kind == LayerKind::Regions && self@.stack.len() == 0),
    {
        self.is_regions() && !self.has_open_overlay()
    }

    /// A touch keeps the open overlays open; it resurrects none.
    pub fn mark_overlay_touched(&mut self, now: Moment)
        ensures
            final(self)@ == old(self)@.touched(now),
            old(self)@.wf() ==> final(self)@.wf(),
    {
        if self.has_open_overlay() {
            self.overlay_touched_at = Some(now);
        }
    }

    /// Milliseconds until the open overlays close by themselves.
    pub fn overlay_timeout_remaining(&self, now: Moment, timeout: u64) -> (r: Option<i32>)
        ensures
            r == (if self@.stack.len() == 0 {
                None
            } else {
                timeout_spec(self@.touched_at, now, timeout)
            }),
    {
        if !self.has_open_overlay() {
            return None;
        }
        overlay_timeout_remaining_ms(self.overlay_touched_at, now, timeout)
    }

    /// Carries out a button's action, as far as it concerns overlays;
    /// says whether anything opened or closed. Sliders act while they are
    /// dragged, and a focus action leaves overlays alone.
    pub fn activate_button_action(
        &mut self,
        action: ButtonAction,
        anchor_x: Option<Scalar>,
        now: Moment,
    ) -> (r: bool)
        requires
            old(self)@.wf(),
        ensures
            r == old(self)@.activates(action@),
            final(self)@ == old(self)@.activated(action@, anchor_x, now),
            final(self)@.wf(),
    {
        match action {
            ButtonAction::OpenOverlay(name) => self.open_overlay(name.as_str(), anchor_x, now),
            ButtonAction::CloseOverlay => self.close_top_overlay(now),
            _ => false,
        }
    }
}

/// Whole milliseconds until `timeout` nanoseconds have passed since the
/// anchor; 0 is due now. None where the timeout is 0 or nothing is open.
pub open spec fn timeout_spec(anchor: Option<Moment>, now: Moment, timeout: u64) -> Option<i32> {
    match anchor {
        Some(at) if timeout > 0 => {
            let millis = remainder(timeout as nat, elapsed(now, at)) / 1_000_000;
            Some(
                if millis <= i32::MAX {
                    millis as i32
                } else {
                    i32::MAX
                },
            )
        },
        _ => None,
    }
}

/// Milliseconds until open overlays close by themselves.
pub fn overlay_timeout_remaining_ms(anchor: Option<Moment>, now: Moment, timeout: u64) -> (r:
    Option<i32>)
    ensures
        r == timeout_spec(anchor, now, timeout),
{
    match anchor {
        Some(at) => {
            if timeout == 0 {
                return None;
            }
            let millis: u64 = timeout.saturating_sub(now.since(at)) / NANOS_PER_MILLI;
            if millis <= i32::MAX as u64 {
                Some(millis as i32)
            } else {
                Some(i32::MAX)
            }
        },
        None => None,
    }
}

} // verus!
