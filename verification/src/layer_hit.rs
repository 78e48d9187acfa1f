//! Where the regions of a layer lie, what a finger hits in them, and what of
//! them has to be drawn.
use crate::button::ButtonModel;
use crate::button_set::{drawn, each, paints, Paint};
use crate::layer::{
    lemma_set_each, lemma_slot, lemma_with_set, ButtonSetKey, FunctionLayer, KeyModel, LayerKind,
    LayerModel, Slot,
};
use crate::layout::{
    controls_region, controls_spec, groups_end, hit_in_spans, hit_in_spans_spec, hit_index,
    hit_spec, lemma_groups_end, strip_layout, strip_spans, Edges, Finger, RegionGeometry,
    StripLayout, StripSpan, CONTROL_SPACING_PX, MAX_COLUMNS, STRIP_LEFT_MARGIN_PX,
};
use crate::scalar::{whole, Scalar};
use vstd::prelude::*;

verus! {

/// A finger in the coordinates of a row of controls: the column it is in,
/// and the edges of the row's buttons.
#[derive(Debug)]
pub struct ControlProbe {
    pub finger: Finger,
    pub column: usize,
    pub edges: Vec<Edges>,
}

/// What the edges of a row of controls are computed from.
#[derive(Debug)]
pub struct ControlPlan {
    pub starts: Vec<usize>,
    pub columns: usize,
    pub origin: Scalar,
    pub width: i32,
}

/// A finger that came down.
#[derive(Debug, PartialEq, Eq)]
pub enum HitOutcome {
    Button(ButtonSetKey, usize),
    /// Beside the buttons of an open overlay.
    OutsideControls,
    Miss,
}

#[verifier::ext_equal]
pub enum HitModel {
    Button(KeyModel, usize),
    OutsideControls,
    Miss,
}

impl View for HitOutcome {
    type V = HitModel;

    open spec fn view(&self) -> HitModel {
        match self {
            HitOutcome::Button(key, index) => HitModel::Button(key@, *index),
            HitOutcome::OutsideControls => HitModel::OutsideControls,
            HitOutcome::Miss => HitModel::Miss,
        }
    }
}

/// What has to be drawn of a layer.
#[derive(Debug)]
pub struct PaintPlan {
    pub strip: Vec<Paint>,
    pub controls: Vec<Paint>,
}

impl LayerModel {
    /// Where the open overlay would like to begin.
    pub open spec fn anchor(self) -> Option<Scalar> {
        if self.stack.len() == 0 {
            None
        } else {
            self.stack.last().anchor_x
        }
    }

    /// The leftmost pixel for controls: behind the strip.
    pub open spec fn min_origin(self, gap: int) -> int {
        groups_end(self.groups, gap) + CONTROL_SPACING_PX
    }

    pub open spec fn controls_geometry(self, columns: int, bar_width: int, gap: int) -> RegionGeometry {
        controls_spec(columns, bar_width, self.min_origin(gap), self.anchor())
    }

    /// No row has more columns than can be laid out.
    pub open spec fn fits(self) -> bool {
        &&& self.base.columns <= MAX_COLUMNS
        &&& forall|i: int|
            0 <= i < self.overlays.len() ==> (#[trigger] self.overlays[i]).set.columns
                <= MAX_COLUMNS
    }

    /// The button of the set that `key` names under a finger. Sets that
    /// cannot be seen are never hit.
    pub open spec fn hit(
        self,
        key: KeyModel,
        finger: Finger,
        probe: Finger,
        column: usize,
        edges: Seq<Edges>,
        constrained: Option<usize>,
        gap: int,
    ) -> Option<usize> {
        if !self.shows(key) {
            None
        } else if key is Strip {
            hit_in_spans_spec(strip_spans(self.groups, gap), finger, constrained)
        } else {
            hit_spec(self.controls().starts, edges, probe, column, constrained)
        }
    }

    /// What a finger that comes down lands on: the strip first, then the
    /// controls.
    pub open spec fn target(
        self,
        finger: Finger,
        probe: Finger,
        column: usize,
        edges: Seq<Edges>,
        gap: int,
    ) -> HitModel {
        let strip = KeyModel::Strip(self.generation);
        let on_strip = self.hit(strip, finger, probe, column, edges, None, gap);
        let on_controls = self.hit(self.controls_key(), finger, probe, column, edges, None, gap);
        match (on_strip, on_controls) {
            (Some(index), _) => HitModel::Button(strip, index),
            (None, Some(index)) => HitModel::Button(self.controls_key(), index),
            (None, None) => if self.kind == LayerKind::Regions && self.stack.len() > 0 {
                HitModel::OutsideControls
            } else {
                HitModel::Miss
            },
        }
    }

    /// The layer once it has been drawn.
    pub open spec fn painted(self) -> LayerModel {
        let strip_done = if self.kind == LayerKind::Regions {
            LayerModel { strip: each(self.strip, |b: ButtonModel| drawn(b)), ..self }
        } else {
            self
        };
        strip_done.with_set(
            strip_done.controls_slot(),
            each(strip_done.controls(), |b: ButtonModel| drawn(b)),
        )
    }
}

impl FunctionLayer {
    /// Where the open overlay would like to begin.
    fn anchor(&self) -> (r: Option<Scalar>)
        ensures
            r == self@.anchor(),
    {
        let n: usize = self.overlay_stack.len();
        if n == 0 {
            None
        } else {
            assert(self@.stack.last() == self.overlay_stack@[n - 1]@);
            self.overlay_stack[n - 1].anchor_x
        }
    }

    /// Whether no row has more columns than can be laid out.
    pub fn fits(&self) -> (r: bool)
        ensures
            r == self@.fits(),
    {
        if self.base.virtual_button_count > MAX_COLUMNS {
            return false;
        }
        let n: usize = self.overlays.len();
        let mut i: usize = 0;
        while i < n
            invariant
                i <= n == self.overlays@.len(),
                forall|j: int|
                    0 <= j < i ==> (#[trigger] self@.overlays[j]).set.columns <= MAX_COLUMNS,
            decreases n - i,
        {
            if self.overlays[i].1.virtual_button_count > MAX_COLUMNS {
                assert(self@.overlays[i as int].set.columns > MAX_COLUMNS);
                return false;
            }
            i = i + 1;
        }
        true
    }

    /// The layout of the strip, with `gap` pixels between outputs.
    pub fn strip_layout(&self, gap: i32) -> (r: StripLayout)
        requires
            self@.wf(),
            self@.kind == LayerKind::Regions,
            0 <= gap <= 1000,
        ensures
            r.spans@ == strip_spans(self@.groups, gap as int),
            r.region.origin == whole(STRIP_LEFT_MARGIN_PX as int),
            r.region.width == groups_end(self@.groups, gap as int) - STRIP_LEFT_MARGIN_PX,
            r.dividers@ == crate::layout::divider_spec(self@.groups, gap as int),
            r.spans@.len() == self@.strip.buttons.len(),
    {
        strip_layout(&self.strip_groups, gap)
    }

    /// Where controls of the given number of columns lie: at the button that
    /// opened them, or as far right as possible, and never on the strip.
    pub fn controls_geometry(&self, columns: usize, bar_width: i32, gap: i32) -> (r: RegionGeometry)
        requires
            self@.wf(),
            self@.kind == LayerKind::Regions,
            columns <= MAX_COLUMNS,
            0 <= gap <= 1000,
        ensures
            r == self@.controls_geometry(columns as int, bar_width as int, gap as int),
            !r.origin.below(whole(self@.min_origin(gap as int))),
            r.width >= 1,
    {
        proof {
            lemma_groups_end(self@.groups, gap as int);
        }
        let strip = self.strip_layout(gap).region;
        let min_origin: i32 = STRIP_LEFT_MARGIN_PX + strip.width + CONTROL_SPACING_PX;
        controls_region(columns, bar_width, min_origin, self.anchor())
    }

    /// What the edges of a set's buttons are computed from; none for the
    /// strip, whose layout is its own, and for sets that are gone.
    pub fn control_plan(&self, key: &ButtonSetKey, bar_width: i32, gap: i32) -> (r: Option<
        ControlPlan,
    >)
        requires
            self@.wf(),
            self@.fits(),
            0 <= gap <= 1000,
        ensures
            r is Some <==> self@.slot_of(key@) is Some && !(key@ is Strip),
            r matches Some(plan) ==> {
                let set = self@.set_at(self@.slot_of(key@)->0);
                let geometry = self@.controls_geometry(
                    set.columns as int,
                    bar_width as int,
                    gap as int,
                );
                &&& plan.starts@ == set.starts
                &&& plan.columns == set.columns
                &&& self@.kind == LayerKind::Regions ==> plan.origin == geometry.origin
                    && plan.width == geometry.width
                &&& self@.kind == LayerKind::Classic ==> plan.origin == whole(0) && plan.width
                    == bar_width
            },
    {
        if let ButtonSetKey::Strip(_) = key {
            return None;
        }
        match self.button_set(key) {
            Some(set) => {
                let columns: usize = set.virtual_button_count;
                let starts = set.button_starts();
                if self.is_regions() {
                    let geometry = self.controls_geometry(columns, bar_width, gap);
                    Some(
                        ControlPlan {
                            starts,
                            columns,
                            origin: geometry.origin,
                            width: geometry.width,
                        },
                    )
                } else {
                    Some(
                        ControlPlan {
                            starts,
                            columns,
                            origin: Scalar::from_whole(0),
                            width: bar_width,
                        },
                    )
                }
            },
            None => None,
        }
    }

    /// The strip button at `index`, where `key` names the strip that is
    /// shown.
    pub fn strip_span_at(&self, key: &ButtonSetKey, index: usize, gap: i32) -> (r: Option<
        StripSpan,
    >)
        requires
            self@.wf(),
            0 <= gap <= 1000,
        ensures
            r == (if key@ is Strip && self@.slot_of(key@) is Some && index
                < self@.strip.buttons.len() {
                Some(strip_spans(self@.groups, gap as int)[index as int])
            } else {
                None
            }),
    {
        match key {
            ButtonSetKey::Strip(generation) => {
                if self.is_regions() && *generation == self.strip_generation {
                    let spans = self.strip_layout(gap).spans;
                    if index < spans.len() {
                        return Some(spans[index]);
                    }
                }
                None
            },
            _ => None,
        }
    }

    /// The button of the set that `key` names under a finger; of a touch
    /// that began on a button only that one is asked.
    pub fn hit_in_set(
        &self,
        key: &ButtonSetKey,
        finger: Finger,
        probe: &ControlProbe,
        constrained: Option<usize>,
        gap: i32,
    ) -> (r: Option<usize>)
        requires
            self@.wf(),
            0 <= gap <= 1000,
        ensures
            r == self@.hit(
                key@,
                finger,
                probe.finger,
                probe.column,
                probe.edges@,
                constrained,
                gap as int,
            ),
            r matches Some(i) ==> i < (if key@ is Strip {
                self@.strip.buttons.len()
            } else {
                probe.edges@.len()
            }),
    {
        if !self.is_set_visible(key) {
            return None;
        }
        if let ButtonSetKey::Strip(_) = key {
            let layout = self.strip_layout(gap);
            proof {
                crate::layout::lemma_span_bounds(self@.groups, gap as int);
                crate::layout::lemma_hit_is_a_span(layout.spans@, finger, constrained);
            }
            return hit_in_spans(&layout.spans, finger, constrained);
        }
        let starts = self.visible().button_starts();
        hit_index(&starts, &probe.edges, probe.finger, probe.column, constrained)
    }

    /// What a finger that comes down lands on.
    pub fn hit_target(&self, finger: Finger, probe: &ControlProbe, gap: i32) -> (r: HitOutcome)
        requires
            self@.wf(),
            0 <= gap <= 1000,
            probe.edges@.len() == self@.controls().buttons.len(),
        ensures
            r@ == self@.target(finger, probe.finger, probe.column, probe.edges@, gap as int),
            r@ matches HitModel::Button(key, index) ==> self@.shows(key) && self@.button_in(
                key,
                index,
            ) is Some,
    {
        let ghost strip = KeyModel::Strip(self@.generation);
        proof {
            lemma_slot(self@, self@.controls_key());
        }
        if self.is_regions() {
            let key = ButtonSetKey::Strip(self.strip_generation);
            if let Some(index) = self.hit_in_set(&key, finger, probe, None, gap) {
                return HitOutcome::Button(key, index);
            }
        } else {
            assert(!self@.shows(strip));
        }
        let key = self.controls_key();
        if let Some(index) = self.hit_in_set(&key, finger, probe, None, gap) {
            return HitOutcome::Button(key, index);
        }
        if self.is_regions() && self.has_open_overlay() {
            HitOutcome::OutsideControls
        } else {
            HitOutcome::Miss
        }
    }

    /// What has to be drawn; afterwards nothing that can be seen has changed
    /// any more.
    pub fn paint(&mut self, complete: bool, outlines: bool) -> (r: PaintPlan)
        requires
            old(self)@.wf(),
        ensures
            final(self)@ == old(self)@.painted(),
            final(self)@.wf(),
            r.controls@ == paints(old(self)@.controls().buttons, complete, outlines),
            r.strip@ == (if old(self)@.kind == LayerKind::Regions {
                paints(old(self)@.strip.buttons, complete, outlines)
            } else {
                Seq::empty()
            }),
    {
        let ghost before = self@;
        let ghost f = |b: ButtonModel| drawn(b);
        proof {
            lemma_slot(before, before.controls_key());
            if before.kind == LayerKind::Regions {
                lemma_set_each(before.strip, f);
                lemma_with_set(before, Slot::Strip, each(before.strip, f));
            }
        }
        let strip = if self.is_regions() {
            self.strip.paint(complete, outlines)
        } else {
            Vec::new()
        };
        let ghost middle = self@;
        proof {
            lemma_slot(middle, middle.controls_key());
            lemma_set_each(middle.controls(), f);
            lemma_with_set(middle, middle.controls_slot(), each(middle.controls(), f));
        }
        let controls = self.paint_controls(complete, outlines);
        PaintPlan { strip, controls }
    }
}

/// Touches on a set that is hidden, or on a strip that has been rebuilt,
/// never hit anything.
pub proof fn hidden_sets_are_never_hit(
    l: LayerModel,
    key: KeyModel,
    finger: Finger,
    probe: Finger,
    column: usize,
    edges: Seq<Edges>,
    constrained: Option<usize>,
    gap: int,
)
    requires
        !l.shows(key),
    ensures
        l.hit(key, finger, probe, column, edges, constrained, gap) is None,
{
}

/// A strip key of any other generation than the current one names nothing.
pub proof fn stale_strips_are_unreachable(l: LayerModel, generation: u64)
    requires
        generation != l.generation,
    ensures
        !l.shows(KeyModel::Strip(generation)),
        l.slot_of(KeyModel::Strip(generation)) is None,
{
}

/// Drawing clears every mark that can be seen.
pub proof fn drawn_layers_are_unchanged(l: LayerModel)
    requires
        l.wf(),
    ensures
        !crate::button_set::any_changed_spec(l.painted().controls().buttons),
        l.kind == LayerKind::Regions ==> !crate::button_set::any_changed_spec(
            l.painted().strip.buttons,
        ),
{
    let f = |b: ButtonModel| drawn(b);
    lemma_slot(l, l.controls_key());
    let middle = if l.kind == LayerKind::Regions {
        lemma_set_each(l.strip, f);
        lemma_with_set(l, Slot::Strip, each(l.strip, f));
        LayerModel { strip: each(l.strip, f), ..l }
    } else {
        l
    };
    lemma_slot(middle, middle.controls_key());
    lemma_set_each(middle.controls(), f);
    lemma_with_set(middle, middle.controls_slot(), each(middle.controls(), f));
    assert(l.painted().controls() == each(middle.controls(), f));
}

} // verus!
