//! Pets that walk the free middle of the bar, one for each running session.
//! They are only drawn: they have no keys and cannot be touched.
use crate::moment::{elapsed, remainder, wait_left, wait_millis, Moment};
use crate::scalar::Scalar;
use crate::text::same_text;
use vstd::prelude::*;

verus! {

/// Time between two frames.
pub const CRITTER_FRAME_NANOS: u64 = 66_000_000;

/// The longest step in time, so that nobody jumps after a suspend.
pub const MAX_TICK_NANOS: u64 = 250_000_000;

#[derive(Debug)]
pub struct Critter {
    pub id: String,
    pub x: Scalar,
    /// Speed to the right.
    pub vx: Scalar,
    /// Where in its stride it is.
    pub phase: Scalar,
}

#[verifier::ext_equal]
pub struct CritterModel {
    pub id: Seq<char>,
    pub x: Scalar,
    pub vx: Scalar,
    pub phase: Scalar,
}

impl View for Critter {
    type V = CritterModel;

    open spec fn view(&self) -> CritterModel {
        CritterModel { id: self.id@, x: self.x, vx: self.vx, phase: self.phase }
    }
}

/// How a newcomer begins.
#[derive(Clone, Copy, Debug, PartialEq, Eq, Structural)]
pub struct Start {
    pub x: Scalar,
    pub vx: Scalar,
    pub phase: Scalar,
}

/// Where a critter's speed takes it within one step, whether it feels like
/// turning round, and its stride after the step.
#[derive(Clone, Copy, Debug, PartialEq, Eq, Structural)]
pub struct Stride {
    pub x: Scalar,
    pub turn: bool,
    pub phase: Scalar,
}

/// What was drawn of a critter, from left to right.
#[derive(Clone, Copy, Debug, PartialEq, Eq, Structural)]
pub struct Span {
    pub left: Scalar,
    pub right: Scalar,
}

/// A critter to be drawn.
#[derive(Clone, Copy, Debug, PartialEq, Eq, Structural)]
pub struct Pose {
    pub x: Scalar,
    pub phase: Scalar,
}

/// What to erase and what to draw.
#[derive(Debug)]
pub struct CritterPlan {
    pub erase: Vec<Span>,
    pub draw: Vec<Pose>,
}

#[derive(Debug)]
pub struct CritterField {
    pub has_sprite: bool,
    pub critters: Vec<Critter>,
    /// What was drawn last, and has to be erased.
    pub prev_spans: Vec<Span>,
    pub last_tick: Option<Moment>,
}

#[verifier::ext_equal]
pub struct FieldModel {
    pub has_sprite: bool,
    pub critters: Seq<CritterModel>,
    pub prev_spans: Seq<Span>,
    pub last_tick: Option<Moment>,
}

pub open spec fn critter_models(critters: Seq<Critter>) -> Seq<CritterModel> {
    critters.map_values(|c: Critter| c@)
}

pub open spec fn id_models(ids: Seq<String>) -> Seq<Seq<char>> {
    ids.map_values(|id: String| id@)
}

impl View for CritterField {
    type V = FieldModel;

    open spec fn view(&self) -> FieldModel {
        FieldModel {
            has_sprite: self.has_sprite,
            critters: critter_models(self.critters@),
            prev_spans: self.prev_spans@,
            last_tick: self.last_tick,
        }
    }
}

pub open spec fn lives(critters: Seq<CritterModel>, id: Seq<char>) -> bool {
    exists|i: int| 0 <= i < critters.len() && (#[trigger] critters[i]).id == id
}

/// The critters whose sessions still run, as they were.
pub open spec fn survivors(critters: Seq<CritterModel>, ids: Seq<Seq<char>>) -> Seq<CritterModel> {
    critters.filter(|c: CritterModel| ids.contains(c.id))
}

/// Newcomers behind the others: one for each session without a critter.
pub open spec fn joined(
    critters: Seq<CritterModel>,
    ids: Seq<Seq<char>>,
    starts: Seq<Start>,
) -> Seq<CritterModel>
    decreases ids.len(),
{
    if ids.len() == 0 {
        critters
    } else {
        let before = joined(critters, ids.drop_last(), starts);
        let id = ids.last();
        let start = starts[ids.len() - 1];
        if lives(before, id) {
            before
        } else {
            before.push(CritterModel { id, x: start.x, vx: start.vx, phase: start.phase })
        }
    }
}

/// Whether bringing the critters in line with the sessions changes who is
/// there: somebody leaves, or somebody comes.
pub open spec fn population_changes(critters: Seq<CritterModel>, ids: Seq<Seq<char>>) -> bool {
    ||| exists|i: int|
        0 <= i < critters.len() && !ids.contains((#[trigger] critters[i]).id)
    ||| exists|k: int| 0 <= k < ids.len() && !lives(critters, #[trigger] ids[k])
}

pub open spec fn at_or_below(a: Scalar, b: Scalar) -> bool {
    a.below(b) || a.same(b)
}

/// One step of a walk between `low` and `high`: whoever reaches an end turns
/// back.
pub open spec fn stepped(c: CritterModel, s: Stride, low: Scalar, high: Scalar) -> CritterModel {
    if at_or_below(s.x, low) {
        CritterModel { x: low, vx: c.vx.absolute(), phase: s.phase, ..c }
    } else if at_or_below(high, s.x) {
        CritterModel { x: high, vx: c.vx.absolute().negated(), phase: s.phase, ..c }
    } else if s.turn {
        CritterModel { x: s.x, vx: c.vx.negated(), phase: s.phase, ..c }
    } else {
        CritterModel { x: s.x, phase: s.phase, ..c }
    }
}

pub open spec fn all_stepped(
    critters: Seq<CritterModel>,
    strides: Seq<Stride>,
    low: Scalar,
    high: Scalar,
) -> Seq<CritterModel> {
    Seq::new(critters.len(), |i: int| stepped(critters[i], strides[i], low, high))
}

impl FieldModel {
    /// How far to step: nothing where nobody walks, or the walk has just
    /// begun, or no frame is due.
    pub open spec fn step_due(self, now: Moment) -> Option<nat> {
        match self.last_tick {
            Some(last) if self.critters.len() > 0 && elapsed(now, last) >= CRITTER_FRAME_NANOS =>
            Some(
                if elapsed(now, last) <= MAX_TICK_NANOS {
                    elapsed(now, last)
                } else {
                    MAX_TICK_NANOS as nat
                },
            ),
            _ => None,
        }
    }

    pub open spec fn reconciled(self, ids: Seq<Seq<char>>, starts: Seq<Start>) -> FieldModel {
        FieldModel { critters: joined(survivors(self.critters, ids), ids, starts), ..self }
    }

    /// The field at `now`.
    pub open spec fn ticked(
        self,
        now: Moment,
        strides: Seq<Stride>,
        low: Scalar,
        high: Scalar,
    ) -> FieldModel {
        if self.critters.len() == 0 {
            FieldModel { last_tick: None, ..self }
        } else if self.last_tick is None {
            FieldModel { last_tick: Some(now), ..self }
        } else if self.step_due(now) is Some {
            FieldModel {
                last_tick: Some(now),
                critters: all_stepped(self.critters, strides, low, high),
                ..self
            }
        } else {
            self
        }
    }
}

fn has_id(ids: &Vec<String>, id: &str) -> (r: bool)
    ensures
        r == id_models(ids@).contains(id@),
{
    let mut i: usize = 0;
    while i < ids.len()
        invariant
            i <= ids@.len(),
            forall|j: int| 0 <= j < i ==> #[trigger] id_models(ids@)[j] != id@,
        decreases ids@.len() - i,
    {
        if same_text(ids[i].as_str(), id) {
            assert(id_models(ids@)[i as int] == id@);
            return true;
        }
        i = i + 1;
    }
    false
}

fn is_alive(critters: &Vec<Critter>, id: &str) -> (r: bool)
    ensures
        r == lives(critter_models(critters@), id@),
{
    let mut i: usize = 0;
    while i < critters.len()
        invariant
            i <= critters@.len(),
            forall|j: int| 0 <= j < i ==> (#[trigger] critter_models(critters@)[j]).id != id@,
        decreases critters@.len() - i,
    {
        if same_text(critters[i].id.as_str(), id) {
            assert(critter_models(critters@)[i as int].id == id@);
            return true;
        }
        i = i + 1;
    }
    false
}

fn will_change(critters: &Vec<Critter>, ids: &Vec<String>) -> (r: bool)
    ensures
        r == population_changes(critter_models(critters@), id_models(ids@)),
{
    let ghost olds = critter_models(critters@);
    let ghost names = id_models(ids@);
    let mut i: usize = 0;
    while i < critters.len()
        invariant
            i <= critters@.len() == olds.len(),
            olds == critter_models(critters@),
            names == id_models(ids@),
            forall|j: int| 0 <= j < i ==> names.contains((#[trigger] olds[j]).id),
        decreases critters@.len() - i,
    {
        assert(olds[i as int].id == critters@[i as int].id@);
        if !has_id(ids, critters[i].id.as_str()) {
            return true;
        }
        i = i + 1;
    }
    let mut k: usize = 0;
    while k < ids.len()
        invariant
            k <= ids@.len() == names.len(),
            olds == critter_models(critters@),
            names == id_models(ids@),
            forall|j: int| 0 <= j < olds.len() ==> names.contains((#[trigger] olds[j]).id),
            forall|j: int| 0 <= j < k ==> lives(olds, #[trigger] names[j]),
        decreases ids@.len() - k,
    {
        assert(names[k as int] == ids@[k as int]@);
        if !is_alive(critters, ids[k].as_str()) {
            return true;
        }
        k = k + 1;
    }
    false
}

impl CritterField {
    pub fn new(has_sprite: bool) -> (f: CritterField)
        ensures
            f@ == (FieldModel {
                has_sprite,
                critters: Seq::empty(),
                prev_spans: Seq::empty(),
                last_tick: None,
            }),
    {
        let f = CritterField {
            has_sprite,
            critters: Vec::new(),
            prev_spans: Vec::new(),
            last_tick: None,
        };
        assert(f@.critters =~= Seq::empty());
        f
    }

    /// Whether there is nothing to draw.
    pub fn is_empty(&self) -> (r: bool)
        ensures
            r == (self@.critters.len() == 0 || !self@.has_sprite),
    {
        self.critters.len() == 0 || !self.has_sprite
    }

    pub fn needs_erase(&self) -> (r: bool)
        ensures
            r == (self@.prev_spans.len() > 0),
    {
        self.prev_spans.len() > 0
    }

    /// Brings the critters in line with the sessions: survivors stay where
    /// they are, those without a session vanish, and every session without a
    /// critter gets one, which begins at the place of the session in
    /// `starts`. Says whether the population changed: somebody left, or
    /// somebody came.
    pub fn reconcile(&mut self, ids: &Vec<String>, starts: &Vec<Start>) -> (changed: bool)
        requires
            starts@.len() >= ids@.len(),
        ensures
            final(self)@ == old(self)@.reconciled(id_models(ids@), starts@),
            changed == ((exists|i: int|
                0 <= i < old(self)@.critters.len() && !id_models(ids@).contains(
                    (#[trigger] old(self)@.critters[i]).id,
                )) || (exists|k: int|
                0 <= k < ids@.len() && !lives(
                    old(self)@.critters,
                    #[trigger] id_models(ids@)[k],
                ))),
    {
        let ghost start = self@;
        let ghost names = id_models(ids@);
        let ghost keep = |c: CritterModel| names.contains(c.id);
        let changed = will_change(&self.critters, ids);
        let mut all: Vec<Critter> = Vec::new();
        std::mem::swap(&mut all, &mut self.critters);
        let ghost olds = critter_models(all@);
        let mut kept: Vec<Critter> = Vec::new();
        proof {
            reveal(Seq::filter);
            assert(olds.take(0) =~= Seq::empty());
            assert(critter_models(kept@) =~= olds.take(0).filter(keep));
        }
        for critter in it: all
            invariant
                critter_models(it.seq()) == olds,
                names == id_models(ids@),
                keep == (|c: CritterModel| names.contains(c.id)),
                critter_models(kept@) == olds.take(it.index()).filter(keep),
        {
            let ghost n = it.index();
            let ghost so_far = critter_models(kept@);
            proof {
                reveal(Seq::filter);
                assert(olds[n] == critter@);
                assert(olds.take(n + 1).drop_last() =~= olds.take(n));
                assert(olds.take(n + 1).last() == critter@);
            }
            if has_id(ids, critter.id.as_str()) {
                kept.push(critter);
                assert(critter_models(kept@) =~= so_far.push(critter@));
            }
        }
        assert(olds.take(olds.len() as int) =~= olds);
        let ghost base = critter_models(kept@);
        let mut i: usize = 0;
        assert(names.take(0) =~= Seq::empty());
        while i < ids.len()
            invariant
                i <= ids@.len() == names.len() <= starts@.len(),
                names == id_models(ids@),
                critter_models(kept@) == joined(base, names.take(i as int), starts@),
            decreases ids@.len() - i,
        {
            let ghost so_far = critter_models(kept@);
            let ghost through = names.take(i + 1);
            assert(through.drop_last() =~= names.take(i as int));
            assert(through.last() == ids@[i as int]@);
            if !is_alive(&kept, ids[i].as_str()) {
                let s = starts[i];
                kept.push(Critter { id: ids[i].clone(), x: s.x, vx: s.vx, phase: s.phase });
                assert(critter_models(kept@) =~= so_far.push(
                    CritterModel {
                        id: ids@[i as int]@,
                        x: s.x,
                        vx: s.vx,
                        phase: s.phase,
                    },
                ));
            }
            i = i + 1;
        }
        assert(names.take(names.len() as int) =~= names);
        self.critters = kept;
        changed
    }

    /// How far to step at `now`, in nanoseconds.
    pub fn step_due(&self, now: Moment) -> (r: Option<u64>)
        ensures
            match self@.step_due(now) {
                Some(n) => r matches Some(m) && m == n,
                None => r is None,
            },
    {
        if self.critters.len() == 0 {
            return None;
        }
        match self.last_tick {
            Some(last) => {
                let passed: u64 = now.since(last);
                if passed < CRITTER_FRAME_NANOS {
                    None
                } else if passed <= MAX_TICK_NANOS {
                    Some(passed)
                } else {
                    Some(MAX_TICK_NANOS)
                }
            },
            None => None,
        }
    }

    /// Walks on where a frame is due; says whether there is a new frame.
    pub fn tick(&mut self, now: Moment, strides: &Vec<Stride>, low: Scalar, high: Scalar) -> (moved:
        bool)
        requires
            old(self)@.step_due(now) is Some ==> strides@.len() == old(self)@.critters.len(),
        ensures
            final(self)@ == old(self)@.ticked(now, strides@, low, high),
            moved == (old(self)@.critters.len() > 0 && (old(self)@.last_tick is None || old(
                self,
            )@.step_due(now) is Some)),
    {
        if self.critters.len() == 0 {
            self.last_tick = None;
            return false;
        }
        if self.last_tick.is_none() {
            self.last_tick = Some(now);
            return true;
        }
        if self.step_due(now).is_none() {
            return false;
        }
        let ghost start = self@;
        self.last_tick = Some(now);
        let n: usize = self.critters.len();
        let mut i: usize = 0;
        while i < n
            invariant
                i <= n == self.critters@.len() == start.critters.len() == strides@.len(),
                self@ == (FieldModel {
                    critters: self@.critters,
                    last_tick: Some(now),
                    ..start
                }),
                forall|j: int|
                    0 <= j < n ==> #[trigger] self@.critters[j] == (if j < i {
                        stepped(start.critters[j], strides@[j], low, high)
                    } else {
                        start.critters[j]
                    }),
            decreases n - i,
        {
            let ghost before = self@;
            assert(before.critters[i as int] == start.critters[i as int]);
            let s = strides[i];
            let vx = self.critters[i].vx;
            let mut x = s.x;
            let mut v = vx;
            if s.x.lt(low) || s.x.same_as(low) {
                x = low;
                v = vx.abs();
            } else if high.lt(s.x) || high.same_as(s.x) {
                x = high;
                v = vx.abs().negate();
            } else if s.turn {
                v = vx.negate();
            }
            self.critters[i].x = x;
            self.critters[i].vx = v;
            self.critters[i].phase = s.phase;
            assert(self@.critters =~= before.critters.update(
                i as int,
                stepped(start.critters[i as int], s, low, high),
            ));
            i = i + 1;
        }
        assert(self@.critters =~= all_stepped(start.critters, strides@, low, high));
        true
    }

    /// How long a loop may sleep before the next frame is due.
    pub fn wait_ms(&self, now: Moment) -> (r: Option<i32>)
        ensures
            match self@.last_tick {
                Some(last) if self@.critters.len() > 0 => r matches Some(ms) && ms == wait_millis(
                    remainder(CRITTER_FRAME_NANOS as nat, elapsed(now, last)),
                ),
                _ => r is None,
            },
    {
        if self.critters.len() == 0 {
            return None;
        }
        match self.last_tick {
            Some(last) => Some(wait_left(CRITTER_FRAME_NANOS, now, last)),
            None => None,
        }
    }

    /// What to erase of the last frame and what to draw of this one. On a
    /// complete redraw nothing has to be erased; without a region, or
    /// without a sprite, nothing is drawn.
    pub fn render(&mut self, region: Option<(Scalar, Scalar)>, complete_redraw: bool) -> (r:
        CritterPlan)
        requires
            region matches Some((low, high)) ==> !low.nan() && !high.nan() && !high.below(low),
        ensures
            r.erase@ == (if complete_redraw {
                Seq::empty()
            } else {
                old(self)@.prev_spans
            }),
            match region {
                Some((low, high)) if old(self)@.has_sprite => r.draw@ == Seq::new(
                    old(self)@.critters.len(),
                    |i: int|
                        Pose {
                            x: old(self)@.critters[i].x.clamped(low, high),
                            phase: old(self)@.critters[i].phase,
                        },
                ),
                _ => r.draw@.len() == 0,
            },
            final(self)@ == (FieldModel { prev_spans: Seq::empty(), ..old(self)@ }),
    {
        let mut erase: Vec<Span> = Vec::new();
        if complete_redraw {
            self.prev_spans.clear();
        } else {
            std::mem::swap(&mut erase, &mut self.prev_spans);
        }
        let mut draw: Vec<Pose> = Vec::new();
        if let Some((low, high)) = region {
            if self.has_sprite {
                let mut i: usize = 0;
                while i < self.critters.len()
                    invariant
                        i <= self.critters@.len(),
                        !low.nan(),
                        !high.nan(),
                        !high.below(low),
                        draw@.len() == i,
                        forall|j: int|
                            0 <= j < i ==> #[trigger] draw@[j] == (Pose {
                                x: self@.critters[j].x.clamped(low, high),
                                phase: self@.critters[j].phase,
                            }),
                    decreases self.critters@.len() - i,
                {
                    assert(self@.critters[i as int] == self.critters@[i as int]@);
                    draw.push(
                        Pose {
                            x: self.critters[i].x.clamp(low, high),
                            phase: self.critters[i].phase,
                        },
                    );
                    i = i + 1;
                }
                assert(draw@ =~= Seq::new(
                    self@.critters.len(),
                    |i: int|
                        Pose {
                            x: self@.critters[i].x.clamped(low, high),
                            phase: self@.critters[i].phase,
                        },
                ));
            }
        }
        CritterPlan { erase, draw }
    }

    /// Remembers what was drawn of a critter.
    pub fn note_drawn(&mut self, span: Span)
        ensures
            final(self)@ == (FieldModel {
                prev_spans: old(self)@.prev_spans.push(span),
                ..old(self)@
            }),
    {
        self.prev_spans.push(span);
    }
}

/// Nobody walks out of the region: after a step everybody is between its
/// ends, and moves away from an end that was reached.
pub proof fn critters_stay_in_bounds(c: CritterModel, s: Stride, low: Scalar, high: Scalar)
    requires
        !low.nan(),
        !high.nan(),
        !high.below(low),
        !s.x.nan(),
    ensures
        !stepped(c, s, low, high).x.below(low),
        !high.below(stepped(c, s, low, high).x),
        at_or_below(s.x, low) ==> !stepped(c, s, low, high).vx.negative(),
        !at_or_below(s.x, low) && at_or_below(high, s.x) ==> stepped(
            c,
            s,
            low,
            high,
        ).vx.negative(),
        stepped(c, s, low, high).vx.magnitude_spec() == c.vx.magnitude_spec(),
{
}

pub(crate) proof fn lemma_joined(critters: Seq<CritterModel>, ids: Seq<Seq<char>>, starts: Seq<Start>)
    ensures
        joined(critters, ids, starts).len() >= critters.len(),
        forall|i: int|
            0 <= i < critters.len() ==> #[trigger] joined(critters, ids, starts)[i] == critters[i],
        forall|i: int|
            critters.len() <= i < joined(critters, ids, starts).len() ==> ids.contains(
                (#[trigger] joined(critters, ids, starts)[i]).id,
            ),
        forall|k: int|
            0 <= k < ids.len() ==> lives(joined(critters, ids, starts), #[trigger] ids[k]),
    decreases ids.len(),
{
    if ids.len() > 0 {
        let rest = ids.drop_last();
        lemma_joined(critters, rest, starts);
        let before = joined(critters, rest, starts);
        let after = joined(critters, ids, starts);
        assert forall|i: int| critters.len() <= i < after.len() implies ids.contains(
            (#[trigger] after[i]).id,
        ) by {
            if i < before.len() {
                assert(after[i] == before[i]);
                let k = choose|k: int| 0 <= k < rest.len() && rest[k] == before[i].id;
                assert(ids[k] == before[i].id);
            } else {
                assert(ids[ids.len() - 1] == after[i].id);
            }
        }
        assert forall|k: int| 0 <= k < ids.len() implies lives(after, #[trigger] ids[k]) by {
            if k < rest.len() {
                assert(rest[k] == ids[k]);
                let i = choose|i: int| 0 <= i < before.len() && (#[trigger] before[i]).id == rest[k];
                assert(after[i].id == ids[k]);
            } else if !lives(before, ids[k]) {
                assert(after[before.len() as int].id == ids[k]);
            } else {
                let i = choose|i: int| 0 <= i < before.len() && (#[trigger] before[i]).id == ids[k];
                assert(after[i].id == ids[k]);
            }
        }
    }
}

/// After a reconciliation there is a critter for every session and for no
/// other, and survivors are exactly as they were.
pub proof fn every_session_has_its_critter(f: FieldModel, ids: Seq<Seq<char>>, starts: Seq<Start>)
    ensures
        forall|k: int|
            0 <= k < ids.len() ==> lives(f.reconciled(ids, starts).critters, #[trigger] ids[k]),
        forall|i: int|
            0 <= i < f.reconciled(ids, starts).critters.len() ==> ids.contains(
                (#[trigger] f.reconciled(ids, starts).critters[i]).id,
            ),
        forall|i: int|
            0 <= i < survivors(f.critters, ids).len() ==> #[trigger] f.reconciled(
                ids,
                starts,
            ).critters[i] == survivors(f.critters, ids)[i],
{
    broadcast use vstd::seq_lib::group_filter_ensures;

    let keep = |c: CritterModel| ids.contains(c.id);
    let base = survivors(f.critters, ids);
    lemma_joined(base, ids, starts);
    let after = f.reconciled(ids, starts).critters;
    assert forall|i: int| 0 <= i < after.len() implies ids.contains(
        (#[trigger] after[i]).id,
    ) by {
        if i < base.len() {
            assert(keep(f.critters.filter(keep)[i]));
            assert(after[i] == base[i]);
        }
    }
}

proof fn lemma_all_survive(critters: Seq<CritterModel>, ids: Seq<Seq<char>>)
    requires
        forall|i: int| 0 <= i < critters.len() ==> ids.contains((#[trigger] critters[i]).id),
    ensures
        survivors(critters, ids) == critters,
    decreases critters.len(),
{
    reveal(Seq::filter);
    if critters.len() > 0 {
        let rest = critters.drop_last();
        assert forall|i: int| 0 <= i < rest.len() implies ids.contains(
            (#[trigger] rest[i]).id,
        ) by {
            assert(rest[i] == critters[i]);
        }
        lemma_all_survive(rest, ids);
        assert(ids.contains(critters[critters.len() - 1].id));
        assert(rest.push(critters.last()) =~= critters);
    } else {
        assert(survivors(critters, ids) =~= critters);
    }
}

proof fn lemma_nobody_joins(critters: Seq<CritterModel>, ids: Seq<Seq<char>>, starts: Seq<Start>)
    requires
        forall|k: int| 0 <= k < ids.len() ==> lives(critters, #[trigger] ids[k]),
    ensures
        joined(critters, ids, starts) == critters,
    decreases ids.len(),
{
    if ids.len() > 0 {
        let rest = ids.drop_last();
        assert forall|k: int| 0 <= k < rest.len() implies lives(critters, #[trigger] rest[k]) by {
            assert(rest[k] == ids[k]);
        }
        lemma_nobody_joins(critters, rest, starts);
        assert(lives(critters, ids[ids.len() - 1]));
    }
}

/// Where the population does not change, nothing does: everybody stays as
/// they were. Where it changes, somebody who was there is gone or somebody
/// is there who was not.
pub proof fn unchanged_populations_stay_as_they_are(
    f: FieldModel,
    ids: Seq<Seq<char>>,
    starts: Seq<Start>,
)
    ensures
        !population_changes(f.critters, ids) ==> f.reconciled(ids, starts) == f,
        population_changes(f.critters, ids) ==> exists|id: Seq<char>|
            lives(f.critters, id) != #[trigger] lives(f.reconciled(ids, starts).critters, id),
{
    let after = f.reconciled(ids, starts).critters;
    if !population_changes(f.critters, ids) {
        lemma_all_survive(f.critters, ids);
        lemma_nobody_joins(f.critters, ids, starts);
    } else {
        every_session_has_its_critter(f, ids, starts);
        if exists|i: int|
            0 <= i < f.critters.len() && !ids.contains((#[trigger] f.critters[i]).id) {
            let i = choose|i: int|
                0 <= i < f.critters.len() && !ids.contains((#[trigger] f.critters[i]).id);
            assert(lives(f.critters, f.critters[i].id));
            assert(!lives(after, f.critters[i].id));
        } else {
            let k = choose|k: int| 0 <= k < ids.len() && !lives(f.critters, #[trigger] ids[k]);
            assert(lives(after, ids[k]));
        }
    }
}

/// No session has two critters.
pub open spec fn distinct_ids(critters: Seq<CritterModel>) -> bool {
    forall|i: int, j: int|
        0 <= i < j < critters.len() ==> (#[trigger] critters[i]).id != (#[trigger] critters[j]).id
}

proof fn lemma_survivors_distinct(critters: Seq<CritterModel>, ids: Seq<Seq<char>>)
    requires
        distinct_ids(critters),
    ensures
        distinct_ids(survivors(critters, ids)),
        forall|i: int|
            0 <= i < survivors(critters, ids).len() ==> lives(
                critters,
                (#[trigger] survivors(critters, ids)[i]).id,
            ),
    decreases critters.len(),
{
    reveal(Seq::filter);
    if critters.len() > 0 {
        let rest = critters.drop_last();
        let last = critters.last();
        assert forall|i: int, j: int| 0 <= i < j < rest.len() implies (#[trigger] rest[i]).id != (
        #[trigger] rest[j]).id by {
            assert(critters[i].id != critters[j].id);
        }
        lemma_survivors_distinct(rest, ids);
        let before = survivors(rest, ids);
        let after = survivors(critters, ids);
        assert(after == before || after == before.push(last));
        assert forall|i: int| 0 <= i < before.len() implies (#[trigger] before[i]).id != last.id
            && lives(critters, before[i].id) by {
            let k = choose|k: int| 0 <= k < rest.len() && (#[trigger] rest[k]).id == before[i].id;
            assert(critters[k].id != critters[critters.len() - 1].id);
        }
        assert forall|i: int| 0 <= i < after.len() implies lives(
            critters,
            (#[trigger] after[i]).id,
        ) by {
            if i < before.len() {
                assert(after[i] == before[i]);
            } else {
                assert(critters[critters.len() - 1].id == after[i].id);
            }
        }
    }
}

proof fn lemma_joined_distinct(
    critters: Seq<CritterModel>,
    ids: Seq<Seq<char>>,
    starts: Seq<Start>,
)
    requires
        distinct_ids(critters),
    ensures
        distinct_ids(joined(critters, ids, starts)),
    decreases ids.len(),
{
    if ids.len() > 0 {
        lemma_joined_distinct(critters, ids.drop_last(), starts);
    }
}

/// Reconciling never gives a session a second critter.
pub proof fn sessions_never_share_a_critter(
    f: FieldModel,
    ids: Seq<Seq<char>>,
    starts: Seq<Start>,
)
    requires
        distinct_ids(f.critters),
    ensures
        distinct_ids(f.reconciled(ids, starts).critters),
{
    lemma_survivors_distinct(f.critters, ids);
    lemma_joined_distinct(survivors(f.critters, ids), ids, starts);
}

} // verus!
