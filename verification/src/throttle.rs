//! Rate limiter for slider positions: while drags are under way at most one
//! value per interval goes out, the latest wins, and the last value of each
//! drag always lands.
use crate::config::SliderTarget;
use crate::moment::{elapsed, remainder, wait_left, wait_millis, Moment};
use crate::scalar::Scalar;
use vstd::prelude::*;

verus! {

/// Least time between two values during a drag.
pub const SLIDER_EMIT_INTERVAL_NANOS: u64 = 50_000_000;

pub const SLIDER_TARGET_COUNT: usize = 3;

pub open spec fn target_index(target: SliderTarget) -> int {
    match target {
        SliderTarget::DisplayBrightness => 0,
        SliderTarget::KeyboardBrightness => 1,
        SliderTarget::Volume => 2,
    }
}

pub fn slider_target_index(target: SliderTarget) -> (r: usize)
    ensures
        r == target_index(target),
        r < SLIDER_TARGET_COUNT,
{
    match target {
        SliderTarget::DisplayBrightness => 0,
        SliderTarget::KeyboardBrightness => 1,
        SliderTarget::Volume => 2,
    }
}

pub fn slider_target_from_index(index: usize) -> (r: SliderTarget)
    ensures
        index < SLIDER_TARGET_COUNT ==> target_index(r) == index,
        index >= SLIDER_TARGET_COUNT ==> r == SliderTarget::Volume,
{
    match index {
        0 => SliderTarget::DisplayBrightness,
        1 => SliderTarget::KeyboardBrightness,
        _ => SliderTarget::Volume,
    }
}

/// When a value last went out, and the value of each target that waits.
/// Targets wait separately, so that drags on several sliders do not drop
/// each other's values.
#[derive(Debug)]
pub struct EmitThrottle {
    last_emit: Option<Moment>,
    pending: [Option<Scalar>; 3],
}

#[verifier::ext_equal]
pub struct ThrottleModel {
    pub last: Option<Moment>,
    pub pending: Seq<Option<Scalar>>,
}

impl View for EmitThrottle {
    type V = ThrottleModel;

    closed spec fn view(&self) -> ThrottleModel {
        ThrottleModel { last: self.last_emit, pending: self.pending@ }
    }
}

/// Place of the first target that waits; the number of targets where none
/// does.
pub open spec fn first_waiting(pending: Seq<Option<Scalar>>) -> nat
    decreases pending.len(),
{
    if pending.len() == 0 || pending[0] is Some {
        0
    } else {
        1 + first_waiting(pending.drop_first())
    }
}

proof fn lemma_first_waiting(pending: Seq<Option<Scalar>>, n: int)
    requires
        0 <= n <= pending.len(),
        forall|i: int| 0 <= i < n ==> (#[trigger] pending[i]) is None,
        n < pending.len() ==> pending[n] is Some,
    ensures
        first_waiting(pending) == n,
    decreases pending.len(),
{
    if n > 0 {
        assert(pending[0] is None);
        let rest = pending.drop_first();
        assert forall|i: int| 0 <= i < n - 1 implies (#[trigger] rest[i]) is None by {
            assert(pending[i + 1] is None);
        }
        lemma_first_waiting(rest, n - 1);
    }
}

/// Where no value waits there is none to take.
pub(crate) proof fn lemma_nobody_waits(t: ThrottleModel)
    requires
        t.pending.len() == SLIDER_TARGET_COUNT,
        t.idle(),
    ensures
        first_waiting(t.pending) == SLIDER_TARGET_COUNT,
        forall|now: Moment| #[trigger] t.taken(now) == t,
{
    lemma_first_waiting(t.pending, SLIDER_TARGET_COUNT as int);
}

impl ThrottleModel {
    pub open spec fn new() -> ThrottleModel {
        ThrottleModel { last: None, pending: seq![None, None, None] }
    }

    /// Whatever waits, waits for a value that went out before it.
    pub open spec fn wf(self) -> bool {
        &&& self.pending.len() == SLIDER_TARGET_COUNT
        &&& forall|i: int|
            0 <= i < SLIDER_TARGET_COUNT && (#[trigger] self.pending[i]) is Some
                ==> self.last is Some
    }

    /// Whether a value may go out.
    pub open spec fn due(self, now: Moment) -> bool {
        self.last matches Some(last) ==> elapsed(now, last) >= SLIDER_EMIT_INTERVAL_NANOS
    }

    pub open spec fn waiting(self, target: SliderTarget) -> Option<Scalar> {
        self.pending[target_index(target)]
    }

    pub open spec fn with_waiting(self, target: SliderTarget, value: Option<Scalar>) -> ThrottleModel {
        ThrottleModel { pending: self.pending.update(target_index(target), value), ..self }
    }

    /// Whether no value waits.
    pub open spec fn idle(self) -> bool {
        forall|i: int| 0 <= i < SLIDER_TARGET_COUNT ==> (#[trigger] self.pending[i]) is None
    }

    /// After a value of `target` was offered: it went out, or it waits in
    /// place of an older one.
    pub open spec fn offered(self, target: SliderTarget, value: Scalar, now: Moment) -> ThrottleModel {
        if self.due(now) {
            ThrottleModel { last: Some(now), ..self.with_waiting(target, None) }
        } else {
            self.with_waiting(target, Some(value))
        }
    }

    /// After the waiting value of `target`, if there is one, went out.
    pub open spec fn flushed(self, target: SliderTarget, now: Moment) -> ThrottleModel {
        if self.waiting(target) is Some {
            ThrottleModel { last: Some(now), ..self.with_waiting(target, None) }
        } else {
            self
        }
    }

    /// After the first waiting value, if one is due, went out.
    pub open spec fn taken(self, now: Moment) -> ThrottleModel {
        let k = first_waiting(self.pending) as int;
        if self.due(now) && k < SLIDER_TARGET_COUNT {
            ThrottleModel { last: Some(now), pending: self.pending.update(k, None) }
        } else {
            self
        }
    }
}

impl EmitThrottle {
    pub fn new() -> (t: EmitThrottle)
        ensures
            t@ == ThrottleModel::new(),
            t@.wf(),
    {
        let t = EmitThrottle { last_emit: None, pending: [None, None, None] };
        assert(t@ =~= ThrottleModel::new());
        t
    }

    /// Whether a value may go out.
    fn due(&self, now: Moment) -> (r: bool)
        ensures
            r == self@.due(now),
    {
        match self.last_emit {
            Some(last) => now.since(last) >= SLIDER_EMIT_INTERVAL_NANOS,
            None => true,
        }
    }

    /// A new position of a slider: goes out at once where that is due, else
    /// it waits in place of any older one.
    pub fn offer(&mut self, target: SliderTarget, value: Scalar, now: Moment) -> (r: Option<
        (SliderTarget, Scalar),
    >)
        requires
            old(self)@.wf(),
        ensures
            r == (if old(self)@.due(now) {
                Some((target, value))
            } else {
                None
            }),
            final(self)@ == old(self)@.offered(target, value, now),
            final(self)@.wf(),
    {
        let index: usize = slider_target_index(target);
        if self.due(now) {
            self.last_emit = Some(now);
            self.pending[index] = None;
            Some((target, value))
        } else {
            self.pending[index] = Some(value);
            None
        }
    }

    /// One waiting value, once the interval has passed; another one that
    /// waits goes out later.
    pub fn take_due(&mut self, now: Moment) -> (r: Option<(SliderTarget, Scalar)>)
        requires
            old(self)@.wf(),
        ensures
            r is Some <==> old(self)@.due(now) && first_waiting(old(self)@.pending)
                < SLIDER_TARGET_COUNT,
            r matches Some((target, value)) ==> target_index(target) == first_waiting(
                old(self)@.pending,
            ) && old(self)@.waiting(target) == Some(value),
            final(self)@ == old(self)@.taken(now),
            final(self)@.wf(),
    {
        if !self.due(now) {
            return None;
        }
        let ghost before = self@;
        let mut index: usize = 0;
        while index < SLIDER_TARGET_COUNT
            invariant
                index <= SLIDER_TARGET_COUNT,
                self@ == before,
                before == old(self)@,
                before.wf(),
                before.due(now),
                self.pending@ == before.pending,
                forall|i: int| 0 <= i < index ==> (#[trigger] before.pending[i]) is None,
            decreases SLIDER_TARGET_COUNT - index,
        {
            if let Some(value) = self.pending[index] {
                proof {
                    lemma_first_waiting(before.pending, index as int);
                }
                self.pending[index] = None;
                self.last_emit = Some(now);
                return Some((slider_target_from_index(index), value));
            }
            index = index + 1;
        }
        proof {
            lemma_first_waiting(before.pending, index as int);
        }
        None
    }

    /// A drag ended: the value that waits, if one does, goes out whatever
    /// the clock says, and counts against it.
    pub fn flush(&mut self, target: SliderTarget, now: Moment) -> (r: Option<
        (SliderTarget, Scalar),
    >)
        requires
            old(self)@.wf(),
        ensures
            r == (match old(self)@.waiting(target) {
                Some(value) => Some((target, value)),
                None => None,
            }),
            final(self)@ == old(self)@.flushed(target, now),
            final(self)@.wf(),
    {
        let index: usize = slider_target_index(target);
        match self.pending[index] {
            Some(value) => {
                self.pending[index] = None;
                self.last_emit = Some(now);
                Some((target, value))
            },
            None => None,
        }
    }

    /// How long a loop may sleep before a waiting value is due.
    pub fn pending_wait_ms(&self, now: Moment) -> (r: Option<i32>)
        requires
            self@.wf(),
        ensures
            r is None <==> self@.idle(),
            r matches Some(ms) ==> self@.last matches Some(last) && ms == wait_millis(
                remainder(SLIDER_EMIT_INTERVAL_NANOS as nat, elapsed(now, last)),
            ),
    {
        if self.pending[0].is_none() && self.pending[1].is_none() && self.pending[2].is_none() {
            return None;
        }
        match self.last_emit {
            Some(last) => Some(wait_left(SLIDER_EMIT_INTERVAL_NANOS, now, last)),
            None => None,
        }
    }
}

/// After a value went out, no other goes out within the interval, except
/// for the last one of a drag.
pub proof fn values_keep_their_distance(
    t: ThrottleModel,
    target: SliderTarget,
    value: Scalar,
    now: Moment,
    later: Moment,
)
    requires
        t.wf(),
        elapsed(later, now) < SLIDER_EMIT_INTERVAL_NANOS,
    ensures
        t.due(now) ==> !t.offered(target, value, now).due(later),
        t.taken(now) != t ==> !t.taken(now).due(later),
        t.waiting(target) is Some ==> !t.flushed(target, now).due(later),
{
    if t.due(now) && first_waiting(t.pending) < SLIDER_TARGET_COUNT {
        assert(t.taken(now).last == Some(now));
    }
}

/// The last value of a drag always lands: what was offered last either went
/// out at once, or it is what the end of the drag sends.
pub proof fn final_values_land(t: ThrottleModel, target: SliderTarget, value: Scalar, now: Moment)
    requires
        t.wf(),
    ensures
        !t.due(now) ==> t.offered(target, value, now).waiting(target) == Some(value),
        t.due(now) ==> t.offered(target, value, now).waiting(target) is None,
        t.flushed(target, now).waiting(target) is None,
{
}

/// Sliders do not disturb each other's waiting values.
pub proof fn targets_wait_separately(
    t: ThrottleModel,
    target: SliderTarget,
    other: SliderTarget,
    value: Scalar,
    now: Moment,
)
    requires
        t.wf(),
        target != other,
    ensures
        t.offered(target, value, now).waiting(other) == t.waiting(other),
        t.flushed(target, now).waiting(other) == t.waiting(other),
{
}

} // verus!
