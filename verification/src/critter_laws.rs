//! What the critters are for: everybody walks on from where they were, in
//! steps of their own, and newcomers begin where they are put.
use crate::critters::{
    distinct_ids, joined, lives, survivors, CritterModel, FieldModel, Start, Stride,
};
use crate::moment::Moment;
use crate::readout_laws::numbers_are_mirrored;
use crate::scalar::Scalar;
use vstd::prelude::*;

verus! {

/// A step is due 66 milliseconds after the last one, where somebody walks;
/// it covers the time that passed, but never more than 250 milliseconds.
pub proof fn steps_are_short(f: FieldModel, now: Moment)
    ensures
        f.step_due(now) is Some <==> f.critters.len() > 0 && (f.last_tick matches Some(last)
            && now.nanos >= last.nanos + 66_000_000),
        f.step_due(now) matches Some(n) ==> {
            let passed = now.nanos - f.last_tick->0.nanos;
            &&& (passed <= 250_000_000 ==> n == passed)
            &&& (passed > 250_000_000 ==> n == 250_000_000)
        },
{
}

/// After a step that is due everybody is where their stride took them, or
/// at the end of the region that it would have left; they go on the way
/// they went, unless they felt like turning or reached an end, from where
/// they go back. Nobody else comes or goes.
pub proof fn walks_go_on(
    f: FieldModel,
    now: Moment,
    strides: Seq<Stride>,
    low: Scalar,
    high: Scalar,
    i: int,
)
    requires
        f.last_tick matches Some(last) && now.nanos >= last.nanos + 66_000_000,
        strides.len() == f.critters.len(),
        0 <= i < f.critters.len(),
        !low.nan(),
        !high.nan(),
        !strides[i].x.nan(),
        low.rank() < high.rank(),
    ensures
        ({
            let after = f.ticked(now, strides, low, high);
            let was = f.critters[i];
            let is = after.critters[i];
            let to = strides[i].x.rank();
            &&& after.critters.len() == f.critters.len()
            &&& after.last_tick == Some(now)
            &&& after.has_sprite == f.has_sprite
            &&& after.prev_spans == f.prev_spans
            &&& is.id == was.id
            &&& is.phase == strides[i].phase
            &&& (low.rank() < to < high.rank() ==> is.x == strides[i].x)
            &&& (low.rank() < to < high.rank() && !strides[i].turn ==> is.vx == was.vx)
            &&& (low.rank() < to < high.rank() && strides[i].turn ==> is.vx.rank()
                == -was.vx.rank())
            &&& (to <= low.rank() ==> is.x == low && is.vx.rank() >= 0)
            &&& (to >= high.rank() ==> is.x == high && is.vx.rank() <= 0)
            &&& (is.vx.rank() == was.vx.rank() || is.vx.rank() == -was.vx.rank())
        }),
{
    let was = f.critters[i];
    numbers_are_mirrored(was.vx);
    numbers_are_mirrored(was.vx.absolute());
}

/// Between two steps, and where nobody walks, nobody moves; a walk begins
/// with its first frame.
pub proof fn nobody_moves_between_steps(
    f: FieldModel,
    now: Moment,
    strides: Seq<Stride>,
    low: Scalar,
    high: Scalar,
)
    ensures
        ({
            let after = f.ticked(now, strides, low, high);
            &&& (f.critters.len() == 0 ==> after.critters.len() == 0 && after.last_tick is None)
            &&& (f.critters.len() > 0 && f.last_tick is None ==> after.critters == f.critters
                && after.last_tick == Some(now))
            &&& (f.critters.len() > 0 && (f.last_tick matches Some(last) && now.nanos < last.nanos
                + 66_000_000) ==> after == f)
        }),
{
}

/// A critter whose session still runs stays exactly as it was.
pub proof fn survivors_stay_as_they_were(
    f: FieldModel,
    ids: Seq<Seq<char>>,
    starts: Seq<Start>,
    i: int,
)
    requires
        0 <= i < f.critters.len(),
        ids.contains(f.critters[i].id),
    ensures
        f.reconciled(ids, starts).critters.contains(f.critters[i]),
        f.reconciled(ids, starts).last_tick == f.last_tick,
        f.reconciled(ids, starts).prev_spans == f.prev_spans,
        f.reconciled(ids, starts).has_sprite == f.has_sprite,
{
    broadcast use vstd::seq_lib::group_filter_ensures;

    let keep = |c: CritterModel| ids.contains(c.id);
    let base = survivors(f.critters, ids);
    assert(f.critters.contains(f.critters[i]));
    assert(keep(f.critters[i]));
    assert(base.contains(f.critters[i]));
    crate::critters::every_session_has_its_critter(f, ids, starts);
    let at = choose|at: int| 0 <= at < base.len() && base[at] == f.critters[i];
    crate::critters::lemma_joined(base, ids, starts);
    assert(f.reconciled(ids, starts).critters[at] == f.critters[i]);
}

/// A session that had no critter gets one that begins where the session's
/// start says.
pub proof fn newcomers_begin_at_their_start(
    f: FieldModel,
    ids: Seq<Seq<char>>,
    starts: Seq<Start>,
    k: int,
)
    requires
        0 <= k < ids.len(),
        !lives(f.critters, ids[k]),
        forall|j: int| 0 <= j < k ==> #[trigger] ids[j] != ids[k],
    ensures
        f.reconciled(ids, starts).critters.contains(
            CritterModel {
                id: ids[k],
                x: starts[k].x,
                vx: starts[k].vx,
                phase: starts[k].phase,
            },
        ),
{
    let base = survivors(f.critters, ids);
    let keep = |c: CritterModel| ids.contains(c.id);
    assert(!lives(base, ids[k])) by {
        if lives(base, ids[k]) {
            let i = choose|i: int| 0 <= i < base.len() && (#[trigger] base[i]).id == ids[k];
            assert(base.contains(base[i]));
            f.critters.lemma_filter_contains_rev(keep, base[i]);
            let m = choose|m: int| 0 <= m < f.critters.len() && f.critters[m] == base[i];
            assert(f.critters[m].id == ids[k]);
        }
    }
    lemma_newcomer(base, ids, starts, k);
}

proof fn lemma_newcomer(
    base: Seq<CritterModel>,
    ids: Seq<Seq<char>>,
    starts: Seq<Start>,
    k: int,
)
    requires
        0 <= k < ids.len(),
        !lives(base, ids[k]),
        forall|j: int| 0 <= j < k ==> #[trigger] ids[j] != ids[k],
    ensures
        joined(base, ids, starts).contains(
            CritterModel {
                id: ids[k],
                x: starts[k].x,
                vx: starts[k].vx,
                phase: starts[k].phase,
            },
        ),
    decreases ids.len(),
{
    let rest = ids.drop_last();
    let c = CritterModel {
        id: ids[k],
        x: starts[k].x,
        vx: starts[k].vx,
        phase: starts[k].phase,
    };
    let before = joined(base, rest, starts);
    let after = joined(base, ids, starts);
    if k == ids.len() - 1 {
        crate::critters::lemma_joined(base, rest, starts);
        if lives(before, ids[k]) {
            let i = choose|i: int| 0 <= i < before.len() && (#[trigger] before[i]).id == ids[k];
            if i < base.len() {
                assert(base[i].id == ids[k]);
            } else {
                assert(rest.contains(before[i].id));
                let j = choose|j: int| 0 <= j < rest.len() && rest[j] == ids[k];
                assert(ids[j] == ids[k]);
            }
            assert(false);
        }
        assert(after[before.len() as int] == c);
    } else {
        assert(rest[k] == ids[k]);
        assert forall|j: int| 0 <= j < k implies #[trigger] rest[j] != rest[k] by {
            assert(ids[j] != ids[k]);
        }
        lemma_newcomer(base, rest, starts, k);
        let i = choose|i: int| 0 <= i < before.len() && before[i] == c;
        assert(after[i] == c);
    }
}

/// As many walk as there are sessions, where no session is named twice.
pub proof fn sessions_and_critters_are_as_many(
    f: FieldModel,
    ids: Seq<Seq<char>>,
    starts: Seq<Start>,
)
    requires
        distinct_ids(f.critters),
        ids.no_duplicates(),
    ensures
        f.reconciled(ids, starts).critters.len() == ids.len(),
{
    let after = f.reconciled(ids, starts).critters;
    crate::critters::every_session_has_its_critter(f, ids, starts);
    crate::critters::sessions_never_share_a_critter(f, ids, starts);
    let names = after.map_values(|c: CritterModel| c.id);
    assert(names.no_duplicates()) by {
        assert forall|i: int, j: int| 0 <= i < names.len() && 0 <= j < names.len() && i
            != j implies names[i] != names[j] by {
            if i < j {
                assert(after[i].id != after[j].id);
            } else {
                assert(after[j].id != after[i].id);
            }
        }
    }
    assert(names.to_set() =~= ids.to_set()) by {
        assert forall|id: Seq<char>| ids.contains(id) implies names.contains(id) by {
            let k = choose|k: int| 0 <= k < ids.len() && ids[k] == id;
            assert(lives(after, ids[k]));
            let i = choose|i: int| 0 <= i < after.len() && (#[trigger] after[i]).id == ids[k];
            assert(names[i] == id);
        }
        assert forall|id: Seq<char>| names.contains(id) implies ids.contains(id) by {
            let i = choose|i: int| 0 <= i < names.len() && names[i] == id;
            assert(ids.contains(after[i].id));
        }
    }
    names.unique_seq_to_set();
    ids.unique_seq_to_set();
}

} // verus!
