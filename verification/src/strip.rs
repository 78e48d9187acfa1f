//! The live workspaces as the strip shows them: cut to what fits, and
//! compared with what is shown already.
use crate::helper_proto::{at_most, WsEntry};
use vstd::prelude::*;

verus! {

/// How a new set of workspaces differs from the one that is shown.
#[derive(Clone, Copy, Debug, PartialEq, Eq, Structural)]
pub enum StripChange {
    Unchanged,
    /// The same buttons; only their marks differ. Highlights move in place,
    /// and a drag that is under way survives.
    Decoration,
    /// Other buttons, or the same ones grouped differently.
    Structure,
}

/// The workspaces of each output.
pub open spec fn model_of(model: Seq<Vec<WsEntry>>) -> Seq<Seq<WsEntry>> {
    model.map_values(|group: Vec<WsEntry>| group@)
}

/// At most `cap` workspaces, from the front; groups that keep none vanish.
pub open spec fn truncated(model: Seq<Seq<WsEntry>>, cap: nat) -> Seq<Seq<WsEntry>>
    decreases model.len(),
{
    if model.len() == 0 || cap == 0 {
        Seq::empty()
    } else {
        let head = at_most(model[0], cap);
        let rest = truncated(model.drop_first(), (cap - head.len()) as nat);
        if head.len() == 0 {
            rest
        } else {
            seq![head] + rest
        }
    }
}

/// All workspaces in one row.
pub open spec fn flat(model: Seq<Seq<WsEntry>>) -> Seq<WsEntry>
    decreases model.len(),
{
    if model.len() == 0 {
        Seq::empty()
    } else {
        model[0] + flat(model.drop_first())
    }
}

/// How many workspaces each group has.
pub open spec fn sizes(model: Seq<Seq<WsEntry>>) -> Seq<usize> {
    model.map_values(|group: Seq<WsEntry>| group.len() as usize)
}

pub open spec fn same_row(a: Seq<WsEntry>, b: Seq<WsEntry>) -> bool {
    a.len() == b.len() && forall|i: int|
        0 <= i < a.len() ==> (#[trigger] a[i]).id == b[i].id && a[i].idx == b[i].idx
}

/// The same workspaces in the same places, whatever their marks.
pub open spec fn same_shape(a: Seq<Seq<WsEntry>>, b: Seq<Seq<WsEntry>>) -> bool {
    a.len() == b.len() && forall|g: int| 0 <= g < a.len() ==> same_row(#[trigger] a[g], b[g])
}

pub open spec fn classified(current: Seq<Seq<WsEntry>>, new: Seq<Seq<WsEntry>>) -> StripChange {
    if current == new {
        StripChange::Unchanged
    } else if same_shape(current, new) {
        StripChange::Decoration
    } else {
        StripChange::Structure
    }
}

/// A copy of the first `n` entries of a group.
fn copy_head(group: &Vec<WsEntry>, n: usize) -> (r: Vec<WsEntry>)
    requires
        n <= group@.len(),
    ensures
        r@ == group@.take(n as int),
{
    let mut r: Vec<WsEntry> = Vec::new();
    let mut i: usize = 0;
    while i < n
        invariant
            i <= n <= group@.len(),
            r@ == group@.take(i as int),
        decreases n - i,
    {
        r.push(group[i]);
        assert(group@.take(i + 1) =~= group@.take(i as int).push(group@[i as int]));
        i = i + 1;
    }
    r
}

/// A copy of a set of workspaces.
pub fn copy_model(model: &Vec<Vec<WsEntry>>) -> (r: Vec<Vec<WsEntry>>)
    ensures
        model_of(r@) == model_of(model@),
{
    let mut r: Vec<Vec<WsEntry>> = Vec::new();
    let mut i: usize = 0;
    while i < model.len()
        invariant
            i <= model@.len(),
            r@.len() == i,
            forall|j: int| 0 <= j < i ==> (#[trigger] r@[j])@ == model@[j]@,
        decreases model@.len() - i,
    {
        let group = copy_head(&model[i], model[i].len());
        assert(group@ =~= model@[i as int]@);
        r.push(group);
        i = i + 1;
    }
    assert(model_of(r@) =~= model_of(model@));
    r
}

/// Cuts a set of workspaces to at most `cap`, from the front. Comparing what
/// is rendered keeps a change in what is never shown from disturbing touches.
pub fn truncate_model(model: &Vec<Vec<WsEntry>>, cap: usize) -> (r: Vec<Vec<WsEntry>>)
    ensures
        model_of(r@) == truncated(model_of(model@), cap as nat),
{
    let ghost all = model_of(model@);
    let mut r: Vec<Vec<WsEntry>> = Vec::new();
    let mut left: usize = cap;
    let mut g: usize = 0;
    assert(all.skip(0) =~= all);
    assert(model_of(r@) + truncated(all, cap as nat) =~= truncated(all, cap as nat));
    while g < model.len() && left > 0
        invariant
            g <= model@.len() == all.len(),
            all == model_of(model@),
            model_of(r@) + truncated(all.skip(g as int), left as nat) == truncated(
                all,
                cap as nat,
            ),
        decreases model@.len() - g,
    {
        let ghost tail = all.skip(g as int);
        let ghost before = r@;
        let size: usize = model[g].len();
        let take: usize = if size <= left {
            size
        } else {
            left
        };
        let ghost head = at_most(tail[0], left as nat);
        assert(tail[0] == model@[g as int]@);
        assert(tail.drop_first() =~= all.skip(g + 1));
        assert(head.len() == take);
        if take > 0 {
            let group = copy_head(&model[g], take);
            assert(group@ =~= head);
            r.push(group);
            assert(model_of(r@) =~= model_of(before).push(head));
            assert(model_of(r@) + truncated(tail.drop_first(), (left - take) as nat) =~= model_of(
                before,
            ) + truncated(tail, left as nat));
        }
        left = left - take;
        g = g + 1;
    }
    assert(truncated(all.skip(g as int), left as nat) =~= Seq::empty());
    assert(model_of(r@) + truncated(all.skip(g as int), left as nat) =~= model_of(r@));
    r
}

/// Whether two groups are the same, and whether they hold the same
/// workspaces.
fn compare_rows(a: &Vec<WsEntry>, b: &Vec<WsEntry>) -> (r: (bool, bool))
    ensures
        r.0 == (a@ == b@),
        r.1 == same_row(a@, b@),
{
    if a.len() != b.len() {
        return (false, false);
    }
    let mut same: bool = true;
    let mut i: usize = 0;
    assert(a@.take(0) =~= b@.take(0));
    while i < a.len()
        invariant
            i <= a@.len() == b@.len(),
            same == (a@.take(i as int) == b@.take(i as int)),
            forall|j: int|
                0 <= j < i ==> (#[trigger] a@[j]).id == b@[j].id && a@[j].idx == b@[j].idx,
        decreases a@.len() - i,
    {
        let x = a[i];
        let y = b[i];
        if x.id != y.id || x.idx != y.idx {
            assert(a@[i as int] != b@[i as int]);
            return (false, false);
        }
        proof {
            assert(a@.take(i + 1) =~= a@.take(i as int).push(x));
            assert(b@.take(i + 1) =~= b@.take(i as int).push(y));
            assert(a@.take(i + 1).drop_last() =~= a@.take(i as int));
            assert(b@.take(i + 1).drop_last() =~= b@.take(i as int));
            assert(a@.take(i + 1).last() == x && b@.take(i + 1).last() == y);
        }
        same = same && x.occ == y.occ && x.foc == y.foc;
        i = i + 1;
    }
    assert(a@.take(i as int) =~= a@);
    assert(b@.take(i as int) =~= b@);
    (same, true)
}

/// How `new` differs from `current`.
pub fn classify_strip_change(current: &Vec<Vec<WsEntry>>, new: &Vec<Vec<WsEntry>>) -> (r:
    StripChange)
    ensures
        r == classified(model_of(current@), model_of(new@)),
{
    let ghost a = model_of(current@);
    let ghost b = model_of(new@);
    if current.len() != new.len() {
        return StripChange::Structure;
    }
    let mut same: bool = true;
    let mut g: usize = 0;
    assert(a.take(0) =~= b.take(0));
    while g < current.len()
        invariant
            a == model_of(current@),
            b == model_of(new@),
            g <= current@.len() == new@.len(),
            same == (a.take(g as int) == b.take(g as int)),
            forall|j: int| 0 <= j < g ==> same_row(#[trigger] a[j], b[j]),
        decreases current@.len() - g,
    {
        let (equal, shape) = compare_rows(&current[g], &new[g]);
        assert(a[g as int] == current@[g as int]@);
        assert(b[g as int] == new@[g as int]@);
        if !shape {
            assert(!same_row(a[g as int], b[g as int]));
            return StripChange::Structure;
        }
        proof {
            assert(a.take(g + 1) =~= a.take(g as int).push(a[g as int]));
            assert(b.take(g + 1) =~= b.take(g as int).push(b[g as int]));
            assert(a.take(g + 1).drop_last() =~= a.take(g as int));
            assert(b.take(g + 1).drop_last() =~= b.take(g as int));
            assert(a.take(g + 1).last() == a[g as int] && b.take(g + 1).last() == b[g as int]);
        }
        same = same && equal;
        g = g + 1;
    }
    assert(a.take(g as int) =~= a);
    assert(b.take(g as int) =~= b);
    if same {
        StripChange::Unchanged
    } else {
        StripChange::Decoration
    }
}

/// What is shown are the first `cap` workspaces, in order; no group of them
/// is empty.
pub proof fn truncation_keeps_the_front(model: Seq<Seq<WsEntry>>, cap: nat)
    ensures
        flat(truncated(model, cap)) == at_most(flat(model), cap),
        forall|g: int|
            0 <= g < truncated(model, cap).len() ==> (#[trigger] truncated(model, cap)[g]).len() > 0,
    decreases model.len(),
{
    if model.len() > 0 && cap > 0 {
        let head = at_most(model[0], cap);
        let left = (cap - head.len()) as nat;
        truncation_keeps_the_front(model.drop_first(), left);
        let rest = truncated(model.drop_first(), left);
        let all = truncated(model, cap);
        if head.len() > 0 {
            assert(all.drop_first() =~= rest);
            assert forall|g: int| 0 <= g < all.len() implies (#[trigger] all[g]).len() > 0 by {
                if g > 0 {
                    assert(all[g] == rest[g - 1]);
                }
            }
        }
        assert(flat(all) =~= head + flat(rest));
        assert(head + flat(rest) =~= at_most(flat(model), cap));
    } else {
        assert(flat(truncated(model, cap)) =~= at_most(flat(model), cap));
    }
}

/// Cutting a second time changes nothing.
pub proof fn truncation_settles(model: Seq<Seq<WsEntry>>, cap: nat)
    ensures
        truncated(truncated(model, cap), cap) == truncated(model, cap),
    decreases model.len(),
{
    if model.len() > 0 && cap > 0 {
        let head = at_most(model[0], cap);
        let left = (cap - head.len()) as nat;
        truncation_settles(model.drop_first(), left);
        if head.len() > 0 {
            let all = truncated(model, cap);
            assert(all[0] == head);
            assert(all.drop_first() =~= truncated(model.drop_first(), left));
            assert(at_most(head, cap) == head);
        }
    }
}

/// The same workspaces are never told apart by their marks, and a set of
/// workspaces is no change to itself.
pub proof fn decoration_is_symmetric(a: Seq<Seq<WsEntry>>, b: Seq<Seq<WsEntry>>)
    ensures
        classified(a, a) == StripChange::Unchanged,
        classified(a, b) == classified(b, a),
{
    if same_shape(a, b) {
        assert forall|g: int| 0 <= g < b.len() implies same_row(#[trigger] b[g], a[g]) by {
            assert(same_row(a[g], b[g]));
            assert forall|i: int| 0 <= i < b[g].len() implies (#[trigger] b[g][i]).id == a[g][i].id
                && b[g][i].idx == a[g][i].idx by {
                assert(a[g][i].id == b[g][i].id);
            }
        }
    }
    if same_shape(b, a) {
        assert forall|g: int| 0 <= g < a.len() implies same_row(#[trigger] a[g], b[g]) by {
            assert(same_row(b[g], a[g]));
            assert forall|i: int| 0 <= i < a[g].len() implies (#[trigger] a[g][i]).id == b[g][i].id
                && a[g][i].idx == b[g][i].idx by {
                assert(b[g][i].id == a[g][i].id);
            }
        }
    }
}

} // verus!
