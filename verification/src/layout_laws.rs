//! What the layout is for: buttons stand side by side in whole pixels, the
//! controls keep off the strip, and a finger hits the button it is on.
use crate::layer::{KeyModel, LayerKind, LayerModel};
use crate::layer_hit::HitModel;
use crate::layout::{
    controls_spec, divider_spec, extent, group_start, groups_end, groups_wf, hit_in_spans_spec,
    hit_spec, lemma_groups_end, lemma_span_bounds, owner_is_found, span_edges,
    strip_buttons_do_not_overlap, strip_hits_are_the_button_touched, strip_spans, total, Edges,
    Finger, StripSpan,
};
use crate::scalar::{whole, whole_numbers_keep_their_order, Scalar};
use vstd::prelude::*;

verus! {

/// A finger is on a button from edge to edge, the edges themselves among
/// them, and nowhere else.
pub proof fn edges_belong_to_the_button(f: Finger, e: Edges)
    requires
        !f.x.nan(),
        !f.y.nan(),
        !f.low.nan(),
        !f.high.nan(),
        !e.left.nan(),
        !e.right.nan(),
    ensures
        f.within(e) <==> e.left.rank() <= f.x.rank() <= e.right.rank() && f.low.rank()
            <= f.y.rank() <= f.high.rank(),
{
}

/// Every button of a strip is 60 pixels wide. The first one begins 12 pixels
/// from the left end of the bar. A button of the same group follows 10
/// pixels behind the one before it, and another group the gap behind it.
/// The strip ends with its last button.
pub proof fn strips_are_laid_out_from_the_left(groups: Seq<usize>, gap: int, g: int, i: int)
    requires
        groups_wf(groups),
        0 <= gap <= 1000,
        0 <= g < groups.len(),
        0 <= i < groups[g],
    ensures
        ({
            let spans = strip_spans(groups, gap);
            let n = total(groups.take(g)) + i;
            &&& n < spans.len()
            &&& spans[n].index == n
            &&& spans[n].width == 60
            &&& (n == 0 ==> spans[n].left == 12)
            &&& (n > 0 && i > 0 ==> spans[n].left == spans[n - 1].left + 70)
            &&& (n > 0 && i == 0 ==> spans[n].left == spans[n - 1].left + 60 + gap)
            &&& (n + 1 == spans.len() ==> groups_end(groups, gap) == spans[n].left + 60)
            &&& (i + 1 == groups[g] && g + 1 < groups.len() ==> divider_spec(groups, gap).len()
                == groups.len() - 1 && divider_spec(groups, gap)[g] == spans[n].left + 60)
        }),
{
    lemma_span_bounds(groups, gap);
    lemma_place(groups, gap, g, i);
    lemma_group_end(groups, gap, g);
    let n = total(groups.take(g)) + i;
    if i > 0 {
        lemma_place(groups, gap, g, i - 1);
    } else if g > 0 {
        assert(groups[g - 1] > 0);
        lemma_place(groups, gap, g - 1, groups[g - 1] - 1);
        assert(groups.take(g).drop_last() =~= groups.take(g - 1));
        assert(groups.take(g).last() == groups[g - 1]);
    }
    lemma_total_up_to(groups, g + 1);
    assert(groups.take(g + 1).drop_last() =~= groups.take(g));
    assert(groups.take(g + 1).last() == groups[g]);
    if n + 1 == total(groups) {
        if g + 1 < groups.len() {
            assert(groups[g + 1] > 0);
            assert(groups.take(g + 2).drop_last() =~= groups.take(g + 1));
            lemma_total_up_to(groups, g + 2);
        }
        assert(groups.take(groups.len() as int) =~= groups);
    }
}

/// Where button `i` of group `g` is.
proof fn lemma_place(groups: Seq<usize>, gap: int, g: int, i: int)
    requires
        groups_wf(groups),
        0 <= gap <= 1000,
        0 <= g < groups.len(),
        0 <= i < groups[g],
    ensures
        ({
            let spans = strip_spans(groups, gap);
            let n = total(groups.take(g)) + i;
            &&& n < spans.len() == total(groups)
            &&& spans[n].left == group_start(groups.take(g), gap) + 70 * i
        }),
    decreases groups.len(),
{
    lemma_span_bounds(groups, gap);
    let before = groups.drop_last();
    let spans = strip_spans(groups, gap);
    if g == groups.len() - 1 {
        assert(before =~= groups.take(g));
        if g > 0 {
            lemma_shorter(groups);
            lemma_span_bounds(before, gap);
            lemma_groups_end(before, gap);
        }
        assert(strip_spans(before, gap).len() == total(before));
    } else {
        lemma_shorter(groups);
        lemma_place(before, gap, g, i);
        assert(before.take(g) =~= groups.take(g));
        let n = total(groups.take(g)) + i;
        assert(spans[n] == strip_spans(before, gap)[n]);
    }
}

/// Where group `g` ends.
proof fn lemma_group_end(groups: Seq<usize>, gap: int, g: int)
    requires
        groups_wf(groups),
        0 <= gap <= 1000,
        0 <= g < groups.len(),
    ensures
        groups_end(groups.take(g + 1), gap) == group_start(groups.take(g), gap) + 70 * (groups[g]
            - 1) + 60,
        0 <= groups_end(groups.take(g + 1), gap) <= 1_200_000,
{
    let upto = groups.take(g + 1);
    assert(upto.drop_last() =~= groups.take(g));
    assert(groups[g] > 0);
    lemma_total_up_to(groups, g + 1);
    assert forall|k: int| 0 <= k < upto.len() implies #[trigger] upto[k] > 0 by {
        assert(groups[k] > 0);
    }
    lemma_groups_end(upto, gap);
}

proof fn lemma_shorter(groups: Seq<usize>)
    requires
        groups_wf(groups),
        groups.len() > 1,
    ensures
        groups_wf(groups.drop_last()),
{
    let before = groups.drop_last();
    assert forall|k: int| 0 <= k < before.len() implies #[trigger] before[k] > 0 by {
        assert(groups[k] > 0);
    }
}

proof fn lemma_total_up_to(groups: Seq<usize>, n: int)
    requires
        0 <= n <= groups.len(),
    ensures
        total(groups.take(n)) <= total(groups),
    decreases groups.len() - n,
{
    if n < groups.len() {
        lemma_total_up_to(groups, n + 1);
        assert(groups.take(n + 1).drop_last() =~= groups.take(n));
    } else {
        assert(groups.take(n) =~= groups);
    }
}

/// Controls of `columns` columns are 110 pixels a column with 16 between
/// them. Where there is room for them right of `min_origin`, with 12 pixels
/// before the right end of the bar, they begin where they would like to, as
/// far as they may; else they fill what room there is.
pub proof fn controls_fill_the_right(
    columns: int,
    bar_width: int,
    min_origin: int,
    anchor_x: Option<Scalar>,
)
    requires
        1 <= columns <= 1_000_000,
        0 <= bar_width <= 1_000_000,
        0 <= min_origin <= 1_000_000,
    ensures
        ({
            let r = controls_spec(columns, bar_width, min_origin, anchor_x);
            let wanted = columns * 110 + (columns - 1) * 16;
            let furthest = bar_width - 12 - wanted;
            &&& (min_origin <= furthest ==> {
                &&& r.width == wanted
                &&& !r.origin.below(whole(min_origin))
                &&& !whole(furthest).below(r.origin)
                &&& (anchor_x is None ==> r.origin == whole(furthest))
                &&& (anchor_x matches Some(a) ==> (!a.finite() ==> r.origin == whole(furthest)))
                &&& (anchor_x matches Some(a) ==> (a.finite() ==> {
                    &&& (a.below(whole(min_origin)) ==> r.origin == whole(min_origin))
                    &&& (whole(furthest).below(a) ==> r.origin == whole(furthest))
                    &&& (!a.below(whole(min_origin)) && !whole(furthest).below(a) ==> r.origin == a)
                }))
            })
            &&& (min_origin > furthest ==> r.origin == whole(min_origin) && (r.width == 1 || r.width
                == bar_width - 12 - min_origin) && r.width >= 1 && r.width >= bar_width - 12
                - min_origin)
        }),
{
    let wanted = columns * 110 + (columns - 1) * 16;
    let furthest = bar_width - 12 - wanted;
    if min_origin <= furthest {
        whole_numbers_keep_their_order(min_origin, furthest);
        whole_numbers_keep_their_order(furthest, min_origin);
    }
}

/// Controls begin at least 16 pixels behind the last button of the strip.
pub proof fn controls_keep_off_the_strip(
    l: LayerModel,
    columns: int,
    bar_width: int,
    gap: int,
    i: int,
)
    requires
        l.wf(),
        l.kind == LayerKind::Regions,
        1 <= columns <= 1_000_000,
        0 <= bar_width <= 1_000_000,
        0 < gap <= 1000,
        0 <= i < strip_spans(l.groups, gap).len(),
    ensures
        !l.controls_geometry(columns, bar_width, gap).origin.below(
            whole(strip_spans(l.groups, gap)[i].left + 76),
        ),
        l.stack.len() > 0 ==> l.controls_geometry(columns, bar_width, gap) == controls_spec(
            columns,
            bar_width,
            groups_end(l.groups, gap) + 16,
            l.stack.last().anchor_x,
        ),
        l.stack.len() == 0 ==> l.controls_geometry(columns, bar_width, gap) == controls_spec(
            columns,
            bar_width,
            groups_end(l.groups, gap) + 16,
            None,
        ),
{
    strip_buttons_do_not_overlap(l.groups, gap);
    lemma_groups_end(l.groups, gap);
    let low = groups_end(l.groups, gap) + 16;
    let right = strip_spans(l.groups, gap)[i].left + 76;
    whole_numbers_keep_their_order(low, right);
    whole_numbers_keep_their_order(right, low);
    let furthest = bar_width - 12 - (columns * 110 + (columns - 1) * 16);
    if low <= furthest {
        whole_numbers_keep_their_order(low, furthest);
        whole_numbers_keep_their_order(furthest, low);
        whole_numbers_keep_their_order(furthest, right);
    }
}

/// The columns of a row's buttons meet: one ends where the next begins.
pub proof fn columns_of_buttons_meet(starts: Seq<usize>, columns: usize, i: int)
    requires
        0 <= i < starts.len() <= usize::MAX,
    ensures
        extent(starts, columns, i).index == i,
        extent(starts, columns, i).virtual_start == starts[i],
        i + 1 < starts.len() ==> extent(starts, columns, i).virtual_end == extent(
            starts,
            columns,
            i + 1,
        ).virtual_start,
        i + 1 == starts.len() ==> extent(starts, columns, i).virtual_end == columns,
{
}

/// A finger in a column of button `i` hits that button where it is within
/// its edges, and else nothing.
pub proof fn fingers_hit_the_button_of_their_column(
    starts: Seq<usize>,
    edges: Seq<Edges>,
    finger: Finger,
    column: usize,
    i: int,
)
    requires
        edges.len() == starts.len() <= usize::MAX,
        0 <= i < starts.len(),
        forall|j: int, k: int| 0 <= j < k < starts.len() ==> starts[j] < starts[k],
        starts[i] <= column,
        i + 1 < starts.len() ==> column < starts[i + 1],
    ensures
        finger.within(edges[i]) ==> hit_spec(starts, edges, finger, column, None) == Some(
            i as usize,
        ),
        !finger.within(edges[i]) ==> hit_spec(starts, edges, finger, column, None) is None,
{
    owner_is_found(starts, column, i + 1);
}

/// A touch that began on a button never hits another one, whatever column
/// it is in by now.
pub proof fn touches_hit_only_their_button(
    starts: Seq<usize>,
    edges: Seq<Edges>,
    spans: Seq<StripSpan>,
    finger: Finger,
    column: usize,
    i: usize,
)
    ensures
        hit_spec(starts, edges, finger, column, Some(i)) == Some(i) <==> i < edges.len()
            && finger.within(edges[i as int]),
        hit_spec(starts, edges, finger, column, Some(i)) is None || hit_spec(
            starts,
            edges,
            finger,
            column,
            Some(i),
        ) == Some(i),
        hit_in_spans_spec(spans, finger, Some(i)) is None || hit_in_spans_spec(
            spans,
            finger,
            Some(i),
        ) == Some(i),
    decreases spans.len(),
{
    if spans.len() > 0 {
        touches_hit_only_their_button(starts, edges, spans.drop_first(), finger, column, i);
    }
}

/// A touch that began on a strip button hits it exactly where the finger is
/// within its edges.
pub proof fn strip_touches_hit_within_the_edges(
    groups: Seq<usize>,
    gap: int,
    finger: Finger,
    i: usize,
)
    requires
        groups_wf(groups),
        0 <= gap <= 1000,
        i < strip_spans(groups, gap).len(),
    ensures
        ({
            let span = strip_spans(groups, gap)[i as int];
            hit_in_spans_spec(strip_spans(groups, gap), finger, Some(i)) == Some(i)
                <==> finger.within(
                Edges { left: whole(span.left as int), right: whole(span.left + 60) },
            )
        }),
{
    lemma_span_bounds(groups, gap);
    lemma_only(strip_spans(groups, gap), finger, i, i as int);
}

proof fn lemma_only(spans: Seq<StripSpan>, finger: Finger, index: usize, at: int)
    requires
        0 <= at < spans.len(),
        forall|k: int| 0 <= k < spans.len() ==> (#[trigger] spans[k]).index - index == k - at,
    ensures
        hit_in_spans_spec(spans, finger, Some(index)) == Some(index) <==> finger.within(
            span_edges(spans[at]),
        ),
    decreases spans.len(),
{
    assert(spans[0].index - index == -at);
    if at > 0 {
        let rest = spans.drop_first();
        assert forall|k: int| 0 <= k < rest.len() implies (#[trigger] rest[k]).index - index == k - (
        at - 1) by {
            assert(spans[k + 1].index - index == k + 1 - at);
        }
        lemma_only(rest, finger, index, at - 1);
    } else {
        let rest = spans.drop_first();
        assert forall|k: int| 0 <= k < rest.len() implies (#[trigger] rest[k]).index != index by {
            assert(spans[k + 1].index - index == k + 1 - at);
        }
        lemma_nowhere(rest, finger, index);
    }
}

proof fn lemma_nowhere(spans: Seq<StripSpan>, finger: Finger, index: usize)
    requires
        forall|k: int| 0 <= k < spans.len() ==> (#[trigger] spans[k]).index != index,
    ensures
        hit_in_spans_spec(spans, finger, Some(index)) is None,
    decreases spans.len(),
{
    if spans.len() > 0 {
        assert(spans[0].index != index);
        let rest = spans.drop_first();
        assert forall|k: int| 0 <= k < rest.len() implies (#[trigger] rest[k]).index != index by {
            assert(spans[k + 1].index != index);
        }
        lemma_nowhere(rest, finger, index);
    }
}

/// A finger beside every strip button hits none.
pub proof fn gaps_of_the_strip_are_empty(
    spans: Seq<StripSpan>,
    finger: Finger,
    constrained: Option<usize>,
)
    requires
        forall|i: int|
            0 <= i < spans.len() ==> !finger.within(
                Edges {
                    left: whole((#[trigger] spans[i]).left as int),
                    right: whole(spans[i].left + spans[i].width),
                },
            ),
    ensures
        hit_in_spans_spec(spans, finger, constrained) is None,
    decreases spans.len(),
{
    if spans.len() > 0 {
        assert(!finger.within(
            Edges {
                left: whole(spans[0].left as int),
                right: whole(spans[0].left + spans[0].width),
            },
        ));
        let rest = spans.drop_first();
        assert forall|i: int| 0 <= i < rest.len() implies !finger.within(
            Edges {
                left: whole((#[trigger] rest[i]).left as int),
                right: whole(rest[i].left + rest[i].width),
            },
        ) by {
            assert(rest[i] == spans[i + 1]);
        }
        gaps_of_the_strip_are_empty(rest, finger, constrained);
    }
}

/// A finger that comes down on a button of the strip lands on that button.
pub proof fn fingers_land_on_the_strip(
    l: LayerModel,
    finger: Finger,
    probe: Finger,
    column: usize,
    edges: Seq<Edges>,
    gap: int,
    i: int,
)
    requires
        l.wf(),
        l.kind == LayerKind::Regions,
        0 < gap <= 1000,
        0 <= i < strip_spans(l.groups, gap).len(),
        !finger.x.nan(),
        finger.within(
            Edges {
                left: whole(strip_spans(l.groups, gap)[i].left as int),
                right: whole(strip_spans(l.groups, gap)[i].left + 60),
            },
        ),
    ensures
        l.target(finger, probe, column, edges, gap) == HitModel::Button(
            KeyModel::Strip(l.generation),
            i as usize,
        ),
{
    lemma_span_bounds(l.groups, gap);
    strip_hits_are_the_button_touched(l.groups, gap, finger, i);
}

/// A finger that comes down beside the strip lands on the button of the
/// controls that it is on: of the innermost overlay, or of the layer's own
/// row where none is open. On none of them it misses, which an open overlay
/// is told.
pub proof fn fingers_land_on_the_controls(
    l: LayerModel,
    finger: Finger,
    probe: Finger,
    column: usize,
    edges: Seq<Edges>,
    gap: int,
    i: int,
)
    requires
        l.wf(),
        l.kind == LayerKind::Regions ==> forall|n: int|
            0 <= n < strip_spans(l.groups, gap).len() ==> !finger.within(
                Edges {
                    left: whole((#[trigger] strip_spans(l.groups, gap)[n]).left as int),
                    right: whole(
                        strip_spans(l.groups, gap)[n].left + strip_spans(l.groups, gap)[n].width,
                    ),
                },
            ),
        edges.len() == l.controls().starts.len() <= usize::MAX,
        0 <= i < edges.len(),
        forall|j: int, k: int|
            0 <= j < k < l.controls().starts.len() ==> l.controls().starts[j]
                < l.controls().starts[k],
        l.controls().starts[i] <= column,
        i + 1 < edges.len() ==> column < l.controls().starts[i + 1],
    ensures
        probe.within(edges[i]) && l.stack.len() == 0 ==> l.target(
            finger,
            probe,
            column,
            edges,
            gap,
        ) == HitModel::Button(KeyModel::Base, i as usize),
        probe.within(edges[i]) && l.stack.len() > 0 ==> l.target(
            finger,
            probe,
            column,
            edges,
            gap,
        ) == HitModel::Button(KeyModel::Overlay(l.stack.last().name), i as usize),
        !probe.within(edges[i]) && l.kind == LayerKind::Regions && l.stack.len() > 0 ==> l.target(
            finger,
            probe,
            column,
            edges,
            gap,
        ) == HitModel::OutsideControls,
        !probe.within(edges[i]) && (l.kind == LayerKind::Classic || l.stack.len() == 0)
            ==> l.target(finger, probe, column, edges, gap) == HitModel::Miss,
{
    if l.kind == LayerKind::Regions {
        gaps_of_the_strip_are_empty(strip_spans(l.groups, gap), finger, None);
    }
    fingers_hit_the_button_of_their_column(l.controls().starts, edges, probe, column, i);
}

} // verus!
