//! Where buttons lie: a strip of square buttons pinned on the left, free
//! space in the middle, and a controls region on the right. The bar is about
//! 2008 by 60 pixels in rotated space, with a button band 42 pixels high, so
//! that strip buttons of 60 pixels read as squares.
use crate::scalar::{whole, whole_numbers_keep_their_order, Scalar};
use vstd::prelude::*;

verus! {

pub const STRIP_BUTTON_WIDTH_PX: i32 = 60;

pub const STRIP_SPACING_PX: i32 = 10;

pub const STRIP_LEFT_MARGIN_PX: i32 = 12;

pub const CONTROL_UNIT_PX: i32 = 110;

pub const CONTROL_RIGHT_MARGIN_PX: i32 = 12;

pub const CONTROL_SPACING_PX: i32 = 16;

/// The most columns of controls whose width in pixels fits an `i32`.
pub const MAX_COLUMNS: usize = 17_043_521;

/// The most buttons of a strip whose width in pixels fits an `i32`.
pub const MAX_STRIP_BUTTONS: usize = 30_678_337;

#[derive(Clone, Copy, Debug, PartialEq, Eq, Structural)]
pub struct RegionGeometry {
    pub origin: Scalar,
    pub width: i32,
}

pub open spec fn at_least_one(n: int) -> int {
    if n < 1 {
        1
    } else {
        n
    }
}

/// Width of `n` units with spacing between them.
pub open spec fn row_width(n: int, unit: int, spacing: int) -> int {
    at_least_one(n) * unit + (at_least_one(n) - 1) * spacing
}

/// The region of a strip of `n_buttons` in one group.
pub fn strip_region(n_buttons: usize) -> (r: RegionGeometry)
    requires
        n_buttons <= MAX_STRIP_BUTTONS,
    ensures
        r.origin == whole(STRIP_LEFT_MARGIN_PX as int),
        r.width == row_width(
            n_buttons as int,
            STRIP_BUTTON_WIDTH_PX as int,
            STRIP_SPACING_PX as int,
        ),
{
    let n: i32 = if n_buttons < 1 {
        1
    } else {
        n_buttons as i32
    };
    RegionGeometry {
        origin: Scalar::from_whole(STRIP_LEFT_MARGIN_PX),
        width: n * STRIP_BUTTON_WIDTH_PX + (n - 1) * STRIP_SPACING_PX,
    }
}

/// The rightmost origin of a controls region of `columns` columns.
pub open spec fn max_origin(columns: int, bar_width: int) -> int {
    bar_width - CONTROL_RIGHT_MARGIN_PX - row_width(
        columns,
        CONTROL_UNIT_PX as int,
        CONTROL_SPACING_PX as int,
    )
}

/// Where the controls lie. The anchor is where they would like to begin; no
/// anchor, or one that is no finite number, means as far right as possible.
/// Where they do not fit, they are pinned at `min_origin` and shrunk, and the
/// anchor does not matter.
pub open spec fn controls_spec(
    columns: int,
    bar_width: int,
    min_origin: int,
    anchor_x: Option<Scalar>,
) -> RegionGeometry {
    let max = max_origin(columns, bar_width);
    if max < min_origin {
        RegionGeometry {
            origin: whole(min_origin),
            width: at_least_one(bar_width - CONTROL_RIGHT_MARGIN_PX - min_origin) as i32,
        }
    } else {
        RegionGeometry {
            origin: match anchor_x {
                Some(a) if a.finite() => a.clamped(whole(min_origin), whole(max)),
                _ => whole(max),
            },
            width: row_width(columns, CONTROL_UNIT_PX as int, CONTROL_SPACING_PX as int) as i32,
        }
    }
}

/// The controls region: never left of `min_origin`, so that the strip stays
/// untouched however wide the controls are.
pub fn controls_region(
    virtual_count: usize,
    bar_width: i32,
    min_origin: i32,
    anchor_x: Option<Scalar>,
) -> (r: RegionGeometry)
    requires
        virtual_count <= MAX_COLUMNS,
        0 <= min_origin,
    ensures
        r == controls_spec(virtual_count as int, bar_width as int, min_origin as int, anchor_x),
        r.origin.finite(),
        !r.origin.below(whole(min_origin as int)),
        r.width >= 1,
{
    let n: i32 = if virtual_count < 1 {
        1
    } else {
        virtual_count as i32
    };
    let width: i32 = n * CONTROL_UNIT_PX + (n - 1) * CONTROL_SPACING_PX;
    let right: i64 = bar_width as i64 - CONTROL_RIGHT_MARGIN_PX as i64;
    let max: i64 = right - width as i64;
    let low = Scalar::from_whole(min_origin);
    proof {
        whole_numbers_keep_their_order(min_origin as int, min_origin as int);
    }
    if max < min_origin as i64 {
        let room: i64 = right - min_origin as i64;
        let width: i32 = if room < 1 {
            1
        } else {
            room as i32
        };
        return RegionGeometry { origin: low, width };
    }
    let high = Scalar::from_whole(max as i32);
    proof {
        whole_numbers_keep_their_order(max as int, min_origin as int);
    }
    let origin = match anchor_x {
        Some(a) => if a.is_finite() {
            a.clamp(low, high)
        } else {
            high
        },
        None => high,
    };
    RegionGeometry { origin, width }
}

/// The columns of one button of a row.
#[derive(Clone, Copy, Debug, PartialEq, Eq, Structural)]
pub struct Extent {
    pub index: usize,
    pub virtual_start: usize,
    pub virtual_end: usize,
}

/// Button `i` reaches up to the start of the next, the last one to the end.
pub open spec fn extent(starts: Seq<usize>, columns: usize, i: int) -> Extent {
    Extent {
        index: i as usize,
        virtual_start: starts[i],
        virtual_end: if i + 1 < starts.len() {
            starts[i + 1]
        } else {
            columns
        },
    }
}

/// The columns of every button of a row.
pub fn button_extents(starts: &Vec<usize>, columns: usize) -> (r: Vec<Extent>)
    ensures
        r@ == Seq::new(starts@.len(), |i: int| extent(starts@, columns, i)),
{
    let mut r: Vec<Extent> = Vec::new();
    let n: usize = starts.len();
    let mut i: usize = 0;
    while i < n
        invariant
            i <= n == starts@.len(),
            r@.len() == i,
            forall|j: int| 0 <= j < i ==> #[trigger] r@[j] == extent(starts@, columns, j),
        decreases n - i,
    {
        let virtual_end: usize = if n - i > 1 {
            starts[i + 1]
        } else {
            columns
        };
        r.push(Extent { index: i, virtual_start: starts[i], virtual_end });
        i = i + 1;
    }
    assert(r@ =~= Seq::new(starts@.len(), |i: int| extent(starts@, columns, i)));
    r
}

/// The horizontal edges of a button.
#[derive(Clone, Copy, Debug, PartialEq, Eq, Structural)]
pub struct Edges {
    pub left: Scalar,
    pub right: Scalar,
}

/// Where a finger is, and the vertical band in which it counts.
#[derive(Clone, Copy, Debug, PartialEq, Eq, Structural)]
pub struct Finger {
    pub x: Scalar,
    pub y: Scalar,
    pub low: Scalar,
    pub high: Scalar,
}

impl Finger {
    /// Neither left nor right of the edges, and neither above nor below the
    /// band.
    pub open spec fn within(self, edges: Edges) -> bool {
        !self.x.below(edges.left) && !edges.right.below(self.x) && !self.y.below(self.low)
            && !self.high.below(self.y)
    }

    pub fn is_within(self, edges: Edges) -> (r: bool)
        ensures
            r == self.within(edges),
    {
        !(self.x.lt(edges.left) || edges.right.lt(self.x) || self.y.lt(self.low) || self.high.lt(
            self.y,
        ))
    }
}

/// How many of the `starts`, from the front, do not exceed `column`.
pub open spec fn starts_up_to(starts: Seq<usize>, column: usize) -> nat
    decreases starts.len(),
{
    if starts.len() == 0 || starts[0] > column {
        0
    } else {
        1 + starts_up_to(starts.drop_first(), column)
    }
}

/// As many of the `starts` as do not exceed `column` are counted.
pub(crate) proof fn owner_is_found(starts: Seq<usize>, column: usize, n: int)
    requires
        0 <= n <= starts.len(),
        forall|i: int, j: int| 0 <= i < j < starts.len() ==> starts[i] < starts[j],
        n > 0 ==> starts[n - 1] <= column,
        n < starts.len() ==> starts[n] > column,
    ensures
        starts_up_to(starts, column) == n,
{
    lemma_starts(starts, column, n);
}

proof fn lemma_starts(starts: Seq<usize>, column: usize, n: int)
    requires
        0 <= n <= starts.len(),
        forall|i: int| 0 <= i < n ==> starts[i] <= column,
        n < starts.len() ==> starts[n] > column,
    ensures
        starts_up_to(starts, column) == n,
    decreases starts.len(),
{
    if n > 0 {
        let rest = starts.drop_first();
        assert forall|i: int| 0 <= i < n - 1 implies rest[i] <= column by {
            assert(rest[i] == starts[i + 1]);
        }
        lemma_starts(rest, column, n - 1);
    }
}

/// The button whose columns hold `column`.
pub fn owner(starts: &Vec<usize>, column: usize) -> (r: usize)
    requires
        starts@.len() > 0,
        starts@[0] == 0,
    ensures
        r == starts_up_to(starts@, column) - 1,
        r < starts@.len(),
{
    let n: usize = starts.len();
    let mut i: usize = 0;
    while i < n && starts[i] <= column
        invariant
            i <= n == starts@.len(),
            forall|j: int| 0 <= j < i ==> starts@[j] <= column,
        decreases n - i,
    {
        i = i + 1;
    }
    proof {
        lemma_starts(starts@, column, i as int);
    }
    i - 1
}

/// The button under a finger: of a touch that began on a button only that
/// one is asked, else the one whose column the finger is in.
pub open spec fn hit_spec(
    starts: Seq<usize>,
    edges: Seq<Edges>,
    finger: Finger,
    column: usize,
    constrained: Option<usize>,
) -> Option<usize> {
    let index = match constrained {
        Some(i) => i as int,
        None => starts_up_to(starts, column) - 1,
    };
    if index < edges.len() && finger.within(edges[index]) {
        Some(index as usize)
    } else {
        None
    }
}

/// The button of a row under a finger that is in the given column.
pub fn hit_index(
    starts: &Vec<usize>,
    edges: &Vec<Edges>,
    finger: Finger,
    column: usize,
    constrained: Option<usize>,
) -> (r: Option<usize>)
    requires
        starts@.len() > 0,
        starts@[0] == 0,
    ensures
        r == hit_spec(starts@, edges@, finger, column, constrained),
{
    let index: usize = match constrained {
        Some(i) => i,
        None => owner(starts, column),
    };
    if index < edges.len() && finger.is_within(edges[index]) {
        Some(index)
    } else {
        None
    }
}

/// One button of the strip, in whole pixels.
#[derive(Clone, Copy, Debug, PartialEq, Eq, Structural)]
pub struct StripSpan {
    pub index: usize,
    pub left: i32,
    pub width: i32,
}

/// The strip: its buttons, its region, and the right edges of the groups
/// that another group follows.
#[derive(Debug)]
pub struct StripLayout {
    pub spans: Vec<StripSpan>,
    pub region: RegionGeometry,
    pub dividers: Vec<i32>,
}

/// How many buttons there are in all groups together.
pub open spec fn total(groups: Seq<usize>) -> nat
    decreases groups.len(),
{
    if groups.len() == 0 {
        0
    } else {
        total(groups.drop_last()) + groups.last() as nat
    }
}

/// Right edge of the last of `groups`, with `gap` pixels between groups;
/// the left margin where there is none.
pub open spec fn groups_end(groups: Seq<usize>, gap: int) -> int
    decreases groups.len(), 0int,
{
    if groups.len() == 0 {
        STRIP_LEFT_MARGIN_PX as int
    } else {
        group_start(groups.drop_last(), gap) + row_width(
            groups.last() as int,
            STRIP_BUTTON_WIDTH_PX as int,
            STRIP_SPACING_PX as int,
        )
    }
}

/// Left edge of the group that follows `groups`.
pub open spec fn group_start(groups: Seq<usize>, gap: int) -> int
    decreases groups.len(), 1int,
{
    if groups.len() == 0 {
        STRIP_LEFT_MARGIN_PX as int
    } else {
        groups_end(groups, gap) + gap
    }
}

/// The buttons of all groups, from left to right.
pub open spec fn strip_spans(groups: Seq<usize>, gap: int) -> Seq<StripSpan>
    decreases groups.len(),
{
    if groups.len() == 0 {
        Seq::empty()
    } else {
        let before = strip_spans(groups.drop_last(), gap);
        before + Seq::new(
            groups.last() as nat,
            |i: int| strip_span(before.len() + i, group_start(groups.drop_last(), gap), i),
        )
    }
}

/// Button `i` of a group that starts at `left`; `index` counts from the left
/// end of the strip.
pub open spec fn strip_span(index: int, left: int, i: int) -> StripSpan {
    StripSpan {
        index: index as usize,
        left: (left + i * (STRIP_BUTTON_WIDTH_PX + STRIP_SPACING_PX)) as i32,
        width: STRIP_BUTTON_WIDTH_PX,
    }
}

pub open spec fn divider_spec(groups: Seq<usize>, gap: int) -> Seq<i32> {
    Seq::new(
        (groups.len() - 1) as nat,
        |i: int| groups_end(groups.take(i + 1), gap) as i32,
    )
}

/// Groups as a strip may have them: none of them empty, few enough to be
/// laid out in whole pixels.
pub open spec fn groups_wf(groups: Seq<usize>) -> bool {
    &&& groups.len() > 0
    &&& total(groups) <= 1000
    &&& forall|i: int| 0 <= i < groups.len() ==> #[trigger] groups[i] > 0
}

proof fn lemma_groups(groups: Seq<usize>, gap: int)
    requires
        forall|i: int| 0 <= i < groups.len() ==> #[trigger] groups[i] > 0,
        0 <= gap <= 1000,
    ensures
        groups.len() <= total(groups),
        STRIP_LEFT_MARGIN_PX <= groups_end(groups, gap) <= STRIP_LEFT_MARGIN_PX + 1100 * total(
            groups,
        ),
        strip_spans(groups, gap).len() == total(groups),
    decreases groups.len(),
{
    if groups.len() > 0 {
        let before = groups.drop_last();
        assert forall|i: int| 0 <= i < before.len() implies #[trigger] before[i] > 0 by {
            assert(groups[i] > 0);
        }
        lemma_groups(before, gap);
        assert(groups[groups.len() - 1] > 0);
    }
}

proof fn lemma_total_take(groups: Seq<usize>, n: int)
    requires
        0 <= n <= groups.len(),
    ensures
        total(groups.take(n)) <= total(groups),
    decreases groups.len() - n,
{
    if n < groups.len() {
        assert(groups.take(n + 1).drop_last() =~= groups.take(n));
        lemma_total_take(groups, n + 1);
    } else {
        assert(groups.take(n) =~= groups);
    }
}

/// Lays out the strip: square buttons in groups, `gap` pixels between
/// groups.
pub fn strip_layout(groups: &Vec<usize>, gap: i32) -> (r: StripLayout)
    requires
        groups_wf(groups@),
        0 <= gap <= 1000,
    ensures
        r.spans@ == strip_spans(groups@, gap as int),
        r.region.origin == whole(STRIP_LEFT_MARGIN_PX as int),
        r.region.width == groups_end(groups@, gap as int) - STRIP_LEFT_MARGIN_PX,
        r.dividers@ == divider_spec(groups@, gap as int),
        r.spans@.len() == total(groups@),
{
    let mut spans: Vec<StripSpan> = Vec::new();
    let mut dividers: Vec<i32> = Vec::new();
    let mut end: i32 = STRIP_LEFT_MARGIN_PX;
    let n: usize = groups.len();
    let mut g: usize = 0;
    assert(groups@.take(0) =~= Seq::empty());
    while g < n
        invariant
            g <= n == groups@.len(),
            groups_wf(groups@),
            0 <= gap <= 1000,
            end == groups_end(groups@.take(g as int), gap as int),
            spans@ == strip_spans(groups@.take(g as int), gap as int),
            spans@.len() == total(groups@.take(g as int)),
            dividers@.len() == (if g == 0 {
                0
            } else {
                g - 1
            }),
            forall|j: int|
                0 <= j < dividers@.len() ==> #[trigger] dividers@[j] == groups_end(
                    groups@.take(j + 1),
                    gap as int,
                ) as i32,
        decreases n - g,
    {
        let ghost before = groups@.take(g as int);
        let ghost done = spans@;
        let ghost through = groups@.take(g + 1);
        proof {
            assert(through.drop_last() =~= before);
            assert(through.last() == groups@[g as int]);
            lemma_total_take(groups@, g as int);
            lemma_total_take(groups@, g + 1);
            assert forall|i: int| 0 <= i < before.len() implies #[trigger] before[i] > 0 by {
                assert(groups@[i] > 0);
            }
            assert forall|i: int| 0 <= i < through.len() implies #[trigger] through[i] > 0 by {
                assert(groups@[i] > 0);
            }
            lemma_groups(before, gap as int);
            lemma_groups(through, gap as int);
            assert(groups@[g as int] > 0);
        }
        let size: usize = groups[g];
        let left: i32 = if g == 0 {
            STRIP_LEFT_MARGIN_PX
        } else {
            dividers.push(end);
            end + gap
        };
        let first: usize = spans.len();
        let mut i: usize = 0;
        while i < size
            invariant
                i <= size <= 1000,
                first == done.len(),
                first + size <= 1000,
                left == group_start(before, gap as int),
                0 <= left <= 1_200_000,
                spans@.len() == first + i,
                forall|j: int| 0 <= j < first ==> #[trigger] spans@[j] == done[j],
                forall|j: int|
                    first <= j < spans@.len() ==> #[trigger] spans@[j] == strip_span(
                        j,
                        left as int,
                        j - first,
                    ),
            decreases size - i,
        {
            spans.push(
                StripSpan {
                    index: first + i,
                    left: left + (i as i32) * (STRIP_BUTTON_WIDTH_PX + STRIP_SPACING_PX),
                    width: STRIP_BUTTON_WIDTH_PX,
                },
            );
            i = i + 1;
        }
        assert(spans@ =~= strip_spans(through, gap as int));
        end = left + (size as i32) * STRIP_BUTTON_WIDTH_PX + (size as i32 - 1) * STRIP_SPACING_PX;
        g = g + 1;
    }
    assert(groups@.take(n as int) =~= groups@);
    assert(dividers@ =~= divider_spec(groups@, gap as int));
    proof {
        lemma_groups(groups@, gap as int);
    }
    StripLayout {
        spans,
        region: RegionGeometry {
            origin: Scalar::from_whole(STRIP_LEFT_MARGIN_PX),
            width: end - STRIP_LEFT_MARGIN_PX,
        },
        dividers,
    }
}

/// The edges of a strip button.
pub open spec fn span_edges(span: StripSpan) -> Edges {
    Edges { left: whole(span.left as int), right: whole(span.left + span.width) }
}

pub open spec fn span_hit(span: StripSpan, finger: Finger, constrained: Option<usize>) -> bool {
    finger.within(span_edges(span)) && (constrained matches Some(i) ==> i == span.index)
}

/// The first of the `spans` under a finger; of a touch that began on a
/// button only that one is asked. Between spans there is nothing.
pub open spec fn hit_in_spans_spec(
    spans: Seq<StripSpan>,
    finger: Finger,
    constrained: Option<usize>,
) -> Option<usize>
    decreases spans.len(),
{
    if spans.len() == 0 {
        None
    } else if span_hit(spans[0], finger, constrained) {
        Some(spans[0].index)
    } else {
        hit_in_spans_spec(spans.drop_first(), finger, constrained)
    }
}

/// The strip button under a finger.
pub fn hit_in_spans(spans: &Vec<StripSpan>, finger: Finger, constrained: Option<usize>) -> (r:
    Option<usize>)
    requires
        forall|i: int|
            0 <= i < spans@.len() ==> i32::MIN <= (#[trigger] spans@[i]).left + spans@[i].width
                <= i32::MAX,
    ensures
        r == hit_in_spans_spec(spans@, finger, constrained),
{
    let mut i: usize = 0;
    assert(spans@.skip(0) =~= spans@);
    while i < spans.len()
        invariant
            i <= spans@.len(),
            forall|j: int|
                0 <= j < spans@.len() ==> i32::MIN <= (#[trigger] spans@[j]).left + spans@[j].width
                    <= i32::MAX,
            hit_in_spans_spec(spans@.skip(i as int), finger, constrained) == hit_in_spans_spec(
                spans@,
                finger,
                constrained,
            ),
        decreases spans@.len() - i,
    {
        let span = spans[i];
        assert(spans@.skip(i as int)[0] == span);
        assert(spans@.skip(i as int).drop_first() =~= spans@.skip(i + 1));
        assert(i32::MIN <= spans@[i as int].left + spans@[i as int].width <= i32::MAX);
        let edges = Edges {
            left: Scalar::from_whole(span.left),
            right: Scalar::from_whole(span.left + span.width),
        };
        let asked = match constrained {
            Some(index) => index == span.index,
            None => true,
        };
        if asked && finger.is_within(edges) {
            return Some(span.index);
        }
        i = i + 1;
    }
    assert(spans@.skip(i as int) =~= Seq::empty());
    None
}

/// Strip buttons do not overlap: each ends before the next one begins, and
/// all of them lie between the left margin and the end of the strip.
pub proof fn strip_buttons_do_not_overlap(groups: Seq<usize>, gap: int)
    requires
        groups_wf(groups),
        0 < gap <= 1000,
    ensures
        strip_spans(groups, gap).len() == total(groups),
        forall|i: int, j: int|
            0 <= i < j < strip_spans(groups, gap).len() ==> (#[trigger] strip_spans(
                groups,
                gap,
            )[i]).left + STRIP_BUTTON_WIDTH_PX < (#[trigger] strip_spans(groups, gap)[j]).left,
        forall|i: int|
            0 <= i < strip_spans(groups, gap).len() ==> {
                let span = #[trigger] strip_spans(groups, gap)[i];
                &&& span.index == i
                &&& span.width == STRIP_BUTTON_WIDTH_PX
                &&& STRIP_LEFT_MARGIN_PX <= span.left
                &&& span.left + span.width <= groups_end(groups, gap)
            },
{
    lemma_strip(groups, gap);
}

proof fn lemma_strip(groups: Seq<usize>, gap: int)
    requires
        forall|i: int| 0 <= i < groups.len() ==> #[trigger] groups[i] > 0,
        total(groups) <= 1000,
        0 < gap <= 1000,
    ensures
        strip_spans(groups, gap).len() == total(groups),
        forall|i: int, j: int|
            0 <= i < j < strip_spans(groups, gap).len() ==> (#[trigger] strip_spans(
                groups,
                gap,
            )[i]).left + STRIP_BUTTON_WIDTH_PX < (#[trigger] strip_spans(groups, gap)[j]).left,
        forall|i: int|
            0 <= i < strip_spans(groups, gap).len() ==> {
                let span = #[trigger] strip_spans(groups, gap)[i];
                &&& span.index == i
                &&& span.width == STRIP_BUTTON_WIDTH_PX
                &&& STRIP_LEFT_MARGIN_PX <= span.left
                &&& span.left + span.width <= groups_end(groups, gap)
            },
    decreases groups.len(),
{
    if groups.len() > 0 {
        let before = groups.drop_last();
        assert forall|i: int| 0 <= i < before.len() implies #[trigger] before[i] > 0 by {
            assert(groups[i] > 0);
        }
        lemma_strip(before, gap);
        lemma_groups(before, gap);
        lemma_groups(groups, gap);
        assert(groups[groups.len() - 1] > 0);
        let old = strip_spans(before, gap);
        let all = strip_spans(groups, gap);
        let left = group_start(before, gap);
        assert forall|k: int| old.len() <= k < all.len() implies #[trigger] all[k] == strip_span(
            k,
            left,
            k - old.len(),
        ) by {}
        assert forall|k: int| 0 <= k < old.len() implies #[trigger] all[k] == old[k] by {}
    }
}

/// A finger inside a strip button hits exactly that button.
pub proof fn strip_hits_are_the_button_touched(
    groups: Seq<usize>,
    gap: int,
    finger: Finger,
    i: int,
)
    requires
        groups_wf(groups),
        0 < gap <= 1000,
        0 <= i < strip_spans(groups, gap).len(),
        !finger.x.nan(),
        finger.within(span_edges(strip_spans(groups, gap)[i])),
    ensures
        hit_in_spans_spec(strip_spans(groups, gap), finger, None) == Some(i as usize),
{
    strip_buttons_do_not_overlap(groups, gap);
    lemma_groups(groups, gap);
    let spans = strip_spans(groups, gap);
    assert forall|k: int| 0 <= k < i implies !span_hit(#[trigger] spans[k], finger, None) by {
        whole_numbers_keep_their_order(spans[k].left + spans[k].width, spans[i].left as int);
    }
    lemma_first_hit(spans, finger, i);
}

proof fn lemma_first_hit(spans: Seq<StripSpan>, finger: Finger, i: int)
    requires
        0 <= i < spans.len(),
        span_hit(spans[i], finger, None),
        forall|k: int| 0 <= k < i ==> !span_hit(#[trigger] spans[k], finger, None),
    ensures
        hit_in_spans_spec(spans, finger, None) == Some(spans[i].index),
    decreases i,
{
    if i > 0 {
        assert(!span_hit(spans[0], finger, None));
        let rest = spans.drop_first();
        assert forall|k: int| 0 <= k < i - 1 implies !span_hit(#[trigger] rest[k], finger, None) by {
            assert(!span_hit(spans[k + 1], finger, None));
        }
        lemma_first_hit(rest, finger, i - 1);
    }
}

/// The end of a strip is a moderate number of pixels.
pub(crate) proof fn lemma_groups_end(groups: Seq<usize>, gap: int)
    requires
        groups_wf(groups),
        0 <= gap <= 1000,
    ensures
        STRIP_LEFT_MARGIN_PX <= groups_end(groups, gap) <= 1_200_000,
{
    lemma_groups(groups, gap);
}

proof fn lemma_spans_left(groups: Seq<usize>, gap: int)
    requires
        forall|i: int| 0 <= i < groups.len() ==> #[trigger] groups[i] > 0,
        total(groups) <= 1000,
        0 <= gap <= 1000,
    ensures
        strip_spans(groups, gap).len() == total(groups),
        forall|i: int|
            0 <= i < strip_spans(groups, gap).len() ==> {
                let span = #[trigger] strip_spans(groups, gap)[i];
                &&& span.index == i
                &&& span.width == STRIP_BUTTON_WIDTH_PX
                &&& 0 <= span.left <= 2_000_000
            },
    decreases groups.len(),
{
    if groups.len() > 0 {
        let before = groups.drop_last();
        assert forall|i: int| 0 <= i < before.len() implies #[trigger] before[i] > 0 by {
            assert(groups[i] > 0);
        }
        lemma_spans_left(before, gap);
        lemma_groups(before, gap);
        let old = strip_spans(before, gap);
        let all = strip_spans(groups, gap);
        let left = group_start(before, gap);
        assert forall|k: int| old.len() <= k < all.len() implies #[trigger] all[k] == strip_span(
            k,
            left,
            k - old.len(),
        ) by {}
        assert forall|k: int| 0 <= k < old.len() implies #[trigger] all[k] == old[k] by {}
    }
}

pub(crate) proof fn lemma_span_bounds(groups: Seq<usize>, gap: int)
    requires
        groups_wf(groups),
        0 <= gap <= 1000,
    ensures
        strip_spans(groups, gap).len() == total(groups),
        forall|i: int|
            0 <= i < strip_spans(groups, gap).len() ==> {
                let span = #[trigger] strip_spans(groups, gap)[i];
                &&& span.index == i
                &&& span.width == STRIP_BUTTON_WIDTH_PX
                &&& 0 <= span.left <= 2_000_000
            },
{
    lemma_spans_left(groups, gap);
}

pub(crate) proof fn lemma_hit_is_a_span(
    spans: Seq<StripSpan>,
    finger: Finger,
    constrained: Option<usize>,
)
    ensures
        hit_in_spans_spec(spans, finger, constrained) matches Some(index) ==> exists|i: int|
            0 <= i < spans.len() && (#[trigger] spans[i]).index == index,
    decreases spans.len(),
{
    if spans.len() > 0 {
        if span_hit(spans[0], finger, constrained) {
            assert(spans[0].index == spans[0].index);
        } else {
            let rest = spans.drop_first();
            lemma_hit_is_a_span(rest, finger, constrained);
            if let Some(index) = hit_in_spans_spec(rest, finger, constrained) {
                let i = choose|i: int| 0 <= i < rest.len() && (#[trigger] rest[i]).index == index;
                assert(spans[i + 1].index == index);
            }
        }
    }
}

} // verus!
