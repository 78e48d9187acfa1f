//! What the companion protocol promises of every state and every byte stream.
use crate::helper_link::{fresh, option_seq, session, step, ClientModel, LinkModel};
use crate::helper_proto::{
    any_focused, at_most, clean_groups, clean_sessions, clean_text, feed, focus_first,
    idx_in_range, kept_entries, lemma_line_end, line_end, sanitized, GroupModel, MessageModel,
    StateModel, WsEntry, MAX_CLAUDE_SESSIONS, MAX_CONSECUTIVE_INVALID, MAX_GROUPS, MAX_LINE_BYTES,
    MAX_MEDIA_ARTIST_CHARS, MAX_MEDIA_ART_PATH_CHARS, MAX_MEDIA_TITLE_CHARS, MAX_MSGS_PER_WINDOW,
    MAX_SESSION_ID_LEN, MAX_WS_PER_GROUP, RATE_WINDOW_NANOS, SUPPORTED_VERSION,
};
use crate::moment::{elapsed, Moment};
use crate::scalar::Scalar;
use crate::text;
use vstd::prelude::*;
use vstd::utf8::encode_utf8;

verus! {

/// Entry `i` of group `g` exists and has the focus.
pub open spec fn focused_at(groups: Seq<GroupModel>, g: int, i: int) -> bool {
    0 <= g < groups.len() && 0 <= i < groups[g].ws.len() && groups[g].ws[i].foc
}

pub open spec fn group_in_bounds(g: GroupModel) -> bool {
    &&& 1 <= g.ws.len() <= MAX_WS_PER_GROUP
    &&& forall|i: int| 0 <= i < g.ws.len() ==> idx_in_range(#[trigger] g.ws[i])
}

proof fn lemma_kept(ws: Seq<WsEntry>)
    ensures
        kept_entries(ws).len() <= MAX_WS_PER_GROUP,
        forall|i: int| 0 <= i < kept_entries(ws).len() ==> idx_in_range(#[trigger] kept_entries(ws)[i]),
{
    let head = at_most(ws, MAX_WS_PER_GROUP as nat);
    let keep = |w: WsEntry| idx_in_range(w);
    broadcast use vstd::seq_lib::group_filter_ensures;

    assert forall|i: int| 0 <= i < kept_entries(ws).len() implies idx_in_range(
        #[trigger] kept_entries(ws)[i],
    ) by {
        assert(keep(head.filter(keep)[i]));
    }
}

proof fn lemma_filter_all<A>(s: Seq<A>, keep: spec_fn(A) -> bool)
    requires
        forall|i: int| 0 <= i < s.len() ==> keep(#[trigger] s[i]),
    ensures
        s.filter(keep) == s,
    decreases s.len(),
{
    reveal(Seq::filter);
    if s.len() > 0 {
        assert forall|i: int| 0 <= i < s.drop_last().len() implies keep(
            #[trigger] s.drop_last()[i],
        ) by {
            assert(keep(s[i]));
        }
        lemma_filter_all(s.drop_last(), keep);
        assert(s.drop_last().push(s.last()) =~= s);
    } else {
        assert(s.filter(keep) =~= s);
    }
}

/// The focus of one cleaned group: none where it was seen before, else the
/// first focused entry alone.
proof fn lemma_focus_first(ws: Seq<WsEntry>, seen: bool)
    ensures
        any_focused(focus_first(ws, seen)) == (!seen && any_focused(ws)),
        forall|i: int, j: int|
            0 <= i < ws.len() && 0 <= j < ws.len() && (#[trigger] focus_first(ws, seen)[i]).foc && (
            #[trigger] focus_first(ws, seen)[j]).foc ==> i == j,
    decreases ws.len(),
{
    let f = focus_first(ws, seen);
    assert forall|i: int, j: int|
        0 <= i < ws.len() && 0 <= j < ws.len() && (#[trigger] f[i]).foc && (
        #[trigger] f[j]).foc implies i == j by {
        if i < j {
            assert(ws.take(j)[i].foc);
        } else if j < i {
            assert(ws.take(i)[j].foc);
        }
    }
    if any_focused(f) {
        let i = choose|i: int| 0 <= i < f.len() && (#[trigger] f[i]).foc;
        assert(ws[i].foc);
    }
    if !seen && any_focused(ws) {
        let i = choose|i: int| 0 <= i < ws.len() && (#[trigger] ws[i]).foc;
        if any_focused(ws.take(i)) {
            lemma_focus_first(ws.take(i), seen);
            let h = focus_first(ws.take(i), seen);
            let j = choose|j: int| 0 <= j < h.len() && (#[trigger] h[j]).foc;
            assert(ws.take(i).take(j) =~= ws.take(j));
            assert(f[j].foc);
        } else {
            assert(f[i].foc);
        }
    }
}

proof fn lemma_clean_groups(groups: Seq<GroupModel>, seen: bool)
    ensures
        clean_groups(groups, seen).len() <= groups.len(),
        forall|g: int|
            0 <= g < clean_groups(groups, seen).len() ==> group_in_bounds(
                #[trigger] clean_groups(groups, seen)[g],
            ),
        seen ==> forall|g: int, i: int| !#[trigger] focused_at(clean_groups(groups, seen), g, i),
        forall|g: int, i: int, h: int, j: int|
            #![trigger focused_at(clean_groups(groups, seen), g, i),
                focused_at(clean_groups(groups, seen), h, j)]
            focused_at(clean_groups(groups, seen), g, i) && focused_at(
                clean_groups(groups, seen),
                h,
                j,
            ) ==> g == h && i == j,
    decreases groups.len(),
{
    if groups.len() > 0 {
        let ws = kept_entries(groups[0].ws);
        let now_seen = seen || any_focused(ws);
        let rest = clean_groups(groups.drop_first(), now_seen);
        lemma_clean_groups(groups.drop_first(), now_seen);
        lemma_kept(groups[0].ws);
        lemma_focus_first(ws, seen);
        if ws.len() > 0 {
            let head = GroupModel { name: groups[0].name, ws: focus_first(ws, seen) };
            let all = clean_groups(groups, seen);
            assert(all == seq![head] + rest);
            assert(group_in_bounds(head));
            assert forall|g: int| 0 <= g < all.len() implies group_in_bounds(
                #[trigger] all[g],
            ) by {
                if g > 0 {
                    assert(all[g] == rest[g - 1]);
                }
            }
            assert forall|g: int, i: int| #[trigger] focused_at(all, g, i) implies (g == 0
                && any_focused(head.ws)) || focused_at(rest, g - 1, i) by {
                if g == 0 {
                    assert(head.ws[i].foc);
                }
            }
            assert forall|g: int, i: int, h: int, j: int|
                #![trigger focused_at(all, g, i), focused_at(all, h, j)]
                focused_at(all, g, i) && focused_at(all, h, j) implies g == h && i == j by {
                if g == 0 && h == 0 {
                    assert(head.ws[i].foc && head.ws[j].foc);
                } else if g > 0 && h > 0 {
                    assert(focused_at(rest, g - 1, i));
                    assert(focused_at(rest, h - 1, j));
                } else if g == 0 {
                    assert(head.ws[i].foc);
                    assert(focused_at(rest, h - 1, j));
                } else {
                    assert(head.ws[j].foc);
                    assert(focused_at(rest, g - 1, i));
                }
            }
        }
    }
}

/// A state that has passed through the sanitizer is within every documented
/// bound: at most four groups, none of them empty, of at most sixteen entries
/// with labels from 1 to 32; a volume that is no less than 0 and no more than
/// 1; at most eight sessions; media with a title, text without control
/// characters, and art only as a PNG file of the media directory.
pub proof fn sanitized_states_are_in_bounds(state: StateModel)
    ensures
        sanitized(state).outs.len() <= MAX_GROUPS,
        forall|g: int|
            0 <= g < sanitized(state).outs.len() ==> group_in_bounds(
                #[trigger] sanitized(state).outs[g],
            ),
        sanitized(state).vol matches Some(vol) ==> !vol.level.below(Scalar::zero())
            && !Scalar::one().below(vol.level),
        sanitized(state).claude matches Some(ids) ==> ids.len() <= MAX_CLAUDE_SESSIONS && forall|
            i: int,
        |
            0 <= i < ids.len() ==> (#[trigger] ids[i]).len() <= MAX_SESSION_ID_LEN || encode_utf8(
                ids[i],
            ).len() <= MAX_SESSION_ID_LEN,
        sanitized(state).media matches Some(media) ==> {
            &&& 1 <= media.title.len() <= MAX_MEDIA_TITLE_CHARS
            &&& media.artist.len() <= MAX_MEDIA_ARTIST_CHARS
            &&& forall|i: int| 0 <= i < media.title.len() ==> !text::control(#[trigger] media.title[i])
            &&& forall|i: int|
                0 <= i < media.artist.len() ==> !text::control(#[trigger] media.artist[i])
            &&& media.art_path matches Some(path) ==> {
                &&& encode_utf8(path).len() <= MAX_MEDIA_ART_PATH_CHARS
                &&& text::ends_with(path, ".png"@)
                &&& text::starts_with(path, "/run/tiny-dfr-ben/media/"@)
            }
        },
{
    lemma_clean_groups(at_most(state.outs, MAX_GROUPS as nat), false);
    if let Some(m) = state.media {
        lemma_clean_text(m.title, MAX_MEDIA_TITLE_CHARS as nat);
        lemma_clean_text(m.artist, MAX_MEDIA_ARTIST_CHARS as nat);
    }
}

proof fn lemma_clean_text(value: Seq<char>, max: nat)
    ensures
        clean_text(value, max).len() <= max,
        forall|i: int|
            0 <= i < clean_text(value, max).len() ==> !text::control(
                #[trigger] clean_text(value, max)[i],
            ),
{
    let keep = |c: char| !text::control(c);
    let body = text::trimmed(value);
    broadcast use vstd::seq_lib::group_filter_ensures;

    assert forall|i: int| 0 <= i < clean_text(value, max).len() implies !text::control(
        #[trigger] clean_text(value, max)[i],
    ) by {
        assert(keep(body.filter(keep)[i]));
    }
}

/// At most one workspace of a sanitized state has the focus.
pub proof fn sanitized_states_have_one_focus(state: StateModel, g: int, i: int, h: int, j: int)
    requires
        focused_at(sanitized(state).outs, g, i),
        focused_at(sanitized(state).outs, h, j),
    ensures
        g == h,
        i == j,
{
    lemma_clean_groups(at_most(state.outs, MAX_GROUPS as nat), false);
}

proof fn lemma_groups_settle(groups: Seq<GroupModel>, seen: bool)
    ensures
        clean_groups(clean_groups(groups, seen), seen) == clean_groups(groups, seen),
    decreases groups.len(),
{
    if groups.len() > 0 {
        let ws = kept_entries(groups[0].ws);
        let now_seen = seen || any_focused(ws);
        let rest = clean_groups(groups.drop_first(), now_seen);
        lemma_groups_settle(groups.drop_first(), now_seen);
        if ws.len() > 0 {
            let f = focus_first(ws, seen);
            lemma_kept(groups[0].ws);
            lemma_focus_first(ws, seen);
            let keep = |w: WsEntry| idx_in_range(w);
            assert forall|i: int| 0 <= i < f.len() implies keep(#[trigger] f[i]) by {
                assert(idx_in_range(ws[i]));
            }
            lemma_filter_all(f, keep);
            assert(kept_entries(f) == f);
            assert(focus_first(f, seen) =~= f) by {
                assert forall|i: int| 0 <= i < f.len() implies focus_first(f, seen)[i] == f[i] by {
                    if f[i].foc && any_focused(f.take(i)) {
                        let k = choose|k: int|
                            0 <= k < f.take(i).len() && (#[trigger] f.take(i)[k]).foc;
                        assert(f[k].foc);
                    }
                }
            }
            let head = GroupModel { name: groups[0].name, ws: f };
            let all = clean_groups(groups, seen);
            assert(all == seq![head] + rest);
            assert(all.drop_first() =~= rest);
            assert(all[0] == head);
            assert(clean_groups(all, seen) =~= all);
        }
    }
}

/// Sanitizing is settled after one pass: the workspaces, the volume and the
/// sessions of a sanitized state pass through unchanged.
pub proof fn sanitizing_twice_changes_nothing(state: StateModel)
    ensures
        sanitized(sanitized(state)).outs == sanitized(state).outs,
        sanitized(sanitized(state)).vol == sanitized(state).vol,
        sanitized(sanitized(state)).claude == sanitized(state).claude,
{
    lemma_clean_groups(at_most(state.outs, MAX_GROUPS as nat), false);
    lemma_groups_settle(at_most(state.outs, MAX_GROUPS as nat), false);
    if let Some(ids) = state.claude {
        let once = clean_sessions(ids);
        assert(clean_sessions(once) =~= once);
    }
}

/// Every line followed by its newline, in order.
pub open spec fn unsplit(lines: Seq<Seq<u8>>) -> Seq<u8>
    decreases lines.len(),
{
    if lines.len() == 0 {
        Seq::empty()
    } else {
        lines[0].push(10) + unsplit(lines.drop_first())
    }
}

/// Reassembly loses nothing: the lines, each with its newline, followed by
/// what is left, are the bytes that came in; no line holds a newline, and
/// none exceeds the limit.
pub proof fn lines_are_the_bytes_received(buf: Seq<u8>)
    requires
        !feed(buf).overflow,
    ensures
        unsplit(feed(buf).lines) + feed(buf).rest == buf,
        feed(buf).rest.len() <= MAX_LINE_BYTES,
        !feed(buf).rest.contains(10u8),
        forall|i: int|
            0 <= i < feed(buf).lines.len() ==> (#[trigger] feed(buf).lines[i]).len()
                <= MAX_LINE_BYTES && !feed(buf).lines[i].contains(10u8),
    decreases buf.len(),
{
    lemma_line_end(buf);
    let end = line_end(buf) as int;
    if end < buf.len() {
        let tail = buf.skip(end + 1);
        lines_are_the_bytes_received(tail);
        let next = feed(tail);
        let line = buf.take(end);
        assert(feed(buf).lines.drop_first() =~= next.lines);
        assert(unsplit(feed(buf).lines) + feed(buf).rest =~= line.push(10) + (unsplit(next.lines)
            + next.rest));
        assert(line.push(10) + tail =~= buf);
        assert forall|i: int| 0 <= i < feed(buf).lines.len() implies (
        #[trigger] feed(buf).lines[i]).len() <= MAX_LINE_BYTES && !feed(buf).lines[i].contains(
            10u8,
        ) by {
            if i > 0 {
                assert(feed(buf).lines[i] == next.lines[i - 1]);
            }
        }
    } else {
        assert(unsplit(feed(buf).lines) + feed(buf).rest =~= buf);
    }
}

proof fn lemma_end_extends(x: Seq<u8>, b: Seq<u8>)
    ensures
        line_end(x) < x.len() ==> line_end(x + b) == line_end(x),
        line_end(x) >= x.len() ==> line_end(x + b) >= x.len(),
    decreases x.len(),
{
    if x.len() > 0 && x[0] != 10 {
        lemma_end_extends(x.drop_first(), b);
        assert((x + b).drop_first() =~= x.drop_first() + b);
    }
}

/// Lines do not depend on how the stream was cut: taking in `a` and then `b`
/// gives the lines, the remainder and the verdict of taking in both at once.
/// Here `x` is what the buffer holds once `a` has been added to it.
pub proof fn lines_do_not_depend_on_chunks(x: Seq<u8>, b: Seq<u8>)
    ensures
        feed(x).overflow ==> feed(x + b).overflow,
        !feed(x).overflow ==> {
            let second = feed(feed(x).rest + b);
            &&& feed(x + b).overflow == second.overflow
            &&& feed(x + b).rest == second.rest
            &&& feed(x + b).lines == feed(x).lines + second.lines
        },
    decreases x.len(),
{
    lemma_line_end(x);
    lemma_line_end(x + b);
    lemma_end_extends(x, b);
    let end = line_end(x) as int;
    if end < x.len() {
        assert((x + b).skip(end + 1) =~= x.skip(end + 1) + b);
        assert((x + b).take(end) =~= x.take(end));
        if end <= MAX_LINE_BYTES {
            lines_do_not_depend_on_chunks(x.skip(end + 1), b);
            let next = feed(x.skip(end + 1));
            if !next.overflow {
                let second = feed(next.rest + b);
                assert(feed(x + b).lines =~= feed(x).lines + second.lines);
            }
        }
    } else {
        assert(feed(x).lines + feed(x + b).lines =~= feed(x + b).lines);
    }
}

/// A session does not depend on how its lines were batched: taking `a` and
/// then `b` at the same moment gives what taking both at once gives, unless
/// `a` already ended the connection, and then `b` changes nothing.
pub proof fn sessions_do_not_depend_on_batches(
    c: ClientModel,
    a: Seq<Option<MessageModel>>,
    b: Seq<Option<MessageModel>>,
    now: Moment,
)
    ensures
        session(c, a, now).violation is Some ==> session(c, a + b, now) == session(c, a, now),
        session(c, a, now).violation is None ==> {
            let second = session(session(c, a, now).client, b, now);
            &&& session(c, a + b, now).client == second.client
            &&& session(c, a + b, now).violation == second.violation
            &&& session(c, a + b, now).states == session(c, a, now).states + second.states
        },
    decreases a.len(),
{
    if a.len() == 0 {
        assert(a + b =~= b);
        let whole = session(c, b, now);
        assert(session(c, a, now).states + whole.states =~= whole.states);
    } else {
        let first = step(c, a[0], now);
        assert((a + b)[0] == a[0]);
        assert((a + b).drop_first() =~= a.drop_first() + b);
        if first.violation is None {
            sessions_do_not_depend_on_batches(first.client, a.drop_first(), b, now);
            let rest = session(first.client, a.drop_first(), now);
            if rest.violation is None {
                let second = session(rest.client, b, now);
                assert(option_seq(first.state) + (rest.states + second.states) =~= (option_seq(
                    first.state,
                ) + rest.states) + second.states);
            }
        }
    }
}

/// A connection that does not open with a hello of the supported version
/// ends at once and brings no state.
pub proof fn sessions_open_with_hello(
    c: ClientModel,
    ms: Seq<Option<MessageModel>>,
    now: Moment,
)
    requires
        !c.hello_done,
        ms.len() > 0,
        ms[0] != Some(MessageModel::Hello { v: SUPPORTED_VERSION }),
    ensures
        session(c, ms, now).violation is Some,
        session(c, ms, now).states.len() == 0,
        !session(c, ms, now).client.hello_done,
{
}

/// The handshake, once done, stays done, and every state that a session
/// hands on is within the documented bounds.
pub proof fn sessions_bring_sanitized_states(
    c: ClientModel,
    ms: Seq<Option<MessageModel>>,
    now: Moment,
    i: int,
)
    requires
        0 <= i < session(c, ms, now).states.len(),
    ensures
        session(c, ms, now).client.hello_done,
        exists|s: StateModel| session(c, ms, now).states[i] == sanitized(s),
    decreases ms.len(),
{
    let first = step(c, ms[0], now);
    if first.violation is None {
        let rest = session(first.client, ms.drop_first(), now);
        lemma_greeting_stays(first.client, ms.drop_first(), now);
        if first.state is Some && i == 0 {
            assert(session(c, ms, now).states[0] == first.state->0);
        } else {
            let k = option_seq(first.state).len() as int;
            sessions_bring_sanitized_states(first.client, ms.drop_first(), now, i - k);
            assert(session(c, ms, now).states[i] == rest.states[i - k]);
        }
    }
}

proof fn lemma_greeting_stays(c: ClientModel, ms: Seq<Option<MessageModel>>, now: Moment)
    ensures
        c.hello_done ==> session(c, ms, now).client.hello_done,
    decreases ms.len(),
{
    if ms.len() > 0 {
        lemma_greeting_stays(step(c, ms[0], now).client, ms.drop_first(), now);
    }
}

/// Eight lines in a row that do not parse end any connection.
pub proof fn garbage_ends_the_connection(
    c: ClientModel,
    ms: Seq<Option<MessageModel>>,
    now: Moment,
)
    requires
        c.budget.invalid + ms.len() >= MAX_CONSECUTIVE_INVALID,
        ms.len() > 0,
        forall|i: int| 0 <= i < ms.len() ==> (#[trigger] ms[i]) is None,
    ensures
        session(c, ms, now).violation is Some,
        session(c, ms, now).states.len() == 0,
    decreases ms.len(),
{
    assert(ms[0] is None);
    let first = step(c, ms[0], now);
    if first.violation is None {
        assert forall|i: int| 0 <= i < ms.drop_first().len() implies (
        #[trigger] ms.drop_first()[i]) is None by {
            assert(ms[i + 1] is None);
        }
        garbage_ends_the_connection(first.client, ms.drop_first(), now);
    }
}

/// More lines at one moment than a window allows end any connection.
pub proof fn a_flood_ends_the_connection(
    c: ClientModel,
    ms: Seq<Option<MessageModel>>,
    now: Moment,
)
    requires
        ms.len() > MAX_MSGS_PER_WINDOW,
    ensures
        session(c, ms, now).violation is Some,
{
    lemma_flood(c, ms, now, 0);
}

proof fn lemma_flood(c: ClientModel, ms: Seq<Option<MessageModel>>, now: Moment, counted: nat)
    requires
        counted + ms.len() > MAX_MSGS_PER_WINDOW,
        counted > 0 ==> c.budget.window_start is Some && elapsed(
            now,
            c.budget.window_start->0,
        ) < RATE_WINDOW_NANOS && c.budget.messages >= counted,
        counted <= MAX_MSGS_PER_WINDOW,
    ensures
        session(c, ms, now).violation is Some,
    decreases ms.len(),
{
    let first = step(c, ms[0], now);
    if first.violation is None {
        lemma_flood(first.client, ms.drop_first(), now, counted + 1);
    }
}

/// What is shown is never older than the staleness limit, and what is stale
/// stays so until the companion speaks again.
pub proof fn stale_states_stay_stale(l: LinkModel, now: Moment, later: Moment)
    requires
        now.nanos <= later.nanos,
        !fresh(l, now),
    ensures
        !fresh(l, later),
{
}

} // verus!
