//! What the companion link is for: the newest state is what the link holds,
//! whatever it held before, and it holds it as it was sent wherever that is
//! within bounds.
use crate::helper_laws::focused_at;
use crate::helper_link::{
    fresh, fresh_client, link_after, option_seq, session, step, workspaces_spec, ClientModel,
    LinkModel, Session, Violation,
};
use crate::helper_proto::{
    any_focused, at_most, clean_groups, clean_sessions, clean_text, feed, focus_first,
    intent_text, kept_entries, lemma_line_end, level_text, line_end, sanitized, sent_level,
    GroupModel, Intent, MediaModel, MessageModel, StateModel, WsEntry,
};
use crate::moment::Moment;
use crate::scalar::Scalar;
use crate::text;
use vstd::prelude::*;
use vstd::utf8::encode_utf8;

verus! {

/// A batch that brings a state decides what the link holds: two links with
/// the same client agree on the state after it, and on its age, whatever
/// they held before.
pub proof fn new_states_replace_old_ones(
    l: LinkModel,
    other: LinkModel,
    c: ClientModel,
    ms: Seq<Option<MessageModel>>,
    now: Moment,
)
    requires
        session(c, ms, now).states.len() > 0,
    ensures
        link_after(l, session(c, ms, now), now).state == link_after(
            other,
            session(c, ms, now),
            now,
        ).state,
        link_after(l, session(c, ms, now), now).last_state_at == Some(now),
        link_after(other, session(c, ms, now), now).last_state_at == Some(now),
{
}

/// A message is a state.
pub open spec fn is_state(m: Option<MessageModel>) -> bool {
    m matches Some(MessageModel::State(_))
}

/// The last state message of a batch that breaks no rule is what the link
/// holds after it, cleaned; and it holds it since now.
pub proof fn the_last_state_of_a_batch_is_kept(
    l: LinkModel,
    c: ClientModel,
    ms: Seq<Option<MessageModel>>,
    now: Moment,
    k: int,
    state: StateModel,
)
    requires
        session(c, ms, now).violation is None,
        0 <= k < ms.len(),
        ms[k] == Some(MessageModel::State(state)),
        forall|j: int| k < j < ms.len() ==> !is_state(#[trigger] ms[j]),
    ensures
        link_after(l, session(c, ms, now), now).state == sanitized(state),
        link_after(l, session(c, ms, now), now).last_state_at == Some(now),
        link_after(l, session(c, ms, now), now).client is Some,
        link_after(l, session(c, ms, now), now).allowed_uid == l.allowed_uid,
{
    lemma_last_state(c, ms, now, k, state);
}

proof fn lemma_last_state(
    c: ClientModel,
    ms: Seq<Option<MessageModel>>,
    now: Moment,
    k: int,
    state: StateModel,
)
    requires
        session(c, ms, now).violation is None,
        0 <= k < ms.len(),
        ms[k] == Some(MessageModel::State(state)),
        forall|j: int| k < j < ms.len() ==> !is_state(#[trigger] ms[j]),
    ensures
        session(c, ms, now).states.len() > 0,
        session(c, ms, now).states.last() == sanitized(state),
    decreases ms.len(),
{
    let first = step(c, ms[0], now);
    let tail = ms.drop_first();
    let rest = session(first.client, tail, now);
    if k == 0 {
        assert forall|j: int| 0 <= j < tail.len() implies !is_state(#[trigger] tail[j]) by {
            assert(tail[j] == ms[j + 1]);
        }
        lemma_no_state(first.client, tail, now);
        assert(session(c, ms, now).states =~= option_seq(first.state));
    } else {
        assert(tail[k - 1] == ms[k]);
        assert forall|j: int| k - 1 < j < tail.len() implies !is_state(#[trigger] tail[j]) by {
            assert(tail[j] == ms[j + 1]);
        }
        lemma_last_state(first.client, tail, now, k - 1, state);
        let all = session(c, ms, now).states;
        assert(all == option_seq(first.state) + rest.states);
        assert(all.last() == rest.states.last());
    }
}

proof fn lemma_no_state(c: ClientModel, ms: Seq<Option<MessageModel>>, now: Moment)
    requires
        forall|j: int| 0 <= j < ms.len() ==> !is_state(#[trigger] ms[j]),
    ensures
        session(c, ms, now).states.len() == 0,
    decreases ms.len(),
{
    if ms.len() > 0 {
        let tail = ms.drop_first();
        assert(!is_state(ms[0]));
        assert forall|j: int| 0 <= j < tail.len() implies !is_state(#[trigger] tail[j]) by {
            assert(tail[j] == ms[j + 1]);
        }
        lemma_no_state(step(c, ms[0], now).client, tail, now);
    }
}

/// A batch that brings no state leaves what the link holds, and its age.
pub proof fn without_a_state_nothing_is_new(
    l: LinkModel,
    c: ClientModel,
    ms: Seq<Option<MessageModel>>,
    now: Moment,
)
    requires
        forall|j: int| 0 <= j < ms.len() ==> !is_state(#[trigger] ms[j]),
    ensures
        link_after(l, session(c, ms, now), now).state == l.state,
        link_after(l, session(c, ms, now), now).last_state_at == l.last_state_at,
{
    lemma_no_state(c, ms, now);
}

/// A client loses its connection exactly where it broke a rule.
pub proof fn violations_end_the_connection(l: LinkModel, s: Session, now: Moment)
    ensures
        link_after(l, s, now).client is None <==> s.violation is Some,
        s.violation is None ==> link_after(l, s, now).client == Some(s.client),
{
}

/// One more message is no flood: at most two hundred came within the last
/// second, this one among them.
pub open spec fn no_flood(c: ClientModel, now: Moment) -> bool {
    match c.budget.window_start {
        Some(start) => now.nanos - start.nanos >= 1_000_000_000 || c.budget.messages < 200,
        None => true,
    }
}

/// A connection that opens with a hello of version 1 is greeted, and one
/// that opens with anything else is refused: another version by its number,
/// everything else for want of a hello.
pub proof fn connections_open_with_a_hello(m: Option<MessageModel>, now: Moment)
    ensures
        ({
            let s = session(fresh_client(), seq![m], now);
            &&& m == Some(MessageModel::Hello { v: 1 }) ==> s.violation is None
                && s.client.hello_done && s.client.budget.invalid == 0
            &&& (m matches Some(MessageModel::Hello { v }) && v != 1) ==> s.violation == Some(
                Violation::UnsupportedVersion(m->0->v),
            )
            &&& !(m matches Some(MessageModel::Hello { .. })) ==> s.violation == Some(
                Violation::NoHello,
            )
            &&& s.states.len() == 0
        }),
{
    let one = seq![m];
    assert(one.drop_first() =~= Seq::empty());
    reveal_with_fuel(session, 2);
}

/// A greeted client that does not flood is heard: its states are handed on,
/// cleaned, and wipe out the lines before them that did not parse. Such
/// lines are forgiven up to the seventh in a row; the eighth ends the
/// connection.
pub proof fn greeted_clients_are_heard(c: ClientModel, m: Option<MessageModel>, now: Moment)
    requires
        c.hello_done,
    ensures
        no_flood(c, now) ==> (m matches Some(MessageModel::State(state)) ==> {
            let s = session(c, seq![m], now);
            &&& s.violation is None
            &&& s.states == seq![sanitized(state)]
            &&& s.client.budget.invalid == 0
            &&& s.client.hello_done
        }),
        no_flood(c, now) && !is_state(m) ==> {
            let s = session(c, seq![m], now);
            &&& s.states.len() == 0
            &&& s.client.budget.invalid == c.budget.invalid + 1
            &&& c.budget.invalid < 7 ==> s.violation is None
            &&& c.budget.invalid >= 7 ==> s.violation == Some(Violation::TooManyInvalid)
        },
        !no_flood(c, now) ==> session(c, seq![m], now).violation == Some(Violation::Flood)
            && session(c, seq![m], now).states.len() == 0,
{
    let one = seq![m];
    assert(one.drop_first() =~= Seq::empty());
    reveal_with_fuel(session, 2);
    assert(session(c, one, now).states =~= option_seq(step(c, m, now).state));
}

/// Every line counts towards a flood, and the count starts over once a
/// second has passed.
pub proof fn lines_are_counted(c: ClientModel, m: Option<MessageModel>, now: Moment)
    ensures
        ({
            let after = step(c, m, now).client.budget;
            match c.budget.window_start {
                Some(start) => if now.nanos - start.nanos < 1_000_000_000 {
                    after.messages == c.budget.messages + 1 && after.window_start == Some(start)
                } else {
                    after.messages == 1 && after.window_start == Some(now)
                },
                None => after.messages == 1 && after.window_start == Some(now),
            }
        }),
{
}

/// A state may be shown for six seconds after it came in, for as long as
/// its client is connected, and not a moment longer.
pub proof fn states_are_fresh_for_six_seconds(
    l: LinkModel,
    c: ClientModel,
    ms: Seq<Option<MessageModel>>,
    now: Moment,
    later: Moment,
)
    requires
        session(c, ms, now).states.len() > 0,
        now.nanos <= later.nanos,
    ensures
        ({
            let after = link_after(l, session(c, ms, now), now);
            &&& session(c, ms, now).violation is None ==> (fresh(after, later) <==> later.nanos
                - now.nanos < 6_000_000_000)
            &&& session(c, ms, now).violation is Some ==> !fresh(after, later)
            &&& !fresh(LinkModel { client: None, ..after }, later)
        }),
{
}

/// The workspaces of a state are those of its outputs, output by output.
pub proof fn workspaces_are_those_of_the_state(state: StateModel)
    ensures
        workspaces_spec(state).len() == state.outs.len(),
        forall|g: int|
            0 <= g < state.outs.len() ==> #[trigger] workspaces_spec(state)[g]
                == state.outs[g].ws,
{
}

/// A group of workspaces as the companion should send it.
pub open spec fn decent_group(g: GroupModel) -> bool {
    &&& 1 <= g.ws.len() <= 16
    &&& forall|i: int| 0 <= i < g.ws.len() ==> 1 <= (#[trigger] g.ws[i]).idx <= 32
}

/// Groups as the companion should send them: a few decent ones, with one
/// focus among them at most.
pub open spec fn decent_groups(groups: Seq<GroupModel>) -> bool {
    &&& forall|g: int| 0 <= g < groups.len() ==> decent_group(#[trigger] groups[g])
    &&& forall|g: int, i: int, h: int, j: int|
        #![trigger focused_at(groups, g, i), focused_at(groups, h, j)]
        focused_at(groups, g, i) && focused_at(groups, h, j) ==> g == h && i == j
}

/// Text that needs no cleaning.
pub open spec fn decent_text(s: Seq<char>, max: nat) -> bool {
    &&& s.len() <= max
    &&& forall|i: int| 0 <= i < s.len() ==> !text::control(#[trigger] s[i])
    &&& s.len() > 0 ==> !text::white_space(s[0]) && !text::white_space(s.last())
}

/// Media as the companion should send them.
pub open spec fn decent_media(m: MediaModel) -> bool {
    &&& m.title.len() > 0
    &&& decent_text(m.title, 96)
    &&& decent_text(m.artist, 80)
    &&& m.art_path matches Some(p) ==> {
        &&& encode_utf8(p).len() <= 512
        &&& text::ends_with(p, ".png"@)
        &&& text::starts_with(p, "/run/tiny-dfr-ben/media/"@)
    }
}

/// A state that is within bounds is taken as it is: nothing of what the
/// companion says is lost, changed or moved.
pub proof fn decent_states_are_not_changed(state: StateModel)
    ensures
        state.outs.len() <= 4 && decent_groups(state.outs) ==> sanitized(state).outs == state.outs,
        (state.vol matches Some(v) && !v.level.below(Scalar { bits: 0 }) && !(Scalar {
            bits: 0x3ff0_0000_0000_0000,
        }).below(v.level)) ==> sanitized(state).vol == state.vol,
        state.vol is None ==> sanitized(state).vol is None,
        (state.claude matches Some(ids) && ids.len() <= 8 && forall|i: int|
            0 <= i < ids.len() ==> encode_utf8(#[trigger] ids[i]).len() <= 64) ==> sanitized(
            state,
        ).claude == state.claude,
        state.claude is None ==> sanitized(state).claude is None,
        (state.media matches Some(m) && decent_media(m)) ==> sanitized(state).media == state.media,
        state.media is None ==> sanitized(state).media is None,
{
    if state.outs.len() <= 4 && decent_groups(state.outs) {
        lemma_decent_groups(state.outs, false);
    }
    if let Some(ids) = state.claude {
        if ids.len() <= 8 && forall|i: int|
            0 <= i < ids.len() ==> encode_utf8(#[trigger] ids[i]).len() <= 64 {
            assert(clean_sessions(ids) =~= ids);
        }
    }
    if let Some(m) = state.media {
        if decent_media(m) {
            lemma_decent_text(m.title, 96);
            lemma_decent_text(m.artist, 80);
            if let Some(p) = m.art_path {
                lemma_art_path_is_trim(p);
            }
        }
    }
}

proof fn lemma_filter_all<A>(s: Seq<A>, keep: spec_fn(A) -> bool)
    requires
        forall|i: int| 0 <= i < s.len() ==> keep(#[trigger] s[i]),
    ensures
        s.filter(keep) == s,
    decreases s.len(),
{
    reveal(Seq::filter);
    if s.len() > 0 {
        let rest = s.drop_last();
        assert forall|i: int| 0 <= i < rest.len() implies keep(#[trigger] rest[i]) by {
            assert(keep(s[i]));
        }
        lemma_filter_all(rest, keep);
        assert(keep(s[s.len() - 1]));
        assert(rest.push(s.last()) =~= s);
    } else {
        assert(s.filter(keep) =~= s);
    }
}

proof fn lemma_decent_text(s: Seq<char>, max: nat)
    requires
        decent_text(s, max),
    ensures
        clean_text(s, max) == s,
{
    let keep = |c: char| !text::control(c);
    assert(text::trimmed(s) == s);
    lemma_filter_all(s, keep);
}

proof fn lemma_art_path_is_trim(p: Seq<char>)
    requires
        text::ends_with(p, ".png"@),
        text::starts_with(p, "/run/tiny-dfr-ben/media/"@),
    ensures
        text::trimmed(p) == p,
{
    reveal_strlit(".png");
    reveal_strlit("/run/tiny-dfr-ben/media/");
    let end = p.skip(p.len() - 4);
    let start = p.take(24);
    assert(end[3] == 'g');
    assert(p.last() == end[3]);
    assert(start[0] == '/');
    assert(p[0] == start[0]);
}

proof fn lemma_decent_groups(groups: Seq<GroupModel>, seen: bool)
    requires
        decent_groups(groups),
        seen ==> forall|g: int, i: int| !#[trigger] focused_at(groups, g, i),
    ensures
        clean_groups(groups, seen) == groups,
    decreases groups.len(),
{
    if groups.len() > 0 {
        let ws = groups[0].ws;
        let rest = groups.drop_first();
        assert(decent_group(groups[0]));
        let keep = |w: WsEntry| crate::helper_proto::idx_in_range(w);
        assert forall|i: int| 0 <= i < ws.len() implies keep(#[trigger] ws[i]) by {
            assert(1 <= ws[i].idx <= 32);
        }
        lemma_filter_all(ws, keep);
        assert(kept_entries(ws) == ws);
        assert forall|i: int| 0 <= i < ws.len() implies focus_first(ws, seen)[i]
            == #[trigger] ws[i] by {
            if ws[i].foc {
                assert(focused_at(groups, 0, i));
                if any_focused(ws.take(i)) {
                    let k = choose|k: int| 0 <= k < i && (#[trigger] ws.take(i)[k]).foc;
                    assert(focused_at(groups, 0, k));
                }
            }
        }
        assert(focus_first(ws, seen) =~= ws);
        let now_seen = seen || any_focused(ws);
        assert forall|g: int| 0 <= g < rest.len() implies decent_group(#[trigger] rest[g]) by {
            assert(rest[g] == groups[g + 1]);
        }
        assert forall|g: int, i: int| #[trigger] focused_at(rest, g, i) implies focused_at(
            groups,
            g + 1,
            i,
        ) by {}
        assert forall|g: int, i: int, h: int, j: int|
            #![trigger focused_at(rest, g, i), focused_at(rest, h, j)]
            focused_at(rest, g, i) && focused_at(rest, h, j) implies g == h && i == j by {
            assert(focused_at(groups, g + 1, i));
            assert(focused_at(groups, h + 1, j));
        }
        if now_seen {
            assert forall|g: int, i: int| !#[trigger] focused_at(rest, g, i) by {
                if focused_at(rest, g, i) {
                    assert(focused_at(groups, g + 1, i));
                    if !seen {
                        let k = choose|k: int| 0 <= k < ws.len() && (#[trigger] ws[k]).foc;
                        assert(focused_at(groups, 0, k));
                    }
                }
            }
        }
        lemma_decent_groups(rest, now_seen);
        assert(seq![groups[0]] + rest =~= groups);
    } else {
        assert(clean_groups(groups, seen) =~= groups);
    }
}

/// A volume out of range comes in at the nearer end, and whether it is muted
/// comes in as it is.
pub proof fn volumes_are_brought_into_range(state: StateModel)
    requires
        state.vol is Some,
    ensures
        sanitized(state).vol is Some,
        sanitized(state).vol->0.muted == state.vol->0.muted,
        state.vol->0.level.below(Scalar { bits: 0 }) ==> sanitized(state).vol->0.level.bits == 0,
        (Scalar { bits: 0x3ff0_0000_0000_0000 }).below(state.vol->0.level) ==> sanitized(
            state,
        ).vol->0.level.bits == 0x3ff0_0000_0000_0000,
{
}

/// Group `g`, entry `i` of some groups stands for a workspace.
pub open spec fn stands_for(groups: Seq<GroupModel>, g: int, i: int, w: WsEntry) -> bool {
    &&& 0 <= g < groups.len()
    &&& 0 <= i < groups[g].ws.len()
    &&& groups[g].ws[i].id == w.id
    &&& groups[g].ws[i].idx == w.idx
    &&& groups[g].ws[i].occ == w.occ
}

/// A workspace is somewhere in some groups.
pub open spec fn holds_workspace(groups: Seq<GroupModel>, w: WsEntry) -> bool {
    exists|g: int, i: int| #[trigger] stands_for(groups, g, i, w)
}

/// No workspace with a label from 1 to 32 is lost, if it is among the first
/// sixteen of the first four outputs.
pub proof fn workspaces_in_bounds_are_kept(state: StateModel, g: int, i: int)
    requires
        0 <= g < state.outs.len(),
        g < 4,
        0 <= i < state.outs[g].ws.len(),
        i < 16,
        1 <= state.outs[g].ws[i].idx <= 32,
    ensures
        holds_workspace(sanitized(state).outs, state.outs[g].ws[i]),
{
    let head = at_most(state.outs, 4);
    assert(head[g] == state.outs[g]);
    lemma_kept_somewhere(head, false, g, i);
}

proof fn lemma_kept_entry(ws: Seq<WsEntry>, i: int)
    requires
        0 <= i < ws.len(),
        i < 16,
        1 <= ws[i].idx <= 32,
    ensures
        kept_entries(ws).contains(ws[i]),
{
    let head = at_most(ws, 16);
    let keep = |w: WsEntry| crate::helper_proto::idx_in_range(w);
    assert(head[i] == ws[i]);
    lemma_filter_holds(head, keep, i);
}

proof fn lemma_filter_holds<A>(s: Seq<A>, keep: spec_fn(A) -> bool, i: int)
    requires
        0 <= i < s.len(),
        keep(s[i]),
    ensures
        s.filter(keep).contains(s[i]),
    decreases s.len(),
{
    reveal(Seq::filter);
    let rest = s.drop_last();
    if i < rest.len() {
        assert(rest[i] == s[i]);
        lemma_filter_holds(rest, keep, i);
        let k = choose|k: int| 0 <= k < rest.filter(keep).len() && rest.filter(keep)[k] == s[i];
        assert(s.filter(keep)[k] == s[i]);
    } else {
        assert(s.filter(keep).last() == s[i]);
    }
}

proof fn lemma_kept_somewhere(groups: Seq<GroupModel>, seen: bool, g: int, i: int)
    requires
        0 <= g < groups.len(),
        0 <= i < groups[g].ws.len(),
        i < 16,
        1 <= groups[g].ws[i].idx <= 32,
    ensures
        holds_workspace(clean_groups(groups, seen), groups[g].ws[i]),
    decreases groups.len(),
{
    let ws = kept_entries(groups[0].ws);
    let rest = groups.drop_first();
    let after = clean_groups(rest, seen || any_focused(ws));
    let all = clean_groups(groups, seen);
    let w = groups[g].ws[i];
    if g == 0 {
        lemma_kept_entry(groups[0].ws, i);
        let k = choose|k: int| 0 <= k < ws.len() && ws[k] == w;
        assert(stands_for(all, 0, k, w));
    } else {
        assert(rest[g - 1] == groups[g]);
        lemma_kept_somewhere(rest, seen || any_focused(ws), g - 1, i);
        let (h, j) = choose|h: int, j: int| #[trigger] stands_for(after, h, j, w);
        if ws.len() == 0 {
            assert(stands_for(all, h, j, w));
        } else {
            assert(all[h + 1] == after[h]);
            assert(stands_for(all, h + 1, j, w));
        }
    }
}

/// A line that fits is cut off the stream as it is; one of more than 4096
/// bytes is a violation, whether it has ended or not.
pub proof fn lines_are_cut_at_newlines(line: Seq<u8>, rest: Seq<u8>)
    requires
        !line.contains(10u8),
    ensures
        line.len() <= 4096 ==> feed(line.push(10) + rest).lines == seq![line] + feed(rest).lines
            && feed(line.push(10) + rest).rest == feed(rest).rest && feed(
            line.push(10) + rest,
        ).overflow == feed(rest).overflow,
        line.len() > 4096 ==> feed(line.push(10) + rest).overflow && feed(line).overflow,
        line.len() > 4096 ==> feed(line.push(10) + rest).rest == rest && feed(
            line.push(10) + rest,
        ).lines.len() == 0,
        line.len() <= 4096 ==> !feed(line).overflow && feed(line).rest == line && feed(
            line,
        ).lines.len() == 0,
{
    let buf = line.push(10) + rest;
    lemma_line_end(buf);
    lemma_line_end(line);
    let n = line.len() as int;
    let end = line_end(buf) as int;
    assert(buf[n] == 10);
    if end < n {
        assert(line[end] == 10);
        assert(line.contains(10u8));
    }
    if end > n {
        assert(buf[n] != 10);
    }
    assert(buf.take(n) =~= line);
    assert(buf.skip(n + 1) =~= rest);
    if line_end(line) < line.len() {
        assert(line[line_end(line) as int] == 10);
    }
}

/// The number that the digits of a number write is that number, so that no
/// two numbers are written alike.
pub proof fn digits_write_their_number(n: nat)
    ensures
        text::digits_value(text::decimal_spec(n)) == n,
        text::all_digits(text::decimal_spec(n)),
        text::decimal_spec(n).len() > 0,
    decreases n,
{
    let s = text::decimal_spec(n);
    if n >= 10 {
        let before = text::decimal_spec(n / 10);
        digits_write_their_number(n / 10);
        assert(s.drop_last() =~= before);
        assert forall|i: int| 0 <= i < s.len() implies text::is_digit(#[trigger] s[i]) by {
            if i < before.len() {
                assert(s[i] == before[i]);
            }
        }
    } else {
        assert(s.drop_last() =~= Seq::empty());
        assert(text::digits_value(s.drop_last()) == 0);
    }
}

/// What is read of a number that was written, with or without white space
/// behind it, is that number.
pub proof fn numbers_are_read_as_written(n: u32)
    ensures
        text::u32_value(text::trimmed(text::decimal_spec(n as nat))) == Some(n),
        text::u32_value(text::trimmed(text::decimal_spec(n as nat) + "\n"@)) == Some(n),
{
    reveal_strlit("\n");
    let s = text::decimal_spec(n as nat);
    digits_write_their_number(n as nat);
    assert(text::is_digit(s[0]));
    assert(text::is_digit(s[s.len() - 1]));
    assert(text::trimmed(s) == s);
    let line = s + "\n"@;
    assert(line[0] == s[0]);
    assert(line.last() == '\n');
    assert(line.drop_last() =~= s);
    assert(text::trim_start(line) == line);
    assert(text::trim_end(line) == text::trim_end(s));
}

/// An intent is one line, and it tells which workspace is meant: intents for
/// different workspaces are different lines.
pub proof fn focus_requests_name_their_workspace(a: u64, b: u64)
    ensures
        intent_text(Intent::FocusWorkspace(a)) == intent_text(Intent::FocusWorkspace(b)) ==> a == b,
        intent_text(Intent::FocusWorkspace(a)).last() == '\n',
        ({
            let line = intent_text(Intent::FocusWorkspace(a));
            text::digits_value(line.subrange(28, line.len() - 2)) == a
        }),
{
    reveal_strlit("{\"t\":\"focus-workspace\",\"id\":");
    reveal_strlit("}\n");
    let head = "{\"t\":\"focus-workspace\",\"id\":"@;
    assert(head.len() == 28);
    let x = intent_text(Intent::FocusWorkspace(a));
    let y = intent_text(Intent::FocusWorkspace(b));
    digits_write_their_number(a as nat);
    digits_write_their_number(b as nat);
    assert(x.subrange(28, x.len() - 2) =~= text::decimal_spec(a as nat));
    assert(y.subrange(28, y.len() - 2) =~= text::decimal_spec(b as nat));
}

/// The level that goes out is the one that was asked for, wherever that is a
/// volume; what is out of range goes out as the nearer end, and what is no
/// number as silence.
pub proof fn levels_go_out_in_range(level: Scalar)
    ensures
        level.finite() && !level.below(Scalar { bits: 0 }) && !(Scalar {
            bits: 0x3ff0_0000_0000_0000,
        }).below(level) ==> sent_level(level) == level,
        level.finite() && level.below(Scalar { bits: 0 }) ==> sent_level(level).bits == 0,
        level.finite() && (Scalar { bits: 0x3ff0_0000_0000_0000 }).below(level) ==> sent_level(
            level,
        ).bits == 0x3ff0_0000_0000_0000,
        !level.finite() ==> sent_level(level).bits == 0,
{
}

/// A level that is not negative is written with four decimal places: what
/// its digits write, without the point, is the level in ten-thousandths.
pub proof fn levels_are_written_in_digits(level: Scalar)
    requires
        !level.negative(),
    ensures
        ({
            let line = level_text(level);
            let point = line.len() - 5;
            &&& point > 0
            &&& line[point] == '.'
            &&& text::all_digits(line.take(point) + line.skip(point + 1))
            &&& text::digits_value(line.take(point) + line.skip(point + 1))
                == level.ten_thousandths_spec()
        }),
{
    let t = level.ten_thousandths_spec() as int;
    let line = level_text(level);
    let head = text::decimal_spec((t / 10000) as nat);
    digits_write_their_number((t / 10000) as nat);
    let point = line.len() - 5;
    assert(line.take(point) =~= head);
    let one = head.push(text::digit_char(t / 1000 % 10));
    let two = one.push(text::digit_char(t / 100 % 10));
    let three = two.push(text::digit_char(t / 10 % 10));
    let four = three.push(text::digit_char(t % 10));
    assert(line.take(point) + line.skip(point + 1) =~= four);
    assert(one.drop_last() =~= head);
    assert(two.drop_last() =~= one);
    assert(three.drop_last() =~= two);
    assert(four.drop_last() =~= three);
    assert(text::digits_value(one) == t / 1000);
    assert(text::digits_value(two) == t / 100);
    assert(text::digits_value(three) == t / 10);
    assert(text::digits_value(four) == t);
    assert forall|i: int| 0 <= i < four.len() implies text::is_digit(#[trigger] four[i]) by {
        if i < head.len() {
            assert(four[i] == head[i]);
        }
    }
}

/// Both requests are objects on a line of their own, which say what they are
/// and carry their number.
pub proof fn requests_say_what_they_are(level: Scalar, id: u64)
    ensures
        intent_text(Intent::SetVolume(level)) == "{\"t\":\"set-volume\",\"level\":"@ + level_text(
            sent_level(level),
        ) + "}\n"@,
        intent_text(Intent::FocusWorkspace(id)) == "{\"t\":\"focus-workspace\",\"id\":"@
            + text::decimal_spec(id as nat) + "}\n"@,
{
}

} // verus!
