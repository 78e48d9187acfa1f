//! Messages of the companion protocol, version 1, and the bounds put on them.
//!
//! Everything that arrives on the socket is untrusted: a parsed state passes
//! through `sanitize_state` before anything else sees it.
use crate::moment::{elapsed, Moment};
use crate::scalar::Scalar;
use crate::text::{self, copy_text, text_model};
use vstd::prelude::*;
use vstd::string::StringExecFns;
use vstd::utf8::{decode_utf8, encode_utf8, valid_utf8};

verus! {

pub const MAX_LINE_BYTES: usize = 4096;

pub const MAX_GROUPS: usize = 4;

pub const MAX_WS_PER_GROUP: usize = 16;

pub const MAX_WS_IDX: u8 = 32;

pub const MAX_CLAUDE_SESSIONS: usize = 8;

pub const MAX_SESSION_ID_LEN: usize = 64;

pub const MAX_MEDIA_TITLE_CHARS: usize = 96;

pub const MAX_MEDIA_ARTIST_CHARS: usize = 80;

pub const MAX_MEDIA_ART_PATH_CHARS: usize = 512;

pub const SUPPORTED_VERSION: u64 = 1;

pub const MAX_CONSECUTIVE_INVALID: u32 = 8;

pub const MAX_MSGS_PER_WINDOW: u32 = 200;

pub const RATE_WINDOW_NANOS: u64 = 1_000_000_000;

const NEWLINE: u8 = 10;

/// One workspace: its compositor id, its label, and whether it holds windows
/// or has the focus.
#[derive(Clone, Copy, Debug, PartialEq, Eq, Structural)]
pub struct WsEntry {
    pub id: u64,
    pub idx: u8,
    pub occ: bool,
    pub foc: bool,
}

/// The workspaces of one output.
#[derive(Debug, PartialEq, Eq)]
pub struct OutputGroup {
    pub name: String,
    pub ws: Vec<WsEntry>,
}

#[derive(Clone, Copy, Debug, PartialEq, Eq, Structural)]
pub struct Vol {
    pub level: Scalar,
    pub muted: bool,
}

#[derive(Debug, PartialEq, Eq)]
pub struct ClaudeSession {
    pub id: String,
}

#[derive(Debug, PartialEq, Eq)]
pub struct ClaudePresence {
    pub sessions: Vec<ClaudeSession>,
}

/// The track that is playing.
#[derive(Debug, PartialEq, Eq)]
pub struct NowPlaying {
    pub title: String,
    pub artist: String,
    pub art_path: Option<String>,
}

/// A full snapshot of what the companion knows.
#[derive(Debug, PartialEq, Eq)]
pub struct StateMsg {
    pub outs: Vec<OutputGroup>,
    pub vol: Option<Vol>,
    pub claude: Option<ClaudePresence>,
    pub media: Option<NowPlaying>,
}

#[derive(Debug)]
pub enum HelperMessage {
    Hello { v: u64 },
    State(StateMsg),
}

#[verifier::ext_equal]
pub struct GroupModel {
    pub name: Seq<char>,
    pub ws: Seq<WsEntry>,
}

#[verifier::ext_equal]
pub struct MediaModel {
    pub title: Seq<char>,
    pub artist: Seq<char>,
    pub art_path: Option<Seq<char>>,
}

#[verifier::ext_equal]
pub struct StateModel {
    pub outs: Seq<GroupModel>,
    pub vol: Option<Vol>,
    pub claude: Option<Seq<Seq<char>>>,
    pub media: Option<MediaModel>,
}

pub enum MessageModel {
    Hello { v: u64 },
    State(StateModel),
}

impl View for OutputGroup {
    type V = GroupModel;

    open spec fn view(&self) -> GroupModel {
        GroupModel { name: self.name@, ws: self.ws@ }
    }
}

impl View for ClaudePresence {
    type V = Seq<Seq<char>>;

    open spec fn view(&self) -> Seq<Seq<char>> {
        self.sessions@.map_values(|s: ClaudeSession| s.id@)
    }
}

impl View for NowPlaying {
    type V = MediaModel;

    open spec fn view(&self) -> MediaModel {
        MediaModel {
            title: self.title@,
            artist: self.artist@,
            art_path: text_model(self.art_path),
        }
    }
}

impl Clone for NowPlaying {
    fn clone(&self) -> (r: NowPlaying)
        ensures
            r@ == self@,
    {
        NowPlaying {
            title: self.title.clone(),
            artist: self.artist.clone(),
            art_path: copy_text(&self.art_path),
        }
    }
}

pub open spec fn media_model(media: Option<NowPlaying>) -> Option<MediaModel> {
    match media {
        Some(m) => Some(m@),
        None => None,
    }
}

pub open spec fn claude_model(claude: Option<ClaudePresence>) -> Option<Seq<Seq<char>>> {
    match claude {
        Some(c) => Some(c@),
        None => None,
    }
}

pub open spec fn groups_model(groups: Seq<OutputGroup>) -> Seq<GroupModel> {
    groups.map_values(|g: OutputGroup| g@)
}

impl View for StateMsg {
    type V = StateModel;

    open spec fn view(&self) -> StateModel {
        StateModel {
            outs: groups_model(self.outs@),
            vol: self.vol,
            claude: claude_model(self.claude),
            media: media_model(self.media),
        }
    }
}

impl View for HelperMessage {
    type V = MessageModel;

    open spec fn view(&self) -> MessageModel {
        match self {
            HelperMessage::Hello { v } => MessageModel::Hello { v: *v },
            HelperMessage::State(s) => MessageModel::State(s@),
        }
    }
}

pub open spec fn empty_state() -> StateModel {
    StateModel { outs: Seq::empty(), vol: None, claude: None, media: None }
}

impl Default for StateMsg {
    fn default() -> (s: StateMsg)
        ensures
            s@ == empty_state(),
    {
        let s = StateMsg { outs: Vec::new(), vol: None, claude: None, media: None };
        assert(s@.outs =~= Seq::empty());
        s
    }
}

/// The first `n` elements of `s`, or all of them where there are fewer.
pub open spec fn at_most<A>(s: Seq<A>, n: nat) -> Seq<A> {
    if s.len() <= n {
        s
    } else {
        s.take(n as int)
    }
}

pub open spec fn idx_in_range(w: WsEntry) -> bool {
    1 <= w.idx <= MAX_WS_IDX
}

/// The entries of a group that are kept: of the first sixteen, those whose
/// label is in range.
pub open spec fn kept_entries(ws: Seq<WsEntry>) -> Seq<WsEntry> {
    at_most(ws, MAX_WS_PER_GROUP as nat).filter(|w: WsEntry| idx_in_range(w))
}

pub open spec fn any_focused(ws: Seq<WsEntry>) -> bool {
    exists|i: int| 0 <= i < ws.len() && (#[trigger] ws[i]).foc
}

/// `ws` with the focus left on its first focused entry, or on none where an
/// earlier group had it.
pub open spec fn focus_first(ws: Seq<WsEntry>, seen: bool) -> Seq<WsEntry> {
    Seq::new(
        ws.len(),
        |i: int| WsEntry { foc: ws[i].foc && !seen && !any_focused(ws.take(i)), ..ws[i] },
    )
}

/// The groups as they are rendered, where `seen` says whether an earlier
/// group had the focus. Groups that keep no entry vanish.
pub open spec fn clean_groups(groups: Seq<GroupModel>, seen: bool) -> Seq<GroupModel>
    decreases groups.len(),
{
    if groups.len() == 0 {
        Seq::empty()
    } else {
        let ws = kept_entries(groups[0].ws);
        let rest = clean_groups(groups.drop_first(), seen || any_focused(ws));
        if ws.len() == 0 {
            rest
        } else {
            seq![GroupModel { name: groups[0].name, ws: focus_first(ws, seen) }] + rest
        }
    }
}

pub open spec fn clean_volume(vol: Option<Vol>) -> Option<Vol> {
    match vol {
        Some(v) => Some(Vol { level: v.level.clamped(Scalar::zero(), Scalar::one()), ..v }),
        None => None,
    }
}

/// A session id of more than 64 bytes is cut to 64 characters.
pub open spec fn clean_session_id(id: Seq<char>) -> Seq<char> {
    if encode_utf8(id).len() > MAX_SESSION_ID_LEN {
        at_most(id, MAX_SESSION_ID_LEN as nat)
    } else {
        id
    }
}

pub open spec fn clean_sessions(ids: Seq<Seq<char>>) -> Seq<Seq<char>> {
    at_most(ids, MAX_CLAUDE_SESSIONS as nat).map_values(|id: Seq<char>| clean_session_id(id))
}

pub open spec fn clean_presence(claude: Option<Seq<Seq<char>>>) -> Option<Seq<Seq<char>>> {
    match claude {
        Some(ids) => Some(clean_sessions(ids)),
        None => None,
    }
}

/// Trimmed, without control characters, at most `max` characters.
pub open spec fn clean_text(value: Seq<char>, max: nat) -> Seq<char> {
    at_most(text::trimmed(value).filter(|c: char| !text::control(c)), max)
}

/// A trimmed path, where it is a short enough name of a PNG file in the
/// media directory.
pub open spec fn clean_art_path(value: Seq<char>) -> Option<Seq<char>> {
    let path = text::trimmed(value);
    if encode_utf8(path).len() <= MAX_MEDIA_ART_PATH_CHARS && text::ends_with(path, ".png"@)
        && text::starts_with(path, "/run/tiny-dfr-ben/media/"@) {
        Some(path)
    } else {
        None
    }
}

/// The media shown: nothing where the cleaned title is empty.
pub open spec fn clean_media(media: Option<MediaModel>) -> Option<MediaModel> {
    match media {
        Some(m) => {
            let title = clean_text(m.title, MAX_MEDIA_TITLE_CHARS as nat);
            if title.len() == 0 {
                None
            } else {
                Some(
                    MediaModel {
                        title,
                        artist: clean_text(m.artist, MAX_MEDIA_ARTIST_CHARS as nat),
                        art_path: match m.art_path {
                            Some(p) => clean_art_path(p),
                            None => None,
                        },
                    },
                )
            }
        },
        None => None,
    }
}

/// A state within the documented bounds.
pub open spec fn sanitized(state: StateModel) -> StateModel {
    StateModel {
        outs: clean_groups(at_most(state.outs, MAX_GROUPS as nat), false),
        vol: clean_volume(state.vol),
        claude: clean_presence(state.claude),
        media: clean_media(state.media),
    }
}

/// Cleans one group's entries; the flag says whether the focus has been seen
/// in this group or before it.
fn clean_entries(ws: &Vec<WsEntry>, seen: bool) -> (r: (Vec<WsEntry>, bool))
    ensures
        r.0@ == focus_first(kept_entries(ws@), seen),
        r.1 == (seen || any_focused(kept_entries(ws@))),
{
    let mut out: Vec<WsEntry> = Vec::new();
    let mut seen_focused: bool = seen;
    let end: usize = if ws.len() <= MAX_WS_PER_GROUP {
        ws.len()
    } else {
        MAX_WS_PER_GROUP
    };
    let ghost keep = |w: WsEntry| idx_in_range(w);
    let ghost head = at_most(ws@, MAX_WS_PER_GROUP as nat);
    let mut i: usize = 0;
    assert(head.take(0) =~= Seq::empty());
    proof {
        reveal(Seq::filter);
    }
    assert(focus_first(head.take(0).filter(keep), seen) =~= out@);
    while i < end
        invariant
            i <= end == head.len() <= ws@.len(),
            head == at_most(ws@, MAX_WS_PER_GROUP as nat),
            keep == (|w: WsEntry| idx_in_range(w)),
            out@ == focus_first(head.take(i as int).filter(keep), seen),
            seen_focused == (seen || any_focused(head.take(i as int).filter(keep))),
        decreases end - i,
    {
        let entry = ws[i];
        let ghost before = head.take(i as int).filter(keep);
        proof {
            reveal(Seq::filter);
            assert(head.take(i + 1).drop_last() =~= head.take(i as int));
            assert(head.take(i + 1).last() == entry);
        }
        if entry.idx >= 1 && entry.idx <= MAX_WS_IDX {
            let ghost after = before.push(entry);
            assert(head.take(i + 1).filter(keep) == after);
            proof {
                assert forall|j: int| 0 <= j < before.len() implies after.take(j)
                    == #[trigger] before.take(j) by {
                    assert(after.take(j) =~= before.take(j));
                }
                assert(after.take(before.len() as int) =~= before);
                if entry.foc {
                    assert(after[before.len() as int].foc);
                }
                if any_focused(before) {
                    let k = choose|k: int| 0 <= k < before.len() && (#[trigger] before[k]).foc;
                    assert(after[k].foc);
                }
            }
            out.push(WsEntry { foc: entry.foc && !seen_focused, ..entry });
            if entry.foc {
                seen_focused = true;
            }
            assert(out@ =~= focus_first(after, seen));
        } else {
            assert(head.take(i + 1).filter(keep) == before);
        }
        i = i + 1;
    }
    assert(head.take(end as int) =~= head);
    (out, seen_focused)
}

fn clean_outputs(outs: Vec<OutputGroup>) -> (r: Vec<OutputGroup>)
    ensures
        groups_model(r@) == clean_groups(at_most(groups_model(outs@), MAX_GROUPS as nat), false),
{
    let mut outs = outs;
    let ghost all = groups_model(outs@);
    outs.truncate(MAX_GROUPS);
    let ghost head = groups_model(outs@);
    assert(head =~= at_most(all, MAX_GROUPS as nat));
    let mut kept: Vec<OutputGroup> = Vec::new();
    let mut seen: bool = false;
    assert(head.skip(0) =~= head);
    assert(groups_model(kept@) + clean_groups(head, false) =~= clean_groups(head, false));
    for group in it: outs
        invariant
            groups_model(it.seq()) == head,
            groups_model(kept@) + clean_groups(head.skip(it.index()), seen) == clean_groups(
                head,
                false,
            ),
    {
        let ghost tail = head.skip(it.index());
        let ghost before = kept@;
        let ghost seen_before = seen;
        assert(tail[0] == group@);
        assert(tail.drop_first() =~= head.skip(it.index() + 1));
        let (ws, now_seen) = clean_entries(&group.ws, seen);
        let name = group.name;
        seen = now_seen;
        if ws.len() > 0 {
            kept.push(OutputGroup { name, ws });
            assert(groups_model(kept@) =~= groups_model(before).push(
                GroupModel { name: name@, ws: ws@ },
            ));
            assert(groups_model(kept@) + clean_groups(tail.drop_first(), seen) =~= groups_model(
                before,
            ) + clean_groups(tail, seen_before));
        }
    }
    assert(head.skip(head.len() as int) =~= Seq::empty());
    assert(groups_model(kept@) + Seq::<GroupModel>::empty() =~= groups_model(kept@));
    kept
}

/// The text of a media field: trimmed, control characters removed, at most
/// `max_chars` characters.
pub fn clean_media_text(value: &str, max_chars: usize) -> (r: String)
    ensures
        r@ == clean_text(value@, max_chars as nat),
{
    let chars = text::chars_of(value);
    let (from, to) = text::trim_range(&chars);
    let ghost body = chars@.subrange(from as int, to as int);
    let ghost keep = |c: char| !text::control(c);
    let mut out = String::new();
    let mut count: usize = 0;
    let mut i: usize = from;
    proof {
        reveal(Seq::filter);
        assert(body.take(0) =~= Seq::empty());
        assert(at_most(body.take(0).filter(keep), max_chars as nat) =~= out@);
    }
    while i < to
        invariant
            from <= i <= to <= chars@.len(),
            body == chars@.subrange(from as int, to as int),
            keep == (|c: char| !text::control(c)),
            count == out@.len() <= max_chars,
            out@ == at_most(body.take(i - from).filter(keep), max_chars as nat),
        decreases to - i,
    {
        let c = chars[i];
        let ghost before = body.take(i - from).filter(keep);
        proof {
            reveal(Seq::filter);
            assert(body.take(i - from + 1).drop_last() =~= body.take(i - from));
            assert(body.take(i - from + 1).last() == c);
        }
        if !text::is_control(c) && count < max_chars {
            out.push(c);
            count = count + 1;
        }
        proof {
            assert(at_most(before.push(c), max_chars as nat) =~= if before.len() < max_chars {
                before.push(c)
            } else {
                at_most(before, max_chars as nat)
            });
        }
        i = i + 1;
    }
    assert(body.take(to - from) =~= body);
    out
}

/// The album-art path, where it may be used at all.
pub fn clean_media_art_path(value: String) -> (r: Option<String>)
    ensures
        text_model(r) == clean_art_path(value@),
{
    let chars = text::chars_of(value.as_str());
    let (from, to) = text::trim_range(&chars);
    let path = text::string_of(&chars, from, to);
    let trimmed = text::chars_of(path.as_str());
    if path.as_str().as_bytes().len() > MAX_MEDIA_ART_PATH_CHARS || !text::has_suffix(
        &trimmed,
        ".png",
    ) || !text::has_prefix(&trimmed, "/run/tiny-dfr-ben/media/") {
        return None;
    }
    Some(path)
}

fn clean_claude(claude: ClaudePresence) -> (r: ClaudePresence)
    ensures
        r@ == clean_sessions(claude@),
{
    let mut sessions = claude.sessions;
    let ghost all = claude@;
    sessions.truncate(MAX_CLAUDE_SESSIONS);
    let ghost head = sessions@.map_values(|s: ClaudeSession| s.id@);
    assert(head =~= at_most(all, MAX_CLAUDE_SESSIONS as nat));
    let mut kept: Vec<ClaudeSession> = Vec::new();
    for session in it: sessions
        invariant
            it.seq().map_values(|s: ClaudeSession| s.id@) == head,
            kept@.len() == it.index(),
            forall|j: int| 0 <= j < kept@.len() ==> (#[trigger] kept@[j]).id@ == clean_session_id(
                head[j],
            ),
    {
        assert(head[it.index()] == session.id@);
        if session.id.as_str().as_bytes().len() > MAX_SESSION_ID_LEN {
            let chars = text::chars_of(session.id.as_str());
            let end: usize = if chars.len() <= MAX_SESSION_ID_LEN {
                chars.len()
            } else {
                MAX_SESSION_ID_LEN
            };
            let id = text::string_of(&chars, 0, end);
            assert(id@ =~= at_most(chars@, MAX_SESSION_ID_LEN as nat));
            kept.push(ClaudeSession { id });
        } else {
            kept.push(session);
        }
    }
    let r = ClaudePresence { sessions: kept };
    assert(r@ =~= clean_sessions(all));
    r
}

fn clean_now_playing(media: NowPlaying) -> (r: Option<NowPlaying>)
    ensures
        media_model(r) == clean_media(Some(media@)),
{
    let title = clean_media_text(media.title.as_str(), MAX_MEDIA_TITLE_CHARS);
    let artist = clean_media_text(media.artist.as_str(), MAX_MEDIA_ARTIST_CHARS);
    let art_path = match media.art_path {
        Some(path) => clean_media_art_path(path),
        None => None,
    };
    if title.as_str().is_empty() {
        None
    } else {
        Some(NowPlaying { title, artist, art_path })
    }
}

/// Enforces the documented bounds on a parsed state: at most four groups of
/// sixteen entries, labels within range, a single focused workspace (the
/// first wins), no empty group, volume within its range, bounded session ids
/// and media text.
pub fn sanitize_state(state: StateMsg) -> (r: StateMsg)
    ensures
        r@ == sanitized(state@),
{
    let outs = clean_outputs(state.outs);
    let vol = match state.vol {
        Some(vol) => Some(
            Vol { level: vol.level.clamp(Scalar::zero(), Scalar::one()), muted: vol.muted },
        ),
        None => None,
    };
    let claude = match state.claude {
        Some(claude) => Some(clean_claude(claude)),
        None => None,
    };
    let media = match state.media {
        Some(media) => clean_now_playing(media),
        None => None,
    };
    StateMsg { outs, vol, claude, media }
}

/// What a touch asks the companion to do.
#[derive(Clone, Copy, Debug, PartialEq, Eq, Structural)]
pub enum Intent {
    SetVolume(Scalar),
    FocusWorkspace(u64),
}

/// The level that is sent: within its range, and 0 for what is no number.
pub open spec fn sent_level(level: Scalar) -> Scalar {
    if level.finite() {
        level.clamped(Scalar::zero(), Scalar::one())
    } else {
        Scalar::zero()
    }
}

/// A level with four decimal places.
pub open spec fn level_text(level: Scalar) -> Seq<char> {
    let t = level.ten_thousandths_spec() as int;
    let sign = if level.negative() {
        seq!['-']
    } else {
        Seq::empty()
    };
    sign + text::decimal_spec((t / 10000) as nat) + seq![
        '.',
        text::digit_char(t / 1000 % 10),
        text::digit_char(t / 100 % 10),
        text::digit_char(t / 10 % 10),
        text::digit_char(t % 10),
    ]
}

/// An intent as one line of the protocol.
pub open spec fn intent_text(intent: Intent) -> Seq<char> {
    match intent {
        Intent::SetVolume(level) => "{\"t\":\"set-volume\",\"level\":"@ + level_text(
            sent_level(level),
        ) + "}\n"@,
        Intent::FocusWorkspace(id) => "{\"t\":\"focus-workspace\",\"id\":"@ + text::decimal_spec(
            id as nat,
        ) + "}\n"@,
    }
}

fn encode_level(level: Scalar) -> (s: String)
    requires
        level.magnitude_spec() <= crate::scalar::ONE_BITS,
    ensures
        s@ == level_text(level),
{
    let t: u64 = level.ten_thousandths() as u64;
    let mut s = String::new();
    if level.bits >= crate::scalar::SIGN {
        s.push('-');
        assert(s@ =~= seq!['-']);
    }
    let ghost sign = s@;
    s.append(text::decimal(t / 10000).as_str());
    let ghost head = s@;
    s.push('.');
    s.push(text::digit(t / 1000 % 10));
    s.push(text::digit(t / 100 % 10));
    s.push(text::digit(t / 10 % 10));
    s.push(text::digit(t % 10));
    assert(s@ =~= head + seq![
        '.',
        text::digit_char((t / 1000 % 10) as int),
        text::digit_char((t / 100 % 10) as int),
        text::digit_char((t / 10 % 10) as int),
        text::digit_char((t % 10) as int),
    ]);
    s
}

/// The line that carries an intent to the companion.
pub fn encode_intent(intent: &Intent) -> (s: String)
    ensures
        s@ == intent_text(*intent),
{
    match intent {
        Intent::SetVolume(level) => {
            let level: Scalar = if level.is_finite() {
                level.clamp(Scalar::zero(), Scalar::one())
            } else {
                Scalar::zero()
            };
            let mut s = String::new();
            s.append("{\"t\":\"set-volume\",\"level\":");
            s.append(encode_level(level).as_str());
            s.append("}\n");
            assert(s@ =~= intent_text(*intent));
            s
        },
        Intent::FocusWorkspace(id) => {
            let mut s = String::new();
            s.append("{\"t\":\"focus-workspace\",\"id\":");
            s.append(text::decimal(*id).as_str());
            s.append("}\n");
            assert(s@ =~= intent_text(*intent));
            s
        },
    }
}

/// Reassembles newline-terminated lines from arbitrary read chunks. A line
/// longer than the limit, terminated or still accumulating, is a violation
/// that ends the connection.
#[derive(Debug)]
pub struct LineBuffer {
    buf: Vec<u8>,
}

#[derive(Debug, PartialEq, Eq)]
pub struct LineOverflow;

impl View for LineBuffer {
    type V = Seq<u8>;

    closed spec fn view(&self) -> Seq<u8> {
        self.buf@
    }
}

/// Length of the first line of `s`: up to its newline, or all of it where
/// there is none.
pub open spec fn line_end(s: Seq<u8>) -> nat
    decreases s.len(),
{
    if s.len() == 0 || s[0] == 10 {
        0
    } else {
        1 + line_end(s.drop_first())
    }
}

/// What the accumulated bytes amount to: complete lines, without their
/// newlines, up to the first that is too long; what is left behind them; and
/// whether some line was too long.
pub struct Feed {
    pub lines: Seq<Seq<u8>>,
    pub rest: Seq<u8>,
    pub overflow: bool,
}

pub open spec fn feed(buf: Seq<u8>) -> Feed
    decreases buf.len(),
{
    let end = line_end(buf) as int;
    if end >= buf.len() {
        Feed { lines: Seq::empty(), rest: buf, overflow: buf.len() > MAX_LINE_BYTES }
    } else if end > MAX_LINE_BYTES {
        Feed { lines: Seq::empty(), rest: buf.skip(end + 1), overflow: true }
    } else {
        let next = feed(buf.skip(end + 1));
        Feed { lines: seq![buf.take(end)] + next.lines, ..next }
    }
}

/// The text of a byte sequence with every ill-formed part replaced.
pub uninterp spec fn lossy_utf8(bytes: Seq<u8>) -> Seq<char>;

/// `String::from_utf8_lossy`: the text depends on the bytes alone, and bytes
/// that are well-formed UTF-8 come out as the characters they encode. What
/// stands in place of an ill-formed part is not stated.
#[verifier::external_body]
fn text_from_bytes(bytes: &Vec<u8>) -> (s: String)
    ensures
        s@ == lossy_utf8(bytes@),
        valid_utf8(bytes@) ==> s@ == decode_utf8(bytes@),
{
    String::from_utf8_lossy(bytes).into_owned()
}

pub(crate) proof fn lemma_line_end(s: Seq<u8>)
    ensures
        line_end(s) <= s.len(),
        line_end(s) < s.len() ==> s[line_end(s) as int] == 10,
        forall|i: int| 0 <= i < line_end(s) ==> s[i] != 10,
    decreases s.len(),
{
    if s.len() > 0 && s[0] != 10 {
        lemma_line_end(s.drop_first());
        assert forall|i: int| 0 <= i < line_end(s) implies s[i] != 10 by {
            if i > 0 {
                assert(s[i] == s.drop_first()[i - 1]);
            }
        }
    }
}

proof fn lemma_line_end_unique(s: Seq<u8>, n: nat)
    requires
        n <= s.len(),
        n < s.len() ==> s[n as int] == 10,
        forall|i: int| 0 <= i < n ==> s[i] != 10,
    ensures
        line_end(s) == n,
{
    lemma_line_end(s);
    if line_end(s) < n {
        assert(s[line_end(s) as int] != 10);
    } else if n < line_end(s) {
        assert(s[n as int] != 10);
    }
}

impl LineBuffer {
    pub fn new() -> (b: LineBuffer)
        ensures
            b@ == Seq::<u8>::empty(),
    {
        LineBuffer { buf: Vec::new() }
    }

    /// Length of the first line in the buffer.
    fn first_line(&self) -> (n: usize)
        ensures
            n == line_end(self@),
    {
        let mut n: usize = 0;
        while n < self.buf.len() && self.buf[n] != NEWLINE
            invariant
                n <= self.buf@.len(),
                forall|i: int| 0 <= i < n ==> self.buf@[i] != 10,
            decreases self.buf@.len() - n,
        {
            n = n + 1;
        }
        proof {
            lemma_line_end_unique(self@, n as nat);
        }
        n
    }

    /// Takes in `data` and gives back the lines it completes, as bytes.
    pub fn push_bytes(&mut self, data: &[u8]) -> (r: Result<Vec<Vec<u8>>, LineOverflow>)
        ensures
            final(self)@ == feed(old(self)@ + data@).rest,
            r is Err <==> feed(old(self)@ + data@).overflow,
            r matches Ok(lines) ==> {
                &&& lines@.len() == feed(old(self)@ + data@).lines.len()
                &&& forall|i: int|
                    0 <= i < lines@.len() ==> (#[trigger] lines@[i])@ == feed(
                        old(self)@ + data@,
                    ).lines[i]
            },
    {
        let ghost all = self@ + data@;
        self.buf.extend_from_slice(data);
        assert(self.buf@ =~= all);
        let mut lines: Vec<Vec<u8>> = Vec::new();
        let mut end: usize = self.first_line();
        while end < self.buf.len()
            invariant
                all == old(self)@ + data@,
                end == line_end(self.buf@),
                feed(all).rest == feed(self.buf@).rest,
                feed(all).overflow == feed(self.buf@).overflow,
                feed(all).lines.len() == lines@.len() + feed(self.buf@).lines.len(),
                forall|i: int|
                    0 <= i < lines@.len() ==> (#[trigger] lines@[i])@ == feed(all).lines[i],
                forall|i: int|
                    0 <= i < feed(self.buf@).lines.len() ==> #[trigger] feed(self.buf@).lines[i]
                        == feed(all).lines[lines@.len() + i],
            decreases self.buf@.len(),
        {
            let ghost before = self.buf@;
            let rest = self.buf.split_off(end + 1);
            let mut line = rest;
            std::mem::swap(&mut self.buf, &mut line);
            let newline = line.pop();
            assert(line@ =~= before.take(end as int));
            assert(self.buf@ =~= before.skip(end + 1));
            if line.len() > MAX_LINE_BYTES {
                return Err(LineOverflow);
            }
            proof {
                let next = feed(before.skip(end + 1));
                assert(feed(before).lines[0] == line@);
                assert forall|i: int| 0 <= i < next.lines.len() implies #[trigger] next.lines[i]
                    == feed(all).lines[lines@.len() + 1 + i] by {
                    assert(feed(before).lines[i + 1] == next.lines[i]);
                }
            }
            lines.push(line);
            end = self.first_line();
        }
        proof {
            lemma_line_end(self.buf@);
        }
        if self.buf.len() > MAX_LINE_BYTES {
            return Err(LineOverflow);
        }
        Ok(lines)
    }

    /// Takes in `data` and gives back the lines it completes, as text.
    /// Ill-formed UTF-8 is replaced: such a line fails to parse later on and
    /// counts against the error budget.
    pub fn push(&mut self, data: &[u8]) -> (r: Result<Vec<String>, LineOverflow>)
        ensures
            final(self)@ == feed(old(self)@ + data@).rest,
            r is Err <==> feed(old(self)@ + data@).overflow,
            r matches Ok(lines) ==> {
                &&& lines@.len() == feed(old(self)@ + data@).lines.len()
                &&& forall|i: int|
                    0 <= i < lines@.len() ==> {
                        let bytes = feed(old(self)@ + data@).lines[i];
                        &&& (#[trigger] lines@[i])@ == lossy_utf8(bytes)
                        &&& valid_utf8(bytes) ==> lines@[i]@ == decode_utf8(bytes)
                    }
            },
    {
        let ghost parts = feed(self@ + data@).lines;
        let raw = match self.push_bytes(data) {
            Ok(raw) => raw,
            Err(overflow) => {
                return Err(overflow);
            },
        };
        let mut lines: Vec<String> = Vec::new();
        let mut i: usize = 0;
        while i < raw.len()
            invariant
                i <= raw@.len() == parts.len(),
                lines@.len() == i,
                forall|j: int| 0 <= j < raw@.len() ==> (#[trigger] raw@[j])@ == parts[j],
                forall|j: int|
                    0 <= j < i ==> {
                        &&& (#[trigger] lines@[j])@ == lossy_utf8(parts[j])
                        &&& valid_utf8(parts[j]) ==> lines@[j]@ == decode_utf8(parts[j])
                    },
            decreases raw@.len() - i,
        {
            lines.push(text_from_bytes(&raw[i]));
            i = i + 1;
        }
        Ok(lines)
    }
}

/// Per-connection error accounting: eight invalid lines in a row, or more
/// messages in one window than the limit, end the connection.
#[derive(Debug)]
pub struct ErrorBudget {
    consecutive_invalid: u32,
    window_start: Option<Moment>,
    msgs_in_window: u32,
}

pub struct BudgetModel {
    pub invalid: nat,
    pub window_start: Option<Moment>,
    pub messages: nat,
}

impl View for ErrorBudget {
    type V = BudgetModel;

    closed spec fn view(&self) -> BudgetModel {
        BudgetModel {
            invalid: self.consecutive_invalid as nat,
            window_start: self.window_start,
            messages: self.msgs_in_window as nat,
        }
    }
}

pub open spec fn fresh_budget() -> BudgetModel {
    BudgetModel { invalid: 0, window_start: None, messages: 0 }
}

/// Accounting of one more message: it joins the open window, or opens a new
/// one.
pub open spec fn count_message(b: BudgetModel, now: Moment) -> BudgetModel {
    match b.window_start {
        Some(start) if elapsed(now, start) < RATE_WINDOW_NANOS => BudgetModel {
            messages: b.messages + 1,
            ..b
        },
        _ => BudgetModel { window_start: Some(now), messages: 1, ..b },
    }
}

/// Whether a window holds more messages than allowed.
pub open spec fn flooded(b: BudgetModel) -> bool {
    b.messages > MAX_MSGS_PER_WINDOW
}

impl ErrorBudget {
    pub fn new() -> (b: ErrorBudget)
        ensures
            b@ == fresh_budget(),
    {
        ErrorBudget { consecutive_invalid: 0, window_start: None, msgs_in_window: 0 }
    }

    /// Counts an invalid line; true once the budget is exhausted.
    pub fn on_invalid(&mut self) -> (exhausted: bool)
        requires
            old(self)@.invalid < u32::MAX,
        ensures
            final(self)@ == (BudgetModel { invalid: old(self)@.invalid + 1, ..old(self)@ }),
            exhausted == (old(self)@.invalid + 1 >= MAX_CONSECUTIVE_INVALID),
    {
        self.consecutive_invalid = self.consecutive_invalid + 1;
        self.consecutive_invalid >= MAX_CONSECUTIVE_INVALID
    }

    /// A valid line: the count of invalid ones starts over.
    pub fn on_valid(&mut self)
        ensures
            final(self)@ == (BudgetModel { invalid: 0, ..old(self)@ }),
    {
        self.consecutive_invalid = 0;
    }

    /// Rate accounting for every line, valid or not; true means a flood.
    pub fn on_message(&mut self, now: Moment) -> (flood: bool)
        requires
            old(self)@.messages < u32::MAX,
        ensures
            final(self)@ == count_message(old(self)@, now),
            flood == flooded(final(self)@),
    {
        match self.window_start {
            Some(start) if now.since(start) < RATE_WINDOW_NANOS => {
                self.msgs_in_window = self.msgs_in_window + 1;
                self.msgs_in_window > MAX_MSGS_PER_WINDOW
            },
            _ => {
                self.window_start = Some(now);
                self.msgs_in_window = 1;
                false
            },
        }
    }
}

} // verus!
