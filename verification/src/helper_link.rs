//! The daemon's end of the companion socket: one client at a time, the newest
//! wins. Bytes come in from outside and whole lines go out to be parsed; the
//! parsed messages come back and drive the session.
use crate::helper_proto::{
    count_message, empty_state, encode_intent, feed, flooded, fresh_budget, intent_text,
    lossy_utf8, sanitize_state, sanitized, BudgetModel, ErrorBudget, GroupModel, HelperMessage,
    Intent, LineBuffer, MessageModel, StateModel, StateMsg, WsEntry, MAX_CONSECUTIVE_INVALID,
    MAX_MSGS_PER_WINDOW, SUPPORTED_VERSION,
};
use crate::moment::{elapsed, remainder, wait_left, wait_millis, Moment};
use crate::scalar::Scalar;
use crate::strip::model_of;
use vstd::prelude::*;
use vstd::utf8::{decode_utf8, encode_utf8, valid_utf8};

verus! {

/// Three missed heartbeats of two seconds.
pub const STALE_AFTER_NANOS: u64 = 6_000_000_000;

/// Why a connection has to end.
#[derive(Clone, Copy, Debug, PartialEq, Eq, Structural)]
pub enum Violation {
    OversizeLine,
    Flood,
    UnsupportedVersion(u64),
    NoHello,
    TooManyInvalid,
}

/// One connection: bytes of an unfinished line, the error accounting, and
/// whether the handshake is done.
#[derive(Debug)]
pub struct Client {
    buffer: LineBuffer,
    budget: ErrorBudget,
    hello_done: bool,
}

#[verifier::ext_equal]
pub struct ClientModel {
    pub pending: Seq<u8>,
    pub budget: BudgetModel,
    pub hello_done: bool,
}

/// What a batch of messages came to: the states it brought, in order, and
/// the violation that ended it.
#[derive(Debug)]
pub struct Ingest {
    pub states: Vec<StateMsg>,
    pub disconnect: Option<Violation>,
}

impl View for Client {
    type V = ClientModel;

    closed spec fn view(&self) -> ClientModel {
        ClientModel {
            pending: self.buffer@,
            budget: self.budget@,
            hello_done: self.hello_done,
        }
    }
}

pub open spec fn fresh_client() -> ClientModel {
    ClientModel { pending: Seq::empty(), budget: fresh_budget(), hello_done: false }
}

/// Within its error budget.
pub open spec fn usable(c: ClientModel) -> bool {
    c.budget.invalid < MAX_CONSECUTIVE_INVALID && c.budget.messages <= MAX_MSGS_PER_WINDOW
}

pub open spec fn message_model(m: Option<HelperMessage>) -> Option<MessageModel> {
    match m {
        Some(m) => Some(m@),
        None => None,
    }
}

pub open spec fn message_models(ms: Seq<Option<HelperMessage>>) -> Seq<Option<MessageModel>> {
    ms.map_values(|m: Option<HelperMessage>| message_model(m))
}

pub open spec fn state_models(states: Seq<StateMsg>) -> Seq<StateModel> {
    states.map_values(|s: StateMsg| s@)
}

/// What one line does to a session: the session after it, the state it
/// brought, and the violation it amounts to.
pub struct Step {
    pub client: ClientModel,
    pub state: Option<StateModel>,
    pub violation: Option<Violation>,
}

/// One line of a session; `None` is a line that did not parse. The first
/// valid line must be a hello of the supported version. After that states
/// count as valid and everything else against the budget.
pub open spec fn step(c: ClientModel, m: Option<MessageModel>, now: Moment) -> Step {
    let budget = count_message(c.budget, now);
    let counted = ClientModel { budget, ..c };
    let valid = BudgetModel { invalid: 0, ..budget };
    let invalid = BudgetModel { invalid: budget.invalid + 1, ..budget };
    if flooded(budget) {
        Step { client: counted, state: None, violation: Some(Violation::Flood) }
    } else if !c.hello_done {
        match m {
            Some(MessageModel::Hello { v }) => if v == SUPPORTED_VERSION {
                Step {
                    client: ClientModel { budget: valid, hello_done: true, ..c },
                    state: None,
                    violation: None,
                }
            } else {
                Step {
                    client: counted,
                    state: None,
                    violation: Some(Violation::UnsupportedVersion(v)),
                }
            },
            _ => Step { client: counted, state: None, violation: Some(Violation::NoHello) },
        }
    } else {
        match m {
            Some(MessageModel::State(s)) => Step {
                client: ClientModel { budget: valid, ..c },
                state: Some(sanitized(s)),
                violation: None,
            },
            _ => Step {
                client: ClientModel { budget: invalid, ..c },
                state: None,
                violation: if invalid.invalid >= MAX_CONSECUTIVE_INVALID {
                    Some(Violation::TooManyInvalid)
                } else {
                    None
                },
            },
        }
    }
}

pub struct Session {
    pub client: ClientModel,
    pub states: Seq<StateModel>,
    pub violation: Option<Violation>,
}

pub open spec fn option_seq<A>(a: Option<A>) -> Seq<A> {
    match a {
        Some(a) => seq![a],
        None => Seq::empty(),
    }
}

/// A run of lines that arrived together, up to the first violation.
pub open spec fn session(c: ClientModel, ms: Seq<Option<MessageModel>>, now: Moment) -> Session
    decreases ms.len(),
{
    if ms.len() == 0 {
        Session { client: c, states: Seq::empty(), violation: None }
    } else {
        let first = step(c, ms[0], now);
        if first.violation is Some {
            Session {
                client: first.client,
                states: option_seq(first.state),
                violation: first.violation,
            }
        } else {
            let rest = session(first.client, ms.drop_first(), now);
            Session { states: option_seq(first.state) + rest.states, ..rest }
        }
    }
}

impl Client {
    pub fn new() -> (c: Client)
        ensures
            c@ == fresh_client(),
    {
        Client { buffer: LineBuffer::new(), budget: ErrorBudget::new(), hello_done: false }
    }

    /// Whether the handshake is done.
    pub fn is_greeted(&self) -> (r: bool)
        ensures
            r == self@.hello_done,
    {
        self.hello_done
    }

    /// Takes in one read's worth of bytes and gives back the lines that it
    /// completes.
    pub fn receive(&mut self, data: &[u8]) -> (r: Result<Vec<String>, Violation>)
        ensures
            final(self)@ == (ClientModel {
                pending: feed(old(self)@.pending + data@).rest,
                ..old(self)@
            }),
            match r {
                Ok(lines) => {
                    let parts = feed(old(self)@.pending + data@).lines;
                    &&& !feed(old(self)@.pending + data@).overflow
                    &&& lines@.len() == parts.len()
                    &&& forall|i: int|
                        0 <= i < lines@.len() ==> {
                            &&& (#[trigger] lines@[i])@ == lossy_utf8(parts[i])
                            &&& valid_utf8(parts[i]) ==> lines@[i]@ == decode_utf8(parts[i])
                        }
                },
                Err(v) => v == Violation::OversizeLine && feed(
                    old(self)@.pending + data@,
                ).overflow,
            },
    {
        match self.buffer.push(data) {
            Ok(lines) => Ok(lines),
            Err(_) => Err(Violation::OversizeLine),
        }
    }

    /// Runs the parsed lines of one read through the session; `None` is a
    /// line that did not parse.
    pub fn ingest(&mut self, messages: Vec<Option<HelperMessage>>, now: Moment) -> (out: Ingest)
        requires
            old(self)@.budget.invalid < u32::MAX,
            old(self)@.budget.messages < u32::MAX,
        ensures
            final(self)@ == session(old(self)@, message_models(messages@), now).client,
            state_models(out.states@) == session(
                old(self)@,
                message_models(messages@),
                now,
            ).states,
            out.disconnect == session(old(self)@, message_models(messages@), now).violation,
            usable(old(self)@) && out.disconnect is None ==> usable(final(self)@),
    {
        let ghost start = self@;
        let ghost models = message_models(messages@);
        let ghost whole = session(start, models, now);
        let mut states: Vec<StateMsg> = Vec::new();
        assert(models.skip(0) =~= models);
        assert(state_models(states@) + whole.states =~= whole.states);
        for message in it: messages
            invariant
                start == old(self)@,
                whole == session(start, models, now),
                message_models(it.seq()) == models,
                models == message_models(messages@),
                self@.budget.invalid < u32::MAX,
                self@.budget.messages < u32::MAX,
                usable(start) ==> usable(self@),
                session(self@, models.skip(it.index()), now).client == whole.client,
                session(self@, models.skip(it.index()), now).violation == whole.violation,
                state_models(states@) + session(self@, models.skip(it.index()), now).states
                    == whole.states,
        {
            let ghost before = self@;
            let ghost tail = models.skip(it.index());
            assert(tail[0] == message_model(message));
            assert(tail.drop_first() =~= models.skip(it.index() + 1));
            let ghost now_states = states@;
            assert(state_models(now_states) + Seq::<StateModel>::empty() =~= state_models(
                now_states,
            ));
            if self.budget.on_message(now) {
                return Ingest { states, disconnect: Some(Violation::Flood) };
            }
            if !self.hello_done {
                match message {
                    Some(HelperMessage::Hello { v }) => {
                        if v != SUPPORTED_VERSION {
                            return Ingest {
                                states,
                                disconnect: Some(Violation::UnsupportedVersion(v)),
                            };
                        }
                        self.hello_done = true;
                        self.budget.on_valid();
                    },
                    _ => {
                        return Ingest { states, disconnect: Some(Violation::NoHello) };
                    },
                }
            } else {
                match message {
                    Some(HelperMessage::State(state)) => {
                        states.push(sanitize_state(state));
                        self.budget.on_valid();
                        assert(state_models(states@) =~= state_models(now_states).push(
                            sanitized(state@),
                        ));
                    },
                    _ => {
                        if self.budget.on_invalid() {
                            return Ingest {
                                states,
                                disconnect: Some(Violation::TooManyInvalid),
                            };
                        }
                    },
                }
            }
            proof {
                let first = step(before, tail[0], now);
                let rest = session(first.client, tail.drop_first(), now);
                assert(self@ =~= first.client);
                assert(state_models(states@) + rest.states =~= state_models(now_states) + (
                option_seq(first.state) + rest.states));
            }
        }
        assert(models.skip(models.len() as int) =~= Seq::empty());
        assert(state_models(states@) + Seq::<StateModel>::empty() =~= state_models(states@));
        Ingest { states, disconnect: None }
    }
}

/// Only the session's owner and root may connect.
pub fn peer_allowed(peer_uid: u32, allowed_uid: u32) -> (r: bool)
    ensures
        r == (peer_uid == allowed_uid || peer_uid == 0),
{
    peer_uid == allowed_uid || peer_uid == 0
}

/// The link to the companion. The state last received survives a
/// disconnection, so that a quick reconnect does not flash the fallback; the
/// staleness clock bounds how long it is shown.
#[derive(Debug)]
pub struct HelperLink {
    client: Option<Client>,
    allowed_uid: u32,
    state: StateMsg,
    last_state_at: Option<Moment>,
}

#[verifier::ext_equal]
pub struct LinkModel {
    pub client: Option<ClientModel>,
    pub allowed_uid: u32,
    pub state: StateModel,
    pub last_state_at: Option<Moment>,
}

pub open spec fn client_model(c: Option<Client>) -> Option<ClientModel> {
    match c {
        Some(c) => Some(c@),
        None => None,
    }
}

impl View for HelperLink {
    type V = LinkModel;

    closed spec fn view(&self) -> LinkModel {
        LinkModel {
            client: client_model(self.client),
            allowed_uid: self.allowed_uid,
            state: self.state@,
            last_state_at: self.last_state_at,
        }
    }
}

/// A new connection's fate. Where it is accepted the client before it is
/// gone, and `replaced` says whether there was one.
#[derive(Clone, Copy, Debug, PartialEq, Eq, Structural)]
pub enum Offer {
    Refused,
    Accepted { replaced: bool },
}

/// What a batch of messages did to the link.
#[derive(Clone, Copy, Debug, PartialEq, Eq, Structural)]
pub struct Applied {
    pub applied: bool,
    pub disconnect: Option<Violation>,
}

/// The link after a batch from its client.
pub open spec fn link_after(l: LinkModel, s: Session, now: Moment) -> LinkModel {
    LinkModel {
        client: if s.violation is Some {
            None
        } else {
            Some(s.client)
        },
        state: if s.states.len() > 0 {
            s.states.last()
        } else {
            l.state
        },
        last_state_at: if s.states.len() > 0 {
            Some(now)
        } else {
            l.last_state_at
        },
        ..l
    }
}

/// Connected, and the last state is younger than the staleness limit.
pub open spec fn fresh(l: LinkModel, now: Moment) -> bool {
    l.client is Some && (l.last_state_at matches Some(at) && elapsed(now, at) < STALE_AFTER_NANOS)
}

/// The workspaces of a state, output by output.
pub open spec fn workspaces_spec(state: StateModel) -> Seq<Seq<WsEntry>> {
    state.outs.map_values(|g: GroupModel| g.ws)
}

impl LinkModel {
    /// The connected client is within its error budget.
    pub open spec fn wf(self) -> bool {
        self.client matches Some(c) ==> usable(c)
    }
}

impl HelperLink {
    /// A link without a client and without any state.
    pub fn new(allowed_uid: u32) -> (l: HelperLink)
        ensures
            l@.wf(),
            l@ == (LinkModel {
                client: None,
                allowed_uid,
                state: empty_state(),
                last_state_at: None,
            }),
    {
        HelperLink { client: None, allowed_uid, state: StateMsg::default(), last_state_at: None }
    }

    /// Whether a client is connected.
    pub fn is_connected(&self) -> (r: bool)
        ensures
            r == (self@.client is Some),
    {
        self.client.is_some()
    }

    /// Drops the client, if there is one; says whether there was.
    pub fn drop_client(&mut self) -> (dropped: bool)
        ensures
            final(self)@ == (LinkModel { client: None, ..old(self)@ }),
            dropped == (old(self)@.client is Some),
    {
        let dropped = self.client.is_some();
        self.client = None;
        dropped
    }

    /// A connection came in. Its peer's uid is `None` where the credentials
    /// could not be read; `nonblocking` says whether the socket could be made
    /// so. Where the offer is accepted the client before it is dropped.
    pub fn offer(&mut self, uid: Option<u32>, nonblocking: bool) -> (r: Offer)
        ensures
            r == (if nonblocking && (uid matches Some(u) && (u == old(self)@.allowed_uid || u
                == 0)) {
                Offer::Accepted { replaced: old(self)@.client is Some }
            } else {
                Offer::Refused
            }),
            final(self)@ == (if r is Refused {
                old(self)@
            } else {
                LinkModel { client: None, ..old(self)@ }
            }),
    {
        let allowed = match uid {
            Some(uid) => peer_allowed(uid, self.allowed_uid),
            None => false,
        };
        if allowed && nonblocking {
            let replaced = self.drop_client();
            Offer::Accepted { replaced }
        } else {
            Offer::Refused
        }
    }

    /// The accepted connection is being watched: it becomes the client.
    pub fn attach(&mut self)
        ensures
            final(self)@ == (LinkModel { client: Some(fresh_client()), ..old(self)@ }),
            final(self)@.wf(),
    {
        self.client = Some(Client::new());
    }

    /// Bytes from the client. A line that is too long drops it.
    pub fn receive(&mut self, data: &[u8]) -> (r: Result<Vec<String>, Violation>)
        requires
            old(self)@.wf(),
            old(self)@.client is Some,
        ensures
            final(self)@.wf(),
            ({
                let c = old(self)@.client->0;
                let fed = feed(c.pending + data@);
                &&& r is Err <==> fed.overflow
                &&& final(self)@ == (LinkModel {
                    client: if fed.overflow {
                        None
                    } else {
                        Some(ClientModel { pending: fed.rest, ..c })
                    },
                    ..old(self)@
                })
                &&& r matches Err(v) ==> v == Violation::OversizeLine
                &&& r matches Ok(lines) ==> {
                    &&& lines@.len() == fed.lines.len()
                    &&& forall|i: int|
                        0 <= i < lines@.len() ==> {
                            &&& (#[trigger] lines@[i])@ == lossy_utf8(fed.lines[i])
                            &&& valid_utf8(fed.lines[i]) ==> lines@[i]@ == decode_utf8(
                                fed.lines[i],
                            )
                        }
                }
            }),
    {
        let mut client: Option<Client> = None;
        std::mem::swap(&mut self.client, &mut client);
        match client {
            Some(mut client) => {
                let r = client.receive(data);
                if r.is_ok() {
                    self.client = Some(client);
                }
                r
            },
            None => Ok(Vec::new()),
        }
    }

    /// The parsed lines of one read from the client. The newest state is
    /// kept; a violation drops the client.
    pub fn apply(&mut self, messages: Vec<Option<HelperMessage>>, now: Moment) -> (r: Applied)
        requires
            old(self)@.wf(),
            old(self)@.client is Some,
        ensures
            final(self)@.wf(),
            ({
                let s = session(old(self)@.client->0, message_models(messages@), now);
                &&& final(self)@ == link_after(old(self)@, s, now)
                &&& r == (Applied { applied: s.states.len() > 0, disconnect: s.violation })
            }),
    {
        let mut client: Option<Client> = None;
        std::mem::swap(&mut self.client, &mut client);
        match client {
            Some(mut client) => {
                let out = client.ingest(messages, now);
                let mut states = out.states;
                let ghost models = state_models(states@);
                let applied = states.len() > 0;
                if let Some(state) = states.pop() {
                    assert(models.last() == state@);
                    self.state = state;
                    self.last_state_at = Some(now);
                }
                if out.disconnect.is_none() {
                    self.client = Some(client);
                }
                Applied { applied, disconnect: out.disconnect }
            },
            None => Applied { applied: false, disconnect: None },
        }
    }

    /// The line to send for an intent; none where nobody is connected or the
    /// handshake is not done. A lost intent is repaired by the next touch or
    /// by the state echoed back.
    pub fn send_intent(&self, intent: &Intent) -> (line: Option<String>)
        ensures
            line is Some <==> (self@.client matches Some(c) && c.hello_done),
            line matches Some(text) ==> text@ == intent_text(*intent),
    {
        match &self.client {
            Some(client) if client.is_greeted() => Some(encode_intent(intent)),
            _ => None,
        }
    }

    /// A line was handed to the socket, and `written` bytes of it were taken,
    /// `None` where the write failed. A partial line would break the framing,
    /// so anything but the whole line drops the client; says whether it did.
    pub fn sent(&mut self, line: &String, written: Option<usize>) -> (dropped: bool)
        ensures
            dropped == (old(self)@.client is Some && !(written matches Some(n) && n
                == encode_utf8(line@).len())),
            final(self)@ == (if dropped {
                LinkModel { client: None, ..old(self)@ }
            } else {
                old(self)@
            }),
    {
        match written {
            Some(n) if n == line.as_str().as_bytes().len() => false,
            _ => self.drop_client(),
        }
    }

    /// The state last received.
    pub fn state(&self) -> (s: &StateMsg)
        ensures
            s@ == self@.state,
    {
        &self.state
    }

    /// Whether the state may be shown.
    pub fn is_fresh(&self, now: Moment) -> (r: bool)
        ensures
            r == fresh(self@, now),
    {
        match (&self.client, self.last_state_at) {
            (Some(_), Some(at)) => now.since(at) < STALE_AFTER_NANOS,
            _ => false,
        }
    }

    /// The volume last received, while the state may be shown.
    pub fn volume(&self, now: Moment) -> (r: Option<Scalar>)
        ensures
            r == (match self@.state.vol {
                Some(vol) if fresh(self@, now) => Some(vol.level),
                _ => None,
            }),
    {
        if !self.is_fresh(now) {
            return None;
        }
        match self.state.vol {
            Some(vol) => Some(vol.level),
            None => None,
        }
    }

    /// The workspaces of the state last received.
    pub fn workspaces(&self) -> (r: Vec<Vec<WsEntry>>)
        ensures
            model_of(r@) == workspaces_spec(self@.state),
    {
        let mut r: Vec<Vec<WsEntry>> = Vec::new();
        let mut i: usize = 0;
        while i < self.state.outs.len()
            invariant
                i <= self.state.outs@.len(),
                r@.len() == i,
                forall|j: int| 0 <= j < i ==> (#[trigger] r@[j])@ == self.state.outs@[j].ws@,
            decreases self.state.outs@.len() - i,
        {
            let ws = self.state.outs[i].ws.clone();
            assert(ws@ =~= self.state.outs@[i as int].ws@);
            r.push(ws);
            i = i + 1;
        }
        assert(model_of(r@) =~= workspaces_spec(self@.state));
        r
    }

    /// Bounds a wait so that a companion that hangs silently is noticed
    /// within the staleness limit.
    pub fn staleness_timeout_ms(&self, now: Moment) -> (r: Option<i32>)
        ensures
            match (self@.client, self@.last_state_at) {
                (Some(_), Some(at)) => r matches Some(ms) && ms == wait_millis(
                    remainder(STALE_AFTER_NANOS as nat, elapsed(now, at)),
                ),
                _ => r is None,
            },
    {
        match (&self.client, self.last_state_at) {
            (Some(_), Some(at)) => Some(wait_left(STALE_AFTER_NANOS, now, at)),
            _ => None,
        }
    }
}

} // verus!
