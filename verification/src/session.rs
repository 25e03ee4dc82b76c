//! The per-connection protocol state machine on the server side.
//!
//! A connection starts awaiting its handshake, moves into the command
//! exchange once a valid introduction arrives, and ends in a terminal state:
//! closed after the command sequence is exhausted, or aborted on a protocol
//! violation, a transport fault, an undecodable frame, or a command the
//! client reports as failed.
//!
//! The machine itself performs no I/O: the caller feeds it one event per
//! received frame (or stream fault) and carries out the actions it returns
//! (write an envelope, update the registry, report the final snapshot).

use vstd::prelude::*;

use crate::messages::ClientCommandResponseView;
use crate::messages::ClientFailedView;
use crate::messages::ClientMessage;
use crate::messages::ClientMessageView;
use crate::messages::ClientOnConnectView;
use crate::messages::ClientState;
use crate::messages::ClientStateView;
use crate::messages::Point;
use crate::messages::ServerMessage;
use crate::messages::ServerMessageView;
use crate::messages::ServerOnConnect;
use crate::messages::ServerOnConnectView;

verus! {

/// Why a connection ended.
#[derive(Clone, Copy, Debug, PartialEq, Eq, Structural)]
pub enum SessionError {
    /// The byte stream failed or closed while the protocol still expected
    /// traffic.
    Transport,
    /// A frame arrived that could not be decoded into a known envelope.
    Frame,
    /// A well-formed envelope arrived in a state that does not expect it.
    ProtocolViolation,
    /// The client explicitly reported that it cannot execute a command.
    CommandFailure,
}

/// The connection's protocol state. In `Exchanging`, `cursor` counts the
/// move commands already written; the response to command `cursor - 1` is
/// the next frame the server expects.
pub enum SessionState {
    AwaitingHandshake,
    Exchanging { client: String, cursor: usize },
    Closed,
    Aborted { error: SessionError },
}

pub enum SessionStateView {
    AwaitingHandshake,
    Exchanging { client: Seq<char>, cursor: int },
    Closed,
    Aborted { error: SessionError },
}

impl View for SessionState {
    type V = SessionStateView;

    open spec fn view(&self) -> SessionStateView {
        match self {
            SessionState::AwaitingHandshake => SessionStateView::AwaitingHandshake,
            SessionState::Exchanging { client, cursor } => SessionStateView::Exchanging {
                client: client@,
                cursor: *cursor as int,
            },
            SessionState::Closed => SessionStateView::Closed,
            SessionState::Aborted { error } => SessionStateView::Aborted { error: *error },
        }
    }
}

/// One input to the state machine: a decoded envelope, a graceful end of
/// the stream, or a frame that failed to decode.
pub enum SessionEvent {
    Envelope(ClientMessage),
    StreamClosed,
    BadFrame,
}

pub enum SessionEventView {
    Envelope(ClientMessageView),
    StreamClosed,
    BadFrame,
}

impl View for SessionEvent {
    type V = SessionEventView;

    open spec fn view(&self) -> SessionEventView {
        match self {
            SessionEvent::Envelope(m) => SessionEventView::Envelope(m@),
            SessionEvent::StreamClosed => SessionEventView::StreamClosed,
            SessionEvent::BadFrame => SessionEventView::BadFrame,
        }
    }
}

/// One obligation the caller must carry out after a step: write an envelope
/// to the peer, publish a snapshot into the shared registry, or report the
/// final registry snapshot for a gracefully closed connection.
pub enum Action {
    Send(ServerMessage),
    Upsert { id: String, state: ClientState },
    ReportFinal { id: String },
}

pub enum ActionView {
    Send(ServerMessageView),
    Upsert { id: Seq<char>, state: ClientStateView },
    ReportFinal { id: Seq<char> },
}

impl DeepView for Action {
    type V = ActionView;

    open spec fn deep_view(&self) -> ActionView {
        match self {
            Action::Send(m) => ActionView::Send(m@),
            Action::Upsert { id, state } => ActionView::Upsert { id: id@, state: state@ },
            Action::ReportFinal { id } => ActionView::ReportFinal { id: id@ },
        }
    }
}

/// The fixed greeting carried by the handshake acknowledgement.
pub open spec fn greeting() -> Seq<char> {
    "hello"@
}

/// The acknowledgement envelope for a client that introduced itself as
/// `client`.
pub open spec fn spec_ack(client: Seq<char>) -> ServerMessageView {
    ServerMessageView::OnConnect(
        ServerOnConnectView { client_name: client, message: greeting() },
    )
}

/// A state is terminal when the connection is over.
pub open spec fn spec_terminal(st: SessionStateView) -> bool {
    st is Closed || st is Aborted
}

/// The cursor consistency a live state maintains: while exchanging, at
/// least the first command is out and the cursor never passes the plan.
pub open spec fn state_ok(plan: Seq<Point>, st: SessionStateView) -> bool {
    match st {
        SessionStateView::Exchanging { client, cursor } => 1 <= cursor <= plan.len(),
        _ => true,
    }
}

/// The transition relation of the per-connection state machine: one event
/// against one non-terminal state yields the next state and the actions the
/// caller must carry out, exactly as the protocol prescribes.
pub open spec fn spec_step(
    plan: Seq<Point>,
    st: SessionStateView,
    ev: SessionEventView,
) -> (SessionStateView, Seq<ActionView>) {
    match st {
        SessionStateView::AwaitingHandshake => match ev {
            SessionEventView::Envelope(ClientMessageView::ClientOnConnect(m)) => {
                let id = m.client_name;
                let up = ActionView::Upsert { id, state: ClientStateView::of_on_connect(m) };
                let ack = ActionView::Send(spec_ack(id));
                if plan.len() == 0 {
                    (SessionStateView::Closed, seq![up, ack, ActionView::ReportFinal { id }])
                } else {
                    (
                        SessionStateView::Exchanging { client: id, cursor: 1 },
                        seq![
                            up,
                            ack,
                            ActionView::Send(ServerMessageView::ServerMoveCommand(plan[0])),
                        ],
                    )
                }
            },
            SessionEventView::Envelope(_) => (
                SessionStateView::Aborted { error: SessionError::ProtocolViolation },
                Seq::empty(),
            ),
            SessionEventView::StreamClosed => (
                SessionStateView::Aborted { error: SessionError::Transport },
                Seq::empty(),
            ),
            SessionEventView::BadFrame => (
                SessionStateView::Aborted { error: SessionError::Frame },
                Seq::empty(),
            ),
        },
        SessionStateView::Exchanging { client, cursor } => match ev {
            SessionEventView::Envelope(ClientMessageView::ClientOnConnect(_)) => (
                SessionStateView::Aborted { error: SessionError::ProtocolViolation },
                Seq::empty(),
            ),
            SessionEventView::Envelope(ClientMessageView::ClientCommandResponse(m)) => {
                let up = ActionView::Upsert { id: client, state: ClientStateView::of_response(m) };
                if cursor < plan.len() {
                    (
                        SessionStateView::Exchanging { client, cursor: cursor + 1 },
                        seq![
                            up,
                            ActionView::Send(ServerMessageView::ServerMoveCommand(plan[cursor])),
                        ],
                    )
                } else {
                    (SessionStateView::Closed, seq![up, ActionView::ReportFinal { id: client }])
                }
            },
            SessionEventView::Envelope(ClientMessageView::Failed(m)) => (
                SessionStateView::Aborted { error: SessionError::CommandFailure },
                seq![ActionView::Upsert { id: client, state: ClientStateView::of_failed(m) }],
            ),
            SessionEventView::StreamClosed => (
                SessionStateView::Aborted { error: SessionError::Transport },
                Seq::empty(),
            ),
            SessionEventView::BadFrame => (
                SessionStateView::Aborted { error: SessionError::Frame },
                Seq::empty(),
            ),
        },
        _ => (st, Seq::empty()),
    }
}

/// One server-side connection: the injected command sequence and the
/// current protocol state.
pub struct Session {
    pub plan: Vec<Point>,
    pub state: SessionState,
}

impl Session {
    pub open spec fn wf(self) -> bool {
        state_ok(self.plan@, self.state@)
    }

    pub open spec fn is_terminal(self) -> bool {
        spec_terminal(self.state@)
    }

    /// A fresh connection awaiting its handshake, with the injected ordered
    /// command sequence it will issue.
    pub fn new(plan: Vec<Point>) -> (r: Session)
        ensures
            r.plan == plan,
            r.state@ == SessionStateView::AwaitingHandshake,
            r.wf(),
    {
        Session { plan, state: SessionState::AwaitingHandshake }
    }

    /// Whether the connection has reached a terminal state.
    pub fn done(&self) -> (r: bool)
        ensures
            r == self.is_terminal(),
    {
        match &self.state {
            SessionState::Closed => true,
            SessionState::Aborted { .. } => true,
            _ => false,
        }
    }

    /// Feed one event into the state machine; the returned actions must be
    /// carried out in order before the next event is read.
    pub fn on_event(&mut self, ev: SessionEvent) -> (acts: Vec<Action>)
        requires
            old(self).wf(),
            !old(self).is_terminal(),
        ensures
            final(self).wf(),
            final(self).plan == old(self).plan,
            final(self).state@ == spec_step(old(self).plan@, old(self).state@, ev@).0,
            acts.deep_view() == spec_step(old(self).plan@, old(self).state@, ev@).1,
    {
        let ghost gev = ev@;
        let ghost gst0 = old(self).state@;
        let ghost gplan = old(self).plan@;
        let mut st = SessionState::Closed;
        core::mem::swap(&mut st, &mut self.state);
        let mut acts: Vec<Action> = Vec::new();
        match st {
            SessionState::AwaitingHandshake => match ev {
                SessionEvent::Envelope(ClientMessage::ClientOnConnect(m)) => {
                    let id = m.client_name.clone();
                    let snapshot = ClientState::from(m);
                    acts.push(Action::Upsert { id: id.clone(), state: snapshot });
                    acts.push(
                        Action::Send(
                            ServerMessage::OnConnect(
                                ServerOnConnect {
                                    client_name: id.clone(),
                                    message: "hello".to_owned(),
                                },
                            ),
                        ),
                    );
                    if self.plan.len() == 0 {
                        acts.push(Action::ReportFinal { id });
                        self.state = SessionState::Closed;
                    } else {
                        let target = self.plan[0];
                        acts.push(Action::Send(ServerMessage::ServerMoveCommand(target)));
                        self.state = SessionState::Exchanging { client: id, cursor: 1 };
                    }
                },
                SessionEvent::Envelope(_) => {
                    self.state = SessionState::Aborted { error: SessionError::ProtocolViolation };
                },
                SessionEvent::StreamClosed => {
                    self.state = SessionState::Aborted { error: SessionError::Transport };
                },
                SessionEvent::BadFrame => {
                    self.state = SessionState::Aborted { error: SessionError::Frame };
                },
            },
            SessionState::Exchanging { client, cursor } => match ev {
                SessionEvent::Envelope(ClientMessage::ClientOnConnect(_)) => {
                    self.state = SessionState::Aborted { error: SessionError::ProtocolViolation };
                },
                SessionEvent::Envelope(ClientMessage::ClientCommandResponse(m)) => {
                    let snapshot = ClientState::from(m);
                    acts.push(Action::Upsert { id: client.clone(), state: snapshot });
                    if cursor < self.plan.len() {
                        let target = self.plan[cursor];
                        acts.push(Action::Send(ServerMessage::ServerMoveCommand(target)));
                        self.state = SessionState::Exchanging { client, cursor: cursor + 1 };
                    } else {
                        acts.push(Action::ReportFinal { id: client });
                        self.state = SessionState::Closed;
                    }
                },
                SessionEvent::Envelope(ClientMessage::Failed(m)) => {
                    let snapshot = ClientState::from(m);
                    acts.push(Action::Upsert { id: client, state: snapshot });
                    self.state = SessionState::Aborted { error: SessionError::CommandFailure };
                },
                SessionEvent::StreamClosed => {
                    self.state = SessionState::Aborted { error: SessionError::Transport };
                },
                SessionEvent::BadFrame => {
                    self.state = SessionState::Aborted { error: SessionError::Frame };
                },
            },
            SessionState::Closed => {
                proof {
                    assert(false);
                }
            },
            SessionState::Aborted { .. } => {
                proof {
                    assert(false);
                }
            },
        }
        proof {
            assert(acts.deep_view() =~= spec_step(gplan, gst0, gev).1);
        }
        acts
    }
}

/// The whole-run semantics: feed the events in order, stopping at the first
/// terminal state, and collect every action in order.
pub open spec fn spec_run(
    plan: Seq<Point>,
    st: SessionStateView,
    evs: Seq<SessionEventView>,
) -> (SessionStateView, Seq<ActionView>)
    decreases evs.len(),
{
    if evs.len() == 0 || spec_terminal(st) {
        (st, Seq::empty())
    } else {
        let stepped = spec_step(plan, st, evs[0]);
        let rest = spec_run(plan, stepped.0, evs.skip(1));
        (rest.0, stepped.1 + rest.1)
    }
}

/// The move-command targets among a sequence of actions, in send order.
pub open spec fn sent_commands(acts: Seq<ActionView>) -> Seq<Point>
    decreases acts.len(),
{
    if acts.len() == 0 {
        Seq::empty()
    } else {
        let rest = sent_commands(acts.skip(1));
        match acts[0] {
            ActionView::Send(ServerMessageView::ServerMoveCommand(p)) => seq![p] + rest,
            _ => rest,
        }
    }
}

/// The registry contents after carrying out a sequence of actions against
/// the map `m`, every upsert applied in order.
pub open spec fn apply_actions(
    m: Map<Seq<char>, ClientStateView>,
    acts: Seq<ActionView>,
) -> Map<Seq<char>, ClientStateView>
    decreases acts.len(),
{
    if acts.len() == 0 {
        m
    } else {
        let m1 = match acts[0] {
            ActionView::Upsert { id, state } => m.insert(id, state),
            _ => m,
        };
        apply_actions(m1, acts.skip(1))
    }
}

proof fn lemma_sent_commands_concat(a: Seq<ActionView>, b: Seq<ActionView>)
    ensures
        sent_commands(a + b) == sent_commands(a) + sent_commands(b),
    decreases a.len(),
{
    if a.len() == 0 {
        assert(a + b =~= b);
        assert(sent_commands(a) + sent_commands(b) =~= sent_commands(b));
    } else {
        assert((a + b).skip(1) =~= a.skip(1) + b);
        lemma_sent_commands_concat(a.skip(1), b);
        assert((a + b)[0] == a[0]);
        match a[0] {
            ActionView::Send(ServerMessageView::ServerMoveCommand(p)) => {
                assert(seq![p] + (sent_commands(a.skip(1)) + sent_commands(b)) =~= (seq![p]
                    + sent_commands(a.skip(1))) + sent_commands(b));
            },
            _ => {},
        }
    }
}

proof fn lemma_apply_actions_concat(
    m: Map<Seq<char>, ClientStateView>,
    a: Seq<ActionView>,
    b: Seq<ActionView>,
)
    ensures
        apply_actions(m, a + b) == apply_actions(apply_actions(m, a), b),
    decreases a.len(),
{
    if a.len() == 0 {
        assert(a + b =~= b);
    } else {
        assert((a + b).skip(1) =~= a.skip(1) + b);
        assert((a + b)[0] == a[0]);
        let m1 = match a[0] {
            ActionView::Upsert { id, state } => m.insert(id, state),
            _ => m,
        };
        lemma_apply_actions_concat(m1, a.skip(1), b);
    }
}

/// The number of commands sent so far in a live state: none before the
/// handshake, the cursor while exchanging. Terminal states send nothing
/// further, so they count as zero for the run that starts in them.
pub open spec fn cursor_start(st: SessionStateView) -> int {
    match st {
        SessionStateView::Exchanging { client, cursor } => cursor,
        _ => 0,
    }
}

/// Events that make the exchange progress: the opening handshake and each
/// successful command response.
pub open spec fn count_progress(evs: Seq<SessionEventView>) -> nat
    decreases evs.len(),
{
    if evs.len() == 0 {
        0
    } else {
        (match evs[0] {
            SessionEventView::Envelope(ClientMessageView::ClientOnConnect(_)) => 1nat,
            SessionEventView::Envelope(ClientMessageView::ClientCommandResponse(_)) => 1nat,
            _ => 0nat,
        }) + count_progress(evs.skip(1))
    }
}

proof fn lemma_step_commands(plan: Seq<Point>, st: SessionStateView, ev: SessionEventView)
    requires
        state_ok(plan, st),
        !spec_terminal(st),
    ensures
        state_ok(plan, spec_step(plan, st, ev).0),
        ({
            let stepped = spec_step(plan, st, ev);
            let sent = sent_commands(stepped.1);
            let c0 = cursor_start(st);
            &&& sent.len() <= 1
            &&& c0 + sent.len() <= plan.len()
            &&& sent == plan.subrange(c0, c0 + sent.len())
            &&& (stepped.0 is Exchanging ==> cursor_start(stepped.0) == c0 + sent.len())
            &&& (sent.len() == 1 ==> match ev {
                SessionEventView::Envelope(ClientMessageView::ClientOnConnect(_)) => true,
                SessionEventView::Envelope(ClientMessageView::ClientCommandResponse(_)) => true,
                _ => false,
            })
        }),
{
    let stepped = spec_step(plan, st, ev);
    let c0 = cursor_start(st);
    reveal_with_fuel(sent_commands, 5);
    if stepped.1.len() == 3 {
        assert(stepped.1.skip(1) =~= seq![stepped.1[1], stepped.1[2]]);
        assert(stepped.1.skip(1).skip(1) =~= seq![stepped.1[2]]);
        assert(stepped.1.skip(1).skip(1).skip(1) =~= Seq::<ActionView>::empty());
    }
    if stepped.1.len() == 2 {
        assert(stepped.1.skip(1) =~= seq![stepped.1[1]]);
        assert(stepped.1.skip(1).skip(1) =~= Seq::<ActionView>::empty());
    }
    if stepped.1.len() == 1 {
        assert(stepped.1.skip(1) =~= Seq::<ActionView>::empty());
    }
    assert(sent_commands(stepped.1) =~= plan.subrange(c0, c0 + sent_commands(stepped.1).len()));
}

/// Law (ordering): from any live, consistent state, the move commands a
/// run sends are exactly the next contiguous block of the plan, in plan
/// order, and a run makes at most one command per progress event (the
/// handshake or a successful response) — a command is never issued before
/// the response to its predecessor has been consumed.
pub proof fn lemma_run_commands(plan: Seq<Point>, st: SessionStateView, evs: Seq<SessionEventView>)
    requires
        state_ok(plan, st),
    ensures
        ({
            let sent = sent_commands(spec_run(plan, st, evs).1);
            let c0 = cursor_start(st);
            &&& (!spec_terminal(st) ==> c0 + sent.len() <= plan.len())
            &&& sent == plan.subrange(c0, c0 + sent.len())
            &&& sent.len() <= count_progress(evs)
        }),
    decreases evs.len(),
{
    let c0 = cursor_start(st);
    if evs.len() == 0 || spec_terminal(st) {
        assert(sent_commands(Seq::<ActionView>::empty()) =~= plan.subrange(c0, c0));
    } else {
        let stepped = spec_step(plan, st, evs[0]);
        lemma_step_commands(plan, st, evs[0]);
        lemma_run_commands(plan, stepped.0, evs.skip(1));
        lemma_sent_commands_concat(stepped.1, spec_run(plan, stepped.0, evs.skip(1)).1);
        let sent1 = sent_commands(stepped.1);
        let sent2 = sent_commands(spec_run(plan, stepped.0, evs.skip(1)).1);
        if spec_terminal(stepped.0) {
            assert(sent2 =~= Seq::<Point>::empty());
            assert(sent1 + sent2 =~= sent1);
        } else {
            assert(cursor_start(stepped.0) == c0 + sent1.len());
            assert(sent1 + sent2 =~= plan.subrange(c0, c0 + sent1.len() + sent2.len()));
        }
    }
}

/// Law (ordering invariant, whole connection): over any event sequence fed
/// to a fresh connection, the n-th move command the machine emits carries
/// the n-th element of the configured plan — the emitted commands are a
/// prefix of the plan — and no command is emitted without a preceding
/// progress event for it.
pub proof fn lemma_command_ordering(plan: Seq<Point>, evs: Seq<SessionEventView>)
    ensures
        ({
            let sent = sent_commands(spec_run(plan, SessionStateView::AwaitingHandshake, evs).1);
            &&& sent.len() <= plan.len()
            &&& sent == plan.take(sent.len() as int)
            &&& sent.len() <= count_progress(evs)
        }),
{
    lemma_run_commands(plan, SessionStateView::AwaitingHandshake, evs);
    let sent = sent_commands(spec_run(plan, SessionStateView::AwaitingHandshake, evs).1);
    assert(plan.subrange(0, sent.len() as int) =~= plan.take(sent.len() as int));
}

/// Law (handshake rejection): a connection whose first envelope is not the
/// introduction aborts with a protocol violation before any action — in
/// particular before any registry mutation — whatever traffic follows.
pub proof fn lemma_handshake_rejection(
    plan: Seq<Point>,
    m: ClientMessageView,
    rest: Seq<SessionEventView>,
    reg0: Map<Seq<char>, ClientStateView>,
)
    requires
        !(m is ClientOnConnect),
    ensures
        ({
            let evs = seq![SessionEventView::Envelope(m)] + rest;
            let r = spec_run(plan, SessionStateView::AwaitingHandshake, evs);
            &&& r.0 == (SessionStateView::Aborted { error: SessionError::ProtocolViolation })
            &&& r.1 == Seq::<ActionView>::empty()
            &&& apply_actions(reg0, r.1) == reg0
        }),
{
    let evs = seq![SessionEventView::Envelope(m)] + rest;
    assert(evs[0] == SessionEventView::Envelope(m));
    let stepped = spec_step(plan, SessionStateView::AwaitingHandshake, evs[0]);
    assert(spec_terminal(stepped.0));
    assert(stepped.1 + spec_run(plan, stepped.0, evs.skip(1)).1 =~= Seq::<ActionView>::empty());
}

/// The event sequence of a client that answers every command successfully,
/// with the given response payloads in order.
pub open spec fn response_events(resp: Seq<ClientCommandResponseView>) -> Seq<SessionEventView> {
    Seq::new(
        resp.len(),
        |i: int|
            SessionEventView::Envelope(ClientMessageView::ClientCommandResponse(resp[i])),
    )
}

proof fn lemma_exchange_from(
    plan: Seq<Point>,
    client: Seq<char>,
    cursor: int,
    resp: Seq<ClientCommandResponseView>,
    reg0: Map<Seq<char>, ClientStateView>,
)
    requires
        1 <= cursor <= plan.len(),
        resp.len() == plan.len() - cursor + 1,
    ensures
        ({
            let st = SessionStateView::Exchanging { client, cursor };
            let r = spec_run(plan, st, response_events(resp));
            &&& r.0 == SessionStateView::Closed
            &&& sent_commands(r.1) == plan.subrange(cursor, plan.len() as int)
            &&& apply_actions(reg0, r.1) == reg0.insert(
                client,
                ClientStateView::of_response(resp.last()),
            )
        }),
    decreases resp.len(),
{
    let st = SessionStateView::Exchanging { client, cursor };
    let evs = response_events(resp);
    assert(evs[0] == SessionEventView::Envelope(
        ClientMessageView::ClientCommandResponse(resp[0]),
    ));
    let stepped = spec_step(plan, st, evs[0]);
    let up = ActionView::Upsert { id: client, state: ClientStateView::of_response(resp[0]) };
    reveal_with_fuel(sent_commands, 4);
    reveal_with_fuel(apply_actions, 4);
    if cursor == plan.len() {
        assert(resp.len() == 1);
        assert(stepped.0 == SessionStateView::Closed);
        let r = spec_run(plan, st, evs);
        assert(spec_run(plan, stepped.0, evs.skip(1)).1 =~= Seq::<ActionView>::empty());
        assert(r.1 =~= stepped.1);
        assert(stepped.1.skip(1) =~= seq![ActionView::ReportFinal { id: client }]);
        assert(stepped.1.skip(1).skip(1) =~= Seq::<ActionView>::empty());
        assert(sent_commands(r.1) =~= plan.subrange(cursor, plan.len() as int));
        assert(resp.last() == resp[0]);
    } else {
        let cmd = ActionView::Send(ServerMessageView::ServerMoveCommand(plan[cursor]));
        assert(stepped.0 == (SessionStateView::Exchanging { client, cursor: cursor + 1 }));
        assert(stepped.1 =~= seq![up, cmd]);
        assert(evs.skip(1) =~= response_events(resp.skip(1)));
        let reg1 = reg0.insert(client, ClientStateView::of_response(resp[0]));
        lemma_exchange_from(plan, client, cursor + 1, resp.skip(1), reg1);
        let r2 = spec_run(plan, stepped.0, evs.skip(1));
        lemma_sent_commands_concat(stepped.1, r2.1);
        assert(stepped.1.skip(1) =~= seq![cmd]);
        assert(stepped.1.skip(1).skip(1) =~= Seq::<ActionView>::empty());
        assert(sent_commands(stepped.1) =~= seq![plan[cursor]]);
        assert(seq![plan[cursor]] + plan.subrange(cursor + 1, plan.len() as int) =~= plan.subrange(
            cursor,
            plan.len() as int,
        ));
        lemma_apply_actions_concat(reg0, stepped.1, r2.1);
        assert(apply_actions(reg0, stepped.1) == reg1);
        assert(resp.skip(1).last() == resp.last());
        assert(reg1.insert(client, ClientStateView::of_response(resp.last())) =~= reg0.insert(
            client,
            ClientStateView::of_response(resp.last()),
        ));
    }
}

/// Law (successful session): a client that introduces itself and then
/// answers every command successfully drives the machine to a graceful
/// close; the machine first publishes the introduction's snapshot and
/// acknowledges with the fixed greeting, sends every planned command in
/// order, and leaves the registry holding the last response's snapshot
/// under the client's declared name.
pub proof fn lemma_successful_session(
    plan: Seq<Point>,
    hello: ClientOnConnectView,
    resp: Seq<ClientCommandResponseView>,
    reg0: Map<Seq<char>, ClientStateView>,
)
    requires
        plan.len() >= 1,
        resp.len() == plan.len(),
    ensures
        ({
            let evs = seq![
                SessionEventView::Envelope(ClientMessageView::ClientOnConnect(hello)),
            ] + response_events(resp);
            let r = spec_run(plan, SessionStateView::AwaitingHandshake, evs);
            &&& r.0 == SessionStateView::Closed
            &&& sent_commands(r.1) == plan
            &&& r.1[0] == (ActionView::Upsert {
                id: hello.client_name,
                state: ClientStateView::of_on_connect(hello),
            })
            &&& r.1[1] == ActionView::Send(spec_ack(hello.client_name))
            &&& apply_actions(reg0, r.1) == reg0.insert(
                hello.client_name,
                ClientStateView::of_response(resp.last()),
            )
        }),
{
    let id = hello.client_name;
    let evs = seq![SessionEventView::Envelope(ClientMessageView::ClientOnConnect(hello))]
        + response_events(resp);
    let st0 = SessionStateView::AwaitingHandshake;
    assert(evs[0] == SessionEventView::Envelope(ClientMessageView::ClientOnConnect(hello)));
    let stepped = spec_step(plan, st0, evs[0]);
    let up = ActionView::Upsert { id, state: ClientStateView::of_on_connect(hello) };
    let ack = ActionView::Send(spec_ack(id));
    let cmd = ActionView::Send(ServerMessageView::ServerMoveCommand(plan[0]));
    assert(stepped.0 == (SessionStateView::Exchanging { client: id, cursor: 1 }));
    assert(stepped.1 =~= seq![up, ack, cmd]);
    assert(evs.skip(1) =~= response_events(resp));
    let reg1 = reg0.insert(id, ClientStateView::of_on_connect(hello));
    lemma_exchange_from(plan, id, 1, resp, reg1);
    let r2 = spec_run(plan, stepped.0, evs.skip(1));
    let r = spec_run(plan, st0, evs);
    assert(r.1 == stepped.1 + r2.1);
    lemma_sent_commands_concat(stepped.1, r2.1);
    reveal_with_fuel(sent_commands, 5);
    reveal_with_fuel(apply_actions, 5);
    assert(stepped.1.skip(1) =~= seq![ack, cmd]);
    assert(stepped.1.skip(1).skip(1) =~= seq![cmd]);
    assert(stepped.1.skip(1).skip(1).skip(1) =~= Seq::<ActionView>::empty());
    assert(sent_commands(stepped.1) =~= seq![plan[0]]);
    assert(seq![plan[0]] + plan.subrange(1, plan.len() as int) =~= plan);
    lemma_apply_actions_concat(reg0, stepped.1, r2.1);
    assert(apply_actions(reg0, stepped.1) == reg1);
    assert(reg1.insert(id, ClientStateView::of_response(resp.last())) =~= reg0.insert(
        id,
        ClientStateView::of_response(resp.last()),
    ));
    assert(r.1[0] == up);
    assert(r.1[1] == ack);
}

/// Law (command failure): while exchanging, a `Failed` reply publishes the
/// failure snapshot and aborts the connection with a command failure; no
/// further action — in particular no further move command — follows,
/// whatever traffic comes afterwards.
pub proof fn lemma_command_failure(
    plan: Seq<Point>,
    client: Seq<char>,
    cursor: int,
    f: ClientFailedView,
    rest: Seq<SessionEventView>,
    reg0: Map<Seq<char>, ClientStateView>,
)
    requires
        1 <= cursor <= plan.len(),
    ensures
        ({
            let st = SessionStateView::Exchanging { client, cursor };
            let evs = seq![SessionEventView::Envelope(ClientMessageView::Failed(f))] + rest;
            let r = spec_run(plan, st, evs);
            &&& r.0 == (SessionStateView::Aborted { error: SessionError::CommandFailure })
            &&& r.1 == seq![
                ActionView::Upsert { id: client, state: ClientStateView::of_failed(f) },
            ]
            &&& sent_commands(r.1) == Seq::<Point>::empty()
            &&& apply_actions(reg0, r.1) == reg0.insert(client, ClientStateView::of_failed(f))
        }),
{
    let st = SessionStateView::Exchanging { client, cursor };
    let evs = seq![SessionEventView::Envelope(ClientMessageView::Failed(f))] + rest;
    assert(evs[0] == SessionEventView::Envelope(ClientMessageView::Failed(f)));
    let stepped = spec_step(plan, st, evs[0]);
    assert(spec_terminal(stepped.0));
    let r = spec_run(plan, st, evs);
    assert(r.1 == stepped.1 + spec_run(plan, stepped.0, evs.skip(1)).1);
    assert(spec_run(plan, stepped.0, evs.skip(1)).1 =~= Seq::<ActionView>::empty());
    assert(r.1 =~= stepped.1);
    reveal_with_fuel(sent_commands, 3);
    reveal_with_fuel(apply_actions, 3);
    assert(stepped.1.skip(1) =~= Seq::<ActionView>::empty());
    assert(sent_commands(r.1) =~= Seq::<Point>::empty());
}

} // verus!
