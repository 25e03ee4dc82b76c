//! The per-connection protocol state machine on the client side.
//!
//! The client introduces itself once, waits for the acknowledgement, and
//! then follows move commands: each command moves the agent and is answered
//! with a successful response carrying the new position. An out-of-place
//! envelope, a server failure notice, a dead stream or an undecodable frame
//! stops the session. The machine performs no I/O: the caller feeds it one
//! event per received frame and carries out the returned actions.

use vstd::prelude::*;

use crate::messages::ClientCommandResponse;
use crate::messages::ClientCommandResponseView;
use crate::messages::ClientMessage;
use crate::messages::ClientMessageView;
use crate::messages::ClientOnConnect;
use crate::messages::ClientOnConnectView;
use crate::messages::Point;
use crate::messages::ServerMessage;
use crate::messages::ServerMessageView;

verus! {

/// The agent being actuated: it only tracks its current position.
pub struct Agent {
    pub current_position: Point,
}

impl Agent {
    pub fn new(current_position: Point) -> (r: Agent)
        ensures
            r.current_position == current_position,
    {
        Agent { current_position }
    }

    /// Move the agent to the commanded position.
    pub fn update_position(&mut self, new_position: Point)
        ensures
            final(self).current_position == new_position,
    {
        self.current_position = new_position;
    }
}

/// Why the client's session ended.
#[derive(Clone, Copy, Debug, PartialEq, Eq, Structural)]
pub enum ClientError {
    /// The stream closed or failed while traffic was still expected.
    Transport,
    /// A frame arrived that could not be decoded into a known envelope.
    Frame,
    /// A well-formed envelope arrived in a state that does not expect it.
    ProtocolViolation,
    /// The server declared itself failed; the session must end.
    ServerFault,
}

/// The client's protocol phase.
#[derive(Clone, Copy, Debug, PartialEq, Eq, Structural)]
pub enum ClientPhase {
    /// Introduction sent, acknowledgement not yet received.
    AwaitingAck,
    /// Acknowledged; following move commands.
    Following,
    /// Terminal.
    Stopped { error: ClientError },
}

/// One input to the client machine.
pub enum ClientEvent {
    Envelope(ServerMessage),
    StreamClosed,
    BadFrame,
}

pub enum ClientEventView {
    Envelope(ServerMessageView),
    StreamClosed,
    BadFrame,
}

impl View for ClientEvent {
    type V = ClientEventView;

    open spec fn view(&self) -> ClientEventView {
        match self {
            ClientEvent::Envelope(m) => ClientEventView::Envelope(m@),
            ClientEvent::StreamClosed => ClientEventView::StreamClosed,
            ClientEvent::BadFrame => ClientEventView::BadFrame,
        }
    }
}

/// One obligation the caller must carry out after a step: write an envelope
/// back to the server, or report the acknowledged name.
pub enum ClientAction {
    Send(ClientMessage),
    ReportAck { client_name: String },
}

pub enum ClientActionView {
    Send(ClientMessageView),
    ReportAck { client_name: Seq<char> },
}

impl DeepView for ClientAction {
    type V = ClientActionView;

    open spec fn deep_view(&self) -> ClientActionView {
        match self {
            ClientAction::Send(m) => ClientActionView::Send(m@),
            ClientAction::ReportAck { client_name } => ClientActionView::ReportAck {
                client_name: client_name@,
            },
        }
    }
}

/// The fixed text of a successful command response.
pub open spec fn success_text() -> Seq<char> {
    "success"@
}

/// The response the client gives to a move command it executed: it reports
/// success from the commanded position.
pub open spec fn spec_response(target: Point) -> ClientMessageView {
    ClientMessageView::ClientCommandResponse(
        ClientCommandResponseView { message: success_text(), current_position: target },
    )
}

/// The transition relation of the client machine: from a phase and the
/// agent's position, one event yields the next phase, the next position and
/// the actions owed.
pub open spec fn spec_client_step(
    phase: ClientPhase,
    pos: Point,
    ev: ClientEventView,
) -> (ClientPhase, Point, Seq<ClientActionView>) {
    match phase {
        ClientPhase::AwaitingAck => match ev {
            ClientEventView::Envelope(ServerMessageView::OnConnect(m)) => (
                ClientPhase::Following,
                pos,
                seq![ClientActionView::ReportAck { client_name: m.client_name }],
            ),
            ClientEventView::Envelope(_) => (
                ClientPhase::Stopped { error: ClientError::ProtocolViolation },
                pos,
                Seq::empty(),
            ),
            ClientEventView::StreamClosed => (
                ClientPhase::Stopped { error: ClientError::Transport },
                pos,
                Seq::empty(),
            ),
            ClientEventView::BadFrame => (
                ClientPhase::Stopped { error: ClientError::Frame },
                pos,
                Seq::empty(),
            ),
        },
        ClientPhase::Following => match ev {
            ClientEventView::Envelope(ServerMessageView::OnConnect(_)) => (
                ClientPhase::Stopped { error: ClientError::ProtocolViolation },
                pos,
                Seq::empty(),
            ),
            ClientEventView::Envelope(ServerMessageView::ServerMoveCommand(target)) => (
                ClientPhase::Following,
                target,
                seq![ClientActionView::Send(spec_response(target))],
            ),
            ClientEventView::Envelope(ServerMessageView::ServerFailed(_)) => (
                ClientPhase::Stopped { error: ClientError::ServerFault },
                pos,
                Seq::empty(),
            ),
            ClientEventView::StreamClosed => (
                ClientPhase::Stopped { error: ClientError::Transport },
                pos,
                Seq::empty(),
            ),
            ClientEventView::BadFrame => (
                ClientPhase::Stopped { error: ClientError::Frame },
                pos,
                Seq::empty(),
            ),
        },
        ClientPhase::Stopped { error } => (phase, pos, Seq::empty()),
    }
}

/// One client-side connection: the agent it steers and its protocol phase.
pub struct ClientSession {
    pub agent: Agent,
    pub phase: ClientPhase,
}

impl ClientSession {
    /// A fresh client session, before the acknowledgement, steering an
    /// agent that starts at `position`.
    pub fn new(position: Point) -> (r: ClientSession)
        ensures
            r.agent.current_position == position,
            r.phase == ClientPhase::AwaitingAck,
    {
        ClientSession { agent: Agent::new(position), phase: ClientPhase::AwaitingAck }
    }

    pub open spec fn is_stopped(self) -> bool {
        self.phase is Stopped
    }

    pub fn done(&self) -> (r: bool)
        ensures
            r == self.is_stopped(),
    {
        match self.phase {
            ClientPhase::Stopped { .. } => true,
            _ => false,
        }
    }

    /// The introduction envelope the client sends as its first frame.
    pub fn introduction(&self, client_name: String) -> (m: ClientMessage)
        ensures
            m@ == ClientMessageView::ClientOnConnect(
                ClientOnConnectView {
                    client_name: client_name@,
                    message: "hello"@,
                    current_position: self.agent.current_position,
                },
            ),
    {
        ClientMessage::ClientOnConnect(
            ClientOnConnect {
                client_name,
                message: "hello".to_owned(),
                current_position: self.agent.current_position,
            },
        )
    }

    /// Feed one event into the client machine; the returned actions must be
    /// carried out in order before the next frame is read.
    pub fn on_event(&mut self, ev: ClientEvent) -> (acts: Vec<ClientAction>)
        ensures
            ({
                let stepped = spec_client_step(
                    old(self).phase,
                    old(self).agent.current_position,
                    ev@,
                );
                &&& final(self).phase == stepped.0
                &&& final(self).agent.current_position == stepped.1
                &&& acts.deep_view() == stepped.2
            }),
    {
        let ghost gev = ev@;
        let ghost gphase = self.phase;
        let ghost gpos = self.agent.current_position;
        let mut acts: Vec<ClientAction> = Vec::new();
        match self.phase {
            ClientPhase::AwaitingAck => match ev {
                ClientEvent::Envelope(ServerMessage::OnConnect(m)) => {
                    acts.push(ClientAction::ReportAck { client_name: m.client_name });
                    self.phase = ClientPhase::Following;
                },
                ClientEvent::Envelope(_) => {
                    self.phase = ClientPhase::Stopped { error: ClientError::ProtocolViolation };
                },
                ClientEvent::StreamClosed => {
                    self.phase = ClientPhase::Stopped { error: ClientError::Transport };
                },
                ClientEvent::BadFrame => {
                    self.phase = ClientPhase::Stopped { error: ClientError::Frame };
                },
            },
            ClientPhase::Following => match ev {
                ClientEvent::Envelope(ServerMessage::OnConnect(_)) => {
                    self.phase = ClientPhase::Stopped { error: ClientError::ProtocolViolation };
                },
                ClientEvent::Envelope(ServerMessage::ServerMoveCommand(target)) => {
                    self.agent.update_position(target);
                    acts.push(
                        ClientAction::Send(
                            ClientMessage::ClientCommandResponse(
                                ClientCommandResponse {
                                    message: "success".to_owned(),
                                    current_position: target,
                                },
                            ),
                        ),
                    );
                },
                ClientEvent::Envelope(ServerMessage::ServerFailed(_)) => {
                    self.phase = ClientPhase::Stopped { error: ClientError::ServerFault };
                },
                ClientEvent::StreamClosed => {
                    self.phase = ClientPhase::Stopped { error: ClientError::Transport };
                },
                ClientEvent::BadFrame => {
                    self.phase = ClientPhase::Stopped { error: ClientError::Frame };
                },
            },
            ClientPhase::Stopped { .. } => {},
        }
        proof {
            assert(acts.deep_view() =~= spec_client_step(gphase, gpos, gev).2);
        }
        acts
    }
}

} // verus!
