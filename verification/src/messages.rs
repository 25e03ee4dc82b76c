//! The envelope types exchanged in each direction, the domain value types
//! they carry (a three-dimensional position with decimal coordinates), and
//! the per-client state snapshot derived from received envelopes.

use vstd::prelude::*;

verus! {

/// Largest decimal scale a coordinate may carry; keeps every coordinate
/// printable and re-parsable within 19 significant digits.
pub const MAX_SCALE: u32 = 18;

/// One decimal coordinate: the represented value is `mantissa / 10^scale`.
///
/// Positions travel on the wire as plain decimal number literals, so the
/// library models a coordinate exactly as a scaled integer rather than as a
/// machine float; `mantissa == 2, scale == 1` is the value written `0.2`.
#[derive(Clone, Copy, Debug, PartialEq, Eq, Structural)]
pub struct Coord {
    pub mantissa: i64,
    pub scale: u32,
}

impl Coord {
    /// A coordinate is well formed when its magnitude can be negated without
    /// overflow and its scale stays within `MAX_SCALE`.
    pub open spec fn wf(self) -> bool {
        self.mantissa > i64::MIN && self.scale <= MAX_SCALE
    }

    /// The coordinate with whole value `n` (scale zero).
    pub fn whole(n: i64) -> (r: Coord)
        requires
            n > i64::MIN,
        ensures
            r == (Coord { mantissa: n, scale: 0u32 }),
            r.wf(),
    {
        Coord { mantissa: n, scale: 0 }
    }

    /// The coordinate `mantissa / 10^scale`.
    pub fn new(mantissa: i64, scale: u32) -> (r: Coord)
        requires
            mantissa > i64::MIN,
            scale <= MAX_SCALE,
        ensures
            r == (Coord { mantissa, scale }),
            r.wf(),
    {
        Coord { mantissa, scale }
    }
}

/// A position in space: three decimal coordinates.
#[derive(Clone, Copy, Debug, PartialEq, Eq, Structural)]
pub struct Point {
    pub x: Coord,
    pub y: Coord,
    pub z: Coord,
}

impl Point {
    pub open spec fn wf(self) -> bool {
        self.x.wf() && self.y.wf() && self.z.wf()
    }

    pub fn new(x: Coord, y: Coord, z: Coord) -> (r: Point)
        ensures
            r == (Point { x, y, z }),
    {
        Point { x, y, z }
    }

    /// The origin: all three coordinates zero.
    pub open spec fn spec_origin() -> Point {
        Point {
            x: Coord { mantissa: 0, scale: 0 },
            y: Coord { mantissa: 0, scale: 0 },
            z: Coord { mantissa: 0, scale: 0 },
        }
    }

    pub fn origin() -> (r: Point)
        ensures
            r == Point::spec_origin(),
            r.wf(),
    {
        Point { x: Coord { mantissa: 0, scale: 0 }, y: Coord { mantissa: 0, scale: 0 }, z: Coord {
            mantissa: 0,
            scale: 0,
        } }
    }
}

impl Default for Point {
    /// The default position is the origin.
    fn default() -> (r: Point)
        ensures
            r == Point::spec_origin(),
    {
        Point::origin()
    }
}

/// First envelope on a connection: the client introduces itself.
#[derive(Clone, Debug, PartialEq)]
pub struct ClientOnConnect {
    pub client_name: String,
    pub message: String,
    pub current_position: Point,
}

/// Reply to a move command the client executed successfully.
#[derive(Clone, Debug, PartialEq)]
pub struct ClientCommandResponse {
    pub message: String,
    pub current_position: Point,
}

/// Reply to a move command the client could not execute.
#[derive(Clone, Debug, PartialEq)]
pub struct ClientFailed {
    pub server_command: String,
    pub current_position: Point,
}

/// The messages a client sends to the server.
#[derive(Clone, Debug, PartialEq)]
pub enum ClientMessage {
    ClientOnConnect(ClientOnConnect),
    ClientCommandResponse(ClientCommandResponse),
    Failed(ClientFailed),
}

/// The server's acknowledgement of a client's introduction.
#[derive(Clone, Debug, PartialEq)]
pub struct ServerOnConnect {
    pub client_name: String,
    pub message: String,
}

/// A generic command descriptor; kept for wire compatibility.
#[derive(Clone, Debug, PartialEq)]
pub struct ServerCommand {
    pub success_message: String,
    pub message_id: String,
}

/// The messages the server sends to a client.
#[derive(Clone, Debug, PartialEq)]
pub enum ServerMessage {
    OnConnect(ServerOnConnect),
    ServerMoveCommand(Point),
    ServerFailed(String),
}

/// Last-known snapshot of one client: the most recent message text and the
/// most recently reported position.
#[derive(Clone, Debug, PartialEq)]
pub struct ClientState {
    pub last_message: String,
    pub current_position: Point,
}

// Mathematical images of the string-bearing types: a `String` field appears
// as its character sequence, so contracts can state structural equality.

pub struct ClientOnConnectView {
    pub client_name: Seq<char>,
    pub message: Seq<char>,
    pub current_position: Point,
}

pub struct ClientCommandResponseView {
    pub message: Seq<char>,
    pub current_position: Point,
}

pub struct ClientFailedView {
    pub server_command: Seq<char>,
    pub current_position: Point,
}

pub enum ClientMessageView {
    ClientOnConnect(ClientOnConnectView),
    ClientCommandResponse(ClientCommandResponseView),
    Failed(ClientFailedView),
}

pub struct ServerOnConnectView {
    pub client_name: Seq<char>,
    pub message: Seq<char>,
}

pub struct ServerCommandView {
    pub success_message: Seq<char>,
    pub message_id: Seq<char>,
}

pub enum ServerMessageView {
    OnConnect(ServerOnConnectView),
    ServerMoveCommand(Point),
    ServerFailed(Seq<char>),
}

pub struct ClientStateView {
    pub last_message: Seq<char>,
    pub current_position: Point,
}

impl View for ClientOnConnect {
    type V = ClientOnConnectView;

    open spec fn view(&self) -> ClientOnConnectView {
        ClientOnConnectView {
            client_name: self.client_name@,
            message: self.message@,
            current_position: self.current_position,
        }
    }
}

impl View for ClientCommandResponse {
    type V = ClientCommandResponseView;

    open spec fn view(&self) -> ClientCommandResponseView {
        ClientCommandResponseView {
            message: self.message@,
            current_position: self.current_position,
        }
    }
}

impl View for ClientFailed {
    type V = ClientFailedView;

    open spec fn view(&self) -> ClientFailedView {
        ClientFailedView {
            server_command: self.server_command@,
            current_position: self.current_position,
        }
    }
}

impl View for ClientMessage {
    type V = ClientMessageView;

    open spec fn view(&self) -> ClientMessageView {
        match self {
            ClientMessage::ClientOnConnect(m) => ClientMessageView::ClientOnConnect(m@),
            ClientMessage::ClientCommandResponse(m) => ClientMessageView::ClientCommandResponse(
                m@,
            ),
            ClientMessage::Failed(m) => ClientMessageView::Failed(m@),
        }
    }
}

impl View for ServerOnConnect {
    type V = ServerOnConnectView;

    open spec fn view(&self) -> ServerOnConnectView {
        ServerOnConnectView { client_name: self.client_name@, message: self.message@ }
    }
}

impl View for ServerCommand {
    type V = ServerCommandView;

    open spec fn view(&self) -> ServerCommandView {
        ServerCommandView { success_message: self.success_message@, message_id: self.message_id@ }
    }
}

impl View for ServerMessage {
    type V = ServerMessageView;

    open spec fn view(&self) -> ServerMessageView {
        match self {
            ServerMessage::OnConnect(m) => ServerMessageView::OnConnect(m@),
            ServerMessage::ServerMoveCommand(p) => ServerMessageView::ServerMoveCommand(*p),
            ServerMessage::ServerFailed(s) => ServerMessageView::ServerFailed(s@),
        }
    }
}

impl View for ClientState {
    type V = ClientStateView;

    open spec fn view(&self) -> ClientStateView {
        ClientStateView {
            last_message: self.last_message@,
            current_position: self.current_position,
        }
    }
}

impl ClientMessageView {
    /// Every position carried by the envelope is well formed.
    pub open spec fn wf(self) -> bool {
        match self {
            ClientMessageView::ClientOnConnect(m) => m.current_position.wf(),
            ClientMessageView::ClientCommandResponse(m) => m.current_position.wf(),
            ClientMessageView::Failed(m) => m.current_position.wf(),
        }
    }
}

impl ClientMessage {
    /// Every position carried by the envelope is well formed.
    pub open spec fn wf(self) -> bool {
        self@.wf()
    }
}

impl ServerMessageView {
    /// Every position carried by the envelope is well formed.
    pub open spec fn wf(self) -> bool {
        match self {
            ServerMessageView::OnConnect(_) => true,
            ServerMessageView::ServerMoveCommand(p) => p.wf(),
            ServerMessageView::ServerFailed(_) => true,
        }
    }
}

impl ServerMessage {
    /// Every position carried by the envelope is well formed.
    pub open spec fn wf(self) -> bool {
        self@.wf()
    }
}

// The client state projected out of each client envelope: the envelope's
// message text (for a failure, the failed command text) plus its position.

impl ClientStateView {
    pub open spec fn of_on_connect(m: ClientOnConnectView) -> ClientStateView {
        ClientStateView { last_message: m.message, current_position: m.current_position }
    }

    pub open spec fn of_response(m: ClientCommandResponseView) -> ClientStateView {
        ClientStateView { last_message: m.message, current_position: m.current_position }
    }

    pub open spec fn of_failed(m: ClientFailedView) -> ClientStateView {
        ClientStateView { last_message: m.server_command, current_position: m.current_position }
    }
}

impl From<ClientOnConnect> for ClientState {
    fn from(message: ClientOnConnect) -> (r: ClientState)
        ensures
            r@ == ClientStateView::of_on_connect(message@),
    {
        ClientState {
            last_message: message.message,
            current_position: message.current_position,
        }
    }
}

impl vstd::std_specs::convert::FromSpecImpl<ClientOnConnect> for ClientState {
    open spec fn obeys_from_spec() -> bool {
        true
    }

    open spec fn from_spec(message: ClientOnConnect) -> ClientState {
        ClientState {
            last_message: message.message,
            current_position: message.current_position,
        }
    }
}

impl From<ClientCommandResponse> for ClientState {
    fn from(message: ClientCommandResponse) -> (r: ClientState)
        ensures
            r@ == ClientStateView::of_response(message@),
    {
        ClientState {
            last_message: message.message,
            current_position: message.current_position,
        }
    }
}

impl vstd::std_specs::convert::FromSpecImpl<ClientCommandResponse> for ClientState {
    open spec fn obeys_from_spec() -> bool {
        true
    }

    open spec fn from_spec(message: ClientCommandResponse) -> ClientState {
        ClientState {
            last_message: message.message,
            current_position: message.current_position,
        }
    }
}

impl From<ClientFailed> for ClientState {
    fn from(message: ClientFailed) -> (r: ClientState)
        ensures
            r@ == ClientStateView::of_failed(message@),
    {
        ClientState {
            last_message: message.server_command,
            current_position: message.current_position,
        }
    }
}

impl vstd::std_specs::convert::FromSpecImpl<ClientFailed> for ClientState {
    open spec fn obeys_from_spec() -> bool {
        true
    }

    open spec fn from_spec(message: ClientFailed) -> ClientState {
        ClientState {
            last_message: message.server_command,
            current_position: message.current_position,
        }
    }
}

} // verus!
