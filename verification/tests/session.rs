use agentlink::client::{ClientAction, ClientError, ClientEvent, ClientPhase, ClientSession};
use agentlink::messages::{
    ClientCommandResponse, ClientFailed, ClientMessage, ClientOnConnect, Coord, Point,
    ServerMessage,
};
use agentlink::registry::Registry;
use agentlink::session::{Action, Session, SessionError, SessionEvent, SessionState};

fn z(tenths: i64) -> Point {
    Point::new(Coord::whole(0), Coord::whole(0), Coord::new(tenths, 1))
}

fn hello(name: &str) -> ClientMessage {
    ClientMessage::ClientOnConnect(ClientOnConnect {
        client_name: name.to_string(),
        message: "hello".to_string(),
        current_position: z(0),
    })
}

/// Carry out a step's actions against a registry, returning what was sent.
fn run_actions(reg: &mut Registry, acts: Vec<Action>) -> Vec<ServerMessage> {
    let mut sent = Vec::new();
    for a in acts {
        match a {
            Action::Send(m) => sent.push(m),
            Action::Upsert { id, state } => reg.upsert(id, state),
            Action::ReportFinal { .. } => {}
        }
    }
    sent
}

#[test]
fn handshake_rejected_before_any_registry_mutation() {
    let mut reg = Registry::new();
    let mut s = Session::new(vec![z(2)]);
    let bad = ClientMessage::ClientCommandResponse(ClientCommandResponse {
        message: "early".to_string(),
        current_position: z(0),
    });
    let acts = s.on_event(SessionEvent::Envelope(bad));
    assert!(acts.is_empty());
    assert!(matches!(
        s.state,
        SessionState::Aborted { error: SessionError::ProtocolViolation }
    ));
    assert_eq!(reg.len(), 0);
    let sent = run_actions(&mut reg, acts);
    assert!(sent.is_empty());
}

#[test]
fn failed_shaped_first_frame_is_rejected_too() {
    let mut s = Session::new(vec![z(2)]);
    let bad = ClientMessage::Failed(ClientFailed {
        server_command: "no".to_string(),
        current_position: z(0),
    });
    let acts = s.on_event(SessionEvent::Envelope(bad));
    assert!(acts.is_empty());
    assert!(matches!(
        s.state,
        SessionState::Aborted { error: SessionError::ProtocolViolation }
    ));
}

#[test]
fn commands_follow_plan_order_one_per_response() {
    let plan = vec![z(2), z(4), z(5), z(6)];
    let mut reg = Registry::new();
    let mut s = Session::new(plan.clone());
    let acts = s.on_event(SessionEvent::Envelope(hello("agent-1")));
    let sent = run_actions(&mut reg, acts);
    // acknowledgement first, then exactly the first command
    assert_eq!(sent.len(), 2);
    match &sent[0] {
        ServerMessage::OnConnect(a) => {
            assert_eq!(a.client_name, "agent-1");
            assert_eq!(a.message, "hello");
        }
        _ => panic!("expected acknowledgement"),
    }
    assert!(matches!(&sent[1], ServerMessage::ServerMoveCommand(p) if *p == plan[0]));
    // each successful response yields exactly the next command, in order
    for expect_next in 1..plan.len() {
        let resp = ClientMessage::ClientCommandResponse(ClientCommandResponse {
            message: "success".to_string(),
            current_position: plan[expect_next - 1],
        });
        let acts = s.on_event(SessionEvent::Envelope(resp));
        let sent = run_actions(&mut reg, acts);
        assert_eq!(sent.len(), 1);
        assert!(matches!(&sent[0], ServerMessage::ServerMoveCommand(p) if *p == plan[expect_next]));
    }
    // final response closes the session without another command
    let resp = ClientMessage::ClientCommandResponse(ClientCommandResponse {
        message: "success".to_string(),
        current_position: plan[plan.len() - 1],
    });
    let acts = s.on_event(SessionEvent::Envelope(resp));
    let sent = run_actions(&mut reg, acts);
    assert!(sent.is_empty());
    assert!(matches!(s.state, SessionState::Closed));
}

#[test]
fn end_to_end_scenario_with_correct_client() {
    let plan = vec![z(2), z(4), z(5), z(6)];
    let mut reg = Registry::new();
    let mut server = Session::new(plan.clone());
    let mut client = ClientSession::new(z(0));
    let mut to_server = vec![client.introduction("agent-1".to_string())];
    let mut first_registry_check = false;
    while !server.done() {
        if to_server.is_empty() {
            break;
        }
        let msg = to_server.remove(0);
        let acts = server.on_event(SessionEvent::Envelope(msg));
        let sent = run_actions(&mut reg, acts);
        if !first_registry_check {
            // the handshake published the introduction snapshot
            let snap = reg.get("agent-1").unwrap();
            assert_eq!(snap.last_message, "hello");
            assert_eq!(snap.current_position, z(0));
            first_registry_check = true;
        }
        for m in sent {
            for act in client.on_event(ClientEvent::Envelope(m)) {
                match act {
                    ClientAction::Send(reply) => to_server.push(reply),
                    ClientAction::ReportAck { client_name } => {
                        assert_eq!(client_name, "agent-1")
                    }
                }
            }
        }
    }
    assert!(matches!(server.state, SessionState::Closed));
    assert_eq!(client.agent.current_position, z(6));
    let snap = reg.get("agent-1").unwrap();
    assert_eq!(snap.last_message, "success");
    assert_eq!(snap.current_position, z(6));
}

#[test]
fn command_failure_aborts_and_records_snapshot() {
    let plan = vec![z(2), z(4)];
    let mut reg = Registry::new();
    let mut s = Session::new(plan);
    let acts = s.on_event(SessionEvent::Envelope(hello("agent-1")));
    run_actions(&mut reg, acts);
    let failed = ClientMessage::Failed(ClientFailed {
        server_command: "blocked".to_string(),
        current_position: z(1),
    });
    let acts = s.on_event(SessionEvent::Envelope(failed));
    let sent = run_actions(&mut reg, acts);
    assert!(sent.is_empty(), "no further move command after a failure");
    assert!(matches!(
        s.state,
        SessionState::Aborted { error: SessionError::CommandFailure }
    ));
    let snap = reg.get("agent-1").unwrap();
    assert_eq!(snap.last_message, "blocked");
    assert_eq!(snap.current_position, z(1));
}

#[test]
fn second_handshake_is_a_protocol_violation() {
    let mut s = Session::new(vec![z(2)]);
    s.on_event(SessionEvent::Envelope(hello("agent-1")));
    let acts = s.on_event(SessionEvent::Envelope(hello("agent-1")));
    assert!(acts.is_empty());
    assert!(matches!(
        s.state,
        SessionState::Aborted { error: SessionError::ProtocolViolation }
    ));
}

#[test]
fn stream_end_and_bad_frames_abort() {
    let mut s = Session::new(vec![z(2)]);
    s.on_event(SessionEvent::Envelope(hello("a")));
    let acts = s.on_event(SessionEvent::BadFrame);
    assert!(acts.is_empty());
    assert!(matches!(s.state, SessionState::Aborted { error: SessionError::Frame }));
    let mut s2 = Session::new(vec![z(2)]);
    let acts = s2.on_event(SessionEvent::StreamClosed);
    assert!(acts.is_empty());
    assert!(matches!(s2.state, SessionState::Aborted { error: SessionError::Transport }));
}

#[test]
fn client_follows_commands_and_reports_success() {
    let mut c = ClientSession::new(z(0));
    assert!(matches!(c.phase, ClientPhase::AwaitingAck));
    let acts = c.on_event(ClientEvent::Envelope(ServerMessage::OnConnect(
        agentlink::messages::ServerOnConnect {
            client_name: "me".to_string(),
            message: "hello".to_string(),
        },
    )));
    assert_eq!(acts.len(), 1);
    assert!(matches!(c.phase, ClientPhase::Following));
    let acts = c.on_event(ClientEvent::Envelope(ServerMessage::ServerMoveCommand(z(3))));
    assert_eq!(c.agent.current_position, z(3));
    match &acts[..] {
        [ClientAction::Send(ClientMessage::ClientCommandResponse(r))] => {
            assert_eq!(r.message, "success");
            assert_eq!(r.current_position, z(3));
        }
        _ => panic!("expected one successful response"),
    }
}

#[test]
fn client_stops_on_server_failure_notice() {
    let mut c = ClientSession::new(z(0));
    c.on_event(ClientEvent::Envelope(ServerMessage::OnConnect(
        agentlink::messages::ServerOnConnect {
            client_name: "me".to_string(),
            message: "hello".to_string(),
        },
    )));
    let acts = c.on_event(ClientEvent::Envelope(ServerMessage::ServerFailed(
        "down".to_string(),
    )));
    assert!(acts.is_empty());
    assert!(matches!(c.phase, ClientPhase::Stopped { error: ClientError::ServerFault }));
}
