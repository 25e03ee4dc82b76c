use agentlink::codec::{
    decode_client_frame, decode_client_message, decode_server_frame, encode_client_frame,
    encode_client_message, encode_server_frame, encode_server_message, take_frame,
};
use agentlink::messages::{
    ClientCommandResponse, ClientFailed, ClientMessage, ClientOnConnect, ClientState, Coord, Point,
    ServerMessage, ServerOnConnect,
};

fn pt(x: i64, y: i64, zm: i64, zs: u32) -> Point {
    Point::new(Coord::whole(x), Coord::whole(y), Coord::new(zm, zs))
}

#[test]
fn client_message_exact_text() {
    let m = ClientMessage::ClientCommandResponse(ClientCommandResponse {
        message: "ok".to_string(),
        current_position: pt(0, 0, 2, 1),
    });
    let s = encode_client_message(&m);
    assert_eq!(
        s,
        "{\"ClientCommandResponse\":{\"message\":\"ok\",\"current_position\":{\"x\":0,\"y\":0,\"z\":2e-1}}}"
    );
}

#[test]
fn server_message_exact_text() {
    let m = ServerMessage::ServerMoveCommand(pt(-3, 0, 6, 1));
    let s = encode_server_message(&m);
    assert_eq!(s, "{\"ServerMoveCommand\":{\"x\":-3,\"y\":0,\"z\":6e-1}}");
}

#[test]
fn frame_prefix_is_big_endian_length() {
    let m = ServerMessage::ServerFailed("x".to_string());
    let f = encode_server_frame(&m).unwrap();
    let text = encode_server_message(&m);
    let n = text.as_bytes().len();
    assert_eq!(f.len(), 4 + n);
    assert_eq!(f[0], 0);
    assert_eq!(f[1], 0);
    assert_eq!(f[2], (n / 256) as u8);
    assert_eq!(f[3], (n % 256) as u8);
    assert_eq!(&f[4..], text.as_bytes());
}

#[test]
fn client_frame_roundtrip_all_variants() {
    let msgs = vec![
        ClientMessage::ClientOnConnect(ClientOnConnect {
            client_name: "agent-1".to_string(),
            message: "hello".to_string(),
            current_position: pt(0, 0, 0, 0),
        }),
        ClientMessage::ClientCommandResponse(ClientCommandResponse {
            message: "success".to_string(),
            current_position: pt(1, -2, 4, 1),
        }),
        ClientMessage::Failed(ClientFailed {
            server_command: "blocked".to_string(),
            current_position: pt(0, 0, 1, 1),
        }),
    ];
    for m in msgs {
        let f = encode_client_frame(&m).unwrap();
        let (payload, used) = take_frame(&f).unwrap();
        assert_eq!(used, f.len());
        let back = decode_client_frame(payload).unwrap();
        assert_eq!(back, m);
    }
}

#[test]
fn server_frame_roundtrip_all_variants() {
    let msgs = vec![
        ServerMessage::OnConnect(ServerOnConnect {
            client_name: "agent-1".to_string(),
            message: "hello".to_string(),
        }),
        ServerMessage::ServerMoveCommand(pt(0, 0, 6, 1)),
        ServerMessage::ServerFailed("down".to_string()),
    ];
    for m in msgs {
        let f = encode_server_frame(&m).unwrap();
        let (payload, used) = take_frame(&f).unwrap();
        assert_eq!(used, f.len());
        let back = decode_server_frame(payload).unwrap();
        assert_eq!(back, m);
    }
}

#[test]
fn string_escapes_roundtrip() {
    let m = ClientMessage::Failed(ClientFailed {
        server_command: "say \"hi\" \\ twice".to_string(),
        current_position: pt(0, 0, 0, 0),
    });
    let text = encode_client_message(&m);
    assert!(text.contains("say \\\"hi\\\" \\\\ twice"));
    let back = decode_client_message(&text).unwrap();
    assert_eq!(back, m);
}

#[test]
fn negative_and_scaled_coordinates_roundtrip() {
    let m = ClientMessage::ClientCommandResponse(ClientCommandResponse {
        message: "m".to_string(),
        current_position: Point::new(
            Coord::new(-1234, 3),
            Coord::new(i64::MAX, 18),
            Coord::whole(-7),
        ),
    });
    let f = encode_client_frame(&m).unwrap();
    let (payload, _) = take_frame(&f).unwrap();
    assert_eq!(decode_client_frame(payload).unwrap(), m);
}

#[test]
fn decoder_accepts_fraction_notation() {
    let text = "{\"ServerMoveCommand\":{\"x\":0.0,\"y\":-1.5,\"z\":12.25}}";
    let m = agentlink::codec::decode_server_message(text).unwrap();
    match m {
        ServerMessage::ServerMoveCommand(p) => {
            assert_eq!(p.x, Coord::new(0, 1));
            assert_eq!(p.y, Coord::new(-15, 1));
            assert_eq!(p.z, Coord::new(1225, 2));
        }
        _ => panic!("wrong variant"),
    }
}

#[test]
fn take_frame_waits_for_full_span() {
    let m = ServerMessage::ServerFailed("gone".to_string());
    let f = encode_server_frame(&m).unwrap();
    assert!(take_frame(&f[..3].to_vec()).is_none());
    assert!(take_frame(&f[..f.len() - 1].to_vec()).is_none());
    assert!(take_frame(&f).is_some());
}

#[test]
fn malformed_payload_is_rejected() {
    assert!(decode_client_frame(vec![0xff, 0xfe]).is_none());
    assert!(decode_client_frame("{\"Nonsense\":1}".as_bytes().to_vec()).is_none());
    assert!(decode_client_frame("{\"ClientOnConnect\":{\"client_name\":\"a\"".as_bytes().to_vec()).is_none());
    assert!(decode_server_frame("{\"ServerFailed\":\"x\"} ".as_bytes().to_vec()).is_none());
}

#[test]
fn client_state_projections() {
    let a = ClientState::from(ClientOnConnect {
        client_name: "n".to_string(),
        message: "hi".to_string(),
        current_position: pt(1, 2, 3, 0),
    });
    assert_eq!(a.last_message, "hi");
    assert_eq!(a.current_position, pt(1, 2, 3, 0));
    let b = ClientState::from(ClientCommandResponse {
        message: "done".to_string(),
        current_position: pt(0, 0, 2, 1),
    });
    assert_eq!(b.last_message, "done");
    let c = ClientState::from(ClientFailed {
        server_command: "blocked".to_string(),
        current_position: pt(0, 0, 1, 1),
    });
    assert_eq!(c.last_message, "blocked");
    assert_eq!(c.current_position, pt(0, 0, 1, 1));
}

#[test]
fn default_point_is_origin() {
    let p: Point = Default::default();
    assert_eq!(p, pt(0, 0, 0, 0));
}
