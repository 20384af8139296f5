use agent_mux::collections::TextMap;
use agent_mux::json::{Json, Number};
use agent_mux::paseo_client::binary_frames::{
    decode, encode, encode_input, encode_resize, is_terminal_frame, Opcode, OP_INPUT, OP_OUTPUT,
    OP_RESTORE,
};
use agent_mux::paseo_client::client::{
    create_agent_reply, create_agent_request, create_directory_reply, create_terminal_reply,
    fetch_agent_reply, github_clone_reply, greeting_step, new_id, open_project_reply,
    open_project_request, session_text, timeline_items, try_parse_server_info, Dispatched,
    GreetingStep, Session, SessionAction,
};
use agent_mux::paseo_client::e2ee::{classify, decode_b64_permissive, Channel, Decrypted, NONCE_LEN};
use agent_mux::paseo_client::envelope::{
    hello_message, parse_top_level, ping_message, session_message_type, session_request_id, Incoming,
};
use agent_mux::paseo_client::error::PaseoError;
use agent_mux::paseo_client::events::{agent_update_event, DaemonEvent, TerminalStreamEvent};
use agent_mux::paseo_client::offer::{
    build_daemon_ws_url, build_relay_ws_url, check_offer, decode_daemon_public_key, offer_json,
    ConnectionOffer, RelayInfo,
};
use agent_mux::paseo_client::protocol::agents::{self, PermissionResponse};
use agent_mux::paseo_client::protocol::diff;
use agent_mux::paseo_client::protocol::stream::AgentUpdate;
use agent_mux::paseo_client::protocol::terminals::{
    self, create_terminal_request, parse_subscribe_slot, CreateTerminalOpts,
};
use agent_mux::paseo_client::protocol::workspaces::{self, Workspace, WorkspaceGitRuntime};
use agent_mux::paseo_client::protocol::ServerInfo;
use agent_mux::paseo_client::transport::{
    endpoint_of, handshake_step, password_headers, receive, send_binary, send_text, Frame,
    HandshakeStep, Received, WireMessage,
};
use base64::Engine;
use crypto_box::aead::Aead;
use crypto_box::{Nonce, PublicKey, SalsaBox, SecretKey};

fn json(text: &str) -> Json {
    Json::read(text).unwrap()
}

#[test]
fn header_layout_round_trips() {
    let frame = encode(Opcode::Output, 7, b"hello");
    assert_eq!(frame[0], OP_OUTPUT);
    assert_eq!(frame[1], 7);
    assert_eq!(&frame[2..], b"hello");

    let decoded = decode(&frame).expect("decode");
    assert_eq!(decoded.opcode, Opcode::Output);
    assert_eq!(decoded.slot, 7);
    assert_eq!(decoded.payload, b"hello");
}

#[test]
fn short_or_unknown_frames_are_rejected() {
    assert!(decode(&[]).is_none());
    assert!(decode(&[0x01]).is_none());
    assert!(decode(&[0x00, 0x00]).is_none());
}

#[test]
fn slot_is_a_single_byte() {
    let frame = encode(Opcode::Input, 255, b"");
    assert_eq!(frame, vec![OP_INPUT, 255]);
}

#[test]
fn resize_payload_is_json() {
    let frame = encode_resize(3, 40, 120).expect("encode");
    let decoded = decode(&frame).expect("decode");
    assert_eq!(decoded.opcode, Opcode::Resize);
    assert_eq!(decoded.slot, 3);
    let payload: serde_json::Value = serde_json::from_slice(&decoded.payload).expect("resize");
    assert_eq!(payload["rows"].as_u64(), Some(40));
    assert_eq!(payload["cols"].as_u64(), Some(120));
    assert_eq!(decoded.payload, br#"{"rows":40,"cols":120}"#.to_vec());
}

#[test]
fn terminal_frame_detection_uses_leading_opcode() {
    assert!(is_terminal_frame(&[OP_OUTPUT, 0]));
    assert!(is_terminal_frame(&[OP_RESTORE, 1, 2, 3]));
    assert!(!is_terminal_frame(&[0x40, 0, 0]));
    assert!(!is_terminal_frame(&[]));
}

fn daemon_side(daemon_secret: [u8; 32], client_public: [u8; 32]) -> SalsaBox {
    SalsaBox::new(
        &PublicKey::from_bytes(client_public),
        &SecretKey::from_bytes(daemon_secret),
    )
}

#[test]
fn client_ciphertext_decrypts_on_daemon_side() {
    let daemon_secret = SecretKey::from_bytes([7u8; 32]);
    let daemon_public = daemon_secret.public_key().to_bytes();

    let client = Channel::from_secret_bytes(daemon_public, [9u8; 32]);
    let client_public = SecretKey::from_bytes([9u8; 32]).public_key().to_bytes();

    let b64 = client.encrypt(br#"{"type":"hello"}"#).expect("encrypt");
    let bundle = decode_b64_permissive(&b64).expect("b64");
    let (nonce, ct) = bundle.split_at(NONCE_LEN);

    let plain = daemon_side(daemon_secret.to_bytes(), client_public)
        .decrypt(Nonce::from_slice(nonce), ct)
        .expect("daemon decrypt");
    assert_eq!(plain, br#"{"type":"hello"}"#);
}

#[test]
fn json_and_binary_are_classified() {
    match classify(br#"{"type":"session"}"#.to_vec()) {
        Decrypted::Json(s) => assert!(s.contains("session")),
        Decrypted::Binary(_) => panic!("json misclassified as binary"),
    }
    match classify(vec![OP_OUTPUT, 3, b'{', b'}']) {
        Decrypted::Binary(b) => assert_eq!(b[0], OP_OUTPUT),
        Decrypted::Json(_) => panic!("terminal frame misclassified as json"),
    }
    assert!(matches!(classify(vec![0xff, 0xfe]), Decrypted::Binary(_)));
}

#[test]
fn hello_frame_encodes_public_key() {
    let client = Channel::from_secret_bytes([1u8; 32], [2u8; 32]);
    let hello = client.hello_frame();
    assert!(hello.contains("e2ee_hello"));
    let value: serde_json::Value = serde_json::from_str(&hello).expect("json");
    let key = value["key"].as_str().expect("key");
    let decoded = base64::engine::general_purpose::STANDARD
        .decode(key)
        .expect("b64");
    assert_eq!(decoded.len(), 32);
    assert_eq!(
        decoded,
        SecretKey::from_bytes([2u8; 32]).public_key().to_bytes().to_vec()
    );
}

fn sample_offer_url() -> String {
    let json = r#"{"v":2,"serverId":"srv123","daemonPublicKeyB64":"AAAA","relay":{"endpoint":"relay.paseo.sh:443","useTls":true}}"#;
    let b64 = base64::engine::general_purpose::STANDARD.encode(json.as_bytes());
    let b64url = b64.replace('+', "-").replace('/', "_").replace('=', "");
    format!("https://app.paseo.sh/#offer={b64url}")
}

#[test]
fn parses_offer_from_fragment() {
    let bytes = offer_json(&sample_offer_url()).expect("parse");
    let value: serde_json::Value = serde_json::from_slice(&bytes).expect("json");
    let offer = check_offer(ConnectionOffer {
        v: value["v"].as_u64().unwrap() as u32,
        server_id: value["serverId"].as_str().unwrap().to_string(),
        daemon_public_key_b64: value["daemonPublicKeyB64"].as_str().unwrap().to_string(),
        relay: RelayInfo {
            endpoint: value["relay"]["endpoint"].as_str().unwrap().to_string(),
            use_tls: value["relay"]["useTls"].as_bool(),
        },
    })
    .expect("offer");
    assert_eq!(offer.v, 2);
    assert_eq!(offer.server_id, "srv123");
    assert_eq!(offer.relay.endpoint, "relay.paseo.sh:443");
    assert!(offer.use_tls());
}

#[test]
fn missing_marker_is_error() {
    assert!(offer_json("https://app.paseo.sh/").is_err());
}

#[test]
fn relay_url_has_client_role_and_v2() {
    let url = build_relay_ws_url("relay.paseo.sh:443", true, "srv123").expect("url");
    assert!(url.starts_with("wss://relay.paseo.sh/ws?"));
    assert!(url.contains("serverId=srv123"));
    assert!(url.contains("role=client"));
    assert!(url.contains("v=2"));

    let custom = build_relay_ws_url("relay.example:8443", true, "s").expect("url");
    assert!(custom.starts_with("wss://relay.example:8443/ws?"));
}

#[test]
fn daemon_url_defaults_to_ws_path() {
    let url = build_daemon_ws_url("127.0.0.1:6767", false).expect("url");
    assert_eq!(url, "ws://127.0.0.1:6767/ws");
}

#[test]
fn bad_endpoints_are_named() {
    let error = build_daemon_ws_url("a b", false).unwrap_err();
    assert!(error
        .message()
        .starts_with("invalid pairing offer: bad daemon endpoint a b: "));
    assert!(matches!(
        build_relay_ws_url("a b", true, "s"),
        Err(PaseoError::Offer(_))
    ));
    let escaped = build_relay_ws_url("r", false, "a&b c").unwrap();
    assert_eq!(escaped, "ws://r/ws?serverId=a%26b+c&role=client&v=2");
}

#[test]
fn offers_are_checked() {
    let offer = |server_id: &str, key: &str, use_tls: Option<bool>| ConnectionOffer {
        v: 2,
        server_id: server_id.into(),
        daemon_public_key_b64: key.into(),
        relay: RelayInfo {
            endpoint: "r".into(),
            use_tls,
        },
    };
    assert!(check_offer(offer("", "AAAA", None)).is_err());
    assert!(check_offer(offer("s", "", None)).is_err());
    assert!(offer("s", "k", None).use_tls());
    assert!(!offer("s", "k", Some(false)).use_tls());
    let error = |key: &str| decode_daemon_public_key(&offer("s", key, None)).unwrap_err();
    assert_eq!(error("AAAA"), PaseoError::Offer("daemon key is not 32 bytes".into()));
    assert!(matches!(error("!"), PaseoError::Offer(_)));
    let key = base64::engine::general_purpose::STANDARD.encode([5u8; 32]);
    assert_eq!(decode_daemon_public_key(&offer("s", &key, None)).unwrap(), [5u8; 32]);
    assert!(matches!(
        offer_json("x#offer=!!!"),
        Err(PaseoError::Offer(_))
    ));
}

#[test]
fn channels_decrypt_each_other() {
    let daemon_public = SecretKey::from_bytes([7u8; 32]).public_key().to_bytes();
    let client_public = SecretKey::from_bytes([9u8; 32]).public_key().to_bytes();
    let client = Channel::from_secret_bytes(daemon_public, [9u8; 32]);
    let daemon = Channel::from_secret_bytes(client_public, [7u8; 32]);
    let text = client.encrypt_with_nonce([3u8; 24], b"hi").unwrap();
    for side in [&client, &daemon] {
        match side.decrypt(&text).unwrap() {
            Decrypted::Json(s) => assert_eq!(s, "hi"),
            Decrypted::Binary(_) => panic!("not binary"),
        }
    }
    let unpadded = text.replace('=', "").replace('+', "-").replace('/', "_");
    assert!(matches!(daemon.decrypt(&unpadded), Ok(Decrypted::Json(_))));
    assert_eq!(
        daemon.decrypt("AAAA").unwrap_err(),
        PaseoError::Crypto("frame shorter than nonce".into())
    );
    let zeros = base64::engine::general_purpose::STANDARD.encode([0u8; 60]);
    assert_eq!(
        daemon.decrypt(&zeros).unwrap_err(),
        PaseoError::Crypto("decrypt failed".into())
    );
    assert!(matches!(daemon.decrypt("*"), Err(PaseoError::Crypto(_))));
    let fresh = Channel::new(daemon_public).unwrap();
    assert_ne!(fresh.hello_frame(), client.hello_frame());
}

#[test]
fn messages_pass_over_a_channel() {
    let daemon_public = SecretKey::from_bytes([7u8; 32]).public_key().to_bytes();
    let client_public = SecretKey::from_bytes([9u8; 32]).public_key().to_bytes();
    let client = Channel::from_secret_bytes(daemon_public, [9u8; 32]);
    let daemon = Channel::from_secret_bytes(client_public, [7u8; 32]);
    let sent = send_binary(Some(&client), encode_input(4, b"ls\n")).unwrap();
    assert!(matches!(sent, WireMessage::Text(_)));
    match receive(Some(&daemon), sent).unwrap() {
        Received::Frame(Frame::Binary(b)) => assert_eq!(b, encode_input(4, b"ls\n")),
        other => panic!("{other:?}"),
    }
    let sent = send_text(None, "plain".into()).unwrap();
    match receive(None, sent).unwrap() {
        Received::Frame(Frame::Json(s)) => assert_eq!(s, "plain"),
        other => panic!("{other:?}"),
    }
    assert!(matches!(
        receive(Some(&daemon), WireMessage::Binary(vec![1])),
        Ok(Received::Skip)
    ));
    assert!(matches!(receive(None, WireMessage::Close), Ok(Received::Closed)));
    assert!(matches!(receive(None, WireMessage::Other), Ok(Received::Skip)));
}

#[test]
fn handshakes_wait_for_ready() {
    let text = |s: &str| Some(WireMessage::Text(s.to_string()));
    assert!(matches!(handshake_step(text(r#"{"type":"e2ee_ready"}"#)), HandshakeStep::Ready));
    assert!(matches!(handshake_step(text(r#"{"type":"other"}"#)), HandshakeStep::Wait));
    assert!(matches!(handshake_step(text("nonsense")), HandshakeStep::Wait));
    assert!(matches!(handshake_step(Some(WireMessage::Other)), HandshakeStep::Wait));
    for end in [None, Some(WireMessage::Close)] {
        match handshake_step(end) {
            HandshakeStep::Failed(e) => {
                assert_eq!(e.message(), "handshake failed: closed before e2ee_ready")
            }
            other => panic!("{other:?}"),
        }
    }
}

#[test]
fn endpoints_of_urls() {
    let e = endpoint_of("wss://relay.paseo.sh/ws?v=2").unwrap();
    assert_eq!((e.use_tls, e.host.as_str(), e.port), (true, "relay.paseo.sh", 443));
    let e = endpoint_of("ws://127.0.0.1:6767/ws").unwrap();
    assert_eq!((e.use_tls, e.host.as_str(), e.port), (false, "127.0.0.1", 6767));
    assert_eq!(
        endpoint_of("data:x").unwrap_err(),
        PaseoError::WebSocket("url missing host".into())
    );
    assert_eq!(
        endpoint_of("foo://host/").unwrap_err(),
        PaseoError::WebSocket("url missing port".into())
    );
    assert!(endpoint_of("nope").unwrap_err().message().starts_with("websocket error: bad url: "));
    assert_eq!(
        password_headers("pw"),
        ("Bearer pw".to_string(), "paseo.bearer.pw".to_string())
    );
}

#[test]
fn json_reads_and_writes() {
    let text = r#"{"a":[1,-2,0.5,"x\n",true,null],"b":{}}"#;
    let value = json(text);
    assert_eq!(value.write(), text);
    assert_eq!(value.get("a").unwrap().copy(), json(r#"[1,-2,0.5,"x\n",true,null]"#));
    match value.get("a").unwrap() {
        Json::Array(items) => {
            assert_eq!(items[0].as_count(), Some(1));
            assert_eq!(items[1], Json::Number(Number::NegInt(-2)));
            assert_eq!(items[2], Json::Number(Number::Float("0.5".into())));
            assert_eq!(items[3].as_text(), Some("x\n"));
            assert_eq!(items[4].as_truth(), Some(true));
        }
        other => panic!("{other:?}"),
    }
    assert!(value.get("c").is_none());
    assert!(Json::read("{").is_err());
    assert_eq!(Json::read_bytes(b"[3]"), Ok(json("[3]")));
    assert!(Json::read_bytes(b"[").is_err());
    let doubled = Json::Object(vec![("k".into(), json("1")), ("k".into(), json("2"))]);
    assert_eq!(doubled.get("k").unwrap().as_count(), Some(2));
    assert_eq!(doubled.write(), r#"{"k":2}"#);
}

#[test]
fn top_level_messages() {
    assert!(matches!(parse_top_level(r#"{"type":"pong"}"#), Ok(Incoming::Pong)));
    match parse_top_level(r#"{"type":"session","message":{"type":"x"}}"#).unwrap() {
        Incoming::Session(m) => assert_eq!(session_message_type(&m), "x"),
        other => panic!("{other:?}"),
    }
    match parse_top_level(r#"{"type":"session"}"#).unwrap() {
        Incoming::Session(m) => assert_eq!(m, Json::Null),
        other => panic!("{other:?}"),
    }
    assert!(matches!(parse_top_level("[]"), Ok(Incoming::Unknown(_))));
    assert!(parse_top_level("").is_err());
    assert_eq!(ping_message().write(), r#"{"type":"ping"}"#);
    let hello = hello_message("me", Some("1.0"));
    assert_eq!(hello.get("clientId").unwrap().as_text(), Some("me"));
    assert_eq!(hello.get("appVersion").unwrap().as_text(), Some("1.0"));
    assert_eq!(hello.get("protocolVersion").unwrap().as_count(), Some(1));
    assert!(hello_message("me", None).get("appVersion").is_none());
    assert_eq!(
        session_text(json(r#"{"type":"t"}"#)),
        r#"{"message":{"type":"t"},"type":"session"}"#
    );
}

#[test]
fn request_ids_prefer_the_payload() {
    let id = |t: &str| session_request_id(&json(t));
    assert_eq!(id(r#"{"payload":{"requestId":"a"},"requestId":"b"}"#), Some("a".into()));
    assert_eq!(id(r#"{"payload":{},"requestId":"b"}"#), Some("b".into()));
    assert_eq!(id(r#"{"payload":{"requestId":1},"requestId":"b"}"#), None);
    assert_eq!(id("{}"), None);
}

#[test]
fn sessions_answer_requests_once() {
    let mut session = Session::new();
    let id = new_id();
    assert_eq!(id.len(), 36);
    assert_eq!(&id[14..15], "4");
    assert!("89ab".contains(&id[19..20]));
    assert_ne!(id, new_id());
    let out = session.begin_request(agents::fetch_agents_request(&id)).unwrap();
    assert_eq!(out.request_id, id);
    assert!(out.text.contains("fetch_agents_request"));
    assert!(matches!(
        session.begin_request(json("{}")),
        Err(PaseoError::Protocol(_))
    ));
    let answer = json(&format!(r#"{{"type":"x","payload":{{"requestId":"{id}","n":1}}}}"#));
    match session.dispatch_session(&answer) {
        SessionAction::Reply { request_id, payload } => {
            assert_eq!(request_id, id);
            assert_eq!(payload.get("n").unwrap().as_count(), Some(1));
        }
        other => panic!("{other:?}"),
    }
    assert!(matches!(session.dispatch_session(&answer), SessionAction::Nothing));

    session.begin_request(agents::fetch_agents_request("r")).unwrap();
    let failed = json(r#"{"type":"rpc_error","requestId":"r","payload":{"error":"bad"}}"#);
    match session.dispatch_session(&failed) {
        SessionAction::Fail { request_id, message } => {
            assert_eq!((request_id.as_str(), message.as_str()), ("r", "bad"))
        }
        other => panic!("{other:?}"),
    }
    session.begin_request(agents::fetch_agents_request("q")).unwrap();
    session.cancel_request("q");
    let late = json(r#"{"type":"agent_update","requestId":"q","payload":{"kind":"remove"}}"#);
    assert!(matches!(
        session.dispatch_session(&late),
        SessionAction::AgentUpdate { .. }
    ));
}

#[test]
fn sessions_route_announcements() {
    let mut session = Session::new();
    let mut route = |t: &str| session.dispatch_session(&json(t));
    match route(r#"{"type":"agent_stream","payload":{"agentId":"a","event":{"type":"e"}}}"#) {
        SessionAction::AgentStream { agent_id, event } => {
            assert_eq!(agent_id, "a");
            assert_eq!(event.get("type").unwrap().as_text(), Some("e"));
        }
        other => panic!("{other:?}"),
    }
    assert!(matches!(route(r#"{"type":"agent_stream","payload":{}}"#), SessionAction::Nothing));
    match route(r#"{"type":"agent_permission_request","payload":{"request":{"id":"p"}}}"#) {
        SessionAction::PermissionRequest { agent_id, request } => {
            assert_eq!(agent_id, "");
            assert_eq!(request.get("id").unwrap().as_text(), Some("p"));
        }
        other => panic!("{other:?}"),
    }
    match route(r#"{"type":"terminals_changed","payload":{"terminals":[{"id":"t"}]}}"#) {
        SessionAction::TerminalsChanged { terminals } => assert_eq!(terminals.len(), 1),
        other => panic!("{other:?}"),
    }
    assert!(matches!(
        route(r#"{"type":"checkout_diff_update"}"#),
        SessionAction::CheckoutDiff { payload: Json::Null }
    ));
    assert!(matches!(route(r#"{"type":"else"}"#), SessionAction::Nothing));
    assert!(matches!(route("7"), SessionAction::Nothing));
}

#[test]
fn sessions_follow_terminals() {
    let mut session = Session::new();
    let output = encode(Opcode::Output, 3, b"hi");
    assert!(session.dispatch_binary(&output).is_none());
    assert_eq!(session.subscribed("t1", &json(r#"{"slot":3}"#)).unwrap(), 3);
    match session.dispatch(Frame::Binary(output.clone())) {
        Dispatched::Stream { slot, event: TerminalStreamEvent::Output(data) } => {
            assert_eq!((slot, data), (3, b"hi".to_vec()))
        }
        other => panic!("{other:?}"),
    }
    match session.dispatch_binary(&encode(Opcode::Snapshot, 3, br#"{"a":1}"#)) {
        Some((3, TerminalStreamEvent::Snapshot(j))) => assert_eq!(j, json(r#"{"a":1}"#)),
        other => panic!("{other:?}"),
    }
    match session.dispatch_binary(&encode(Opcode::Snapshot, 3, b"{")) {
        Some((3, TerminalStreamEvent::Snapshot(j))) => assert_eq!(j, Json::Null),
        other => panic!("{other:?}"),
    }
    assert!(session.dispatch_binary(&encode_input(3, b"x")).is_none());
    let exit = r#"{"type":"session","message":{"type":"terminal_stream_exit","payload":{"terminalId":"t1"}}}"#;
    match session.dispatch(Frame::Json(exit.into())) {
        Dispatched::Session(SessionAction::TerminalExit { terminal_id }) => {
            assert_eq!(terminal_id, "t1")
        }
        other => panic!("{other:?}"),
    }
    assert!(session.dispatch_binary(&output).is_none());
    session.subscribed("t2", &json(r#"{"slot":3}"#)).unwrap();
    session.unsubscribed(3);
    assert!(session.dispatch_binary(&output).is_none());
    session.subscribed("t2", &json(r#"{"slot":3}"#)).unwrap();
    session.disconnected();
    assert!(session.dispatch_binary(&output).is_none());
    assert!(matches!(session.dispatch(Frame::Json("x".into())), Dispatched::Nothing));
}

#[test]
fn subscription_slots() {
    let slot = |t: &str| parse_subscribe_slot(&json(t));
    assert_eq!(slot(r#"{"slot":255}"#), Ok(255));
    assert_eq!(slot(r#"{"error":"no","slot":1}"#), Err(PaseoError::Rpc("no".into())));
    assert_eq!(slot(r#"{"slot":256}"#), Err(PaseoError::Protocol("slot out of range".into())));
    assert_eq!(
        slot(r#"{"slot":-1}"#),
        Err(PaseoError::Protocol("subscribe_terminal_response missing slot".into()))
    );
}

#[test]
fn replies_are_checked() {
    assert!(create_agent_reply(&json(r#"{"status":"agent_created","agent":{"id":"a"}}"#)).is_ok());
    assert_eq!(
        create_agent_reply(&json(r#"{"status":"agent_created"}"#)).unwrap_err(),
        PaseoError::Protocol("agent_created missing agent".into())
    );
    assert_eq!(
        create_agent_reply(&json("{}")).unwrap_err(),
        PaseoError::Rpc("create_agent failed".into())
    );
    assert!(fetch_agent_reply(&json("{}")).is_err());
    assert!(create_terminal_reply(&json(r#"{"terminal":{}}"#)).is_ok());
    assert_eq!(
        create_terminal_reply(&json(r#"{"error":"e"}"#)).unwrap_err(),
        PaseoError::Rpc("e".into())
    );
    assert_eq!(create_directory_reply(&json(r#"{"directoryPath":"/d"}"#)).unwrap(), "/d");
    assert!(create_directory_reply(&json("{}")).is_err());
    assert_eq!(github_clone_reply(&json(r#"{"project":{"rootPath":"/p"}}"#)).unwrap(), "/p");
    assert!(github_clone_reply(&json(r#"{"project":{}}"#)).is_err());
    assert_eq!(open_project_reply(&json(r#"{"workspace":{"id":"w"}}"#)).unwrap(), "w");
    assert!(open_project_reply(&json("{}")).is_err());
    let items = timeline_items(&json(r#"{"entries":[{"item":1},{},{"item":2}]}"#));
    assert_eq!(items, vec![json("1"), json("2")]);
    let info = r#"{"type":"session","message":{"type":"status","payload":{"status":"server_info"}}}"#;
    assert!(try_parse_server_info(info).is_some());
    assert!(try_parse_server_info(r#"{"type":"pong"}"#).is_none());
    assert!(try_parse_server_info("x").is_none());
}

#[test]
fn requests_spell_their_members() {
    assert_eq!(
        agents::subscribe_agents_request("r", "s").write(),
        r#"{"page":{"limit":200},"requestId":"r","subscribe":{"subscriptionId":"s"},"type":"fetch_agents_request"}"#
    );
    assert_eq!(
        agents::fetch_agent_timeline_request("r", "a", "tail", 5).write(),
        r#"{"agentId":"a","direction":"tail","limit":5,"requestId":"r","type":"fetch_agent_timeline_request"}"#
    );
    assert_eq!(
        agents::set_timeline_subscription_request("r", &["x".to_string(), "y".to_string()]).write(),
        r#"{"agentIds":["x","y"],"requestId":"r","type":"agent.timeline.set_subscription.request"}"#
    );
    assert_eq!(
        agents::list_provider_models_request("r", "p", Some("/c")).write(),
        r#"{"cwd":"/c","provider":"p","requestId":"r","type":"list_provider_models_request"}"#
    );
    let allow = PermissionResponse::Allow {
        selected_action_id: Some("go".into()),
        updated_input: Some(json("[0.25]")),
    };
    assert_eq!(
        agents::permission_response_message("a", "r", &allow).write(),
        r#"{"agentId":"a","requestId":"r","response":{"behavior":"allow","selectedActionId":"go","updatedInput":[0.25]},"type":"agent_permission_response"}"#
    );
    let deny = PermissionResponse::Deny {
        message: None,
        interrupt: true,
    };
    assert_eq!(deny.to_value().write(), r#"{"behavior":"deny","interrupt":true}"#);
    let opts = CreateTerminalOpts {
        command: Some("ls".into()),
        args: Some(vec!["-l".into()]),
        ..CreateTerminalOpts::default()
    };
    assert_eq!(
        create_terminal_request("r", "/c", &opts).write(),
        r#"{"args":["-l"],"command":"ls","cwd":"/c","requestId":"r","size":{"cols":80,"rows":24},"type":"create_terminal_request"}"#
    );
    assert_eq!(
        terminals::list_terminals_request("r", None).write(),
        r#"{"requestId":"r","type":"list_terminals_request"}"#
    );
    assert_eq!(
        workspaces::workspace_create_worktree_request("r", "/c", "new", None, Some("main"), None).write(),
        r#"{"requestId":"r","source":{"action":"new","baseBranch":"main","cwd":"/c","kind":"worktree"},"type":"workspace.create.request"}"#
    );
    assert_eq!(
        workspaces::directory_suggestions_request("r", "q", 9).write(),
        r#"{"includeDirectories":true,"includeFiles":false,"limit":9,"matchMode":"fuzzy","query":"q","requestId":"r","type":"directory_suggestions_request"}"#
    );
    assert_eq!(
        diff::subscribe_checkout_diff_request("r", "s", "/c", "base").write(),
        r#"{"compare":{"mode":"base"},"cwd":"/c","requestId":"r","subscriptionId":"s","type":"subscribe_checkout_diff_request"}"#
    );
    assert_eq!(
        create_agent_request("r", "p", "/c", Some("w"), None).write(),
        r#"{"config":{"cwd":"/c","provider":"p"},"labels":{},"requestId":"r","type":"create_agent_request","workspaceId":"w"}"#
    );
    assert_eq!(
        open_project_request("r", "/c").write(),
        r#"{"cwd":"/c","requestId":"r","type":"open_project_request"}"#
    );
}

#[test]
fn workspaces_fall_back() {
    let mut w = Workspace {
        id: "w".into(),
        project_id: String::new(),
        project_display_name: String::new(),
        project_root_path: "/root".into(),
        workspace_directory: Some(String::new()),
        workspace_kind: String::new(),
        name: String::new(),
        git_runtime: Some(WorkspaceGitRuntime {
            current_branch: Some("main".into()),
        }),
    };
    assert_eq!(w.cwd(), "/root");
    assert_eq!(w.branch(), Some("main"));
    w.workspace_directory = Some("/dir".into());
    w.git_runtime = None;
    assert_eq!(w.cwd(), "/dir");
    assert_eq!(w.branch(), None);
}

#[test]
fn features_and_updates() {
    let mut features = TextMap::new();
    features.insert("on", Json::Bool(true));
    features.insert("text", Json::text("true"));
    let info = ServerInfo {
        server_id: "s".into(),
        hostname: None,
        version: None,
        desktop_managed: false,
        features,
        capabilities: TextMap::new(),
    };
    assert!(info.feature_enabled("on"));
    assert!(!info.feature_enabled("text"));
    assert!(!info.feature_enabled("off"));
    let update = |kind: &str, id: Option<&str>| AgentUpdate {
        kind: kind.into(),
        agent: None,
        agent_id: id.map(str::to_string),
    };
    assert!(matches!(
        agent_update_event(update("remove", Some("a"))),
        Some(DaemonEvent::AgentRemove(id)) if id == "a"
    ));
    assert!(agent_update_event(update("remove", None)).is_none());
    assert!(agent_update_event(update("upsert", Some("a"))).is_none());
}

#[test]
fn a_daemon_is_waited_for_until_it_introduces_itself() {
    match greeting_step(None) {
        GreetingStep::Failed(PaseoError::Handshake(message)) => {
            assert_eq!(message, "closed before server_info")
        }
        other => panic!("{:?}", other),
    }
    assert!(matches!(
        greeting_step(Some(Frame::Binary(vec![1, 2]))),
        GreetingStep::Wait
    ));
    let no_greeting = [
        "not json",
        r#"{"type":"pong"}"#,
        r#"{"type":"session","message":{"type":"status","payload":{"status":"busy"}}}"#,
    ];
    for text in no_greeting {
        assert!(matches!(
            greeting_step(Some(Frame::Json(text.to_string()))),
            GreetingStep::Wait
        ));
    }
    let text = r#"{"type":"session","message":{"type":"status","payload":{"status":"server_info","serverId":"s"}}}"#;
    match greeting_step(Some(Frame::Json(text.to_string()))) {
        GreetingStep::Introduced(info) => {
            assert_eq!(info.get_text("serverId"), Some("s".to_string()))
        }
        other => panic!("{:?}", other),
    }
}
