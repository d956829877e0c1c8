use rethink_wire::connection::Connection;
use rethink_wire::error::Error;
use rethink_wire::handshake::{
    classify_server, handshake_on_message, handshake_start, HandshakeAction, HandshakeState,
    ServerMsg,
};
use rethink_wire::json::{encode_json, Json};
use rethink_wire::parse::parse_json;
use rethink_wire::tree::Tree;
use scram::{hash_password, AuthenticationProvider, PasswordInfo, ScramServer};
use std::num::NonZeroU32;

/// A duplex stream double: it records every byte the driver writes and
/// whether the driver shut it down.
struct MockStream {
    written: Vec<u8>,
    shutdown: bool,
}

impl MockStream {
    fn new() -> MockStream {
        MockStream {
            written: Vec::new(),
            shutdown: false,
        }
    }

    fn write(&mut self, bytes: &[u8]) {
        assert!(!self.shutdown, "write after shutdown");
        self.written.extend_from_slice(bytes);
    }

    fn shutdown(&mut self) {
        self.shutdown = true;
    }
}

struct OneUser;

impl AuthenticationProvider for OneUser {
    fn get_password_for(&self, username: &str) -> Option<PasswordInfo> {
        if username != "user" {
            return None;
        }
        let iterations = NonZeroU32::new(4096).unwrap();
        let salt = b"salty".to_vec();
        let hashed = hash_password("pencil", iterations, &salt).to_vec();
        Some(PasswordInfo::new(hashed, 4096, salt))
    }
}

fn str_field(j: &Json, key: &[u8]) -> String {
    let ms = match j {
        Json::Obj(ms) => ms,
        _ => panic!("not an object"),
    };
    for (k, v) in ms {
        if k.as_slice() == key {
            match v {
                Json::Str(b) => return String::from_utf8(b.clone()).unwrap(),
                _ => panic!("field is not a string"),
            }
        }
    }
    panic!("missing field");
}

fn success_reply(authentication: String) -> Vec<u8> {
    encode_json(&Json::Obj(vec![
        (
            b"authentication".to_vec(),
            Json::Str(authentication.into_bytes()),
        ),
        (b"success".to_vec(), Json::Bool(true)),
    ]))
}

#[test]
fn auth_error_code_in_reserved_range_is_auth_failure() {
    let t = b"{\"error\": \"Wrong password\", \"error_code\": 15, \"success\": false}";
    assert!(matches!(classify_server(t), ServerMsg::AuthFailure));
}

#[test]
fn auth_error_code_outside_range_is_server_error_with_text() {
    let t = b"{\"error\": \"Wrong password\", \"error_code\": 30, \"success\": false}";
    match classify_server(t) {
        ServerMsg::ErrText { error } => assert_eq!(error, b"Wrong password".to_vec()),
        _ => panic!("expected the generic server error"),
    }
}

#[test]
fn auth_range_bounds_are_inclusive() {
    let low = b"{\"error\": \"e\", \"error_code\": 10, \"success\": false}";
    let high = b"{\"error\": \"e\", \"error_code\": 20, \"success\": false}";
    let below = b"{\"error\": \"e\", \"error_code\": 9, \"success\": false}";
    let above = b"{\"error\": \"e\", \"error_code\": 21, \"success\": false}";
    assert!(matches!(classify_server(low), ServerMsg::AuthFailure));
    assert!(matches!(classify_server(high), ServerMsg::AuthFailure));
    assert!(matches!(classify_server(below), ServerMsg::ErrText { .. }));
    assert!(matches!(classify_server(above), ServerMsg::ErrText { .. }));
}

#[test]
fn success_flag_false_on_success_shape_is_invariant_violation() {
    let t = b"{\"authentication\": \"x\", \"success\": false}";
    assert!(matches!(classify_server(t), ServerMsg::BadSuccess));
}

#[test]
fn error_shape_with_success_true_is_invariant_violation() {
    let t = b"{\"error\": \"e\", \"error_code\": 1, \"success\": true}";
    assert!(matches!(classify_server(t), ServerMsg::BadError));
}

#[test]
fn neither_shape_is_malformed() {
    assert!(matches!(classify_server(b"[1,2,3]"), ServerMsg::Malformed));
    assert!(matches!(
        classify_server(b"{\"success\": true}"),
        ServerMsg::Malformed
    ));
    assert!(matches!(classify_server(b"not json"), ServerMsg::Malformed));
}

#[test]
fn duplicated_field_is_resolved_by_its_last_occurrence() {
    let t = b"{\"success\": true, \"authentication\": \"a\", \"success\": false}";
    assert!(matches!(classify_server(t), ServerMsg::BadSuccess));
    let t2 = b"{\"success\": false, \"authentication\": \"a\", \"success\": true}";
    match classify_server(t2) {
        ServerMsg::Success { authentication } => assert_eq!(authentication, b"a".to_vec()),
        _ => panic!("expected the success shape"),
    }
}

#[test]
fn connect_end_to_end_against_mock_stream() {
    let mut mock = MockStream::new();
    let server = ScramServer::new(OneUser);

    let (state, version) = handshake_start("user", "pencil");
    mock.write(&version);
    assert_eq!(mock.written, 0x34c2bdc3u32.to_le_bytes().to_vec());

    let ack = b"{\"success\":true,\"min_protocol_version\":0,\
                \"max_protocol_version\":0,\"server_version\":\"2.3.0\"}";
    let (state, action) = handshake_on_message(state, ack);
    let first = match action {
        HandshakeAction::Send(m) => m,
        _ => panic!("expected the client-first text"),
    };
    assert_eq!(*first.last().unwrap(), 0u8);
    mock.write(&first);

    let first_json = parse_json(&first[..first.len() - 1]).unwrap();
    assert_eq!(
        str_field(&first_json, b"authentication_method"),
        "SCRAM-SHA-256"
    );
    let client_first = str_field(&first_json, b"authentication");
    let server_first_state = server.handle_client_first(&client_first).unwrap();
    let (server_final_state, server_first_msg) = server_first_state.server_first();

    let (state, action) = handshake_on_message(state, &success_reply(server_first_msg));
    let last = match action {
        HandshakeAction::Send(m) => m,
        _ => panic!("expected the client-final text"),
    };
    assert_eq!(*last.last().unwrap(), 0u8);
    mock.write(&last);

    let last_json = parse_json(&last[..last.len() - 1]).unwrap();
    let client_final = str_field(&last_json, b"authentication");
    let verified = server_final_state.handle_client_final(&client_final).unwrap();
    let (status, server_final_msg) = verified.server_final();
    assert_eq!(status, scram::AuthenticationStatus::Authenticated);

    let (state, action) = handshake_on_message(state, &success_reply(server_final_msg));
    assert!(matches!(action, HandshakeAction::Finish));
    assert!(matches!(state, HandshakeState::Done));

    let mut conn = Connection::new(
        "localhost".to_string(),
        28015,
        "user".to_string(),
        "pencil".to_string(),
    );
    let frame = conn.send_query(&Tree::Datum(Json::I64(42))).unwrap();
    mock.write(&frame);
    assert_eq!(&frame[0..8], &0u64.to_le_bytes());
    let len = u32::from_le_bytes(frame[8..12].try_into().unwrap()) as usize;
    assert_eq!(len, frame.len() - 12);
    assert_eq!(parse_json(&frame[12..]).unwrap(), Json::I64(42));
}

#[test]
fn wrong_password_ends_in_auth_failure() {
    let server = ScramServer::new(OneUser);
    let (state, _version) = handshake_start("user", "wrong");
    let ack = b"{\"success\":true,\"min_protocol_version\":0,\
                \"max_protocol_version\":0,\"server_version\":\"2.3.0\"}";
    let (state, action) = handshake_on_message(state, ack);
    let first = match action {
        HandshakeAction::Send(m) => m,
        _ => panic!("expected the client-first text"),
    };
    let client_first = str_field(&parse_json(&first[..first.len() - 1]).unwrap(), b"authentication");
    let server_first_state = server.handle_client_first(&client_first).unwrap();
    let (server_final_state, server_first_msg) = server_first_state.server_first();
    let (state, action) = handshake_on_message(state, &success_reply(server_first_msg));
    let last = match action {
        HandshakeAction::Send(m) => m,
        _ => panic!("expected the client-final text"),
    };
    let client_final = str_field(&parse_json(&last[..last.len() - 1]).unwrap(), b"authentication");
    // The server finds the proof invalid and reports the reserved code.
    let verified = server_final_state.handle_client_final(&client_final).unwrap();
    let (status, _msg) = verified.server_final();
    assert_eq!(status, scram::AuthenticationStatus::NotAuthenticated);
    let reply = b"{\"error\": \"Wrong password\", \"error_code\": 12, \"success\": false}";
    let (state, action) = handshake_on_message(state, reply);
    assert!(matches!(state, HandshakeState::Failed));
    match action {
        HandshakeAction::Teardown(e) => assert_eq!(e, Error::ReqlAuthError),
        _ => panic!("expected teardown"),
    }
}

#[test]
fn short_challenge_fields_tear_down_instead_of_panicking() {
    for auth in [",x", "r=n,s", "xx,s"] {
        let (state, _version) = handshake_start("user", "pencil");
        let ack = b"{\"success\":true,\"min_protocol_version\":0,\
                    \"max_protocol_version\":0,\"server_version\":\"2.3.0\"}";
        let (state, action) = handshake_on_message(state, ack);
        assert!(matches!(action, HandshakeAction::Send(_)));
        let reply = success_reply(auth.to_string());
        let (state, action) = handshake_on_message(state, &reply);
        assert!(matches!(state, HandshakeState::Failed));
        match action {
            HandshakeAction::Teardown(Error::ServerError(t)) => {
                assert_eq!(t, "Received a malformed challenge from RethinkDB.");
            }
            _ => panic!("expected teardown with the malformed-challenge error"),
        }
    }
}

#[test]
fn multibyte_identity_proof_tears_down_instead_of_panicking() {
    let server = ScramServer::new(OneUser);
    let (state, _version) = handshake_start("user", "pencil");
    let ack = b"{\"success\":true,\"min_protocol_version\":0,\
                \"max_protocol_version\":0,\"server_version\":\"2.3.0\"}";
    let (state, action) = handshake_on_message(state, ack);
    let first = match action {
        HandshakeAction::Send(m) => m,
        _ => panic!("expected the client-first text"),
    };
    let client_first = str_field(&parse_json(&first[..first.len() - 1]).unwrap(), b"authentication");
    let server_first_state = server.handle_client_first(&client_first).unwrap();
    let (_server_final_state, server_first_msg) = server_first_state.server_first();
    let (state, action) = handshake_on_message(state, &success_reply(server_first_msg));
    assert!(matches!(action, HandshakeAction::Send(_)));
    let (state, action) = handshake_on_message(state, &success_reply("\u{2713}\u{2713}".to_string()));
    assert!(matches!(state, HandshakeState::Failed));
    match action {
        HandshakeAction::Teardown(Error::ServerError(t)) => {
            assert_eq!(t, "Received a malformed identity proof from RethinkDB.");
        }
        _ => panic!("expected teardown with the malformed-proof error"),
    }
}

#[test]
fn malformed_protocol_ack_tears_the_stream_down() {
    let mut mock = MockStream::new();
    let (state, version) = handshake_start("user", "pencil");
    mock.write(&version);
    let (state, action) = handshake_on_message(state, b"garbage");
    assert!(matches!(state, HandshakeState::Failed));
    let err = match action {
        HandshakeAction::Teardown(e) => {
            // The caller performs the teardown before surfacing the error.
            mock.shutdown();
            e
        }
        _ => panic!("expected teardown"),
    };
    assert!(mock.shutdown);
    assert_eq!(err, Error::ServerError("garbage".to_string()));
}

#[test]
fn protocol_ack_with_success_false_is_invariant_violation() {
    let (state, _version) = handshake_start("user", "pencil");
    let ack = b"{\"success\":false,\"min_protocol_version\":0,\
                \"max_protocol_version\":0,\"server_version\":\"2.3.0\"}";
    let (state, action) = handshake_on_message(state, ack);
    assert!(matches!(state, HandshakeState::Failed));
    match action {
        HandshakeAction::Teardown(Error::ServerError(t)) => assert_eq!(
            t,
            "Received a success response from RethinkDB with success = false."
        ),
        _ => panic!("expected teardown with the fixed diagnostic"),
    }
}

#[test]
fn ack_missing_a_field_is_server_error_with_raw_text() {
    let (state, _version) = handshake_start("user", "pencil");
    let ack = b"{\"success\":true,\"min_protocol_version\":0}";
    let (state, action) = handshake_on_message(state, ack);
    assert!(matches!(state, HandshakeState::Failed));
    match action {
        HandshakeAction::Teardown(Error::ServerError(t)) => {
            assert_eq!(t.as_bytes(), &ack[..]);
        }
        _ => panic!("expected teardown with the raw text"),
    }
}

#[test]
fn finished_engine_refuses_further_messages() {
    let (state, action) = handshake_on_message(HandshakeState::Done, b"{}");
    assert!(matches!(state, HandshakeState::Failed));
    match action {
        HandshakeAction::Teardown(Error::ServerError(t)) => {
            assert_eq!(t, "No handshake step expects a message in this state.");
        }
        _ => panic!("expected teardown"),
    }
}

#[test]
fn invalid_utf8_message_is_rejected() {
    let (state, _version) = handshake_start("user", "pencil");
    let (state, action) = handshake_on_message(state, &[0xff, 0xfe, 0x00u8 ^ 0x80]);
    assert!(matches!(state, HandshakeState::Failed));
    match action {
        HandshakeAction::Teardown(Error::ServerError(t)) => {
            assert_eq!(t, "Received a message from RethinkDB that is not valid UTF-8.")
        }
        _ => panic!("expected teardown"),
    }
}
