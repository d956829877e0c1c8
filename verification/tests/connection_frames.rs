use rethink_wire::connection::{parse_response, Connection};
use rethink_wire::error::Error;
use rethink_wire::json::Json;
use rethink_wire::tree::Tree;

fn new_conn() -> Connection {
    Connection::new(
        "localhost".to_string(),
        28015,
        "admin".to_string(),
        "".to_string(),
    )
}

#[test]
fn tokens_count_up_from_zero() {
    let mut conn = new_conn();
    for expected in 0u64..4 {
        let frame = conn.send_query(&Tree::Datum(Json::I64(1))).unwrap();
        let token = u64::from_le_bytes(frame[0..8].try_into().unwrap());
        assert_eq!(token, expected);
    }
}

#[test]
fn frame_is_token_length_payload() {
    let mut conn = new_conn();
    let frame = conn.send_query(&Tree::Datum(Json::I64(42))).unwrap();
    assert_eq!(&frame[0..8], &0u64.to_le_bytes());
    let len = u32::from_le_bytes(frame[8..12].try_into().unwrap()) as usize;
    assert_eq!(len, frame.len() - 12);
    assert_eq!(&frame[12..], b"42");
}

#[test]
fn operator_frame_payload_is_wire_json() {
    let mut conn = new_conn();
    let tree = Tree::Query {
        head: 57,
        tail: vec![Tree::Datum(Json::Str(b"mydb".to_vec()))],
    };
    let frame = conn.send_query(&tree).unwrap();
    assert_eq!(&frame[12..], b"[57,\"mydb\"]");
}

#[test]
fn parse_response_reads_the_frame_back() {
    let mut header = 7u64.to_le_bytes().to_vec();
    header.extend_from_slice(&5u32.to_le_bytes());
    let resp = parse_response(&header, b"[1,2]").unwrap();
    assert_eq!(resp.query_token, 7);
    assert_eq!(resp.length, 5);
    assert_eq!(resp.response, Json::Arr(vec![Json::I64(1), Json::I64(2)]));
}

#[test]
fn parse_response_rejects_malformed_payloads() {
    let mut header = 0u64.to_le_bytes().to_vec();
    header.extend_from_slice(&4u32.to_le_bytes());
    match parse_response(&header, b"nope") {
        Err(Error::ServerError(t)) => assert_eq!(t, "nope"),
        other => panic!("expected a server error, got {:?}", other),
    }
    match parse_response(&header, &[0xff, 0xfe, 0x22, 0x22]) {
        Err(Error::ServerError(_)) => {}
        other => panic!("expected a server error, got {:?}", other),
    }
}

#[test]
fn error_messages_render_as_one_line() {
    assert_eq!(
        Error::QueryTooLarge(5000000000).message(),
        "Query was too large: max size is 4294967295 bytes but the query takes up 5000000000 bytes."
    );
    assert_eq!(Error::ReqlAuthError.message(), "Authentication failed.");
    assert_eq!(
        Error::ServerError("boom".to_string()).message(),
        "boom"
    );
}

#[test]
fn db_handle_is_always_granted() {
    assert!(rethink_wire::db().is_ok());
}
