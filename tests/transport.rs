use riemann_client::codec::write_to_bytes;
use riemann_client::error::Error;
use riemann_client::proto::{Msg, Query};
use riemann_client::transport::{check_response, events_msg, query_msg, request_frame, response_from_body, response_len};

#[test]
fn frame_is_big_endian_length_then_body() {
    let m = query_msg(Query::from("a"));
    let frame = request_frame(&m).unwrap();
    assert_eq!(frame, vec![0, 0, 0, 5, 0x2a, 0x03, 0x0a, 0x01, b'a']);
    let body = write_to_bytes(&m);
    assert_eq!(frame.len(), 4 + body.len());
    assert_eq!(response_len(&frame[..4]), body.len());
}

#[test]
fn frame_of_a_large_message() {
    let m = query_msg(Query::from("x".repeat(300).as_str()));
    let frame = request_frame(&m).unwrap();
    let size = frame.len() - 4;
    assert_eq!(size, 306);
    assert_eq!(&frame[..4], &[0, 0, 0x01, 0x32]);
}

#[test]
fn length_prefix_is_read_big_endian() {
    assert_eq!(response_len(&[0x01, 0x02, 0x03, 0x04]), 0x01020304);
    assert_eq!(response_len(&[0, 0, 0, 0]), 0);
    assert_eq!(response_len(&[0xFF, 0xFF, 0xFF, 0xFF]), 0xFFFF_FFFF);
}

#[test]
fn server_rejection_carries_its_text() {
    let mut reply = Msg::new();
    reply.set_ok(false);
    reply.set_error("bad query".to_string());
    let body = write_to_bytes(&reply);
    match response_from_body(&body) {
        Err(e @ Error::Riemann(_)) => assert_eq!(e.message(), "bad query"),
        other => panic!("expected a rejection, got {:?}", other),
    }
}

#[test]
fn unset_ok_is_a_rejection_with_empty_text() {
    match check_response(Msg::new()) {
        Err(Error::Riemann(s)) => assert_eq!(s, ""),
        other => panic!("expected a rejection, got {:?}", other),
    }
}

#[test]
fn accepted_response_is_returned() {
    let mut reply = events_msg(Vec::new());
    reply.set_ok(true);
    let body = write_to_bytes(&reply);
    let m = response_from_body(&body).unwrap();
    assert!(m.get_ok());
}

#[test]
fn undecodable_response_is_a_codec_error() {
    assert!(matches!(response_from_body(&[0x10]), Err(Error::Protobuf(_))));
}
