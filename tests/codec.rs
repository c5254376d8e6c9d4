use riemann_client::codec::{parse_from_bytes, write_to_bytes};
use riemann_client::error::Error;
use riemann_client::proto::{Attribute, Event, Msg, Query, State};
use riemann_client::wire::{put_varint, read_varint};

#[test]
fn varint_of_300_is_two_bytes() {
    let mut out = Vec::new();
    put_varint(&mut out, 300);
    assert_eq!(out, vec![0xAC, 0x02]);
    assert_eq!(read_varint(&out, 0), Some((300, 2)));
}

#[test]
fn varint_of_max_is_ten_bytes() {
    let mut out = Vec::new();
    put_varint(&mut out, u64::MAX);
    assert_eq!(out.len(), 10);
    assert_eq!(read_varint(&out, 0), Some((u64::MAX, 10)));
}

#[test]
fn varint_reader_refuses_truncated_and_overlong_input() {
    assert_eq!(read_varint(&[0x80, 0x80], 0), None);
    assert_eq!(read_varint(&[0xFF; 11], 0), None);
    assert_eq!(read_varint(&[0xFF, 0xFF, 0xFF, 0xFF, 0xFF, 0xFF, 0xFF, 0xFF, 0xFF, 0x02], 0), None);
    assert_eq!(read_varint(&[0x05, 0x96, 0x01], 1), Some((150, 3)));
}

#[test]
fn query_message_has_the_schema_bytes() {
    let mut q = Query::new();
    q.set_string("a".to_string());
    let mut m = Msg::new();
    m.set_query(q);
    assert_eq!(write_to_bytes(&m), vec![0x2a, 0x03, 0x0a, 0x01, b'a']);
}

#[test]
fn ok_and_error_have_the_schema_bytes() {
    let mut m = Msg::new();
    m.set_ok(false);
    m.set_error("no".to_string());
    assert_eq!(write_to_bytes(&m), vec![0x10, 0x00, 0x1a, 0x02, b'n', b'o']);
}

#[test]
fn event_integers_have_the_schema_bytes() {
    let mut e = Event::new();
    e.set_time(-1);
    e.set_metric_sint64(-1);
    let mut m = Msg::new();
    m.set_events(vec![e]);
    let b = write_to_bytes(&m);
    let mut expected = vec![0x32, 0x0d, 0x08];
    expected.extend(vec![0xFF; 9]);
    expected.push(0x01);
    expected.extend(vec![0x68, 0x01]);
    assert_eq!(b, expected);
}

#[test]
fn round_trip_query_only() {
    let mut m = Msg::new();
    m.set_query(Query::from("service = \"cpu\""));
    let back = parse_from_bytes(&write_to_bytes(&m)).unwrap();
    assert_eq!(back.get_query().unwrap().get_string(), "service = \"cpu\"");
    assert!(!back.has_ok());
    assert!(!back.has_error());
    assert!(back.get_events().is_empty());
    assert!(back.get_states().is_empty());
}

#[test]
fn round_trip_ok_error_only() {
    let mut m = Msg::new();
    m.set_ok(false);
    m.set_error("bad query".to_string());
    let back = parse_from_bytes(&write_to_bytes(&m)).unwrap();
    assert!(back.has_ok());
    assert!(!back.get_ok());
    assert_eq!(back.get_error(), "bad query");
    assert!(!back.has_query());
}

#[test]
fn round_trip_events_only() {
    let mut e = Event::new();
    e.set_time(1_600_000_000);
    e.set_state("ok".to_string());
    e.set_service("cpu".to_string());
    e.set_host("héte".to_string());
    e.set_description("load".to_string());
    e.set_tags(vec!["a".to_string(), "b".to_string()]);
    e.set_ttl_bits(60.0f32.to_bits());
    let mut at = Attribute::new();
    at.set_key("k".to_string());
    at.set_value("v".to_string());
    e.set_attributes(vec![at, Attribute::new()]);
    e.set_metric_sint64(-42);
    e.set_metric_d_bits(0.5f64.to_bits());
    e.set_metric_f_bits(1.5f32.to_bits());
    let mut m = Msg::new();
    m.set_events(vec![e, Event::new()]);
    let bytes = write_to_bytes(&m);
    let back = parse_from_bytes(&bytes).unwrap();
    assert_eq!(write_to_bytes(&back), bytes);
    let events = back.get_events();
    assert_eq!(events.len(), 2);
    let x = &events[0];
    assert_eq!(x.get_time(), 1_600_000_000);
    assert_eq!(x.get_state(), "ok");
    assert_eq!(x.get_service(), "cpu");
    assert_eq!(x.get_host(), "héte");
    assert_eq!(x.get_description(), "load");
    assert_eq!(x.get_tags(), &["a".to_string(), "b".to_string()][..]);
    assert_eq!(f32::from_bits(x.get_ttl_bits()), 60.0);
    assert_eq!(x.get_attributes().len(), 2);
    assert_eq!(x.get_attributes()[0].get_key(), "k");
    assert_eq!(x.get_attributes()[0].get_value(), "v");
    assert!(!x.get_attributes()[1].has_key());
    assert_eq!(x.get_metric_sint64(), -42);
    assert_eq!(f64::from_bits(x.get_metric_d_bits()), 0.5);
    assert_eq!(f32::from_bits(x.get_metric_f_bits()), 1.5);
    assert!(!events[1].has_time());
}

#[test]
fn round_trip_states() {
    let mut s = State::new();
    s.set_once(true);
    s.set_service("disk".to_string());
    s.set_tags(vec!["t".to_string()]);
    let mut m = Msg::new();
    m.set_ok(true);
    m.set_states(vec![s]);
    let back = parse_from_bytes(&write_to_bytes(&m)).unwrap();
    assert!(back.get_ok());
    assert_eq!(back.get_states().len(), 1);
    assert!(back.get_states()[0].get_once());
    assert_eq!(back.get_states()[0].get_service(), "disk");
    assert_eq!(back.get_states()[0].get_tags().len(), 1);
}

#[test]
fn unknown_fields_are_skipped() {
    // field 9, varint 1; then ok = true
    let back = parse_from_bytes(&[0x48, 0x01, 0x10, 0x01]).unwrap();
    assert!(back.get_ok());
}

#[test]
fn malformed_bytes_do_not_decode() {
    assert!(matches!(parse_from_bytes(&[0x1a, 0x05, b'a']), Err(Error::Protobuf(_))));
    assert!(matches!(parse_from_bytes(&[0x1a, 0x01, 0xFF]), Err(Error::Protobuf(_))));
    assert!(matches!(parse_from_bytes(&[0x12, 0x01, 0x00]), Err(Error::Protobuf(_))));
    assert!(matches!(parse_from_bytes(&[0x00, 0x00]), Err(Error::Protobuf(_))));
}

#[test]
fn empty_bytes_decode_to_an_empty_message() {
    let m = parse_from_bytes(&[]).unwrap();
    assert!(!m.has_ok());
    assert!(m.get_events().is_empty());
}

#[test]
fn decoded_messages_equal_what_was_encoded() {
    let mut q = Msg::new();
    q.set_query(Query::from("tagged \"x\""));
    assert_eq!(parse_from_bytes(&write_to_bytes(&q)).unwrap(), q);

    let mut r = Msg::new();
    r.set_ok(false);
    r.set_error("bad query".to_string());
    assert_eq!(parse_from_bytes(&write_to_bytes(&r)).unwrap(), r);

    let mut e = Event::new();
    e.set_service("a".to_string());
    e.set_tags(vec!["t".to_string()]);
    let mut at = Attribute::new();
    at.set_key("k".to_string());
    e.set_attributes(vec![at]);
    let mut m = Msg::new();
    m.set_events(vec![e.clone(), Event::new()]);
    assert_eq!(parse_from_bytes(&write_to_bytes(&m)).unwrap(), m);
}

#[test]
fn messages_differing_in_one_field_are_not_equal() {
    let mut a = Event::new();
    a.set_tags(vec!["x".to_string()]);
    let mut b = a.clone();
    assert_eq!(a, b);
    b.set_tags(vec!["y".to_string()]);
    assert_ne!(a, b);
    let mut c = Attribute::new();
    c.set_key("k".to_string());
    assert!(c.is_initialized());
    assert!(!Attribute::new().is_initialized());
    c.clear();
    assert_eq!(c, Attribute::new());
}
