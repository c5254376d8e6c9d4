use protobuf::wire_format::WireType;
use protobuf::{CodedInputStream, CodedOutputStream};
use riemann_client::codec::{parse_from_bytes, write_to_bytes};
use riemann_client::proto::{Attribute, Event, Msg, Query};
use riemann_client::wire::{put_varint, read_varint};

fn reference_varint(v: u64) -> Vec<u8> {
    let mut out = Vec::new();
    {
        let mut os = CodedOutputStream::vec(&mut out);
        os.write_raw_varint64(v).unwrap();
        os.flush().unwrap();
    }
    out
}

#[test]
fn varints_match_the_protobuf_runtime() {
    for v in [0u64, 1, 127, 128, 300, 16_383, 16_384, 1 << 35, u64::MAX - 1, u64::MAX] {
        let mut mine = Vec::new();
        put_varint(&mut mine, v);
        assert_eq!(mine, reference_varint(v));
        let mut is = CodedInputStream::from_bytes(&mine);
        assert_eq!(is.read_raw_varint64().unwrap(), v);
        assert_eq!(read_varint(&mine, 0), Some((v, mine.len())));
    }
}

#[test]
fn event_bytes_match_the_protobuf_runtime() {
    let mut e = Event::new();
    e.set_time(-5);
    e.set_state("ok".to_string());
    e.set_service("cpu".to_string());
    e.set_host("h".to_string());
    e.set_description("d".to_string());
    e.set_tags(vec!["a".to_string(), "bb".to_string()]);
    e.set_ttl_bits(2.5f32.to_bits());
    let mut at = Attribute::new();
    at.set_key("k".to_string());
    at.set_value("v".to_string());
    e.set_attributes(vec![at]);
    e.set_metric_sint64(-300);
    e.set_metric_d_bits(1.25f64.to_bits());
    e.set_metric_f_bits(0.5f32.to_bits());
    let mut m = Msg::new();
    m.set_ok(true);
    m.set_error("none".to_string());
    m.set_query(Query::from("q"));
    m.set_events(vec![e]);

    let mut attr = Vec::new();
    {
        let mut os = CodedOutputStream::vec(&mut attr);
        os.write_string(1, "k").unwrap();
        os.write_string(2, "v").unwrap();
        os.flush().unwrap();
    }
    let mut event = Vec::new();
    {
        let mut os = CodedOutputStream::vec(&mut event);
        os.write_int64(1, -5).unwrap();
        os.write_string(2, "ok").unwrap();
        os.write_string(3, "cpu").unwrap();
        os.write_string(4, "h").unwrap();
        os.write_string(5, "d").unwrap();
        os.write_string(7, "a").unwrap();
        os.write_string(7, "bb").unwrap();
        os.write_float(8, 2.5).unwrap();
        os.write_bytes(9, &attr).unwrap();
        os.write_sint64(13, -300).unwrap();
        os.write_double(14, 1.25).unwrap();
        os.write_float(15, 0.5).unwrap();
        os.flush().unwrap();
    }
    let mut query = Vec::new();
    {
        let mut os = CodedOutputStream::vec(&mut query);
        os.write_string(1, "q").unwrap();
        os.flush().unwrap();
    }
    let mut expected = Vec::new();
    {
        let mut os = CodedOutputStream::vec(&mut expected);
        os.write_bool(2, true).unwrap();
        os.write_string(3, "none").unwrap();
        os.write_tag(5, WireType::WireTypeLengthDelimited).unwrap();
        os.write_raw_varint32(query.len() as u32).unwrap();
        os.write_raw_bytes(&query).unwrap();
        os.write_bytes(6, &event).unwrap();
        os.flush().unwrap();
    }
    let mine = write_to_bytes(&m);
    assert_eq!(mine, expected);
    assert_eq!(parse_from_bytes(&expected).unwrap(), m);
}
