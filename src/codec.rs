//! Encoding and decoding of the protocol's messages in the protocol buffer
//! wire format, with the field numbers of the schema.
use crate::error::Error;
use crate::proto::{Attribute, AttributeV, Event, EventV, Msg, MsgV, Query, QueryV, State, StateV};
use crate::wire::{
    fold_records, lemma_fold_concat, lemma_parse_record_len, lemma_parse_records, lemma_records_bytes_concat, parse_record,
    parse_records, put_bytes_field, put_fixed32_field, put_fixed64_field, put_varint_field, read_record, record_bytes, record_ok, records_bytes, slot_value,
    slot_within, Record, Slot, Value, MAX_FIELD,
};
use vstd::prelude::*;
use vstd::slice::{slice_subrange, slice_to_vec};
use vstd::utf8::{decode_utf8, encode_utf8, encode_utf8_decode_utf8, encode_utf8_valid_utf8, valid_utf8};

verus! {

/// Relies on `String::from_utf8`: it accepts exactly the valid UTF-8 byte
/// sequences, and the string holds the characters they encode.
#[verifier::external_body]
pub(crate) fn string_from_utf8(v: Vec<u8>) -> (r: Option<String>)
    ensures
        r is Some <==> valid_utf8(v@),
        r matches Some(s) ==> s@ == decode_utf8(v@),
{
    String::from_utf8(v).ok()
}

// ---------------------------------------------------------------------------
// Field values
// ---------------------------------------------------------------------------

/// The characters a length-delimited payload holds, where it is valid UTF-8.
pub open spec fn text_of(v: Value) -> Option<Seq<char>> {
    match v {
        Value::Bytes(d) => if valid_utf8(d) {
            Some(decode_utf8(d))
        } else {
            None
        },
        _ => None,
    }
}

/// An `int64` travels as the two's complement bits of the value.
pub open spec fn i64_bits(x: i64) -> u64 {
    if x >= 0 {
        x as u64
    } else {
        (x + 0x1_0000_0000_0000_0000) as u64
    }
}

pub open spec fn i64_of_bits(v: u64) -> i64 {
    if v <= i64::MAX {
        v as i64
    } else {
        (v - 0x1_0000_0000_0000_0000) as i64
    }
}

/// A `sint64` travels zigzag-encoded: 0, -1, 1, -2, ... as 0, 1, 2, 3, ...
pub open spec fn zigzag(x: i64) -> u64 {
    if x >= 0 {
        (2 * x) as u64
    } else {
        (-2 * x - 1) as u64
    }
}

pub open spec fn unzigzag(v: u64) -> i64 {
    if v % 2 == 0 {
        (v / 2) as i64
    } else {
        (-(v / 2) - 1) as i64
    }
}

pub open spec fn text_record(field: u64, s: Seq<char>) -> Record {
    Record { field, value: Value::Bytes(encode_utf8(s)) }
}

pub open spec fn opt_text(field: u64, o: Option<Seq<char>>) -> Seq<Record> {
    match o {
        Some(s) => seq![text_record(field, s)],
        None => Seq::empty(),
    }
}

pub open spec fn texts(field: u64, ts: Seq<Seq<char>>) -> Seq<Record> {
    ts.map_values(|s: Seq<char>| text_record(field, s))
}

pub open spec fn opt_i64(field: u64, o: Option<i64>) -> Seq<Record> {
    match o {
        Some(x) => seq![Record { field, value: Value::Varint(i64_bits(x)) }],
        None => Seq::empty(),
    }
}

pub open spec fn opt_sint64(field: u64, o: Option<i64>) -> Seq<Record> {
    match o {
        Some(x) => seq![Record { field, value: Value::Varint(zigzag(x)) }],
        None => Seq::empty(),
    }
}

pub open spec fn opt_bool(field: u64, o: Option<bool>) -> Seq<Record> {
    match o {
        Some(x) => seq![Record { field, value: Value::Varint(if x { 1 } else { 0 }) }],
        None => Seq::empty(),
    }
}

pub open spec fn opt_fixed32(field: u64, o: Option<u32>) -> Seq<Record> {
    match o {
        Some(x) => seq![Record { field, value: Value::Fixed32(x) }],
        None => Seq::empty(),
    }
}

pub open spec fn opt_fixed64(field: u64, o: Option<u64>) -> Seq<Record> {
    match o {
        Some(x) => seq![Record { field, value: Value::Fixed64(x) }],
        None => Seq::empty(),
    }
}

/// Every field of a run can stand on the wire.
pub open spec fn records_ok(rs: Seq<Record>) -> bool {
    forall|i: int| 0 <= i < rs.len() ==> record_ok(#[trigger] rs[i])
}

proof fn lemma_text_round_trip(s: Seq<char>)
    ensures
        text_of(Value::Bytes(encode_utf8(s))) == Some(s),
{
    encode_utf8_valid_utf8(s);
    encode_utf8_decode_utf8(s);
}

proof fn lemma_records_bytes_one(r: Record)
    ensures
        records_bytes(seq![r]) == record_bytes(r),
{
    reveal_with_fuel(records_bytes, 2);
    assert(seq![r].drop_first() =~= Seq::<Record>::empty());
    assert(record_bytes(r) + Seq::<u8>::empty() =~= record_bytes(r));
}

proof fn lemma_extend(start: Seq<u8>, before: Seq<u8>, after: Seq<u8>, p: Seq<Record>, s: Seq<Record>)
    requires
        before == start + records_bytes(p),
        after == before + records_bytes(s),
    ensures
        after == start + records_bytes(p + s),
{
    lemma_records_bytes_concat(p, s);
    assert(after =~= start + records_bytes(p + s));
}

proof fn lemma_fold_one<T>(r: Record, acc: T, apply: spec_fn(T, Record) -> Option<T>)
    ensures
        fold_records(seq![r], acc, apply) == apply(acc, r),
{
    reveal_with_fuel(fold_records, 2);
    assert(seq![r].drop_first() =~= Seq::<Record>::empty());
}

/// One step of a decoding loop: the field read at `pos` is applied, and the
/// rest of the buffer is decoded from the result.
proof fn lemma_decode_step<T>(b: Seq<u8>, pos: int, cur: T, apply: spec_fn(T, Record) -> Option<T>)
    requires
        0 <= pos < b.len(),
    ensures
        (match parse_records(b.skip(pos)) {
            Some(rs) => fold_records(rs, cur, apply),
            None => None,
        }) == (match parse_record(b.skip(pos)) {
            Some((r, n)) => match apply(cur, r) {
                Some(next) => match parse_records(b.skip(pos + n)) {
                    Some(rs) => fold_records(rs, next, apply),
                    None => None,
                },
                None => None,
            },
            None => None,
        }),
{
    let t = b.skip(pos);
    lemma_parse_record_len(t);
    match parse_record(t) {
        Some((r, n)) => {
            assert(t.skip(n as int) =~= b.skip(pos + n));
            match parse_records(b.skip(pos + n)) {
                Some(rs) => {
                    let all = seq![r] + rs;
                    assert(all.drop_first() =~= rs);
                    assert(all[0] == r);
                },
                None => {},
            }
        },
        None => {},
    }
}

/// Reads a length-delimited payload as a string.
fn read_text(b: &[u8], slot: &Slot) -> (r: Option<String>)
    requires
        slot_within(*slot, b@.len() as usize),
        b@.len() <= usize::MAX,
    ensures
        r is Some <==> text_of(slot_value(b@, *slot)) is Some,
        r matches Some(s) ==> text_of(slot_value(b@, *slot)) == Some(s@),
{
    match slot {
        Slot::Bytes(st, en) => {
            let d = slice_to_vec(slice_subrange(b, *st, *en));
            string_from_utf8(d)
        },
        _ => None,
    }
}

fn i64_from_bits(v: u64) -> (r: i64)
    ensures
        r == i64_of_bits(v),
{
    if v <= i64::MAX as u64 {
        v as i64
    } else {
        -((u64::MAX - v) as i64) - 1
    }
}

fn bits_from_i64(x: i64) -> (r: u64)
    ensures
        r == i64_bits(x),
{
    if x >= 0 {
        x as u64
    } else {
        u64::MAX - ((-(x + 1)) as u64)
    }
}

fn sint64_from_zigzag(v: u64) -> (r: i64)
    ensures
        r == unzigzag(v),
{
    if v % 2 == 0 {
        (v / 2) as i64
    } else {
        -((v / 2) as i64) - 1
    }
}

fn zigzag_from_sint64(x: i64) -> (r: u64)
    ensures
        r == zigzag(x),
{
    if x >= 0 {
        (x as u64) * 2
    } else {
        ((-(x + 1)) as u64) * 2 + 1
    }
}

proof fn lemma_int_round_trips(x: i64)
    ensures
        i64_of_bits(i64_bits(x)) == x,
        unzigzag(zigzag(x)) == x,
{
}

fn put_text_field(out: &mut Vec<u8>, field: u64, s: &String)
    requires
        1 <= field <= MAX_FIELD,
    ensures
        final(out)@ == old(out)@ + record_bytes(text_record(field, s@)),
{
    put_bytes_field(out, field, s.as_str().as_bytes());
}

fn put_opt_text(out: &mut Vec<u8>, field: u64, o: &Option<String>)
    requires
        1 <= field <= MAX_FIELD,
    ensures
        final(out)@ == old(out)@ + records_bytes(opt_text(field, opt_chars(*o))),
{
    match o {
        Some(s) => {
            put_text_field(out, field, s);
            proof {
                lemma_records_bytes_one(text_record(field, s@));
            }
        },
        None => {
            assert(out@ =~= out@ + records_bytes(Seq::<Record>::empty()));
        },
    }
}

/// The characters of an optional string.
pub open spec fn opt_chars(o: Option<String>) -> Option<Seq<char>> {
    match o {
        Some(s) => Some(s@),
        None => None,
    }
}

fn put_opt_i64(out: &mut Vec<u8>, field: u64, o: Option<i64>)
    requires
        1 <= field <= MAX_FIELD,
    ensures
        final(out)@ == old(out)@ + records_bytes(opt_i64(field, o)),
{
    match o {
        Some(x) => {
            put_varint_field(out, field, bits_from_i64(x));
            proof {
                lemma_records_bytes_one(Record { field, value: Value::Varint(i64_bits(x)) });
            }
        },
        None => {
            assert(out@ =~= out@ + records_bytes(Seq::<Record>::empty()));
        },
    }
}

fn put_opt_sint64(out: &mut Vec<u8>, field: u64, o: Option<i64>)
    requires
        1 <= field <= MAX_FIELD,
    ensures
        final(out)@ == old(out)@ + records_bytes(opt_sint64(field, o)),
{
    match o {
        Some(x) => {
            put_varint_field(out, field, zigzag_from_sint64(x));
            proof {
                lemma_records_bytes_one(Record { field, value: Value::Varint(zigzag(x)) });
            }
        },
        None => {
            assert(out@ =~= out@ + records_bytes(Seq::<Record>::empty()));
        },
    }
}

fn put_opt_bool(out: &mut Vec<u8>, field: u64, o: Option<bool>)
    requires
        1 <= field <= MAX_FIELD,
    ensures
        final(out)@ == old(out)@ + records_bytes(opt_bool(field, o)),
{
    match o {
        Some(x) => {
            let v: u64 = if x {
                1
            } else {
                0
            };
            put_varint_field(out, field, v);
            proof {
                lemma_records_bytes_one(Record { field, value: Value::Varint(v) });
            }
        },
        None => {
            assert(out@ =~= out@ + records_bytes(Seq::<Record>::empty()));
        },
    }
}

fn put_opt_fixed32(out: &mut Vec<u8>, field: u64, o: Option<u32>)
    requires
        1 <= field <= MAX_FIELD,
    ensures
        final(out)@ == old(out)@ + records_bytes(opt_fixed32(field, o)),
{
    match o {
        Some(x) => {
            put_fixed32_field(out, field, x);
            proof {
                lemma_records_bytes_one(Record { field, value: Value::Fixed32(x) });
            }
        },
        None => {
            assert(out@ =~= out@ + records_bytes(Seq::<Record>::empty()));
        },
    }
}

fn put_opt_fixed64(out: &mut Vec<u8>, field: u64, o: Option<u64>)
    requires
        1 <= field <= MAX_FIELD,
    ensures
        final(out)@ == old(out)@ + records_bytes(opt_fixed64(field, o)),
{
    match o {
        Some(x) => {
            put_fixed64_field(out, field, x);
            proof {
                lemma_records_bytes_one(Record { field, value: Value::Fixed64(x) });
            }
        },
        None => {
            assert(out@ =~= out@ + records_bytes(Seq::<Record>::empty()));
        },
    }
}

/// The characters of each string of a list.
pub open spec fn chars_of(v: Seq<String>) -> Seq<Seq<char>> {
    v.map_values(|s: String| s@)
}

fn put_texts(out: &mut Vec<u8>, field: u64, v: &Vec<String>)
    requires
        1 <= field <= MAX_FIELD,
    ensures
        final(out)@ == old(out)@ + records_bytes(texts(field, chars_of(v@))),
{
    let ghost start = out@;
    let mut i: usize = 0;
    while i < v.len()
        invariant
            1 <= field <= MAX_FIELD,
            i <= v@.len(),
            out@ == start + records_bytes(texts(field, chars_of(v@).take(i as int))),
        decreases v@.len() - i,
    {
        let ghost before = out@;
        put_text_field(out, field, &v[i]);
        proof {
            let a = texts(field, chars_of(v@).take(i as int));
            let r = text_record(field, v@[i as int]@);
            assert(texts(field, chars_of(v@).take(i + 1)) =~= a + seq![r]);
            lemma_records_bytes_concat(a, seq![r]);
            lemma_records_bytes_one(r);
            assert(out@ =~= start + records_bytes(texts(field, chars_of(v@).take(i + 1))));
        }
        i = i + 1;
    }
    assert(chars_of(v@).take(i as int) =~= chars_of(v@));
}

// ---------------------------------------------------------------------------
// Attribute
// ---------------------------------------------------------------------------

pub open spec fn attribute_records(a: AttributeV) -> Seq<Record> {
    opt_text(1, a.key) + opt_text(2, a.value)
}

/// The encoding of an attribute.
pub open spec fn attribute_bytes(a: AttributeV) -> Seq<u8> {
    records_bytes(attribute_records(a))
}

pub open spec fn apply_attribute(acc: AttributeV, r: Record) -> Option<AttributeV> {
    if r.field == 1 {
        match text_of(r.value) {
            Some(s) => Some(AttributeV { key: Some(s), ..acc }),
            None => None,
        }
    } else if r.field == 2 {
        match text_of(r.value) {
            Some(s) => Some(AttributeV { value: Some(s), ..acc }),
            None => None,
        }
    } else {
        Some(acc)
    }
}

pub open spec fn attribute_step() -> spec_fn(AttributeV, Record) -> Option<AttributeV> {
    |acc: AttributeV, r: Record| apply_attribute(acc, r)
}

/// Decodes the fields of `b` over `start`: later fields replace earlier ones,
/// unknown fields are skipped.
pub open spec fn decode_attribute(b: Seq<u8>, start: AttributeV) -> Option<AttributeV> {
    match parse_records(b) {
        Some(rs) => fold_records(rs, start, attribute_step()),
        None => None,
    }
}

pub open spec fn empty_attribute() -> AttributeV {
    AttributeV { key: None, value: None }
}

/// Appends the encoding of `a`.
pub fn encode_attribute(a: &Attribute, out: &mut Vec<u8>)
    ensures
        final(out)@ == old(out)@ + attribute_bytes(a@),
{
    let ghost start = out@;
    put_opt_text(out, 1, &a.key);
    put_opt_text(out, 2, &a.value);
    proof {
        lemma_records_bytes_concat(opt_text(1, a@.key), opt_text(2, a@.value));
        assert(out@ =~= start + attribute_bytes(a@));
    }
}

/// Decodes `b` over `start`, as a nested attribute is merged.
pub fn merge_attribute(b: &[u8], start: Attribute) -> (r: Option<Attribute>)
    ensures
        match decode_attribute(b@, start@) {
            Some(v) => r matches Some(a) && a@ == v,
            None => r is None,
        },
{
    let mut cur = start;
    let mut pos: usize = 0;
    let ghost step = attribute_step();
    assert(b@.skip(0) =~= b@);
    while pos < b.len()
        invariant
            pos <= b@.len(),
            step == attribute_step(),
            decode_attribute(b@, start@) == (match parse_records(b@.skip(pos as int)) {
                Some(rs) => fold_records(rs, cur@, step),
                None => None,
            }),
        decreases b@.len() - pos,
    {
        proof {
            lemma_decode_step(b@, pos as int, cur@, step);
        }
        let (f, slot, e) = match read_record(b, pos) {
            Some(x) => x,
            None => return None,
        };
        if f == 1 {
            match read_text(b, &slot) {
                Some(s) => cur.key = Some(s),
                None => return None,
            }
        } else if f == 2 {
            match read_text(b, &slot) {
                Some(s) => cur.value = Some(s),
                None => return None,
            }
        }
        pos = e;
    }
    proof {
        assert(b@.skip(pos as int).len() == 0);
    }
    Some(cur)
}

/// Encoding an attribute and decoding the bytes gives the attribute back.
pub proof fn lemma_attribute_round_trip(a: AttributeV)
    requires
        records_ok(attribute_records(a)),
    ensures
        decode_attribute(attribute_bytes(a), empty_attribute()) == Some(a),
{
    let rs = attribute_records(a);
    lemma_parse_records(rs);
    let step = attribute_step();
    lemma_fold_concat(opt_text(1, a.key), opt_text(2, a.value), empty_attribute(), step);
    let mid = AttributeV { key: a.key, value: None };
    match a.key {
        Some(s) => {
            lemma_text_round_trip(s);
            lemma_fold_one(text_record(1, s), empty_attribute(), step);
        },
        None => {},
    }
    assert(fold_records(opt_text(1, a.key), empty_attribute(), step) == Some(mid));
    match a.value {
        Some(s) => {
            lemma_text_round_trip(s);
            lemma_fold_one(text_record(2, s), mid, step);
        },
        None => {},
    }
}

// ---------------------------------------------------------------------------
// Event
// ---------------------------------------------------------------------------

pub open spec fn attribute_record(field: u64, a: AttributeV) -> Record {
    Record { field, value: Value::Bytes(attribute_bytes(a)) }
}

pub open spec fn attribute_records_of(field: u64, v: Seq<AttributeV>) -> Seq<Record> {
    v.map_values(|a: AttributeV| attribute_record(field, a))
}

pub open spec fn event_records(e: EventV) -> Seq<Record> {
    opt_i64(1, e.time) + opt_text(2, e.state) + opt_text(3, e.service) + opt_text(4, e.host)
        + opt_text(5, e.description) + texts(7, e.tags) + opt_fixed32(8, e.ttl)
        + attribute_records_of(9, e.attributes) + opt_sint64(13, e.metric_sint64) + opt_fixed64(
        14,
        e.metric_d,
    ) + opt_fixed32(15, e.metric_f)
}

/// The encoding of an event.
pub open spec fn event_bytes(e: EventV) -> Seq<u8> {
    records_bytes(event_records(e))
}

/// An event whose every field, and every field of its attributes, can stand
/// on the wire.
pub open spec fn event_fits(e: EventV) -> bool {
    &&& records_ok(event_records(e))
    &&& forall|i: int| 0 <= i < e.attributes.len() ==> records_ok(attribute_records(#[trigger] e.attributes[i]))
}

pub open spec fn apply_event(acc: EventV, r: Record) -> Option<EventV> {
    let f = r.field;
    if f == 1 {
        match r.value {
            Value::Varint(v) => Some(EventV { time: Some(i64_of_bits(v)), ..acc }),
            _ => None,
        }
    } else if f == 2 {
        match text_of(r.value) {
            Some(s) => Some(EventV { state: Some(s), ..acc }),
            None => None,
        }
    } else if f == 3 {
        match text_of(r.value) {
            Some(s) => Some(EventV { service: Some(s), ..acc }),
            None => None,
        }
    } else if f == 4 {
        match text_of(r.value) {
            Some(s) => Some(EventV { host: Some(s), ..acc }),
            None => None,
        }
    } else if f == 5 {
        match text_of(r.value) {
            Some(s) => Some(EventV { description: Some(s), ..acc }),
            None => None,
        }
    } else if f == 7 {
        match text_of(r.value) {
            Some(s) => Some(EventV { tags: acc.tags.push(s), ..acc }),
            None => None,
        }
    } else if f == 8 {
        match r.value {
            Value::Fixed32(v) => Some(EventV { ttl: Some(v), ..acc }),
            _ => None,
        }
    } else if f == 9 {
        match r.value {
            Value::Bytes(d) => match decode_attribute(d, empty_attribute()) {
                Some(a) => Some(EventV { attributes: acc.attributes.push(a), ..acc }),
                None => None,
            },
            _ => None,
        }
    } else if f == 13 {
        match r.value {
            Value::Varint(v) => Some(EventV { metric_sint64: Some(unzigzag(v)), ..acc }),
            _ => None,
        }
    } else if f == 14 {
        match r.value {
            Value::Fixed64(v) => Some(EventV { metric_d: Some(v), ..acc }),
            _ => None,
        }
    } else if f == 15 {
        match r.value {
            Value::Fixed32(v) => Some(EventV { metric_f: Some(v), ..acc }),
            _ => None,
        }
    } else {
        Some(acc)
    }
}

pub open spec fn event_step() -> spec_fn(EventV, Record) -> Option<EventV> {
    |acc: EventV, r: Record| apply_event(acc, r)
}

/// Decodes the fields of `b` over `start`.
pub open spec fn decode_event(b: Seq<u8>, start: EventV) -> Option<EventV> {
    match parse_records(b) {
        Some(rs) => fold_records(rs, start, event_step()),
        None => None,
    }
}

pub open spec fn empty_event() -> EventV {
    EventV {
        time: None,
        state: None,
        service: None,
        host: None,
        description: None,
        tags: Seq::empty(),
        ttl: None,
        attributes: Seq::empty(),
        metric_sint64: None,
        metric_d: None,
        metric_f: None,
    }
}

fn put_attributes(out: &mut Vec<u8>, field: u64, v: &Vec<Attribute>)
    requires
        1 <= field <= MAX_FIELD,
    ensures
        final(out)@ == old(out)@ + records_bytes(
            attribute_records_of(field, v@.map_values(|a: Attribute| a@)),
        ),
{
    let ghost start = out@;
    let ghost vs = v@.map_values(|a: Attribute| a@);
    let mut i: usize = 0;
    while i < v.len()
        invariant
            1 <= field <= MAX_FIELD,
            i <= v@.len(),
            vs == v@.map_values(|a: Attribute| a@),
            out@ == start + records_bytes(attribute_records_of(field, vs.take(i as int))),
        decreases v@.len() - i,
    {
        let mut tmp: Vec<u8> = Vec::new();
        encode_attribute(&v[i], &mut tmp);
        put_bytes_field(out, field, tmp.as_slice());
        proof {
            let a = attribute_records_of(field, vs.take(i as int));
            let r = attribute_record(field, vs[i as int]);
            assert(tmp@ =~= attribute_bytes(vs[i as int]));
            assert(attribute_records_of(field, vs.take(i + 1)) =~= a + seq![r]);
            lemma_records_bytes_concat(a, seq![r]);
            lemma_records_bytes_one(r);
            assert(out@ =~= start + records_bytes(attribute_records_of(field, vs.take(i + 1))));
        }
        i = i + 1;
    }
    assert(vs.take(i as int) =~= vs);
}

/// Appends the encoding of `e`.
pub fn encode_event(e: &Event, out: &mut Vec<u8>)
    ensures
        final(out)@ == old(out)@ + event_bytes(e@),
{
    let ghost start = out@;
    let ghost v = e@;
    let ghost p = opt_i64(1, v.time);
    put_opt_i64(out, 1, e.time);
    assert(out@ == start + records_bytes(p));
    let ghost o = out@;
    put_opt_text(out, 2, &e.state);
    proof {
        lemma_extend(start, o, out@, p, opt_text(2, v.state));
        p = p + opt_text(2, v.state);
    }
    let ghost o = out@;
    put_opt_text(out, 3, &e.service);
    proof {
        lemma_extend(start, o, out@, p, opt_text(3, v.service));
        p = p + opt_text(3, v.service);
    }
    let ghost o = out@;
    put_opt_text(out, 4, &e.host);
    proof {
        lemma_extend(start, o, out@, p, opt_text(4, v.host));
        p = p + opt_text(4, v.host);
    }
    let ghost o = out@;
    put_opt_text(out, 5, &e.description);
    proof {
        lemma_extend(start, o, out@, p, opt_text(5, v.description));
        p = p + opt_text(5, v.description);
    }
    let ghost o = out@;
    put_texts(out, 7, &e.tags);
    proof {
        lemma_extend(start, o, out@, p, texts(7, v.tags));
        p = p + texts(7, v.tags);
    }
    let ghost o = out@;
    put_opt_fixed32(out, 8, e.ttl);
    proof {
        lemma_extend(start, o, out@, p, opt_fixed32(8, v.ttl));
        p = p + opt_fixed32(8, v.ttl);
    }
    let ghost o = out@;
    put_attributes(out, 9, &e.attributes);
    proof {
        lemma_extend(start, o, out@, p, attribute_records_of(9, v.attributes));
        p = p + attribute_records_of(9, v.attributes);
    }
    let ghost o = out@;
    put_opt_sint64(out, 13, e.metric_sint64);
    proof {
        lemma_extend(start, o, out@, p, opt_sint64(13, v.metric_sint64));
        p = p + opt_sint64(13, v.metric_sint64);
    }
    let ghost o = out@;
    put_opt_fixed64(out, 14, e.metric_d);
    proof {
        lemma_extend(start, o, out@, p, opt_fixed64(14, v.metric_d));
        p = p + opt_fixed64(14, v.metric_d);
    }
    let ghost o = out@;
    put_opt_fixed32(out, 15, e.metric_f);
    proof {
        lemma_extend(start, o, out@, p, opt_fixed32(15, v.metric_f));
        p = p + opt_fixed32(15, v.metric_f);
    }
    assert(p == event_records(v));
}

/// Decodes `b` over `start`, as an event is merged.
pub fn merge_event(b: &[u8], start: Event) -> (r: Option<Event>)
    ensures
        match decode_event(b@, start@) {
            Some(v) => r matches Some(x) && x@ == v,
            None => r is None,
        },
{
    let mut cur = start;
    let mut pos: usize = 0;
    let ghost step = event_step();
    assert(b@.skip(0) =~= b@);
    while pos < b.len()
        invariant
            pos <= b@.len(),
            step == event_step(),
            decode_event(b@, start@) == (match parse_records(b@.skip(pos as int)) {
                Some(rs) => fold_records(rs, cur@, step),
                None => None,
            }),
        decreases b@.len() - pos,
    {
        proof {
            lemma_decode_step(b@, pos as int, cur@, step);
        }
        let (f, slot, e) = match read_record(b, pos) {
            Some(x) => x,
            None => return None,
        };
        let ghost old_cur = cur@;
        if f == 1 {
            match slot {
                Slot::Varint(v) => cur.time = Some(i64_from_bits(v)),
                _ => return None,
            }
        } else if f == 2 {
            match read_text(b, &slot) {
                Some(s) => cur.state = Some(s),
                None => return None,
            }
        } else if f == 3 {
            match read_text(b, &slot) {
                Some(s) => cur.service = Some(s),
                None => return None,
            }
        } else if f == 4 {
            match read_text(b, &slot) {
                Some(s) => cur.host = Some(s),
                None => return None,
            }
        } else if f == 5 {
            match read_text(b, &slot) {
                Some(s) => cur.description = Some(s),
                None => return None,
            }
        } else if f == 7 {
            match read_text(b, &slot) {
                Some(s) => {
                    cur.tags.push(s);
                    assert(cur@.tags =~= old_cur.tags.push(s@));
                },
                None => return None,
            }
        } else if f == 8 {
            match slot {
                Slot::Fixed32(v) => cur.ttl = Some(v),
                _ => return None,
            }
        } else if f == 9 {
            match slot {
                Slot::Bytes(st, en) => {
                    match merge_attribute(slice_subrange(b, st, en), Attribute::new()) {
                        Some(a) => {
                            cur.attributes.push(a);
                            assert(cur@.attributes =~= old_cur.attributes.push(a@));
                        },
                        None => return None,
                    }
                },
                _ => return None,
            }
        } else if f == 13 {
            match slot {
                Slot::Varint(v) => cur.metric_sint64 = Some(sint64_from_zigzag(v)),
                _ => return None,
            }
        } else if f == 14 {
            match slot {
                Slot::Fixed64(v) => cur.metric_d = Some(v),
                _ => return None,
            }
        } else if f == 15 {
            match slot {
                Slot::Fixed32(v) => cur.metric_f = Some(v),
                _ => return None,
            }
        }
        pos = e;
    }
    proof {
        assert(b@.skip(pos as int).len() == 0);
    }
    Some(cur)
}

proof fn lemma_fold_extend<T>(p: Seq<Record>, s: Seq<Record>, acc: T, mid: T, end: T, apply: spec_fn(T, Record) -> Option<T>)
    requires
        fold_records(p, acc, apply) == Some(mid),
        fold_records(s, mid, apply) == Some(end),
    ensures
        fold_records(p + s, acc, apply) == Some(end),
{
    lemma_fold_concat(p, s, acc, apply);
}

proof fn lemma_fold_empty<T>(acc: T, apply: spec_fn(T, Record) -> Option<T>)
    ensures
        fold_records(Seq::empty(), acc, apply) == Some(acc),
{
}

proof fn lemma_event_tags(ts: Seq<Seq<char>>, acc: EventV)
    ensures
        fold_records(texts(7, ts), acc, event_step()) == Some(EventV { tags: acc.tags + ts, ..acc }),
    decreases ts.len(),
{
    if ts.len() == 0 {
        assert(acc.tags + ts =~= acc.tags);
        assert(texts(7, ts) =~= Seq::<Record>::empty());
    } else {
        let r = text_record(7, ts[0]);
        lemma_text_round_trip(ts[0]);
        let next = EventV { tags: acc.tags.push(ts[0]), ..acc };
        lemma_fold_one(r, acc, event_step());
        lemma_event_tags(ts.drop_first(), next);
        assert(texts(7, ts) =~= seq![r] + texts(7, ts.drop_first()));
        lemma_fold_concat(seq![r], texts(7, ts.drop_first()), acc, event_step());
        assert(next.tags + ts.drop_first() =~= acc.tags + ts);
    }
}

proof fn lemma_event_attributes(v: Seq<AttributeV>, acc: EventV)
    requires
        forall|i: int| 0 <= i < v.len() ==> records_ok(attribute_records(#[trigger] v[i])),
    ensures
        fold_records(attribute_records_of(9, v), acc, event_step()) == Some(
            EventV { attributes: acc.attributes + v, ..acc },
        ),
    decreases v.len(),
{
    if v.len() == 0 {
        assert(acc.attributes + v =~= acc.attributes);
        assert(attribute_records_of(9, v) =~= Seq::<Record>::empty());
    } else {
        let r = attribute_record(9, v[0]);
        lemma_attribute_round_trip(v[0]);
        let next = EventV { attributes: acc.attributes.push(v[0]), ..acc };
        lemma_fold_one(r, acc, event_step());
        let rest = v.drop_first();
        assert forall|i: int| 0 <= i < rest.len() implies records_ok(attribute_records(#[trigger] rest[i])) by {
            assert(rest[i] == v[i + 1]);
        }
        lemma_event_attributes(rest, next);
        assert(attribute_records_of(9, v) =~= seq![r] + attribute_records_of(9, rest));
        lemma_fold_concat(seq![r], attribute_records_of(9, rest), acc, event_step());
        assert(next.attributes + rest =~= acc.attributes + v);
    }
}

/// Encoding an event and decoding the bytes gives the event back.
pub proof fn lemma_event_round_trip(e: EventV)
    requires
        event_fits(e),
    ensures
        decode_event(event_bytes(e), empty_event()) == Some(e),
{
    let st = event_step();
    let m0 = empty_event();
    let m1 = EventV { time: e.time, ..m0 };
    let m2 = EventV { state: e.state, ..m1 };
    let m3 = EventV { service: e.service, ..m2 };
    let m4 = EventV { host: e.host, ..m3 };
    let m5 = EventV { description: e.description, ..m4 };
    let m6 = EventV { tags: e.tags, ..m5 };
    let m7 = EventV { ttl: e.ttl, ..m6 };
    let m8 = EventV { attributes: e.attributes, ..m7 };
    let m9 = EventV { metric_sint64: e.metric_sint64, ..m8 };
    let m10 = EventV { metric_d: e.metric_d, ..m9 };
    let m11 = EventV { metric_f: e.metric_f, ..m10 };
    let s1 = opt_i64(1, e.time);
    let s2 = opt_text(2, e.state);
    let s3 = opt_text(3, e.service);
    let s4 = opt_text(4, e.host);
    let s5 = opt_text(5, e.description);
    let s6 = texts(7, e.tags);
    let s7 = opt_fixed32(8, e.ttl);
    let s8 = attribute_records_of(9, e.attributes);
    let s9 = opt_sint64(13, e.metric_sint64);
    let s10 = opt_fixed64(14, e.metric_d);
    let s11 = opt_fixed32(15, e.metric_f);
    assert(fold_records(s1, m0, st) == Some(m1)) by {
        match e.time {
            Some(x) => {
                lemma_int_round_trips(x);
                lemma_fold_one(s1[0], m0, st);
            },
            None => {},
        }
    }
    assert(fold_records(s2, m1, st) == Some(m2)) by {
        match e.state {
            Some(x) => {
                lemma_text_round_trip(x);
                lemma_fold_one(s2[0], m1, st);
            },
            None => {},
        }
    }
    lemma_fold_extend(s1, s2, m0, m1, m2, st);
    assert(fold_records(s3, m2, st) == Some(m3)) by {
        match e.service {
            Some(x) => {
                lemma_text_round_trip(x);
                lemma_fold_one(s3[0], m2, st);
            },
            None => {},
        }
    }
    lemma_fold_extend(s1 + s2, s3, m0, m2, m3, st);
    assert(fold_records(s4, m3, st) == Some(m4)) by {
        match e.host {
            Some(x) => {
                lemma_text_round_trip(x);
                lemma_fold_one(s4[0], m3, st);
            },
            None => {},
        }
    }
    lemma_fold_extend(s1 + s2 + s3, s4, m0, m3, m4, st);
    assert(fold_records(s5, m4, st) == Some(m5)) by {
        match e.description {
            Some(x) => {
                lemma_text_round_trip(x);
                lemma_fold_one(s5[0], m4, st);
            },
            None => {},
        }
    }
    lemma_fold_extend(s1 + s2 + s3 + s4, s5, m0, m4, m5, st);
    assert(fold_records(s6, m5, st) == Some(m6)) by {
        lemma_event_tags(e.tags, m5);
        assert(m5.tags + e.tags =~= e.tags);
    }
    lemma_fold_extend(s1 + s2 + s3 + s4 + s5, s6, m0, m5, m6, st);
    assert(fold_records(s7, m6, st) == Some(m7)) by {
        match e.ttl {
            Some(x) => {
                lemma_fold_one(s7[0], m6, st);
            },
            None => {},
        }
    }
    lemma_fold_extend(s1 + s2 + s3 + s4 + s5 + s6, s7, m0, m6, m7, st);
    assert(fold_records(s8, m7, st) == Some(m8)) by {
        lemma_event_attributes(e.attributes, m7);
        assert(m7.attributes + e.attributes =~= e.attributes);
    }
    lemma_fold_extend(s1 + s2 + s3 + s4 + s5 + s6 + s7, s8, m0, m7, m8, st);
    assert(fold_records(s9, m8, st) == Some(m9)) by {
        match e.metric_sint64 {
            Some(x) => {
                lemma_int_round_trips(x);
                lemma_fold_one(s9[0], m8, st);
            },
            None => {},
        }
    }
    lemma_fold_extend(s1 + s2 + s3 + s4 + s5 + s6 + s7 + s8, s9, m0, m8, m9, st);
    assert(fold_records(s10, m9, st) == Some(m10)) by {
        match e.metric_d {
            Some(x) => {
                lemma_fold_one(s10[0], m9, st);
            },
            None => {},
        }
    }
    lemma_fold_extend(s1 + s2 + s3 + s4 + s5 + s6 + s7 + s8 + s9, s10, m0, m9, m10, st);
    assert(fold_records(s11, m10, st) == Some(m11)) by {
        match e.metric_f {
            Some(x) => {
                lemma_fold_one(s11[0], m10, st);
            },
            None => {},
        }
    }
    lemma_fold_extend(s1 + s2 + s3 + s4 + s5 + s6 + s7 + s8 + s9 + s10, s11, m0, m10, m11, st);
    assert(m11 == e);
    lemma_parse_records(event_records(e));
}

// ---------------------------------------------------------------------------
// Query
// ---------------------------------------------------------------------------

pub open spec fn query_records(m: QueryV) -> Seq<Record> {
    opt_text(1, m.string)
}

/// The encoding of a [`Query`].
pub open spec fn query_bytes(m: QueryV) -> Seq<u8> {
    records_bytes(query_records(m))
}

/// Every field of the message, and of the messages it holds, can stand on
/// the wire.
pub open spec fn query_fits(m: QueryV) -> bool {
    &&& records_ok(query_records(m))
}

pub open spec fn apply_query(acc: QueryV, r: Record) -> Option<QueryV> {
    let f = r.field;
    if f == 1 {
        match text_of(r.value) {
            Some(s) => Some(QueryV { string: Some(s), ..acc }),
            None => None,
        }
    } else {
        Some(acc)
    }
}

pub open spec fn query_step() -> spec_fn(QueryV, Record) -> Option<QueryV> {
    |acc: QueryV, r: Record| apply_query(acc, r)
}

/// Decodes the fields of `b` over `start`: a later singular field replaces an
/// earlier one, a repeated field appends, an unknown field is skipped.
pub open spec fn decode_query(b: Seq<u8>, start: QueryV) -> Option<QueryV> {
    match parse_records(b) {
        Some(rs) => fold_records(rs, start, query_step()),
        None => None,
    }
}

pub open spec fn empty_query() -> QueryV {
    QueryV {
        string: None,
    }
}

/// Appends the encoding of `m`.
pub fn encode_query(m: &Query, out: &mut Vec<u8>)
    ensures
        final(out)@ == old(out)@ + query_bytes(m@),
{
    let ghost start = out@;
    let ghost v = m@;
    let ghost p = opt_text(1, v.string);
    put_opt_text(out, 1, &m.string);
    assert(out@ =~= start + records_bytes(p));
    assert(p =~= query_records(v));
}

/// Decodes `b` over `start`, as a message is merged.
pub fn merge_query(b: &[u8], start: Query) -> (r: Option<Query>)
    ensures
        match decode_query(b@, start@) {
            Some(v) => r matches Some(x) && x@ == v,
            None => r is None,
        },
{
    let mut cur = start;
    let mut pos: usize = 0;
    let ghost step = query_step();
    assert(b@.skip(0) =~= b@);
    while pos < b.len()
        invariant
            pos <= b@.len(),
            step == query_step(),
            decode_query(b@, start@) == (match parse_records(b@.skip(pos as int)) {
                Some(rs) => fold_records(rs, cur@, step),
                None => None,
            }),
        decreases b@.len() - pos,
    {
        proof {
            lemma_decode_step(b@, pos as int, cur@, step);
        }
        let (f, slot, e) = match read_record(b, pos) {
            Some(x) => x,
            None => return None,
        };
        let ghost old_cur = cur@;
        if f == 1 {
            match read_text(b, &slot) {
                Some(s) => cur.string = Some(s),
                None => return None,
            }
        }
        pos = e;
    }
    proof {
        assert(b@.skip(pos as int).len() == 0);
    }
    Some(cur)
}

/// Encoding a [`Query`] and decoding the bytes gives the message back.
pub proof fn lemma_query_round_trip(m: QueryV)
    requires
        query_fits(m),
    ensures
        decode_query(query_bytes(m), empty_query()) == Some(m),
{
    let st = query_step();
    let m0 = empty_query();
    let m1 = QueryV { string: m.string, ..m0 };
    let s1 = opt_text(1, m.string);
    assert(fold_records(s1, m0, st) == Some(m1)) by {
        match m.string {
            Some(x) => {
                lemma_text_round_trip(x);
                lemma_fold_one(s1[0], m0, st);
            },
            None => {},
        }
    }
    assert(m1 == m);
    lemma_parse_records(query_records(m));
    assert(query_records(m) == s1);
}

pub open spec fn query_record(field: u64, q: QueryV) -> Record {
    Record { field, value: Value::Bytes(query_bytes(q)) }
}

pub open spec fn opt_query(field: u64, o: Option<QueryV>) -> Seq<Record> {
    match o {
        Some(q) => seq![query_record(field, q)],
        None => Seq::empty(),
    }
}

fn put_opt_query(out: &mut Vec<u8>, field: u64, o: &Option<Query>)
    requires
        1 <= field <= MAX_FIELD,
    ensures
        final(out)@ == old(out)@ + records_bytes(
            opt_query(
                field,
                match *o {
                    Some(q) => Some(q@),
                    None => None,
                },
            ),
        ),
{
    match o {
        Some(q) => {
            let mut tmp: Vec<u8> = Vec::new();
            encode_query(q, &mut tmp);
            put_bytes_field(out, field, tmp.as_slice());
            proof {
                assert(tmp@ =~= query_bytes(q@));
                lemma_records_bytes_one(query_record(field, q@));
            }
        },
        None => {
            assert(out@ =~= out@ + records_bytes(Seq::<Record>::empty()));
        },
    }
}

// ---------------------------------------------------------------------------
// State
// ---------------------------------------------------------------------------

pub open spec fn state_records(m: StateV) -> Seq<Record> {
    opt_i64(1, m.time)
        + opt_text(2, m.state)
        + opt_text(3, m.service)
        + opt_text(4, m.host)
        + opt_text(5, m.description)
        + opt_bool(6, m.once)
        + texts(7, m.tags)
        + opt_fixed32(8, m.ttl)
}

/// The encoding of a [`State`].
pub open spec fn state_bytes(m: StateV) -> Seq<u8> {
    records_bytes(state_records(m))
}

/// Every field of the message, and of the messages it holds, can stand on
/// the wire.
pub open spec fn state_fits(m: StateV) -> bool {
    &&& records_ok(state_records(m))
}

pub open spec fn apply_state(acc: StateV, r: Record) -> Option<StateV> {
    let f = r.field;
    if f == 1 {
        match r.value {
            Value::Varint(v) => Some(StateV { time: Some(i64_of_bits(v)), ..acc }),
            _ => None,
        }
    } else if f == 2 {
        match text_of(r.value) {
            Some(s) => Some(StateV { state: Some(s), ..acc }),
            None => None,
        }
    } else if f == 3 {
        match text_of(r.value) {
            Some(s) => Some(StateV { service: Some(s), ..acc }),
            None => None,
        }
    } else if f == 4 {
        match text_of(r.value) {
            Some(s) => Some(StateV { host: Some(s), ..acc }),
            None => None,
        }
    } else if f == 5 {
        match text_of(r.value) {
            Some(s) => Some(StateV { description: Some(s), ..acc }),
            None => None,
        }
    } else if f == 6 {
        match r.value {
            Value::Varint(v) => Some(StateV { once: Some(v % 0x1_0000_0000 != 0), ..acc }),
            _ => None,
        }
    } else if f == 7 {
        match text_of(r.value) {
            Some(s) => Some(StateV { tags: acc.tags.push(s), ..acc }),
            None => None,
        }
    } else if f == 8 {
        match r.value {
            Value::Fixed32(v) => Some(StateV { ttl: Some(v), ..acc }),
            _ => None,
        }
    } else {
        Some(acc)
    }
}

pub open spec fn state_step() -> spec_fn(StateV, Record) -> Option<StateV> {
    |acc: StateV, r: Record| apply_state(acc, r)
}

/// Decodes the fields of `b` over `start`: a later singular field replaces an
/// earlier one, a repeated field appends, an unknown field is skipped.
pub open spec fn decode_state(b: Seq<u8>, start: StateV) -> Option<StateV> {
    match parse_records(b) {
        Some(rs) => fold_records(rs, start, state_step()),
        None => None,
    }
}

pub open spec fn empty_state() -> StateV {
    StateV {
        time: None,
        state: None,
        service: None,
        host: None,
        description: None,
        once: None,
        tags: Seq::empty(),
        ttl: None,
    }
}

/// Appends the encoding of `m`.
pub fn encode_state(m: &State, out: &mut Vec<u8>)
    ensures
        final(out)@ == old(out)@ + state_bytes(m@),
{
    let ghost start = out@;
    let ghost v = m@;
    let ghost p = opt_i64(1, v.time);
    put_opt_i64(out, 1, m.time);
    assert(out@ =~= start + records_bytes(p));
    let ghost o = out@;
    put_opt_text(out, 2, &m.state);
    proof {
        lemma_extend(start, o, out@, p, opt_text(2, v.state));
        p = p + opt_text(2, v.state);
    }
    let ghost o = out@;
    put_opt_text(out, 3, &m.service);
    proof {
        lemma_extend(start, o, out@, p, opt_text(3, v.service));
        p = p + opt_text(3, v.service);
    }
    let ghost o = out@;
    put_opt_text(out, 4, &m.host);
    proof {
        lemma_extend(start, o, out@, p, opt_text(4, v.host));
        p = p + opt_text(4, v.host);
    }
    let ghost o = out@;
    put_opt_text(out, 5, &m.description);
    proof {
        lemma_extend(start, o, out@, p, opt_text(5, v.description));
        p = p + opt_text(5, v.description);
    }
    let ghost o = out@;
    put_opt_bool(out, 6, m.once);
    proof {
        lemma_extend(start, o, out@, p, opt_bool(6, v.once));
        p = p + opt_bool(6, v.once);
    }
    let ghost o = out@;
    put_texts(out, 7, &m.tags);
    proof {
        lemma_extend(start, o, out@, p, texts(7, v.tags));
        p = p + texts(7, v.tags);
    }
    let ghost o = out@;
    put_opt_fixed32(out, 8, m.ttl);
    proof {
        lemma_extend(start, o, out@, p, opt_fixed32(8, v.ttl));
        p = p + opt_fixed32(8, v.ttl);
    }
    assert(p =~= state_records(v));
}

/// Decodes `b` over `start`, as a message is merged.
pub fn merge_state(b: &[u8], start: State) -> (r: Option<State>)
    ensures
        match decode_state(b@, start@) {
            Some(v) => r matches Some(x) && x@ == v,
            None => r is None,
        },
{
    let mut cur = start;
    let mut pos: usize = 0;
    let ghost step = state_step();
    assert(b@.skip(0) =~= b@);
    while pos < b.len()
        invariant
            pos <= b@.len(),
            step == state_step(),
            decode_state(b@, start@) == (match parse_records(b@.skip(pos as int)) {
                Some(rs) => fold_records(rs, cur@, step),
                None => None,
            }),
        decreases b@.len() - pos,
    {
        proof {
            lemma_decode_step(b@, pos as int, cur@, step);
        }
        let (f, slot, e) = match read_record(b, pos) {
            Some(x) => x,
            None => return None,
        };
        let ghost old_cur = cur@;
        if f == 1 {
            match slot {
                Slot::Varint(v) => cur.time = Some(i64_from_bits(v)),
                _ => return None,
            }
        } else if f == 2 {
            match read_text(b, &slot) {
                Some(s) => cur.state = Some(s),
                None => return None,
            }
        } else if f == 3 {
            match read_text(b, &slot) {
                Some(s) => cur.service = Some(s),
                None => return None,
            }
        } else if f == 4 {
            match read_text(b, &slot) {
                Some(s) => cur.host = Some(s),
                None => return None,
            }
        } else if f == 5 {
            match read_text(b, &slot) {
                Some(s) => cur.description = Some(s),
                None => return None,
            }
        } else if f == 6 {
            match slot {
                Slot::Varint(v) => cur.once = Some(v % 0x1_0000_0000 != 0),
                _ => return None,
            }
        } else if f == 7 {
            match read_text(b, &slot) {
                Some(s) => {
                    cur.tags.push(s);
                    assert(cur@.tags =~= old_cur.tags.push(s@));
                },
                None => return None,
            }
        } else if f == 8 {
            match slot {
                Slot::Fixed32(v) => cur.ttl = Some(v),
                _ => return None,
            }
        }
        pos = e;
    }
    proof {
        assert(b@.skip(pos as int).len() == 0);
    }
    Some(cur)
}

proof fn lemma_state_tags(ts: Seq<Seq<char>>, acc: StateV)
    ensures
        fold_records(texts(7, ts), acc, state_step()) == Some(StateV { tags: acc.tags + ts, ..acc }),
    decreases ts.len(),
{
    if ts.len() == 0 {
        assert(acc.tags + ts =~= acc.tags);
        assert(texts(7, ts) =~= Seq::<Record>::empty());
    } else {
        let r = text_record(7, ts[0]);
        lemma_text_round_trip(ts[0]);
        let next = StateV { tags: acc.tags.push(ts[0]), ..acc };
        lemma_fold_one(r, acc, state_step());
        lemma_state_tags(ts.drop_first(), next);
        assert(texts(7, ts) =~= seq![r] + texts(7, ts.drop_first()));
        lemma_fold_concat(seq![r], texts(7, ts.drop_first()), acc, state_step());
        assert(next.tags + ts.drop_first() =~= acc.tags + ts);
    }
}

/// Encoding a [`State`] and decoding the bytes gives the message back.
pub proof fn lemma_state_round_trip(m: StateV)
    requires
        state_fits(m),
    ensures
        decode_state(state_bytes(m), empty_state()) == Some(m),
{
    let st = state_step();
    let m0 = empty_state();
    let m1 = StateV { time: m.time, ..m0 };
    let m2 = StateV { state: m.state, ..m1 };
    let m3 = StateV { service: m.service, ..m2 };
    let m4 = StateV { host: m.host, ..m3 };
    let m5 = StateV { description: m.description, ..m4 };
    let m6 = StateV { once: m.once, ..m5 };
    let m7 = StateV { tags: m.tags, ..m6 };
    let m8 = StateV { ttl: m.ttl, ..m7 };
    let s1 = opt_i64(1, m.time);
    let s2 = opt_text(2, m.state);
    let s3 = opt_text(3, m.service);
    let s4 = opt_text(4, m.host);
    let s5 = opt_text(5, m.description);
    let s6 = opt_bool(6, m.once);
    let s7 = texts(7, m.tags);
    let s8 = opt_fixed32(8, m.ttl);
    assert(fold_records(s1, m0, st) == Some(m1)) by {
        match m.time {
            Some(x) => {
                lemma_int_round_trips(x);
                lemma_fold_one(s1[0], m0, st);
            },
            None => {},
        }
    }
    assert(fold_records(s2, m1, st) == Some(m2)) by {
        match m.state {
            Some(x) => {
                lemma_text_round_trip(x);
                lemma_fold_one(s2[0], m1, st);
            },
            None => {},
        }
    }
    lemma_fold_extend(s1, s2, m0, m1, m2, st);
    assert(fold_records(s3, m2, st) == Some(m3)) by {
        match m.service {
            Some(x) => {
                lemma_text_round_trip(x);
                lemma_fold_one(s3[0], m2, st);
            },
            None => {},
        }
    }
    lemma_fold_extend(s1 + s2, s3, m0, m2, m3, st);
    assert(fold_records(s4, m3, st) == Some(m4)) by {
        match m.host {
            Some(x) => {
                lemma_text_round_trip(x);
                lemma_fold_one(s4[0], m3, st);
            },
            None => {},
        }
    }
    lemma_fold_extend(s1 + s2 + s3, s4, m0, m3, m4, st);
    assert(fold_records(s5, m4, st) == Some(m5)) by {
        match m.description {
            Some(x) => {
                lemma_text_round_trip(x);
                lemma_fold_one(s5[0], m4, st);
            },
            None => {},
        }
    }
    lemma_fold_extend(s1 + s2 + s3 + s4, s5, m0, m4, m5, st);
    assert(fold_records(s6, m5, st) == Some(m6)) by {
        match m.once {
            Some(x) => {
                lemma_fold_one(s6[0], m5, st);
            },
            None => {},
        }
    }
    lemma_fold_extend(s1 + s2 + s3 + s4 + s5, s6, m0, m5, m6, st);
    assert(fold_records(s7, m6, st) == Some(m7)) by {
        lemma_state_tags(m.tags, m6);
        assert(m6.tags + m.tags =~= m.tags);
    }
    lemma_fold_extend(s1 + s2 + s3 + s4 + s5 + s6, s7, m0, m6, m7, st);
    assert(fold_records(s8, m7, st) == Some(m8)) by {
        match m.ttl {
            Some(x) => {
                lemma_fold_one(s8[0], m7, st);
            },
            None => {},
        }
    }
    lemma_fold_extend(s1 + s2 + s3 + s4 + s5 + s6 + s7, s8, m0, m7, m8, st);
    assert(m8 == m);
    lemma_parse_records(state_records(m));
}

// ---------------------------------------------------------------------------
// Msg
// ---------------------------------------------------------------------------

pub open spec fn msg_records(m: MsgV) -> Seq<Record> {
    opt_bool(2, m.ok)
        + opt_text(3, m.error)
        + state_records_of(4, m.states)
        + opt_query(5, m.query)
        + event_records_of(6, m.events)
}

/// The encoding of a [`Msg`].
pub open spec fn msg_bytes(m: MsgV) -> Seq<u8> {
    records_bytes(msg_records(m))
}

/// Every field of the message, and of the messages it holds, can stand on
/// the wire.
pub open spec fn msg_fits(m: MsgV) -> bool {
    &&& records_ok(msg_records(m))
    &&& forall|i: int| 0 <= i < m.states.len() ==> state_fits(#[trigger] m.states[i])
    &&& m.query matches Some(x) ==> query_fits(x)
    &&& forall|i: int| 0 <= i < m.events.len() ==> event_fits(#[trigger] m.events[i])
}

pub open spec fn apply_msg(acc: MsgV, r: Record) -> Option<MsgV> {
    let f = r.field;
    if f == 2 {
        match r.value {
            Value::Varint(v) => Some(MsgV { ok: Some(v % 0x1_0000_0000 != 0), ..acc }),
            _ => None,
        }
    } else if f == 3 {
        match text_of(r.value) {
            Some(s) => Some(MsgV { error: Some(s), ..acc }),
            None => None,
        }
    } else if f == 4 {
        match r.value {
            Value::Bytes(d) => match decode_state(d, empty_state()) {
                Some(x) => Some(MsgV { states: acc.states.push(x), ..acc }),
                None => None,
            },
            _ => None,
        }
    } else if f == 5 {
        match r.value {
            Value::Bytes(d) => match decode_query(
                d,
                match acc.query {
                    Some(x) => x,
                    None => empty_query(),
                },
            ) {
                Some(x) => Some(MsgV { query: Some(x), ..acc }),
                None => None,
            },
            _ => None,
        }
    } else if f == 6 {
        match r.value {
            Value::Bytes(d) => match decode_event(d, empty_event()) {
                Some(x) => Some(MsgV { events: acc.events.push(x), ..acc }),
                None => None,
            },
            _ => None,
        }
    } else {
        Some(acc)
    }
}

pub open spec fn msg_step() -> spec_fn(MsgV, Record) -> Option<MsgV> {
    |acc: MsgV, r: Record| apply_msg(acc, r)
}

/// Decodes the fields of `b` over `start`: a later singular field replaces an
/// earlier one, a repeated field appends, an unknown field is skipped.
pub open spec fn decode_msg(b: Seq<u8>, start: MsgV) -> Option<MsgV> {
    match parse_records(b) {
        Some(rs) => fold_records(rs, start, msg_step()),
        None => None,
    }
}

pub open spec fn empty_msg() -> MsgV {
    MsgV {
        ok: None,
        error: None,
        states: Seq::empty(),
        query: None,
        events: Seq::empty(),
    }
}

/// Appends the encoding of `m`.
pub fn encode_msg(m: &Msg, out: &mut Vec<u8>)
    ensures
        final(out)@ == old(out)@ + msg_bytes(m@),
{
    let ghost start = out@;
    let ghost v = m@;
    let ghost p = opt_bool(2, v.ok);
    put_opt_bool(out, 2, m.ok);
    assert(out@ =~= start + records_bytes(p));
    let ghost o = out@;
    put_opt_text(out, 3, &m.error);
    proof {
        lemma_extend(start, o, out@, p, opt_text(3, v.error));
        p = p + opt_text(3, v.error);
    }
    let ghost o = out@;
    put_states(out, 4, &m.states);
    proof {
        lemma_extend(start, o, out@, p, state_records_of(4, v.states));
        p = p + state_records_of(4, v.states);
    }
    let ghost o = out@;
    put_opt_query(out, 5, &m.query);
    proof {
        lemma_extend(start, o, out@, p, opt_query(5, v.query));
        p = p + opt_query(5, v.query);
    }
    let ghost o = out@;
    put_events(out, 6, &m.events);
    proof {
        lemma_extend(start, o, out@, p, event_records_of(6, v.events));
        p = p + event_records_of(6, v.events);
    }
    assert(p =~= msg_records(v));
}

/// Decodes `b` over `start`, as a message is merged.
pub fn merge_msg(b: &[u8], start: Msg) -> (r: Option<Msg>)
    ensures
        match decode_msg(b@, start@) {
            Some(v) => r matches Some(x) && x@ == v,
            None => r is None,
        },
{
    let mut cur = start;
    let mut pos: usize = 0;
    let ghost step = msg_step();
    assert(b@.skip(0) =~= b@);
    while pos < b.len()
        invariant
            pos <= b@.len(),
            step == msg_step(),
            decode_msg(b@, start@) == (match parse_records(b@.skip(pos as int)) {
                Some(rs) => fold_records(rs, cur@, step),
                None => None,
            }),
        decreases b@.len() - pos,
    {
        proof {
            lemma_decode_step(b@, pos as int, cur@, step);
        }
        let (f, slot, e) = match read_record(b, pos) {
            Some(x) => x,
            None => return None,
        };
        let ghost old_cur = cur@;
        if f == 2 {
            match slot {
                Slot::Varint(v) => cur.ok = Some(v % 0x1_0000_0000 != 0),
                _ => return None,
            }
        } else if f == 3 {
            match read_text(b, &slot) {
                Some(s) => cur.error = Some(s),
                None => return None,
            }
        } else if f == 4 {
            match slot {
                Slot::Bytes(st, en) => {
                    match merge_state(slice_subrange(b, st, en), fresh_state()) {
                        Some(x) => {
                            cur.states.push(x);
                            assert(cur@.states =~= old_cur.states.push(x@));
                        },
                        None => return None,
                    }
                },
                _ => return None,
            }
        } else if f == 5 {
            match slot {
                Slot::Bytes(st, en) => {
                    let base = match cur.query.take() {
                        Some(x) => x,
                        None => Query::new(),
                    };
                    match merge_query(slice_subrange(b, st, en), base) {
                        Some(x) => cur.query = Some(x),
                        None => return None,
                    }
                },
                _ => return None,
            }
        } else if f == 6 {
            match slot {
                Slot::Bytes(st, en) => {
                    match merge_event(slice_subrange(b, st, en), fresh_event()) {
                        Some(x) => {
                            cur.events.push(x);
                            assert(cur@.events =~= old_cur.events.push(x@));
                        },
                        None => return None,
                    }
                },
                _ => return None,
            }
        }
        pos = e;
    }
    proof {
        assert(b@.skip(pos as int).len() == 0);
    }
    Some(cur)
}

proof fn lemma_msg_states(v: Seq<StateV>, acc: MsgV)
    requires
        forall|i: int| 0 <= i < v.len() ==> state_fits(#[trigger] v[i]),
    ensures
        fold_records(state_records_of(4, v), acc, msg_step()) == Some(MsgV { states: acc.states + v, ..acc }),
    decreases v.len(),
{
    if v.len() == 0 {
        assert(acc.states + v =~= acc.states);
        assert(state_records_of(4, v) =~= Seq::<Record>::empty());
    } else {
        let r = state_record(4, v[0]);
        lemma_state_round_trip(v[0]);
        let next = MsgV { states: acc.states.push(v[0]), ..acc };
        lemma_fold_one(r, acc, msg_step());
        let rest = v.drop_first();
        assert forall|i: int| 0 <= i < rest.len() implies state_fits(#[trigger] rest[i]) by {
            assert(rest[i] == v[i + 1]);
        }
        lemma_msg_states(rest, next);
        assert(state_records_of(4, v) =~= seq![r] + state_records_of(4, rest));
        lemma_fold_concat(seq![r], state_records_of(4, rest), acc, msg_step());
        assert(next.states + rest =~= acc.states + v);
    }
}

#[verifier::rlimit(40)]
proof fn lemma_msg_events(v: Seq<EventV>, acc: MsgV)
    requires
        forall|i: int| 0 <= i < v.len() ==> event_fits(#[trigger] v[i]),
    ensures
        fold_records(event_records_of(6, v), acc, msg_step()) == Some(MsgV { events: acc.events + v, ..acc }),
    decreases v.len(),
{
    if v.len() == 0 {
        assert(acc.events + v =~= acc.events);
        assert(event_records_of(6, v) =~= Seq::<Record>::empty());
    } else {
        let r = event_record(6, v[0]);
        lemma_event_round_trip(v[0]);
        let next = MsgV { events: acc.events.push(v[0]), ..acc };
        lemma_fold_one(r, acc, msg_step());
        let rest = v.drop_first();
        assert forall|i: int| 0 <= i < rest.len() implies event_fits(#[trigger] rest[i]) by {
            assert(rest[i] == v[i + 1]);
        }
        lemma_msg_events(rest, next);
        assert(event_records_of(6, v) =~= seq![r] + event_records_of(6, rest));
        lemma_fold_concat(seq![r], event_records_of(6, rest), acc, msg_step());
        assert(next.events + rest =~= acc.events + v);
    }
}

/// Encoding a [`Msg`] and decoding the bytes gives the message back.
pub proof fn lemma_msg_round_trip(m: MsgV)
    requires
        msg_fits(m),
    ensures
        decode_msg(msg_bytes(m), empty_msg()) == Some(m),
{
    let st = msg_step();
    let m0 = empty_msg();
    let m1 = MsgV { ok: m.ok, ..m0 };
    let m2 = MsgV { error: m.error, ..m1 };
    let m3 = MsgV { states: m.states, ..m2 };
    let m4 = MsgV { query: m.query, ..m3 };
    let m5 = MsgV { events: m.events, ..m4 };
    let s1 = opt_bool(2, m.ok);
    let s2 = opt_text(3, m.error);
    let s3 = state_records_of(4, m.states);
    let s4 = opt_query(5, m.query);
    let s5 = event_records_of(6, m.events);
    assert(fold_records(s1, m0, st) == Some(m1)) by {
        match m.ok {
            Some(x) => {
                lemma_fold_one(s1[0], m0, st);
            },
            None => {},
        }
    }
    assert(fold_records(s2, m1, st) == Some(m2)) by {
        match m.error {
            Some(x) => {
                lemma_text_round_trip(x);
                lemma_fold_one(s2[0], m1, st);
            },
            None => {},
        }
    }
    lemma_fold_extend(s1, s2, m0, m1, m2, st);
    assert(fold_records(s3, m2, st) == Some(m3)) by {
        lemma_msg_states(m.states, m2);
        assert(m2.states + m.states =~= m.states);
    }
    lemma_fold_extend(s1 + s2, s3, m0, m2, m3, st);
    assert(fold_records(s4, m3, st) == Some(m4)) by {
        match m.query {
            Some(x) => {
                lemma_query_round_trip(x);
                lemma_fold_one(s4[0], m3, st);
            },
            None => {},
        }
    }
    lemma_fold_extend(s1 + s2 + s3, s4, m0, m3, m4, st);
    assert(fold_records(s5, m4, st) == Some(m5)) by {
        lemma_msg_events(m.events, m4);
        assert(m4.events + m.events =~= m.events);
    }
    lemma_fold_extend(s1 + s2 + s3 + s4, s5, m0, m4, m5, st);
    assert(m5 == m);
    lemma_parse_records(msg_records(m));
}

pub open spec fn state_record(field: u64, x: StateV) -> Record {
    Record { field, value: Value::Bytes(state_bytes(x)) }
}

pub open spec fn state_records_of(field: u64, v: Seq<StateV>) -> Seq<Record> {
    v.map_values(|x: StateV| state_record(field, x))
}

fn put_states(out: &mut Vec<u8>, field: u64, v: &Vec<State>)
    requires
        1 <= field <= MAX_FIELD,
    ensures
        final(out)@ == old(out)@ + records_bytes(state_records_of(field, v@.map_values(|x: State| x@))),
{
    let ghost start = out@;
    let ghost vs = v@.map_values(|x: State| x@);
    let mut i: usize = 0;
    while i < v.len()
        invariant
            1 <= field <= MAX_FIELD,
            i <= v@.len(),
            vs == v@.map_values(|x: State| x@),
            out@ == start + records_bytes(state_records_of(field, vs.take(i as int))),
        decreases v@.len() - i,
    {
        let mut tmp: Vec<u8> = Vec::new();
        encode_state(&v[i], &mut tmp);
        put_bytes_field(out, field, tmp.as_slice());
        proof {
            let a = state_records_of(field, vs.take(i as int));
            let r = state_record(field, vs[i as int]);
            assert(tmp@ =~= state_bytes(vs[i as int]));
            assert(state_records_of(field, vs.take(i + 1)) =~= a + seq![r]);
            lemma_records_bytes_concat(a, seq![r]);
            lemma_records_bytes_one(r);
            assert(out@ =~= start + records_bytes(state_records_of(field, vs.take(i + 1))));
        }
        i = i + 1;
    }
    assert(vs.take(i as int) =~= vs);
}

pub open spec fn event_record(field: u64, x: EventV) -> Record {
    Record { field, value: Value::Bytes(event_bytes(x)) }
}

pub open spec fn event_records_of(field: u64, v: Seq<EventV>) -> Seq<Record> {
    v.map_values(|x: EventV| event_record(field, x))
}

fn put_events(out: &mut Vec<u8>, field: u64, v: &Vec<Event>)
    requires
        1 <= field <= MAX_FIELD,
    ensures
        final(out)@ == old(out)@ + records_bytes(event_records_of(field, v@.map_values(|x: Event| x@))),
{
    let ghost start = out@;
    let ghost vs = v@.map_values(|x: Event| x@);
    let mut i: usize = 0;
    while i < v.len()
        invariant
            1 <= field <= MAX_FIELD,
            i <= v@.len(),
            vs == v@.map_values(|x: Event| x@),
            out@ == start + records_bytes(event_records_of(field, vs.take(i as int))),
        decreases v@.len() - i,
    {
        let mut tmp: Vec<u8> = Vec::new();
        encode_event(&v[i], &mut tmp);
        put_bytes_field(out, field, tmp.as_slice());
        proof {
            let a = event_records_of(field, vs.take(i as int));
            let r = event_record(field, vs[i as int]);
            assert(tmp@ =~= event_bytes(vs[i as int]));
            assert(event_records_of(field, vs.take(i + 1)) =~= a + seq![r]);
            lemma_records_bytes_concat(a, seq![r]);
            lemma_records_bytes_one(r);
            assert(out@ =~= start + records_bytes(event_records_of(field, vs.take(i + 1))));
        }
        i = i + 1;
    }
    assert(vs.take(i as int) =~= vs);
}

fn fresh_state() -> (r: State)
    ensures
        r@ == empty_state(),
{
    let r = State::new();
    assert(r@.tags =~= Seq::<Seq<char>>::empty());
    r
}

fn fresh_event() -> (r: Event)
    ensures
        r@ == empty_event(),
{
    let r = Event::new();
    assert(r@.tags =~= Seq::<Seq<char>>::empty());
    assert(r@.attributes =~= Seq::<AttributeV>::empty());
    r
}

// ---------------------------------------------------------------------------
// Lengths that fit
// ---------------------------------------------------------------------------

proof fn lemma_run_bound(rs: Seq<Record>)
    ensures
        forall|k: int| 0 <= k < rs.len() ==> (#[trigger] record_bytes(rs[k])).len() <= records_bytes(rs).len(),
    decreases rs.len(),
{
    if rs.len() > 0 {
        lemma_run_bound(rs.drop_first());
        assert forall|k: int| 0 <= k < rs.len() implies (#[trigger] record_bytes(rs[k])).len() <= records_bytes(rs).len() by {
            if k > 0 {
                assert(rs[k] == rs.drop_first()[k - 1]);
            }
        }
    }
}

proof fn lemma_payload_bound(r: Record)
    ensures
        r.value matches Value::Bytes(d) ==> d.len() <= record_bytes(r).len(),
{
}

/// A run whose field numbers are in range, and whose bytes fit a 64-bit
/// length, can stand on the wire.
proof fn lemma_run_ok(rs: Seq<Record>)
    requires
        forall|k: int| 0 <= k < rs.len() ==> 1 <= (#[trigger] rs[k]).field <= MAX_FIELD,
        records_bytes(rs).len() <= u64::MAX,
    ensures
        records_ok(rs),
{
    lemma_run_bound(rs);
    assert forall|k: int| 0 <= k < rs.len() implies record_ok(#[trigger] rs[k]) by {
        lemma_payload_bound(rs[k]);
        assert(record_bytes(rs[k]).len() <= records_bytes(rs).len());
    }
}

/// A part of a run takes no more bytes than the run.
proof fn lemma_part_bound(a: Seq<Record>, b: Seq<Record>)
    ensures
        records_bytes(a).len() <= records_bytes(a + b).len(),
        records_bytes(b).len() <= records_bytes(a + b).len(),
{
    lemma_records_bytes_concat(a, b);
}

proof fn lemma_attribute_fits(a: AttributeV)
    requires
        attribute_bytes(a).len() <= u64::MAX,
    ensures
        records_ok(attribute_records(a)),
{
    lemma_run_ok(attribute_records(a));
}

proof fn lemma_query_fits(q: QueryV)
    requires
        query_bytes(q).len() <= u64::MAX,
    ensures
        query_fits(q),
{
    lemma_run_ok(query_records(q));
}

proof fn lemma_state_fits(m: StateV)
    requires
        state_bytes(m).len() <= u64::MAX,
    ensures
        state_fits(m),
{
    let rs = state_records(m);
    assert forall|k: int| 0 <= k < rs.len() implies 1 <= (#[trigger] rs[k]).field <= MAX_FIELD by {}
    lemma_run_ok(rs);
}

proof fn lemma_event_fits(e: EventV)
    requires
        event_bytes(e).len() <= u64::MAX,
    ensures
        event_fits(e),
{
    let rs = event_records(e);
    assert forall|k: int| 0 <= k < rs.len() implies 1 <= (#[trigger] rs[k]).field <= MAX_FIELD by {}
    lemma_run_ok(rs);
    let p = opt_i64(1, e.time) + opt_text(2, e.state) + opt_text(3, e.service) + opt_text(4, e.host)
        + opt_text(5, e.description) + texts(7, e.tags) + opt_fixed32(8, e.ttl);
    let s8 = attribute_records_of(9, e.attributes);
    let q1 = p + s8;
    let q2 = q1 + opt_sint64(13, e.metric_sint64);
    let q3 = q2 + opt_fixed64(14, e.metric_d);
    lemma_part_bound(p, s8);
    lemma_part_bound(q1, opt_sint64(13, e.metric_sint64));
    lemma_part_bound(q2, opt_fixed64(14, e.metric_d));
    lemma_part_bound(q3, opt_fixed32(15, e.metric_f));
    assert(q3 + opt_fixed32(15, e.metric_f) == rs);
    lemma_run_bound(s8);
    assert forall|i: int| 0 <= i < e.attributes.len() implies records_ok(attribute_records(#[trigger] e.attributes[i])) by {
        let r = attribute_record(9, e.attributes[i]);
        assert(s8[i] == r);
        lemma_payload_bound(r);
        lemma_attribute_fits(e.attributes[i]);
    }
}

/// Every message whose encoding fits a 64-bit length, as every encoding held
/// in memory does, can stand on the wire.
proof fn lemma_msg_fits(m: MsgV)
    requires
        msg_bytes(m).len() <= u64::MAX,
    ensures
        msg_fits(m),
{
    let rs = msg_records(m);
    assert forall|k: int| 0 <= k < rs.len() implies 1 <= (#[trigger] rs[k]).field <= MAX_FIELD by {}
    lemma_run_ok(rs);
    let s1 = opt_bool(2, m.ok);
    let s2 = opt_text(3, m.error);
    let s3 = state_records_of(4, m.states);
    let s4 = opt_query(5, m.query);
    let s5 = event_records_of(6, m.events);
    lemma_part_bound(s1 + s2, s3);
    lemma_part_bound(s1 + s2 + s3, s4);
    lemma_part_bound(s1 + s2 + s3 + s4, s5);
    assert(s1 + s2 + s3 + s4 + s5 == rs);
    lemma_run_bound(s3);
    lemma_run_bound(s4);
    lemma_run_bound(s5);
    assert forall|i: int| 0 <= i < m.states.len() implies state_fits(#[trigger] m.states[i]) by {
        let r = state_record(4, m.states[i]);
        assert(s3[i] == r);
        lemma_payload_bound(r);
        lemma_state_fits(m.states[i]);
    }
    assert forall|i: int| 0 <= i < m.events.len() implies event_fits(#[trigger] m.events[i]) by {
        let r = event_record(6, m.events[i]);
        assert(s5[i] == r);
        lemma_payload_bound(r);
        lemma_event_fits(m.events[i]);
    }
    match m.query {
        Some(q) => {
            let r = query_record(5, q);
            assert(s4[0] == r);
            lemma_payload_bound(r);
            lemma_query_fits(q);
        },
        None => {},
    }
}

/// Encoding a message and decoding the bytes gives the message back, for
/// every message whose encoding fits a 64-bit length, which every encoding
/// held in memory does.
pub proof fn lemma_encoded_msg_round_trip(m: MsgV)
    requires
        msg_bytes(m).len() <= u64::MAX,
    ensures
        decode_msg(msg_bytes(m), empty_msg()) == Some(m),
{
    lemma_msg_fits(m);
    lemma_msg_round_trip(m);
}

/// The encoding of `m`.
pub fn write_to_bytes(m: &Msg) -> (r: Vec<u8>)
    ensures
        r@ == msg_bytes(m@),
        decode_msg(r@, empty_msg()) == Some(m@),
{
    let mut out: Vec<u8> = Vec::new();
    encode_msg(m, &mut out);
    assert(out@ =~= msg_bytes(m@));
    // the encoding is held in memory, so its length fits a 64-bit length
    let _ = out.len();
    proof {
        lemma_encoded_msg_round_trip(m@);
    }
    out
}

/// Decodes a whole buffer as a message.
pub fn parse_from_bytes(b: &[u8]) -> (r: Result<Msg, Error>)
    ensures
        decode_msg(b@, empty_msg()) is None ==> r matches Err(Error::Protobuf(_)),
        decode_msg(b@, empty_msg()) matches Some(v) ==> (r matches Ok(m) && m@ == v),
{
    let start = Msg::new();
    assert(start@.states =~= Seq::empty());
    assert(start@.events =~= Seq::empty());
    match merge_msg(b, start) {
        Some(m) => Ok(m),
        None => Err(Error::Protobuf("failed to decode the message".to_owned())),
    }
}

} // verus!
