//! The protocol buffer wire format: varints, fixed-width little-endian
//! values, keys and records, as the message codec uses them.
use vstd::bytes::{
    spec_u32_from_le_bytes, spec_u32_to_le_bytes, spec_u64_from_le_bytes, spec_u64_to_le_bytes,
    u32_from_le_bytes, u32_to_le_bytes, u64_from_le_bytes, u64_to_le_bytes,
};
use vstd::prelude::*;

verus! {

/// The base-128 varint encoding of `v`: seven bits per byte, least
/// significant group first, the high bit set on every byte but the last.
pub open spec fn varint(v: u64) -> Seq<u8>
    decreases v,
{
    if v < 128 {
        seq![v as u8]
    } else {
        seq![(v % 128 + 128) as u8] + varint(v / 128)
    }
}

/// Reads a varint of at most `k` bytes from the front of `b`: its value, not
/// yet bounded, and its length.
pub open spec fn varint_raw(b: Seq<u8>, k: nat) -> Option<(int, nat)>
    decreases k,
{
    if k == 0 || b.len() == 0 {
        None
    } else if b[0] < 128 {
        Some((b[0] as int, 1))
    } else {
        match varint_raw(b.drop_first(), (k - 1) as nat) {
            Some((v, n)) => Some(((b[0] - 128) + 128 * v, n + 1)),
            None => None,
        }
    }
}

/// Reads a varint from the front of `b`: at most ten bytes whose value fits
/// in 64 bits.
pub open spec fn parse_varint(b: Seq<u8>) -> Option<(u64, nat)> {
    match varint_raw(b, 10) {
        Some((v, n)) => if v <= u64::MAX {
            Some((v as u64, n))
        } else {
            None
        },
        None => None,
    }
}

pub open spec fn pow128(k: nat) -> int
    decreases k,
{
    if k == 0 {
        1
    } else {
        128 * pow128((k - 1) as nat)
    }
}

proof fn lemma_varint_raw_of(v: u64, rest: Seq<u8>, k: nat)
    requires
        k >= 1,
        (v as int) < pow128(k),
    ensures
        varint_raw(varint(v) + rest, k) == Some((v as int, varint(v).len())),
        varint(v).len() <= k,
    decreases v,
{
    let b = varint(v) + rest;
    if v < 128 {
        assert(b[0] == v as u8);
    } else {
        assert(k >= 2) by {
            if k == 1 {
                reveal_with_fuel(pow128, 2);
            }
        }
        let q = (v / 128) as u64;
        assert(pow128(k) == 128 * pow128((k - 1) as nat));
        assert((q as int) < pow128((k - 1) as nat));
        lemma_varint_raw_of(q, rest, (k - 1) as nat);
        assert(b.drop_first() =~= varint(q) + rest);
        assert(b[0] == (v % 128 + 128) as u8);
    }
}

proof fn lemma_varint_raw_len(b: Seq<u8>, k: nat)
    ensures
        varint_raw(b, k) matches Some((v, n)) ==> 1 <= n <= b.len(),
    decreases k,
{
    if k > 0 && b.len() > 0 && b[0] >= 128 {
        lemma_varint_raw_len(b.drop_first(), (k - 1) as nat);
    }
}

proof fn lemma_pow128_mono(i: nat, j: nat)
    requires
        i <= j,
    ensures
        pow128(i) <= pow128(j),
        pow128(i) >= 1,
    decreases j,
{
    if i < j {
        lemma_pow128_mono(i, (j - 1) as nat);
    } else if i > 0 {
        lemma_pow128_mono((i - 1) as nat, (i - 1) as nat);
    }
}

proof fn lemma_pow128_9()
    ensures
        pow128(9) == 0x8000_0000_0000_0000_i128,
{
    reveal_with_fuel(pow128, 10);
}

proof fn lemma_pow128_10()
    ensures
        pow128(10) == 0x40_0000_0000_0000_0000_i128,
{
    reveal_with_fuel(pow128, 11);
}

/// A varint followed by anything reads back as the value it encodes.
pub proof fn lemma_parse_varint(v: u64, rest: Seq<u8>)
    ensures
        parse_varint(varint(v) + rest) == Some((v, varint(v).len())),
        1 <= varint(v).len() <= 10,
{
    lemma_pow128_10();
    lemma_varint_raw_of(v, rest, 10);
    reveal_with_fuel(varint, 2);
}

/// Appends the varint encoding of `v` to `out`.
pub fn put_varint(out: &mut Vec<u8>, v: u64)
    ensures
        final(out)@ == old(out)@ + varint(v),
{
    let ghost start = out@;
    let mut x: u64 = v;
    while x >= 128
        invariant
            start + varint(v) == out@ + varint(x),
        decreases x,
    {
        let ghost before = out@;
        out.push((x % 128 + 128) as u8);
        proof {
            assert(varint(x) == seq![(x % 128 + 128) as u8] + varint(x / 128));
            assert(out@ + varint(x / 128) =~= before + varint(x));
        }
        x = x / 128;
    }
    out.push(x as u8);
    proof {
        assert(out@ =~= start + varint(v));
    }
}

pub open spec fn scaled(acc: int, mult: int, i: nat, o: Option<(int, nat)>) -> Option<(int, nat)> {
    match o {
        Some((v, n)) => Some((acc + mult * v, n + i)),
        None => None,
    }
}

/// Reads the varint that starts at `pos` in `b`; gives its value and the
/// position after it, or `None` where `b` holds no well-formed varint there.
pub fn read_varint(b: &[u8], pos: usize) -> (r: Option<(u64, usize)>)
    requires
        pos <= b@.len(),
    ensures
        r == (match parse_varint(b@.skip(pos as int)) {
            Some((v, n)) => Some((v, (pos + n) as usize)),
            None => None,
        }),
        r matches Some((v, e)) ==> pos < e <= b@.len(),
{
    let ghost s = b@.skip(pos as int);
    let mut acc: u128 = 0;
    let mut mult: u128 = 1;
    let mut i: usize = 0;
    assert(s.skip(0) =~= s);
    while i < 10 && i < b.len() - pos
        invariant
            pos <= b@.len(),
            s == b@.skip(pos as int),
            i <= 10,
            i <= b@.len() - pos,
            mult == pow128(i as nat),
            acc < mult,
            mult <= 0x40_0000_0000_0000_0000u128,
            i < 10 ==> mult <= 0x8000_0000_0000_0000u128,
            varint_raw(s, 10) == scaled(acc as int, mult as int, i as nat, varint_raw(s.skip(i as int), (10 - i) as nat)),
        decreases 10 - i,
    {
        let c = b[pos + i];
        let ghost t = s.skip(i as int);
        assert(t[0] == c);
        assert((mult as int) * (c as int) <= (mult as int) * 255) by (nonlinear_arith)
            requires
                c < 256,
                mult >= 0;
        if c < 128 {
            let total: u128 = acc + mult * (c as u128);
            proof {
                assert(varint_raw(t, (10 - i) as nat) == Some((c as int, 1nat)));
            }
            if total <= u64::MAX as u128 {
                return Some((total as u64, pos + i + 1));
            } else {
                return None;
            }
        }
        proof {
            assert(t.drop_first() =~= s.skip(i + 1));
            let k = (10 - i) as nat;
            match varint_raw(s.skip(i + 1), (k - 1) as nat) {
                Some((v, n)) => {
                    assert((acc as int) + (mult as int) * ((c - 128) + 128 * v) == ((acc as int) + (mult as int) * (c - 128)) + ((mult as int) * 128) * v) by (nonlinear_arith);
                }
                None => {}
            }
            assert((mult as int) * (c - 128) <= (mult as int) * 127) by (nonlinear_arith)
                requires c < 256, c >= 128;
        }
        acc = acc + mult * ((c - 128) as u128);
        proof {
            lemma_pow128_9();
            lemma_pow128_10();
            if i + 1 < 10 {
                lemma_pow128_mono((i + 1) as nat, 9);
            } else {
                lemma_pow128_mono((i + 1) as nat, 10);
            }
        }
        mult = mult * 128;
        i = i + 1;
    }
    proof {
        let t = s.skip(i as int);
        assert(i == 10 || t.len() == 0);
    }
    None
}

/// The largest field number the format allows.
pub const MAX_FIELD: u64 = 0x1fff_ffff;

/// The payload of one field on the wire, with its wire type.
pub enum Value {
    Varint(u64),
    Fixed64(u64),
    Bytes(Seq<u8>),
    Fixed32(u32),
}

/// One field on the wire: its number and its payload.
pub struct Record {
    pub field: u64,
    pub value: Value,
}

pub open spec fn wire_type(v: Value) -> u64 {
    match v {
        Value::Varint(_) => 0,
        Value::Fixed64(_) => 1,
        Value::Bytes(_) => 2,
        Value::Fixed32(_) => 5,
    }
}

pub open spec fn payload_bytes(v: Value) -> Seq<u8> {
    match v {
        Value::Varint(x) => varint(x),
        Value::Fixed64(x) => spec_u64_to_le_bytes(x),
        Value::Bytes(d) => varint(d.len() as u64) + d,
        Value::Fixed32(x) => spec_u32_to_le_bytes(x),
    }
}

/// The key of a field: its number and wire type packed in one varint.
pub open spec fn key_bytes(field: u64, wt: u64) -> Seq<u8> {
    varint((field * 8 + wt) as u64)
}

/// The bytes of one field: its key, then its payload.
pub open spec fn record_bytes(r: Record) -> Seq<u8> {
    key_bytes(r.field, wire_type(r.value)) + payload_bytes(r.value)
}

/// A record that can stand on the wire: a field number in range and a
/// payload whose length fits in a varint.
pub open spec fn record_ok(r: Record) -> bool {
    &&& 1 <= r.field <= MAX_FIELD
    &&& r.value matches Value::Bytes(d) ==> d.len() <= u64::MAX
}

pub open spec fn parse_payload(wt: u64, b: Seq<u8>) -> Option<(Value, nat)> {
    if wt == 0 {
        match parse_varint(b) {
            Some((v, n)) => Some((Value::Varint(v), n)),
            None => None,
        }
    } else if wt == 1 {
        if b.len() >= 8 {
            Some((Value::Fixed64(spec_u64_from_le_bytes(b.take(8))), 8))
        } else {
            None
        }
    } else if wt == 2 {
        match parse_varint(b) {
            Some((l, n)) => if n + l <= b.len() {
                Some((Value::Bytes(b.subrange(n as int, n + l)), (n + l) as nat))
            } else {
                None
            },
            None => None,
        }
    } else if wt == 5 {
        if b.len() >= 4 {
            Some((Value::Fixed32(spec_u32_from_le_bytes(b.take(4))), 4))
        } else {
            None
        }
    } else {
        None
    }
}

/// Reads one field from the front of `b`: the record and the number of bytes
/// it takes.
pub open spec fn parse_record(b: Seq<u8>) -> Option<(Record, nat)> {
    match parse_varint(b) {
        Some((k, n)) => {
            let f = k / 8;
            if 1 <= f <= MAX_FIELD {
                match parse_payload(k % 8, b.skip(n as int)) {
                    Some((v, m)) => Some((Record { field: f, value: v }, n + m)),
                    None => None,
                }
            } else {
                None
            }
        },
        None => None,
    }
}

/// A field followed by anything reads back as that field.
pub proof fn lemma_parse_record(r: Record, rest: Seq<u8>)
    requires
        record_ok(r),
    ensures
        parse_record(record_bytes(r) + rest) == Some((r, record_bytes(r).len())),
{
    let wt = wire_type(r.value);
    let k = (r.field * 8 + wt) as u64;
    let p = payload_bytes(r.value);
    let b = record_bytes(r) + rest;
    assert(b =~= varint(k) + (p + rest));
    lemma_parse_varint(k, p + rest);
    assert(k / 8 == r.field && k % 8 == wt);
    let t = b.skip(varint(k).len() as int);
    assert(t =~= p + rest);
    match r.value {
        Value::Varint(x) => {
            lemma_parse_varint(x, rest);
        },
        Value::Fixed64(x) => {
            vstd::bytes::lemma_auto_spec_u64_to_from_le_bytes();
            assert(t.take(8) =~= p);
        },
        Value::Bytes(d) => {
            let l = d.len() as u64;
            assert(t =~= varint(l) + (d + rest));
            lemma_parse_varint(l, d + rest);
            let n = varint(l).len();
            assert(t.subrange(n as int, n + l) =~= d);
        },
        Value::Fixed32(x) => {
            vstd::bytes::lemma_auto_spec_u32_to_from_le_bytes();
            assert(t.take(4) =~= p);
        },
    }
}

/// Appends the key of a field.
pub fn put_key(out: &mut Vec<u8>, field: u64, wt: u64)
    requires
        1 <= field <= MAX_FIELD,
        wt < 8,
    ensures
        final(out)@ == old(out)@ + key_bytes(field, wt),
{
    put_varint(out, field * 8 + wt);
}

/// Appends the bytes of `d`.
pub fn put_all(out: &mut Vec<u8>, d: &[u8])
    ensures
        final(out)@ == old(out)@ + d@,
{
    let ghost start = out@;
    let mut i: usize = 0;
    while i < d.len()
        invariant
            i <= d@.len(),
            out@ == start + d@.take(i as int),
        decreases d@.len() - i,
    {
        out.push(d[i]);
        i = i + 1;
        proof {
            assert(out@ =~= start + d@.take(i as int));
        }
    }
    assert(d@.take(i as int) =~= d@);
}

/// Appends a varint field.
pub fn put_varint_field(out: &mut Vec<u8>, field: u64, v: u64)
    requires
        1 <= field <= MAX_FIELD,
    ensures
        final(out)@ == old(out)@ + record_bytes(Record { field, value: Value::Varint(v) }),
{
    let ghost start = out@;
    put_key(out, field, 0);
    put_varint(out, v);
    assert(out@ =~= start + record_bytes(Record { field, value: Value::Varint(v) }));
}

/// Appends a fixed-width 32-bit field.
pub fn put_fixed32_field(out: &mut Vec<u8>, field: u64, v: u32)
    requires
        1 <= field <= MAX_FIELD,
    ensures
        final(out)@ == old(out)@ + record_bytes(Record { field, value: Value::Fixed32(v) }),
{
    let ghost start = out@;
    put_key(out, field, 5);
    let bytes = u32_to_le_bytes(v);
    put_all(out, bytes.as_slice());
    assert(out@ =~= start + record_bytes(Record { field, value: Value::Fixed32(v) }));
}

/// Appends a fixed-width 64-bit field.
pub fn put_fixed64_field(out: &mut Vec<u8>, field: u64, v: u64)
    requires
        1 <= field <= MAX_FIELD,
    ensures
        final(out)@ == old(out)@ + record_bytes(Record { field, value: Value::Fixed64(v) }),
{
    let ghost start = out@;
    put_key(out, field, 1);
    let bytes = u64_to_le_bytes(v);
    put_all(out, bytes.as_slice());
    assert(out@ =~= start + record_bytes(Record { field, value: Value::Fixed64(v) }));
}

/// Appends a length-delimited field.
pub fn put_bytes_field(out: &mut Vec<u8>, field: u64, d: &[u8])
    requires
        1 <= field <= MAX_FIELD,
    ensures
        final(out)@ == old(out)@ + record_bytes(Record { field, value: Value::Bytes(d@) }),
{
    let ghost start = out@;
    put_key(out, field, 2);
    put_varint(out, d.len() as u64);
    put_all(out, d);
    assert(out@ =~= start + record_bytes(Record { field, value: Value::Bytes(d@) }));
}

/// Where a field read from a buffer keeps its payload: a value, or the
/// bounds of a range of the buffer.
pub enum Slot {
    Varint(u64),
    Fixed64(u64),
    Bytes(usize, usize),
    Fixed32(u32),
}

pub open spec fn slot_value(b: Seq<u8>, s: Slot) -> Value {
    match s {
        Slot::Varint(x) => Value::Varint(x),
        Slot::Fixed64(x) => Value::Fixed64(x),
        Slot::Bytes(st, en) => Value::Bytes(b.subrange(st as int, en as int)),
        Slot::Fixed32(x) => Value::Fixed32(x),
    }
}

pub open spec fn slot_within(s: Slot, end: usize) -> bool {
    s matches Slot::Bytes(st, en) ==> st <= en <= end
}

/// Reads the field that starts at `pos` in `b`: its number, its payload and
/// the position after it, or `None` where `b` holds no well-formed field there.
pub fn read_record(b: &[u8], pos: usize) -> (r: Option<(u64, Slot, usize)>)
    requires
        pos <= b@.len(),
    ensures
        match parse_record(b@.skip(pos as int)) {
            Some((rec, n)) => r matches Some((f, s, e)) && f == rec.field && slot_value(b@, s)
                == rec.value && e == pos + n && slot_within(s, e) && e <= b@.len(),
            None => r is None,
        },
{
    let ghost t = b@.skip(pos as int);
    let (k, p) = match read_varint(b, pos) {
        Some(x) => x,
        None => return None,
    };
    proof {
        lemma_varint_raw_len(t, 10);
    }
    // the slice's length bounds every position in it
    let _ = b.len();
    assert(parse_varint(t) == Some((k, (p - pos) as nat)));
    let f = k / 8;
    if f < 1 || f > MAX_FIELD {
        return None;
    }
    let wt = k % 8;
    let ghost u = t.skip((p - pos) as int);
    assert(u =~= b@.skip(p as int));
    assert(parse_record(t) == match parse_payload(wt, u) {
        Some((v, m)) => Some((Record { field: f, value: v }, ((p - pos) + m) as nat)),
        None => None,
    });
    if wt == 0 {
        match read_varint(b, p) {
            Some((v, e)) => {
                proof {
                    lemma_varint_raw_len(u, 10);
                }
                assert(parse_payload(wt, u) == Some((Value::Varint(v), (e - p) as nat)));
                Some((f, Slot::Varint(v), e))
            },
            None => None,
        }
    } else if wt == 1 {
        if b.len() - p >= 8 {
            let v = u64_from_le_bytes(&b[p..p + 8]);
            assert(b@.subrange(p as int, p + 8) =~= u.take(8));
            assert(parse_payload(wt, u) == Some((Value::Fixed64(v), 8nat)));
            Some((f, Slot::Fixed64(v), p + 8))
        } else {
            None
        }
    } else if wt == 2 {
        match read_varint(b, p) {
            Some((l, q)) => {
                proof {
                    lemma_varint_raw_len(u, 10);
                }
                if l as u128 <= (b.len() - q) as u128 {
                    let e = q + l as usize;
                    assert(b@.subrange(q as int, e as int) =~= u.subrange((q - p) as int, (q - p) + l));
                    assert(parse_payload(wt, u) == Some((Value::Bytes(b@.subrange(q as int, e as int)), (e - p) as nat)));
                    Some((f, Slot::Bytes(q, e), e))
                } else {
                    None
                }
            },
            None => None,
        }
    } else if wt == 5 {
        if b.len() - p >= 4 {
            let v = u32_from_le_bytes(&b[p..p + 4]);
            assert(b@.subrange(p as int, p + 4) =~= u.take(4));
            Some((f, Slot::Fixed32(v), p + 4))
        } else {
            None
        }
    } else {
        None
    }
}

/// The bytes of a run of fields, one after another.
pub open spec fn records_bytes(rs: Seq<Record>) -> Seq<u8>
    decreases rs.len(),
{
    if rs.len() == 0 {
        Seq::empty()
    } else {
        record_bytes(rs[0]) + records_bytes(rs.drop_first())
    }
}

pub proof fn lemma_parse_record_len(b: Seq<u8>)
    ensures
        parse_record(b) matches Some((r, n)) ==> 1 <= n <= b.len(),
{
    lemma_varint_raw_len(b, 10);
    match parse_varint(b) {
        Some((k, n)) => {
            let t = b.skip(n as int);
            lemma_varint_raw_len(t, 10);
        },
        None => {},
    }
}

#[via_fn]
proof fn parse_records_decreases(b: Seq<u8>) {
    lemma_parse_record_len(b);
}

/// Reads a whole buffer as a run of fields.
pub open spec fn parse_records(b: Seq<u8>) -> Option<Seq<Record>>
    decreases b.len(),
    via parse_records_decreases
{
    if b.len() == 0 {
        Some(Seq::empty())
    } else {
        match parse_record(b) {
            Some((r, n)) => match parse_records(b.skip(n as int)) {
                Some(rs) => Some(seq![r] + rs),
                None => None,
            },
            None => None,
        }
    }
}

/// A run of fields that can all stand on the wire reads back as itself.
pub proof fn lemma_parse_records(rs: Seq<Record>)
    requires
        forall|i: int| 0 <= i < rs.len() ==> record_ok(#[trigger] rs[i]),
    ensures
        parse_records(records_bytes(rs)) == Some(rs),
    decreases rs.len(),
{
    if rs.len() > 0 {
        let tail = rs.drop_first();
        assert forall|i: int| 0 <= i < tail.len() implies record_ok(#[trigger] tail[i]) by {
            assert(tail[i] == rs[i + 1]);
        }
        lemma_parse_records(tail);
        let b = records_bytes(rs);
        lemma_parse_record(rs[0], records_bytes(tail));
        assert(b.skip(record_bytes(rs[0]).len() as int) =~= records_bytes(tail));
        assert(seq![rs[0]] + tail =~= rs);
        lemma_varint_raw_len(b, 10);
        assert(b.len() > 0);
    } else {
        assert(records_bytes(rs).len() == 0);
    }
}

pub proof fn lemma_records_bytes_concat(a: Seq<Record>, b: Seq<Record>)
    ensures
        records_bytes(a + b) == records_bytes(a) + records_bytes(b),
    decreases a.len(),
{
    if a.len() == 0 {
        assert(a + b =~= b);
        assert(records_bytes(a) + records_bytes(b) =~= records_bytes(b));
    } else {
        lemma_records_bytes_concat(a.drop_first(), b);
        assert((a + b).drop_first() =~= a.drop_first() + b);
        assert(records_bytes(a + b) =~= records_bytes(a) + records_bytes(b));
    }
}

/// Applies each field of a run in turn, stopping at the first one that does
/// not fit.
pub open spec fn fold_records<T>(rs: Seq<Record>, acc: T, apply: spec_fn(T, Record) -> Option<T>) -> Option<T>
    decreases rs.len(),
{
    if rs.len() == 0 {
        Some(acc)
    } else {
        match apply(acc, rs[0]) {
            Some(next) => fold_records(rs.drop_first(), next, apply),
            None => None,
        }
    }
}

pub proof fn lemma_fold_concat<T>(a: Seq<Record>, b: Seq<Record>, acc: T, apply: spec_fn(T, Record) -> Option<T>)
    ensures
        fold_records(a + b, acc, apply) == (match fold_records(a, acc, apply) {
            Some(mid) => fold_records(b, mid, apply),
            None => None,
        }),
    decreases a.len(),
{
    if a.len() == 0 {
        assert(a + b =~= b);
    } else {
        assert((a + b).drop_first() =~= a.drop_first() + b);
        assert((a + b)[0] == a[0]);
        match apply(acc, a[0]) {
            Some(next) => lemma_fold_concat(a.drop_first(), b, next, apply),
            None => {},
        }
    }
}

} // verus!
