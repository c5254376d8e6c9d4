//! The framed request/response exchange: each message travels as a
//! four-byte big-endian length followed by its encoding. The connection
//! itself is the caller's; this module builds what is written and reads what
//! came back.
use crate::codec::{decode_msg, empty_msg, encode_msg, msg_bytes, parse_from_bytes};
use crate::error::Error;
use crate::proto::{text_or_empty, Event, Msg, MsgV, Query};
use crate::wire::put_all;
use vstd::prelude::*;

verus! {

/// The four bytes of `x`, most significant first.
pub open spec fn be32(x: u32) -> Seq<u8> {
    seq![
        (x / 0x100_0000) as u8,
        (x / 0x1_0000 % 0x100) as u8,
        (x / 0x100 % 0x100) as u8,
        (x % 0x100) as u8,
    ]
}

/// The number that four bytes spell, most significant first.
pub open spec fn be32_value(b: Seq<u8>) -> int {
    b[0] * 0x100_0000 + b[1] * 0x1_0000 + b[2] * 0x100 + b[3]
}

/// A length prefix reads back as the length it was written for.
pub proof fn lemma_be32_round_trip(x: u32)
    ensures
        be32(x).len() == 4,
        be32_value(be32(x)) == x,
{
}

/// The encoded size of a message: the length its prefix announces.
pub open spec fn computed_size(m: MsgV) -> int {
    msg_bytes(m).len() as int
}

/// The bytes that carry `msg` to the server: its encoded size `S` as four
/// big-endian bytes, then the `S` bytes of the encoding. A message whose
/// encoding does not fit a four-byte length is refused.
pub fn request_frame(msg: &Msg) -> (r: Result<Vec<u8>, Error>)
    ensures
        computed_size(msg@) <= u32::MAX ==> (r matches Ok(v) && v@ == be32(
            computed_size(msg@) as u32,
        ) + msg_bytes(msg@) && v@.len() == 4 + computed_size(msg@) && be32_value(v@.take(4))
            == computed_size(msg@)),
        computed_size(msg@) > u32::MAX ==> r matches Err(Error::Protobuf(_)),
{
    let mut body: Vec<u8> = Vec::new();
    encode_msg(msg, &mut body);
    assert(body@ =~= msg_bytes(msg@));
    if body.len() > u32::MAX as usize {
        return Err(Error::Protobuf("message too large to frame".to_owned()));
    }
    let size = body.len() as u32;
    let mut out: Vec<u8> = Vec::new();
    out.push((size / 0x100_0000) as u8);
    out.push((size / 0x1_0000 % 0x100) as u8);
    out.push((size / 0x100 % 0x100) as u8);
    out.push((size % 0x100) as u8);
    assert(out@ =~= be32(size));
    put_all(&mut out, body.as_slice());
    proof {
        lemma_be32_round_trip(size);
        assert(out@.take(4) =~= be32(size));
    }
    Ok(out)
}

/// The length a response's four-byte prefix announces.
pub fn response_len(header: &[u8]) -> (r: usize)
    requires
        header@.len() == 4,
    ensures
        r == be32_value(header@),
{
    let v: u32 = (header[0] as u32) * 0x100_0000 + (header[1] as u32) * 0x1_0000 + (header[2] as u32)
        * 0x100 + (header[3] as u32);
    v as usize
}

/// Turns a decoded response into the call's result: the message where its
/// `ok` flag is set and true, else a server rejection carrying its error
/// text (empty where the server sent none).
pub fn check_response(msg: Msg) -> (r: Result<Msg, Error>)
    ensures
        msg.ok == Some(true) ==> r == Ok::<Msg, Error>(msg),
        msg.ok != Some(true) ==> (r matches Err(Error::Riemann(s)) && s@ == text_or_empty(
            msg.error,
        )),
{
    if msg.get_ok() {
        Ok(msg)
    } else {
        let text = msg.get_error().to_owned();
        Err(Error::Riemann(text))
    }
}

/// Reads the body of a response: decodes it, then checks its `ok` flag.
pub fn response_from_body(body: &[u8]) -> (r: Result<Msg, Error>)
    ensures
        decode_msg(body@, empty_msg()) is None ==> r matches Err(Error::Protobuf(_)),
        decode_msg(body@, empty_msg()) matches Some(m) ==> (if m.ok == Some(true) {
            r matches Ok(x) && x@ == m
        } else {
            r matches Err(Error::Riemann(s)) && s@ == (match m.error {
                Some(e) => e,
                None => Seq::empty(),
            })
        }),
{
    let m = parse_from_bytes(body)?;
    check_response(m)
}

/// The request that submits `events`.
pub fn events_msg(events: Vec<Event>) -> (r: Msg)
    ensures
        r.events == events,
        r.ok is None,
        r.error is None,
        r.states@.len() == 0,
        r.query is None,
{
    let mut msg = Msg::new();
    msg.set_events(events);
    msg
}

/// The request that runs `query`.
pub fn query_msg(query: Query) -> (r: Msg)
    ensures
        r.query == Some(query),
        r.ok is None,
        r.error is None,
        r.states@.len() == 0,
        r.events@.len() == 0,
{
    let mut msg = Msg::new();
    msg.set_query(query);
    msg
}

} // verus!
