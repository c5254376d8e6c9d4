//! What the client does with domain values around an exchange: it fills in
//! unset event fields before sending, and orders query results.
use crate::codec::empty_msg;
use crate::error::Error;
use crate::proto::{text_or_empty, Event, EventV, Msg, Query};
use crate::transport::{events_msg, query_msg};
use vstd::prelude::*;
use crate::codec::string_from_utf8;
use vstd::utf8::{decode_utf8, encode_utf8, valid_utf8};

verus! {

broadcast use vstd::seq_lib::group_to_multiset_ensures;

/// The service name an event is sent with where it has none.
pub open spec fn default_service() -> Seq<char> {
    seq!['r', 'i', 'e', 'm', 'a', 'n', 'n', '_', 'c', 'l', 'i', 'e', 'n', 't']
}

/// An event as it is sent: an unset host becomes `host`, an unset service
/// becomes the default service; every other field is kept.
pub open spec fn with_defaults(e: EventV, host: Seq<char>) -> EventV {
    EventV {
        host: if e.host is Some {
            e.host
        } else {
            Some(host)
        },
        service: if e.service is Some {
            e.service
        } else {
            Some(default_service())
        },
        ..e
    }
}

/// Filling in defaults leaves an event whose host and service are both set
/// as it is.
pub proof fn lemma_defaults_keep_set_fields(e: EventV, host: Seq<char>)
    requires
        e.host is Some,
        e.service is Some,
    ensures
        with_defaults(e, host) == e,
{
}

/// An event with no host is sent with the host name given at call time.
pub proof fn lemma_defaults_fill_host(e: EventV, host: Seq<char>)
    requires
        e.host is None,
    ensures
        with_defaults(e, host).host == Some(host),
{
}

/// An event with no service is sent with the default service name.
pub proof fn lemma_defaults_fill_service(e: EventV, host: Seq<char>)
    requires
        e.service is None,
    ensures
        with_defaults(e, host).service == Some(default_service()),
{
}

/// The default service name.
pub fn default_service_name() -> (r: String)
    ensures
        r@ == default_service(),
{
    proof {
        reveal_strlit("riemann_client");
    }
    let s = "riemann_client";
    assert(s@ =~= default_service());
    s.to_owned()
}

/// Fills in the host and service of `event` where they are unset, the host
/// with `host`.
pub fn set_defaults(event: &mut Event, host: &str)
    ensures
        final(event)@ == with_defaults(old(event)@, host@),
{
    if !event.has_host() {
        event.set_host(host.to_owned());
    }
    if !event.has_service() {
        event.set_service(default_service_name());
    }
}

/// Whether some event has no host, so that a host name is needed to send them.
pub fn needs_hostname(events: &Vec<Event>) -> (r: bool)
    ensures
        r == exists|i: int| 0 <= i < events@.len() && (#[trigger] events@[i]).host is None,
{
    let mut i: usize = 0;
    while i < events.len()
        invariant
            i <= events@.len(),
            forall|k: int| 0 <= k < i ==> (#[trigger] events@[k]).host is Some,
        decreases events@.len() - i,
    {
        if !events[i].has_host() {
            return true;
        }
        i = i + 1;
    }
    false
}

/// The models of a list of events.
pub open spec fn events_view(v: Seq<Event>) -> Seq<EventV> {
    v.map_values(|e: Event| e@)
}

/// Fills in every event's defaults, in place and in order.
pub fn prepare_events(events: &mut Vec<Event>, host: &str)
    ensures
        final(events)@.len() == old(events)@.len(),
        forall|i: int|
            0 <= i < old(events)@.len() ==> (#[trigger] final(events)@[i])@ == with_defaults(
                old(events)@[i]@,
                host@,
            ),
{
    let ghost orig = events@;
    let mut i: usize = 0;
    while i < events.len()
        invariant
            i <= events@.len(),
            events@.len() == orig.len(),
            forall|k: int| 0 <= k < i ==> (#[trigger] events@[k])@ == with_defaults(orig[k]@, host@),
            forall|k: int| i <= k < events@.len() ==> #[trigger] events@[k] == orig[k],
        decreases events@.len() - i,
    {
        let mut e = events.remove(i);
        set_defaults(&mut e, host);
        events.insert(i, e);
        i = i + 1;
    }
}

/// The request that submits `events`, each with its defaults filled in.
pub fn events_request(events: Vec<Event>, host: &str) -> (r: Msg)
    ensures
        r@ == (crate::proto::MsgV {
            events: events_view(events@).map_values(|e: EventV| with_defaults(e, host@)),
            ..empty_msg()
        }),
{
    let mut events = events;
    let ghost orig = events@;
    prepare_events(&mut events, host);
    let r = events_msg(events);
    assert(r@.events =~= events_view(orig).map_values(|e: EventV| with_defaults(e, host@)));
    assert(r@.states =~= Seq::empty());
    r
}

/// The request that runs the query `expression`.
pub fn query_request(expression: String) -> (r: Msg)
    ensures
        r@ == (crate::proto::MsgV {
            query: Some(crate::proto::QueryV { string: Some(expression@) }),
            ..empty_msg()
        }),
{
    let mut q = Query::new();
    q.set_string(expression);
    let r = query_msg(q);
    assert(r@.states =~= Seq::empty());
    assert(r@.events =~= Seq::empty());
    r
}

// ---------------------------------------------------------------------------
// Ordering query results
// ---------------------------------------------------------------------------

/// Byte-wise lexicographic order, the order of `str`.
pub open spec fn bytes_le(a: Seq<u8>, b: Seq<u8>) -> bool
    decreases a.len(),
{
    if a.len() == 0 {
        true
    } else if b.len() == 0 {
        false
    } else if a[0] != b[0] {
        a[0] < b[0]
    } else {
        bytes_le(a.drop_first(), b.drop_first())
    }
}

proof fn lemma_bytes_le_total(a: Seq<u8>, b: Seq<u8>)
    ensures
        bytes_le(a, b) || bytes_le(b, a),
    decreases a.len(),
{
    if a.len() > 0 && b.len() > 0 && a[0] == b[0] {
        lemma_bytes_le_total(a.drop_first(), b.drop_first());
    }
}

proof fn lemma_bytes_le_trans(a: Seq<u8>, b: Seq<u8>, c: Seq<u8>)
    requires
        bytes_le(a, b),
        bytes_le(b, c),
    ensures
        bytes_le(a, c),
    decreases a.len(),
{
    if a.len() > 0 && b.len() > 0 && c.len() > 0 && a[0] == b[0] && b[0] == c[0] {
        lemma_bytes_le_trans(a.drop_first(), b.drop_first(), c.drop_first());
    }
}

/// The key query results are ordered by: the bytes of the service name, empty
/// where it is unset.
pub open spec fn service_key(e: EventV) -> Seq<u8> {
    encode_utf8(
        match e.service {
            Some(s) => s,
            None => Seq::empty(),
        },
    )
}

/// Each event's service name is at most the next one's.
pub open spec fn sorted_by_service(v: Seq<EventV>) -> bool {
    forall|i: int, j: int| 0 <= i < j < v.len() ==> bytes_le(service_key(v[i]), service_key(v[j]))
}

fn service_le(a: &Event, b: &Event) -> (r: bool)
    ensures
        r == bytes_le(service_key(a@), service_key(b@)),
{
    let x = a.get_service().as_bytes();
    let y = b.get_service().as_bytes();
    let mut i: usize = 0;
    assert(x@.skip(0) =~= x@);
    assert(y@.skip(0) =~= y@);
    while i < x.len()
        invariant
            i <= x@.len(),
            x@ == service_key(a@),
            y@ == service_key(b@),
            i <= y@.len(),
            x@.take(i as int) == y@.take(i as int),
            bytes_le(x@, y@) == bytes_le(x@.skip(i as int), y@.skip(i as int)),
        decreases x@.len() - i,
    {
        if i >= y.len() {
            return false;
        }
        if x[i] != y[i] {
            return x[i] < y[i];
        }
        proof {
            let xs = x@.skip(i as int);
            let ys = y@.skip(i as int);
            assert(xs.drop_first() =~= x@.skip(i + 1));
            assert(ys.drop_first() =~= y@.skip(i + 1));
            assert(x@.take(i + 1) =~= x@.take(i as int).push(x@[i as int]));
            assert(y@.take(i + 1) =~= y@.take(i as int).push(y@[i as int]));
        }
        i = i + 1;
    }
    true
}

/// `r` is `v` reordered through `p`: `r[k]` is `v[p[k]]`, each position of
/// `v` used once, and events with the same service name keep their order.
pub open spec fn stable_reorder(v: Seq<Event>, r: Seq<Event>, p: Seq<int>) -> bool {
    &&& p.len() == r.len()
    &&& r.len() == v.len()
    &&& forall|k: int| 0 <= k < r.len() ==> 0 <= #[trigger] p[k] < v.len() && r[k] == v[p[k]]
    &&& forall|a: int, b: int| 0 <= a < b < r.len() ==> #[trigger] p[a] != #[trigger] p[b]
    &&& forall|a: int, b: int|
        0 <= a < b < r.len() && service_key((#[trigger] r[a])@) == service_key((#[trigger] r[b])@)
            ==> p[a] < p[b]
}

proof fn lemma_bytes_le_refl(a: Seq<u8>)
    ensures
        bytes_le(a, a),
    decreases a.len(),
{
    if a.len() > 0 {
        lemma_bytes_le_refl(a.drop_first());
    }
}

/// Orders events by service name, ascending, as a stable sort does: the
/// events themselves are kept, each once, and those with the same service
/// name stay in the order they came in.
pub fn sort_by_service(events: Vec<Event>) -> (r: Vec<Event>)
    ensures
        sorted_by_service(events_view(r@)),
        r@.to_multiset() == events@.to_multiset(),
        exists|p: Seq<int>| stable_reorder(events@, r@, p),
{
    let ghost all = events@;
    let mut rest = events;
    let mut out: Vec<Event> = Vec::new();
    let ghost mut p: Seq<int> = Seq::empty();
    while rest.len() > 0
        invariant
            sorted_by_service(events_view(out@)),
            rest@.to_multiset().add(out@.to_multiset()) == all.to_multiset(),
            rest@ == all.take(rest@.len() as int),
            rest@.len() + out@.len() == all.len(),
            p.len() == out@.len(),
            forall|k: int|
                0 <= k < out@.len() ==> rest@.len() <= #[trigger] p[k] < all.len() && out@[k] == all[p[k]],
            forall|a: int, b: int| 0 <= a < b < out@.len() ==> #[trigger] p[a] != #[trigger] p[b],
            forall|a: int, b: int|
                0 <= a < b < out@.len() && service_key((#[trigger] out@[a])@) == service_key(
                    (#[trigger] out@[b])@,
                ) ==> p[a] < p[b],
        decreases rest@.len(),
    {
        let ghost before_rest = rest@;
        let x = rest.pop().unwrap();
        let ghost n = rest@.len() as int;
        proof {
            assert(before_rest =~= rest@.push(x));
            assert(rest@ =~= all.take(n));
            assert(x == all[n]);
        }
        let mut j: usize = 0;
        while j < out.len() && !service_le(&x, &out[j])
            invariant
                j <= out@.len(),
                forall|k: int| 0 <= k < j ==> bytes_le(service_key((#[trigger] out@[k])@), service_key(x@)),
                forall|k: int| 0 <= k < j ==> !bytes_le(service_key(x@), service_key((#[trigger] out@[k])@)),
            decreases out@.len() - j,
        {
            proof {
                lemma_bytes_le_total(service_key(x@), service_key(out@[j as int]@));
            }
            j = j + 1;
        }
        let ghost before = out@;
        let ghost q = p;
        proof {
            if j < out@.len() {
                assert forall|k: int| j <= k < before.len() implies bytes_le(service_key(x@), service_key((#[trigger] before[k])@)) by {
                    if k > j {
                        let w = events_view(before);
                        assert(w[j as int] == before[j as int]@);
                        assert(w[k] == before[k]@);
                        lemma_bytes_le_trans(service_key(x@), service_key(before[j as int]@), service_key(before[k]@));
                    }
                }
            }
        }
        out.insert(j, x);
        proof {
            p = q.insert(j as int, n);
            let v = events_view(out@);
            let w = events_view(before);
            assert(out@ == before.insert(j as int, x));
            assert forall|a: int, b: int| 0 <= a < b < v.len() implies bytes_le(service_key(v[a]), service_key(v[b])) by {
                if b < j {
                    assert(v[a] == w[a]);
                    assert(v[b] == w[b]);
                } else if a < j && b == j {
                    assert(v[a] == before[a]@);
                    assert(v[b] == x@);
                } else if a < j {
                    assert(v[a] == w[a]);
                    assert(v[b] == w[b - 1]);
                    assert(w[a] == before[a]@);
                    assert(w[b - 1] == before[b - 1]@);
                    lemma_bytes_le_trans(service_key(w[a]), service_key(x@), service_key(w[b - 1]));
                } else if a == j {
                    assert(v[a] == x@);
                    assert(v[b] == before[b - 1]@);
                } else {
                    assert(v[a] == w[a - 1]);
                    assert(v[b] == w[b - 1]);
                }
            }
            assert forall|k: int| 0 <= k < out@.len() implies n <= #[trigger] p[k] < all.len() && out@[k] == all[p[k]] by {
                if k > j {
                    assert(p[k] == q[k - 1]);
                    assert(out@[k] == before[k - 1]);
                } else if k < j {
                    assert(p[k] == q[k]);
                }
            }
            assert forall|a: int, b: int| 0 <= a < b < out@.len() implies #[trigger] p[a] != #[trigger] p[b] by {
                if a < j && b > j {
                    assert(p[b] == q[b - 1]);
                } else if a > j {
                    assert(p[a] == q[a - 1]);
                    assert(p[b] == q[b - 1]);
                } else if a == j {
                    assert(p[b] == q[b - 1]);
                }
            }
            assert forall|a: int, b: int|
                0 <= a < b < out@.len() && service_key((#[trigger] out@[a])@) == service_key(
                    (#[trigger] out@[b])@,
                ) implies p[a] < p[b] by {
                if b < j {
                } else if a < j && b == j {
                    lemma_bytes_le_refl(service_key(x@));
                    assert(out@[a] == before[a]);
                } else if a < j {
                    assert(p[b] == q[b - 1]);
                    assert(out@[b] == before[b - 1]);
                } else if a == j {
                    assert(p[b] == q[b - 1]);
                } else {
                    assert(p[a] == q[a - 1]);
                    assert(p[b] == q[b - 1]);
                    assert(out@[a] == before[a - 1]);
                    assert(out@[b] == before[b - 1]);
                }
            }
        }
    }
    assert(stable_reorder(all, out@, p));
    out
}

/// The result of a query: the events of the response, ordered by service
/// name.
pub fn query_result(response: Msg) -> (r: Vec<Event>)
    ensures
        sorted_by_service(events_view(r@)),
        r@.to_multiset() == response.events@.to_multiset(),
        exists|p: Seq<int>| stable_reorder(response.events@, r@, p),
{
    let mut response = response;
    let events = response.take_events();
    sort_by_service(events)
}

/// `n` is where the name in a host-name buffer ends: at the first zero byte,
/// or at the end of the buffer where it holds none.
pub open spec fn name_end(b: Seq<u8>, n: int) -> bool {
    &&& 0 <= n <= b.len()
    &&& forall|k: int| 0 <= k < n ==> b[k] != 0
    &&& n < b.len() ==> b[n] == 0
}

/// The host name held in a buffer filled by the system: the bytes before the
/// first zero byte, where they are valid UTF-8.
pub fn hostname_from_buffer(buffer: Vec<u8>) -> (r: Option<String>)
    ensures
        forall|n: int|
            name_end(buffer@, n) ==> (r is Some <==> valid_utf8(buffer@.take(n))) && (r matches Some(
                s,
            ) ==> s@ == decode_utf8(buffer@.take(n))),
{
    let ghost b = buffer@;
    let mut buffer = buffer;
    let mut i: usize = 0;
    while i < buffer.len() && buffer[i] != 0
        invariant
            buffer@ == b,
            i <= b.len(),
            forall|k: int| 0 <= k < i ==> b[k] != 0,
        decreases b.len() - i,
    {
        i = i + 1;
    }
    buffer.truncate(i);
    assert(buffer@ =~= b.take(i as int));
    assert forall|n: int| name_end(b, n) implies n == i by {
        if n < i {
            assert(b[n] != 0);
        } else if n > i {
            assert(b[i as int] == 0);
        }
    }
    string_from_utf8(buffer)
}

} // verus!
