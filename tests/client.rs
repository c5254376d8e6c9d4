use riemann_client::client::{
    default_service_name, events_request, hostname_from_buffer, needs_hostname, query_request, query_result,
    set_defaults, sort_by_service,
};
use riemann_client::proto::{Event, Msg};

#[test]
fn event_defaults() {
    let mut event = Event::new();
    set_defaults(&mut event, "box-1");

    assert_eq!(event.get_service(), "riemann_client".to_string());
    assert_eq!(event.get_host(), "box-1".to_string());
}

#[test]
fn event_no_defaults() {
    let mut event = Event::new();
    event.set_service("test".to_string());
    event.set_host("test".to_string());
    set_defaults(&mut event, "box-1");

    assert_eq!(event.get_service(), "test".to_string());
    assert_eq!(event.get_host(), "test".to_string());
}

#[test]
fn defaults_fill_only_the_unset_field() {
    let mut a = Event::new();
    a.set_host("web".to_string());
    set_defaults(&mut a, "box-1");
    assert_eq!(a.get_host(), "web");
    assert_eq!(a.get_service(), "riemann_client");

    let mut b = Event::new();
    b.set_service("disk".to_string());
    b.set_metric_sint64(7);
    set_defaults(&mut b, "box-1");
    assert_eq!(b.get_host(), "box-1");
    assert_eq!(b.get_service(), "disk");
    assert_eq!(b.get_metric_sint64(), 7);
}

#[test]
fn default_service_is_the_library_name() {
    assert_eq!(default_service_name(), "riemann_client");
}

#[test]
fn hostname_needed_only_for_events_without_host() {
    let mut a = Event::new();
    a.set_host("x".to_string());
    assert!(!needs_hostname(&vec![a]));
    let mut b = Event::new();
    b.set_host("x".to_string());
    assert!(needs_hostname(&vec![b, Event::new()]));
    assert!(!needs_hostname(&Vec::new()));
}

#[test]
fn events_request_fills_defaults_and_sets_only_events() {
    let mut kept = Event::new();
    kept.set_host("h".to_string());
    kept.set_service("s".to_string());
    let msg = events_request(vec![kept, Event::new()], "box-1");
    assert!(!msg.has_ok());
    assert!(!msg.has_error());
    assert!(!msg.has_query());
    assert_eq!(msg.get_states().len(), 0);
    let events = msg.get_events();
    assert_eq!(events.len(), 2);
    assert_eq!(events[0].get_host(), "h");
    assert_eq!(events[0].get_service(), "s");
    assert_eq!(events[1].get_host(), "box-1");
    assert_eq!(events[1].get_service(), "riemann_client");
}

#[test]
fn query_request_carries_the_expression() {
    let msg = query_request("service = \"a\"".to_string());
    assert_eq!(msg.get_query().unwrap().get_string(), "service = \"a\"");
    assert_eq!(msg.get_events().len(), 0);
    assert!(!msg.has_ok());
}

fn with_service(s: &str) -> Event {
    let mut e = Event::new();
    e.set_service(s.to_string());
    e
}

#[test]
fn query_results_are_ordered_by_service() {
    let mut response = Msg::new();
    response.set_ok(true);
    response.set_events(vec![with_service("c"), with_service("a"), with_service("b")]);
    let events = query_result(response);
    let services: Vec<&str> = events.iter().map(|e| e.get_service()).collect();
    assert_eq!(services, vec!["a", "b", "c"]);
}

#[test]
fn sort_puts_unset_service_first_and_keeps_every_event() {
    let mut unnamed = Event::new();
    unnamed.set_time(5);
    let sorted = sort_by_service(vec![with_service("b"), unnamed, with_service("ab"), with_service("b")]);
    let services: Vec<&str> = sorted.iter().map(|e| e.get_service()).collect();
    assert_eq!(services, vec!["", "ab", "b", "b"]);
    assert_eq!(sorted[0].get_time(), 5);
}

#[test]
fn sort_of_nothing_is_nothing() {
    assert!(sort_by_service(Vec::new()).is_empty());
}

#[test]
fn equal_services_keep_their_order() {
    let mut events = Vec::new();
    for (s, t) in [("b", 1), ("a", 2), ("b", 3), ("a", 4), ("b", 5)] {
        let mut e = with_service(s);
        e.set_time(t);
        events.push(e);
    }
    let sorted = sort_by_service(events);
    let order: Vec<(&str, i64)> = sorted.iter().map(|e| (e.get_service(), e.get_time())).collect();
    assert_eq!(order, vec![("a", 2), ("a", 4), ("b", 1), ("b", 3), ("b", 5)]);
}

#[test]
fn hostname_buffer_is_cut_at_the_first_zero() {
    assert_eq!(hostname_from_buffer(b"box-1\0\0junk".to_vec()), Some("box-1".to_string()));
    assert_eq!(hostname_from_buffer(b"whole".to_vec()), Some("whole".to_string()));
    assert_eq!(hostname_from_buffer(vec![0, 1, 2]), Some(String::new()));
    assert_eq!(hostname_from_buffer(vec![b'a', 0xFF, 0]), None);
}
