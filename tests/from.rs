use riemann_client::proto::Query;

#[test]
fn query_from_str() {
    Query::from("hello world");
}

#[test]
fn query_from_string() {
    Query::from("hello world".to_string());
}

#[test]
fn query_from_query() {
    Query::from(Query::new());
}

#[test]
fn query_from_keeps_the_expression() {
    assert_eq!(Query::from("hello world").get_string(), "hello world");
    assert_eq!(Query::from("a = b".to_string()).get_string(), "a = b");
}
