use connection_broker::config::Config;
use connection_broker::broker::Broker;
use connection_broker::directory::Directory;
use connection_broker::error::BrokerError;
use connection_broker::events::RequestContext;
use connection_broker::json::{number, quote};
use connection_broker::models::Role;
use connection_broker::send::{
    accepted, endpoint, inform_server, pong, put_in_que, queued, role_accepted, Status,
};

fn context(id: Option<&str>) -> RequestContext {
    RequestContext {
        event_type: Some("MESSAGE".to_string()),
        connection_id: id.map(|s| s.to_string()),
        domain_name: Some("example.org".to_string()),
        stage: Some("prod".to_string()),
    }
}

fn object(fields: Vec<(&str, serde_json::Value)>) -> String {
    let mut map = serde_json::Map::new();
    for (key, value) in fields {
        map.insert(key.to_string(), value);
    }
    serde_json::to_string(&serde_json::Value::Object(map)).unwrap()
}

fn text(s: &str) -> serde_json::Value {
    serde_json::Value::String(s.to_string())
}

#[test]
fn acceptance_has_the_wire_shape() {
    let notice = accepted("c-1".to_string(), Role::PlayerDisplay);
    assert_eq!(notice.to, "c-1");
    assert_eq!(notice.message, "{\"role\":\"PlayerDisplay\",\"status\":\"accepted\"}");
    for role in [
        Role::Observer,
        Role::PlayerPong,
        Role::PlayerDisplay,
        Role::AdminPong,
        Role::AdminDisplay,
    ] {
        let expected = object(vec![("role", text(role.as_str())), ("status", text("accepted"))]);
        assert_eq!(accepted("x".to_string(), role).message, expected);
    }
}

#[test]
fn queue_notice_has_the_wire_shape() {
    let notice = queued("c-2".to_string(), Role::PlayerPong, 3);
    assert_eq!(notice.to, "c-2");
    assert_eq!(notice.message, "{\"order\":3,\"role\":\"PlayerPong\",\"status\":\"que\"}");
    for order in [0usize, 9, 10, 1234567] {
        let expected = object(vec![
            ("role", text("PlayerDisplay")),
            ("status", text("que")),
            ("order", serde_json::Value::from(order as u64)),
        ]);
        assert_eq!(queued("x".to_string(), Role::PlayerDisplay, order).message, expected);
    }
}

#[test]
fn admin_notice_has_the_wire_shape() {
    let come = inform_server("c-3", "admin".to_string(), Status::Connected);
    assert_eq!(come.to, "admin");
    assert_eq!(come.message, "{\"connection\":\"c-3\",\"status\":\"CONNECTED\"}");
    let gone = inform_server("c-3", "admin".to_string(), Status::Disconnected);
    assert_eq!(gone.message, "{\"connection\":\"c-3\",\"status\":\"DISCONNECTED\"}");
}

#[test]
fn ids_are_escaped_as_json_asks() {
    let odd = "a\"b\\c\nd\u{1}e\u{e9}";
    let notice = inform_server(odd, "admin".to_string(), Status::Connected);
    assert_eq!(
        notice.message,
        "{\"connection\":\"a\\\"b\\\\c\\nd\\u0001e\u{e9}\",\"status\":\"CONNECTED\"}"
    );
    let expected = object(vec![("connection", text(odd)), ("status", text("CONNECTED"))]);
    assert_eq!(notice.message, expected);
    let back: serde_json::Value = serde_json::from_str(&notice.message).unwrap();
    assert_eq!(back.get("connection").and_then(|v| v.as_str()), Some(odd));
}

#[test]
fn quoting_puts_plain_text_between_quotes() {
    assert_eq!(quote("PlayerPong"), "\"PlayerPong\"");
    assert_eq!(quote(""), "\"\"");
    assert_eq!(quote("~ \u{7f}"), "\"~ \u{7f}\"");
    assert_eq!(quote("tab\there"), "\"tab\\there\"");
}

#[test]
fn numbers_are_written_in_decimal() {
    assert_eq!(number(0), "0");
    assert_eq!(number(7), "7");
    assert_eq!(number(10), "10");
    assert_eq!(number(909), "909");
    assert_eq!(number(u64::MAX), "18446744073709551615");
    for n in [0u64, 5, 99, 100, 4096, u64::MAX] {
        assert_eq!(number(n), serde_json::to_string(&n).unwrap());
    }
}

#[test]
fn notices_to_the_sender_need_a_sender() {
    let known = context(Some("c-9"));
    let accepted = role_accepted(&known, Role::AdminPong).unwrap();
    assert_eq!(accepted.to, "c-9");
    assert_eq!(accepted.message, "{\"role\":\"AdminPong\",\"status\":\"accepted\"}");
    let waiting = put_in_que(&known, Role::PlayerPong, 12).unwrap();
    assert_eq!(waiting.to, "c-9");
    assert_eq!(waiting.message, "{\"order\":12,\"role\":\"PlayerPong\",\"status\":\"que\"}");
    let unknown = context(None);
    assert!(role_accepted(&unknown, Role::AdminPong).is_none());
    assert!(put_in_que(&unknown, Role::PlayerPong, 12).is_none());
}

#[test]
fn pong_answers_with_the_senders_record() {
    let mut broker = Broker::new(Config::standard("s".to_string())).unwrap();
    broker.handle_connect("c\"1").unwrap();
    broker.handle_connect("c2").unwrap();
    broker.handle_connect("c3").unwrap();
    broker.handle_role_selection("c\"1", Role::PlayerDisplay, None, 0).unwrap();
    broker.handle_role_selection("c2", Role::PlayerDisplay, None, 0).unwrap();

    let holder = pong(broker.directory(), &context(Some("c\"1"))).unwrap();
    assert_eq!(holder.to, "c\"1");
    assert_eq!(holder.message, "{\"id\":\"c\\\"1\",\"role\":\"PlayerDisplay\",\"que\":false}");
    let waiting = pong(broker.directory(), &context(Some("c2"))).unwrap();
    assert_eq!(waiting.message, "{\"id\":\"c2\",\"role\":\"PlayerDisplay\",\"que\":true}");
    let watcher = pong(broker.directory(), &context(Some("c3"))).unwrap();
    assert_eq!(watcher.message, "{\"id\":\"c3\",\"role\":\"Observer\",\"que\":false}");

    let unknown = pong(broker.directory(), &context(Some("ghost")));
    assert_eq!(unknown.err(), Some(BrokerError::NotFound));
    assert_eq!(
        pong(&Directory::new(), &context(None)).err(),
        Some(BrokerError::MissingConnectionId)
    );
}

#[test]
fn endpoint_is_built_from_host_and_stage() {
    assert_eq!(endpoint(&context(None)), "https://example.org/prod");
    let bare = RequestContext {
        event_type: None,
        connection_id: None,
        domain_name: None,
        stage: None,
    };
    assert_eq!(endpoint(&bare), "https:///");
    let host_only = RequestContext { domain_name: Some("h".to_string()), ..bare.clone() };
    assert_eq!(endpoint(&host_only), "https://h/");
}

#[test]
fn errors_read_in_words() {
    assert_eq!(BrokerError::NotFound.message(), "Missing Connection");
    assert_eq!(BrokerError::Unauthorized.message(), "Wrong admin password");
    assert_eq!(BrokerError::UnknownPlayer.message(), "Unknown player");
    assert_eq!(BrokerError::MissingConnectionId.message(), "Missing Connection ID");
    assert_eq!(BrokerError::MissingEventType.message(), "Missing Event Type");
    assert!(BrokerError::StorageUnavailable.retryable());
    assert!(BrokerError::TransportUnavailable.retryable());
    assert!(!BrokerError::AlreadyBound.retryable());
    assert!(!BrokerError::NotFound.retryable());
}
