use connection_broker::admission::{Decision, Rejection};
use connection_broker::broker::Broker;
use connection_broker::config::Config;
use connection_broker::error::BrokerError;
use connection_broker::events::{vacated_roles, Event, RequestContext, StreamRecord};
use connection_broker::handlers::{
    connection, downstream, handler, next_connection, save_role, timeout, upstream,
};
use connection_broker::models::{AdminMessage, Role, SelectionMessage};
use connection_broker::responses::HttpResponse;

fn fresh() -> Broker {
    Broker::new(Config::standard("secret".to_string())).unwrap()
}

fn context(kind: Option<&str>, id: Option<&str>) -> RequestContext {
    RequestContext {
        event_type: kind.map(|s| s.to_string()),
        connection_id: id.map(|s| s.to_string()),
        domain_name: None,
        stage: None,
    }
}

fn event(kind: Option<&str>, id: Option<&str>) -> Event {
    Event { request_context: context(kind, id), records: None, body: None }
}

fn selecting(role: Role, password: Option<&str>) -> SelectionMessage {
    SelectionMessage { role, password: password.map(|s| s.to_string()) }
}

fn removed(role: Option<&str>) -> StreamRecord {
    StreamRecord { event_name: "REMOVE".to_string(), old_role: role.map(|s| s.to_string()) }
}

#[test]
fn role_names_are_read_back() {
    assert_eq!("PlayerPong".parse::<Role>(), Ok(Role::PlayerPong));
    assert_eq!("PlayerDisplay".parse::<Role>(), Ok(Role::PlayerDisplay));
    assert_eq!("AdminPong".parse::<Role>(), Ok(Role::AdminPong));
    assert_eq!("AdminDisplay".parse::<Role>(), Ok(Role::AdminDisplay));
    assert_eq!("Observer".parse::<Role>(), Ok(Role::Observer));
    assert_eq!("playerpong".parse::<Role>(), Ok(Role::Observer));
    assert_eq!("".parse::<Role>(), Ok(Role::Observer));
    for role in [
        Role::Observer,
        Role::PlayerPong,
        Role::PlayerDisplay,
        Role::AdminPong,
        Role::AdminDisplay,
    ] {
        assert_eq!(Role::from_name(role.as_str()), role);
    }
}

#[test]
fn roles_are_paired() {
    assert_eq!(Role::PlayerPong.admin_for(), Some(Role::AdminPong));
    assert_eq!(Role::PlayerDisplay.admin_for(), Some(Role::AdminDisplay));
    assert_eq!(Role::AdminPong.admin_for(), None);
    assert_eq!(Role::Observer.admin_for(), None);
    assert_eq!(Role::AdminPong.player_for(), Some(Role::PlayerPong));
    assert_eq!(Role::AdminDisplay.player_for(), Some(Role::PlayerDisplay));
    assert_eq!(Role::PlayerPong.player_for(), None);
    assert!(Role::AdminDisplay.admin() && !Role::AdminDisplay.player());
    assert!(Role::PlayerPong.player() && !Role::PlayerPong.admin());
    assert!(!Role::Observer.player() && !Role::Observer.admin());
}

#[test]
fn an_event_hands_out_its_body() {
    let mut e = event(Some("MESSAGE"), Some("c"));
    e.body = Some("{\"role\":\"AdminPong\"}".to_string());
    assert_eq!(e.message(), "{\"role\":\"AdminPong\"}");
}

#[test]
fn connect_and_disconnect_events_are_told_apart() {
    let mut broker = fresh();
    assert_eq!(connection(&mut broker, &context(Some("CONNECT"), Some("c1"))).unwrap().len(), 0);
    assert_eq!(broker.directory().get("c1").unwrap().role, Role::Observer);
    assert_eq!(connection(&mut broker, &context(Some("OTHER"), Some("c2"))).unwrap().len(), 0);
    assert!(broker.directory().get("c2").is_none());
    assert_eq!(
        connection(&mut broker, &context(None, Some("c1"))).err(),
        Some(BrokerError::MissingEventType)
    );
    assert_eq!(
        connection(&mut broker, &context(Some("CONNECT"), None)).err(),
        Some(BrokerError::MissingConnectionId)
    );
    assert_eq!(
        connection(&mut broker, &context(Some("DISCONNECT"), None)).err(),
        Some(BrokerError::MissingConnectionId)
    );
    assert_eq!(connection(&mut broker, &context(Some("OTHER"), None)).unwrap().len(), 0);
    assert_eq!(connection(&mut broker, &context(Some("DISCONNECT"), Some("c1"))).unwrap().len(), 0);
    assert_eq!(broker.directory().len(), 0);
    // A disconnect that comes twice is harmless.
    assert_eq!(connection(&mut broker, &context(Some("DISCONNECT"), Some("c1"))).unwrap().len(), 0);
}

#[test]
fn the_single_handler_answers_with_a_status() {
    let mut broker = fresh();
    let done = handler(&mut broker, &event(Some("CONNECT"), Some("c1")));
    assert_eq!(done.response, HttpResponse { status_code: 200 });
    assert!(done.outbox.is_empty());
    let echoed = handler(&mut broker, &event(Some("MESSAGE"), Some("c1")));
    assert_eq!(echoed.response.status_code, 200);
    assert_eq!(echoed.outbox.len(), 1);
    assert_eq!(echoed.outbox[0].to, "c1");
    assert_eq!(echoed.outbox[0].message, "{\"id\":\"c1\",\"role\":\"Observer\",\"que\":false}");
    let unknown = handler(&mut broker, &event(Some("MESSAGE"), Some("ghost")));
    assert_eq!(unknown.response.status_code, 500);
    assert_eq!(handler(&mut broker, &event(Some("MESSAGE"), None)).response.status_code, 500);
    assert_eq!(handler(&mut broker, &event(None, Some("c1"))).response.status_code, 500);
    assert_eq!(handler(&mut broker, &event(Some("CONNECT"), None)).response.status_code, 500);
    let left = handler(&mut broker, &event(Some("DISCONNECT"), Some("c1")));
    assert_eq!(left.response.status_code, 200);
    assert_eq!(broker.directory().len(), 0);
    assert_eq!(HttpResponse::of(true).status_code, 200);
    assert_eq!(HttpResponse::of(false).status_code, 500);
}

#[test]
fn a_selection_message_asks_for_its_role() {
    let mut broker = fresh();
    broker.handle_connect("a").unwrap();
    broker.handle_connect("p").unwrap();
    let me = context(Some("MESSAGE"), Some("a"));
    let wrong = selecting(Role::AdminPong, Some("nope"));
    let refused = save_role(&mut broker, &wrong, &me, 0).unwrap();
    assert_eq!(refused.decision, Decision::Rejected(Rejection::Unauthorized));
    let right = selecting(Role::AdminPong, Some("secret"));
    let taken = save_role(&mut broker, &right, &me, 0).unwrap();
    assert_eq!(taken.decision, Decision::Accepted);
    let player = context(Some("MESSAGE"), Some("p"));
    let joined = save_role(&mut broker, &selecting(Role::PlayerPong, None), &player, 0).unwrap();
    assert_eq!(joined.decision, Decision::Accepted);
    assert_eq!(joined.outbox.len(), 2);
    assert_eq!(joined.outbox[1].to, "a");
    let nobody = context(Some("MESSAGE"), None);
    assert_eq!(
        save_role(&mut broker, &selecting(Role::PlayerPong, None), &nobody, 0).err(),
        Some(BrokerError::MissingConnectionId)
    );
    let ghost = context(Some("MESSAGE"), Some("ghost"));
    assert_eq!(
        save_role(&mut broker, &selecting(Role::PlayerPong, None), &ghost, 0).err(),
        Some(BrokerError::NotFound)
    );
}

#[test]
fn removals_name_the_roles_to_look_into() {
    let records = vec![
        removed(Some("PlayerDisplay")),
        StreamRecord { event_name: "INSERT".to_string(), old_role: None },
        StreamRecord { event_name: "MODIFY".to_string(), old_role: Some("AdminPong".to_string()) },
        removed(Some("PlayerPong")),
        removed(Some("something")),
    ];
    assert_eq!(
        vacated_roles(&records),
        vec![Role::PlayerDisplay, Role::PlayerPong, Role::Observer]
    );
    assert_eq!(vacated_roles(&vec![]), vec![]);
}

#[test]
fn removals_let_the_queues_move_up() {
    let mut broker = fresh();
    for id in ["d1", "d2", "d3", "k1"] {
        broker.handle_connect(id).unwrap();
    }
    for id in ["d1", "d2", "d3"] {
        broker.handle_role_selection(id, Role::PlayerDisplay, None, 0).unwrap();
    }
    broker.handle_role_selection("k1", Role::PlayerPong, None, 0).unwrap();
    // The holder's entry expires: it is gone from the directory without a disconnect.
    broker.handle_connect("d1").unwrap();
    let notices = timeout(
        &mut broker,
        &vec![
            removed(Some("PlayerDisplay")),
            removed(Some("PlayerPong")),
            removed(Some("PlayerDisplay")),
        ],
    );
    assert_eq!(notices.len(), 1);
    assert_eq!(notices[0].to, "d2");
    assert_eq!(notices[0].message, "{\"role\":\"PlayerDisplay\",\"status\":\"accepted\"}");
    assert!(!broker.directory().get("d2").unwrap().que);
    assert!(broker.directory().get("d3").unwrap().que);
    assert!(next_connection(&mut broker, Role::PlayerDisplay).is_empty());
}

#[test]
fn relayed_messages_find_their_targets() {
    let mut broker = fresh();
    for id in ["a", "k1", "k2"] {
        broker.handle_connect(id).unwrap();
    }
    broker.handle_role_selection("a", Role::AdminPong, Some("secret"), 0).unwrap();
    broker.handle_role_selection("k1", Role::PlayerPong, None, 0).unwrap();
    broker.handle_role_selection("k2", Role::PlayerPong, None, 0).unwrap();
    let admin = context(Some("MESSAGE"), Some("a"));
    let player = context(Some("MESSAGE"), Some("k2"));
    let all = AdminMessage { connection_id: None };
    let one = AdminMessage { connection_id: Some("k2".to_string()) };
    assert_eq!(downstream(&broker, &admin, &all), Ok(vec!["k1".to_string(), "k2".to_string()]));
    assert_eq!(downstream(&broker, &admin, &one), Ok(vec!["k2".to_string()]));
    assert_eq!(upstream(&broker, &player), Ok(vec!["a".to_string()]));
    assert_eq!(upstream(&broker, &context(None, None)), Err(BrokerError::MissingConnectionId));
    assert_eq!(
        downstream(&broker, &context(None, Some("ghost")), &all),
        Err(BrokerError::NotFound)
    );
}
