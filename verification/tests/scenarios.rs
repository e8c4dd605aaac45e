use connection_broker::admission::{Decision, Rejection};
use connection_broker::broker::Broker;
use connection_broker::config::{Config, RolePolicy};
use connection_broker::connection_operations::{mark_player_active, put_into_que, save_player};
use connection_broker::directory::Directory;
use connection_broker::error::BrokerError;
use connection_broker::models::{AdminMessage, Connection, Role};
use connection_broker::queue::promote_next;
use connection_broker::send::{Delivery, Outbound};

fn fresh() -> Broker {
    Broker::new(Config::standard("secret".to_string())).unwrap()
}

fn with_connections(ids: &[&str]) -> Broker {
    let mut broker = fresh();
    for id in ids {
        broker.handle_connect(id).unwrap();
    }
    broker
}

fn pairs(outbox: &[Outbound]) -> Vec<(String, String)> {
    outbox.iter().map(|m| (m.to.clone(), m.message.clone())).collect()
}

fn sent(to: &str, message: &str) -> (String, String) {
    (to.to_string(), message.to_string())
}

fn record(broker: &Broker, id: &str) -> Connection {
    broker.directory().get(id).unwrap()
}

fn holders(broker: &Broker, role: Role) -> usize {
    broker.directory().count(role, false)
}

#[test]
fn full_role_queues_and_a_departure_promotes() {
    let mut broker = with_connections(&["A", "C1", "C2", "C3"]);
    let admin = broker.handle_role_selection("A", Role::AdminPong, Some("secret"), 0).unwrap();
    assert_eq!(admin.decision, Decision::Accepted);

    let first = broker.handle_role_selection("C1", Role::PlayerPong, None, 0).unwrap();
    assert_eq!(first.decision, Decision::Accepted);
    assert_eq!(
        pairs(&first.outbox),
        vec![
            sent("C1", "{\"role\":\"PlayerPong\",\"status\":\"accepted\"}"),
            sent("A", "{\"connection\":\"C1\",\"status\":\"CONNECTED\"}"),
        ]
    );
    let second = broker.handle_role_selection("C2", Role::PlayerPong, None, 0).unwrap();
    assert_eq!(second.decision, Decision::Accepted);

    let third = broker.handle_role_selection("C3", Role::PlayerPong, None, 0).unwrap();
    assert_eq!(third.decision, Decision::Queued(0));
    assert_eq!(
        pairs(&third.outbox),
        vec![sent("C3", "{\"order\":0,\"role\":\"PlayerPong\",\"status\":\"que\"}")]
    );
    assert!(record(&broker, "C3").que);
    assert_eq!(holders(&broker, Role::PlayerPong), 2);

    let notices = broker.handle_disconnect("C1");
    assert_eq!(
        pairs(&notices),
        vec![
            sent("A", "{\"connection\":\"C1\",\"status\":\"DISCONNECTED\"}"),
            sent("C3", "{\"role\":\"PlayerPong\",\"status\":\"accepted\"}"),
            sent("A", "{\"connection\":\"C3\",\"status\":\"CONNECTED\"}"),
        ]
    );
    assert!(broker.directory().get("C1").is_none());
    let promoted = record(&broker, "C3");
    assert_eq!(promoted.role, Role::PlayerPong);
    assert!(!promoted.que);
    assert_eq!(promoted.clear_at, None);
    assert_eq!(holders(&broker, Role::PlayerPong), 2);
}

#[test]
fn wrong_password_leaves_the_admin_bound() {
    let mut broker = with_connections(&["C1", "C2"]);
    let first = broker.handle_role_selection("C1", Role::AdminPong, Some("secret"), 0).unwrap();
    assert_eq!(first.decision, Decision::Accepted);
    assert_eq!(
        pairs(&first.outbox),
        vec![sent("C1", "{\"role\":\"AdminPong\",\"status\":\"accepted\"}")]
    );
    let before = record(&broker, "C1");

    let second = broker.handle_role_selection("C2", Role::AdminPong, Some("guess"), 0).unwrap();
    assert_eq!(second.decision, Decision::Rejected(Rejection::Unauthorized));
    assert!(second.outbox.is_empty());
    let after = record(&broker, "C1");
    assert_eq!(after.role, Role::AdminPong);
    assert!(!after.que);
    assert_eq!(after.sequence, before.sequence);
    assert_eq!(record(&broker, "C2").role, Role::Observer);
}

#[test]
fn missing_password_is_the_wrong_password() {
    let mut broker = with_connections(&["C1"]);
    let outcome = broker.handle_role_selection("C1", Role::AdminDisplay, None, 0).unwrap();
    assert_eq!(outcome.decision, Decision::Rejected(Rejection::Unauthorized));
    assert_eq!(holders(&broker, Role::AdminDisplay), 0);
}

#[test]
fn second_claimant_of_an_admin_role_is_refused() {
    let mut broker = with_connections(&["C1", "C2"]);
    broker.handle_role_selection("C1", Role::AdminPong, Some("secret"), 0).unwrap();
    let second = broker.handle_role_selection("C2", Role::AdminPong, Some("secret"), 0).unwrap();
    assert_eq!(second.decision, Decision::Rejected(Rejection::AlreadyBound));
    assert!(second.outbox.is_empty());
    assert_eq!(holders(&broker, Role::AdminPong), 1);
    assert_eq!(record(&broker, "C1").role, Role::AdminPong);
    assert_eq!(record(&broker, "C2").role, Role::Observer);
    // The other admin role is free.
    let other = broker.handle_role_selection("C2", Role::AdminDisplay, Some("secret"), 0).unwrap();
    assert_eq!(other.decision, Decision::Accepted);
}

#[test]
fn asking_again_for_a_role_one_holds_changes_nothing() {
    let mut broker = with_connections(&["C1"]);
    broker.handle_role_selection("C1", Role::AdminPong, Some("secret"), 0).unwrap();
    let before = broker.directory().snapshot();
    let stamp = broker.directory().next_stamp();
    let again = broker.handle_role_selection("C1", Role::AdminPong, Some("secret"), 0).unwrap();
    assert_eq!(again.decision, Decision::Accepted);
    let after = broker.directory().snapshot();
    assert_eq!(before.len(), after.len());
    assert_eq!(before[0].sequence, after[0].sequence);
    assert_eq!(broker.directory().next_stamp(), stamp);
}

#[test]
fn capacity_is_never_exceeded_and_stamps_grow() {
    let ids = ["K0", "K1", "K2", "K3", "K4", "K5"];
    let mut broker = with_connections(&ids);
    let mut last_stamp = 0;
    for (n, id) in ids.iter().enumerate() {
        let outcome = broker.handle_role_selection(id, Role::PlayerPong, None, 0).unwrap();
        if n < 2 {
            assert_eq!(outcome.decision, Decision::Accepted);
        } else {
            assert_eq!(outcome.decision, Decision::Queued(n - 2));
            let entry = record(&broker, id);
            assert!(entry.que);
            assert!(entry.sequence > last_stamp);
            last_stamp = entry.sequence;
        }
        assert!(holders(&broker, Role::PlayerPong) <= 2);
    }
    assert_eq!(broker.directory().count(Role::PlayerPong, true), 4);
}

#[test]
fn single_slot_role_gives_its_queue_entries_a_deadline() {
    let mut broker = with_connections(&["D1", "D2", "K1", "K2", "K3"]);
    let first = broker.handle_role_selection("D1", Role::PlayerDisplay, None, 100).unwrap();
    assert_eq!(first.decision, Decision::Accepted);
    assert_eq!(record(&broker, "D1").clear_at, None);
    let second = broker.handle_role_selection("D2", Role::PlayerDisplay, None, 100).unwrap();
    assert_eq!(second.decision, Decision::Queued(0));
    assert_eq!(record(&broker, "D2").clear_at, Some(110));
    // A role with two slots has no grace period.
    broker.handle_role_selection("K1", Role::PlayerPong, None, 100).unwrap();
    broker.handle_role_selection("K2", Role::PlayerPong, None, 100).unwrap();
    broker.handle_role_selection("K3", Role::PlayerPong, None, 100).unwrap();
    assert!(record(&broker, "K3").que);
    assert_eq!(record(&broker, "K3").clear_at, None);
}

#[test]
fn observer_is_never_full() {
    let mut broker = with_connections(&["C1", "C2", "C3"]);
    for id in ["C1", "C2", "C3"] {
        broker.handle_role_selection(id, Role::PlayerPong, None, 0).unwrap();
    }
    let back = broker.handle_role_selection("C3", Role::Observer, None, 0).unwrap();
    assert_eq!(back.decision, Decision::Accepted);
    assert_eq!(record(&broker, "C3").role, Role::Observer);
    assert!(!record(&broker, "C3").que);
    assert_eq!(
        pairs(&back.outbox),
        vec![sent("C3", "{\"role\":\"Observer\",\"status\":\"accepted\"}")]
    );
}

#[test]
fn unknown_connection_cannot_select_a_role() {
    let mut broker = fresh();
    let outcome = broker.handle_role_selection("ghost", Role::PlayerPong, None, 0);
    assert_eq!(outcome.err(), Some(BrokerError::NotFound));
    assert_eq!(broker.directory().len(), 0);
}

#[test]
fn promotions_succeed_once_per_waiting_connection() {
    let mut dir = Directory::new();
    for id in ["W1", "W2", "W3"] {
        put_into_que(&mut dir, id.to_string(), Role::PlayerPong).unwrap();
    }
    let mut promoted = Vec::new();
    let mut idle = 0;
    for _ in 0..5 {
        match promote_next(&mut dir, Role::PlayerPong) {
            Some(c) => promoted.push(c.id),
            None => idle += 1,
        }
    }
    assert_eq!(promoted, vec!["W1".to_string(), "W2".to_string(), "W3".to_string()]);
    assert_eq!(idle, 2);
    assert_eq!(dir.count(Role::PlayerPong, true), 0);
    assert_eq!(dir.count(Role::PlayerPong, false), 3);
}

#[test]
fn promotion_goes_by_stamp_not_by_place() {
    let mut dir = Directory::new();
    put_into_que(&mut dir, "early".to_string(), Role::PlayerDisplay).unwrap();
    put_into_que(&mut dir, "late".to_string(), Role::PlayerDisplay).unwrap();
    // "early" joins again and so stands behind "late" now.
    save_player(&mut dir, "early".to_string()).unwrap();
    put_into_que(&mut dir, "early".to_string(), Role::PlayerDisplay).unwrap();
    let first = promote_next(&mut dir, Role::PlayerDisplay).unwrap();
    assert_eq!(first.id, "late");
    assert!(!first.que);
    let second = promote_next(&mut dir, Role::PlayerDisplay).unwrap();
    assert_eq!(second.id, "early");
    assert!(promote_next(&mut dir, Role::PlayerDisplay).is_none());
}

#[test]
fn marking_a_connection_active_works_once() {
    let mut dir = Directory::new();
    put_into_que(&mut dir, "W".to_string(), Role::PlayerPong).unwrap();
    assert!(mark_player_active(&mut dir, "W".to_string()));
    assert!(!dir.get("W").unwrap().que);
    assert!(!mark_player_active(&mut dir, "W".to_string()));
    assert!(!mark_player_active(&mut dir, "nobody".to_string()));
    assert_eq!(dir.count(Role::PlayerPong, false), 1);
}

#[test]
fn waiting_connection_leaves_quietly() {
    let mut broker = with_connections(&["A", "C1", "C2", "C3", "C4"]);
    broker.handle_role_selection("A", Role::AdminPong, Some("secret"), 0).unwrap();
    for id in ["C1", "C2", "C3", "C4"] {
        broker.handle_role_selection(id, Role::PlayerPong, None, 0).unwrap();
    }
    let notices = broker.handle_disconnect("C3");
    assert!(notices.is_empty());
    assert!(broker.directory().get("C3").is_none());
    assert!(record(&broker, "C4").que);
    assert!(!record(&broker, "C1").que);
    assert!(!record(&broker, "C2").que);
    assert_eq!(broker.directory().len(), 4);
}

#[test]
fn promoted_connection_that_leaves_finds_no_successor() {
    let mut broker = with_connections(&["A", "C1", "C2", "C3"]);
    broker.handle_role_selection("A", Role::AdminPong, Some("secret"), 0).unwrap();
    for id in ["C1", "C2", "C3"] {
        broker.handle_role_selection(id, Role::PlayerPong, None, 0).unwrap();
    }
    broker.handle_disconnect("C1");
    assert!(!record(&broker, "C3").que);
    let notices = broker.handle_disconnect("C3");
    assert_eq!(
        pairs(&notices),
        vec![sent("A", "{\"connection\":\"C3\",\"status\":\"DISCONNECTED\"}")]
    );
    assert!(broker.directory().get("C3").is_none());
    let left = broker.directory().snapshot();
    let ids: Vec<String> = left.into_iter().map(|c| c.id).collect();
    assert_eq!(ids, vec!["A".to_string(), "C2".to_string()]);
    assert_eq!(holders(&broker, Role::PlayerPong), 1);
}

#[test]
fn disconnect_of_an_unknown_connection_is_a_no_op() {
    let mut broker = with_connections(&["C1"]);
    assert!(broker.handle_disconnect("ghost").is_empty());
    assert_eq!(broker.directory().len(), 1);
    assert!(broker.handle_disconnect("C1").is_empty());
    assert!(broker.handle_disconnect("C1").is_empty());
    assert_eq!(broker.directory().len(), 0);
}

#[test]
fn departure_without_an_admin_still_promotes() {
    let mut broker = with_connections(&["C1", "C2"]);
    broker.handle_role_selection("C1", Role::PlayerDisplay, None, 5).unwrap();
    broker.handle_role_selection("C2", Role::PlayerDisplay, None, 5).unwrap();
    let notices = broker.handle_disconnect("C1");
    assert_eq!(
        pairs(&notices),
        vec![sent("C2", "{\"role\":\"PlayerDisplay\",\"status\":\"accepted\"}")]
    );
    assert!(!record(&broker, "C2").que);
    assert_eq!(record(&broker, "C2").clear_at, None);
}

#[test]
fn vacancy_promotes_only_when_nobody_holds_the_role() {
    let mut broker = with_connections(&["A", "D1", "D2", "D3"]);
    broker.handle_role_selection("A", Role::AdminDisplay, Some("secret"), 0).unwrap();
    for id in ["D1", "D2", "D3"] {
        broker.handle_role_selection(id, Role::PlayerDisplay, None, 0).unwrap();
    }
    // The slot is taken: nothing to do.
    assert!(broker.handle_slot_vacated(Role::PlayerDisplay).is_empty());
    assert!(record(&broker, "D2").que);
    // The holder goes back to watching, which frees the slot without a promotion.
    broker.handle_role_selection("D1", Role::Observer, None, 0).unwrap();
    assert_eq!(holders(&broker, Role::PlayerDisplay), 0);
    let notices = broker.handle_slot_vacated(Role::PlayerDisplay);
    assert_eq!(
        pairs(&notices),
        vec![
            sent("D2", "{\"role\":\"PlayerDisplay\",\"status\":\"accepted\"}"),
            sent("A", "{\"connection\":\"D2\",\"status\":\"CONNECTED\"}"),
        ]
    );
    assert!(!record(&broker, "D2").que);
    assert!(record(&broker, "D3").que);
    // Nobody waits for an admin role.
    assert!(broker.handle_slot_vacated(Role::AdminPong).is_empty());
}

#[test]
fn messages_are_routed_by_the_senders_role() {
    let mut broker = with_connections(&["A", "C1", "C2", "C3", "O"]);
    broker.handle_role_selection("A", Role::AdminPong, Some("secret"), 0).unwrap();
    for id in ["C1", "C2", "C3"] {
        broker.handle_role_selection(id, Role::PlayerPong, None, 0).unwrap();
    }
    let to_all = AdminMessage { connection_id: None };
    let to_one = AdminMessage { connection_id: Some("anyone".to_string()) };
    assert_eq!(
        broker.handle_client_message("A", &to_all),
        Ok(vec!["C1".to_string(), "C2".to_string()])
    );
    assert_eq!(broker.handle_client_message("A", &to_one), Ok(vec!["anyone".to_string()]));
    assert_eq!(broker.handle_client_message("C1", &to_all), Ok(vec!["A".to_string()]));
    assert_eq!(broker.handle_client_message("C1", &to_one), Ok(vec!["A".to_string()]));
    // A waiting player reaches the admin too.
    assert_eq!(broker.handle_client_message("C3", &to_all), Ok(vec!["A".to_string()]));
    assert_eq!(broker.handle_client_message("O", &to_all), Ok(vec![]));
    assert_eq!(broker.handle_client_message("ghost", &to_all), Err(BrokerError::NotFound));
    // Without an admin a player's message is dropped.
    broker.handle_disconnect("A");
    assert_eq!(broker.handle_client_message("C1", &to_all), Ok(vec![]));
}

#[test]
fn gone_delivery_is_a_disconnect_and_happens_once() {
    let mut broker = with_connections(&["A", "C1", "C2", "C3"]);
    broker.handle_role_selection("A", Role::AdminPong, Some("secret"), 0).unwrap();
    for id in ["C1", "C2", "C3"] {
        broker.handle_role_selection(id, Role::PlayerPong, None, 0).unwrap();
    }
    assert_eq!(broker.handle_delivery("C2", Delivery::Delivered).unwrap().len(), 0);
    assert_eq!(
        broker.handle_delivery("C2", Delivery::TransientError).err(),
        Some(BrokerError::TransportUnavailable)
    );
    assert_eq!(broker.directory().len(), 4);
    let notices = broker.handle_delivery("C2", Delivery::Gone).unwrap();
    assert_eq!(
        pairs(&notices),
        vec![
            sent("A", "{\"connection\":\"C2\",\"status\":\"DISCONNECTED\"}"),
            sent("C3", "{\"role\":\"PlayerPong\",\"status\":\"accepted\"}"),
            sent("A", "{\"connection\":\"C3\",\"status\":\"CONNECTED\"}"),
        ]
    );
    let again = connection_broker::send::send(&mut broker, "C2", Delivery::Gone).unwrap();
    assert!(again.is_empty());
    assert_eq!(broker.directory().len(), 3);
}

#[test]
fn connecting_again_starts_over_as_an_observer() {
    let mut broker = with_connections(&["C1"]);
    broker.handle_role_selection("C1", Role::PlayerPong, None, 0).unwrap();
    let again = broker.handle_connect("C1").unwrap();
    assert_eq!(again.role, Role::Observer);
    assert!(!again.que);
    assert_eq!(broker.directory().len(), 1);
    assert_eq!(holders(&broker, Role::PlayerPong), 0);
}

#[test]
fn directory_out_of_stamps_refuses_writes() {
    let records = vec![Connection {
        id: "old".to_string(),
        role: Role::Observer,
        que: false,
        sequence: u64::MAX - 1,
        clear_at: None,
    }];
    let dir = Directory::load(records).unwrap();
    assert_eq!(dir.next_stamp(), u64::MAX);
    let mut broker = Broker::restore(Config::standard("secret".to_string()), dir).unwrap();
    assert_eq!(broker.handle_connect("new").err(), Some(BrokerError::StorageUnavailable));
    assert_eq!(
        broker.handle_role_selection("old", Role::PlayerPong, None, 0).err(),
        Some(BrokerError::StorageUnavailable)
    );
    assert_eq!(record(&broker, "old").role, Role::Observer);
    assert_eq!(broker.directory().len(), 1);
}

#[test]
fn settings_need_a_slot_for_every_player_role() {
    let none = RolePolicy { capacity: 0, grace_period: None };
    let one = RolePolicy { capacity: 1, grace_period: Some(3) };
    assert!(Config::new(none, one, "x".to_string()).is_none());
    assert!(Config::new(one, none, "x".to_string()).is_none());
    let config = Config::new(one, one, "x".to_string()).unwrap();
    assert_eq!(config.slots(Role::PlayerPong), Some(1));
    assert_eq!(config.slots(Role::AdminDisplay), Some(1));
    assert_eq!(config.slots(Role::Observer), None);
    assert_eq!(config.grace_period(Role::PlayerPong), Some(3));
    assert_eq!(config.grace_period(Role::AdminPong), None);
    assert!(config.check(Some("x")));
    assert!(!config.check(Some("y")));
    assert!(!config.check(None));
    let open = Config { pong: none, display: one, password: "_".to_string() };
    assert!(open.check(None));
    assert!(Broker::new(open).is_none());
}

#[test]
fn a_directory_with_too_many_holders_is_not_restored() {
    let holder = |id: &str, role: Role, sequence: u64| Connection {
        id: id.to_string(),
        role,
        que: false,
        sequence,
        clear_at: None,
    };
    let two_admins = Directory::load(vec![
        holder("a", Role::AdminPong, 1),
        holder("b", Role::AdminPong, 2),
    ])
    .unwrap();
    assert!(Broker::restore(Config::standard("s".to_string()), two_admins).is_none());
    let two_displays = Directory::load(vec![
        holder("a", Role::PlayerDisplay, 1),
        holder("b", Role::PlayerDisplay, 2),
    ])
    .unwrap();
    assert!(Broker::restore(Config::standard("s".to_string()), two_displays).is_none());
    let two_pongs = Directory::load(vec![
        holder("a", Role::PlayerPong, 1),
        holder("b", Role::PlayerPong, 2),
    ])
    .unwrap();
    let broker = Broker::restore(Config::standard("s".to_string()), two_pongs).unwrap();
    assert_eq!(broker.directory().next_stamp(), 3);
    assert_eq!(broker.config().pong.capacity, 2);
}

#[test]
fn a_directory_with_a_stray_deadline_is_not_restored() {
    let entry = |que: bool, role: Role| Connection {
        id: "a".to_string(),
        role,
        que,
        sequence: 1,
        clear_at: Some(30),
    };
    let config = || Config::standard("s".to_string());
    let waiting = Directory::load(vec![entry(true, Role::PlayerDisplay)]).unwrap();
    assert!(Broker::restore(config(), waiting).is_some());
    let holding = Directory::load(vec![entry(false, Role::PlayerDisplay)]).unwrap();
    assert!(Broker::restore(config(), holding).is_none());
    let no_grace = Directory::load(vec![entry(true, Role::PlayerPong)]).unwrap();
    assert!(Broker::restore(config(), no_grace).is_none());
}

#[test]
fn a_refusal_reads_as_an_error() {
    assert_eq!(Rejection::Unauthorized.error(), BrokerError::Unauthorized);
    assert_eq!(Rejection::AlreadyBound.error(), BrokerError::AlreadyBound);
    assert_eq!(Rejection::AlreadyBound.error().message(), "Role already taken");
}
