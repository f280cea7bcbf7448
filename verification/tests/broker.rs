use mqtt_broker::broker::scan_decision;
use mqtt_broker::broker::Action;
use mqtt_broker::broker::Broker;
use mqtt_broker::broker::PeekOutcome;
use mqtt_broker::broker::ScanDecision;
use mqtt_broker::client_packet::handle_client_packet;
use mqtt_broker::client_packet::ClientEvent;
use mqtt_broker::config::Config;
use mqtt_broker::config::ConfigError;
use mqtt_broker::connack::Connack;
use mqtt_broker::connackresponse::ConnackResponse;
use mqtt_broker::connect::Connect;
use mqtt_broker::disconnect::Disconnect;
use mqtt_broker::idmanager::IDManager;
use mqtt_broker::packet_dispatcher::Packet;
use mqtt_broker::pingreq::Pingreq;
use mqtt_broker::puback::Puback;
use mqtt_broker::publish::Publish;
use mqtt_broker::suback::Suback;
use mqtt_broker::subackresponse::SubackResponse;
use mqtt_broker::subscribe::Subscribe;
use mqtt_broker::threadpool::worker_count;
use mqtt_broker::threadpool::PoolCreationError;
use mqtt_broker::unsuback::Unsuback;
use mqtt_broker::unsubackresponse::UnsubackResponse;
use mqtt_broker::unsubscribe::Unsubscribe;

const PUBLISHER: u16 = 5001;
const SUBSCRIBER: u16 = 5002;
const OTHER: u16 = 5003;

fn connect(client_id: &str, username: &str, password: &str, clean_session: u8) -> Connect {
    Connect {
        client_id: client_id.to_owned(),
        username: username.to_owned(),
        password: password.to_owned(),
        last_will_topic: String::new(),
        last_will_message: String::new(),
        keep_alive: 60,
        last_will_qos: 0,
        clean_session,
        last_will_retain: 0,
        last_will_flag: 0,
    }
}

fn publish(topic: &str, payload: &str, qos: u8, packet_id: u16, retain_flag: u8) -> Publish {
    Publish {
        topic_name: topic.to_owned(),
        payload: payload.to_owned(),
        packet_id,
        qos,
        retain_flag,
        dup_flag: 0,
    }
}

fn subscribe(topic: &str, qos: u8) -> Subscribe {
    Subscribe { packet_id: 20, topic_filters: vec![topic.to_owned()], requested_qos: vec![qos] }
}

fn connack(peer: u16, return_code: u8, session_present: u8) -> Action {
    Action::Send(peer, Packet::Connack(Connack { return_code, session_present }))
}

fn broker_with_clients() -> Broker {
    let mut broker = Broker::new();
    broker.credentials.add_credential("alice", "pw1");
    broker.accept(PUBLISHER);
    broker.accept(SUBSCRIBER);
    assert_eq!(
        broker.handle_connect(&connect("pub", "alice", "pw1", 1), PUBLISHER),
        vec![connack(PUBLISHER, 0, 0)]
    );
    assert_eq!(
        broker.handle_connect(&connect("sub", "alice", "pw1", 1), SUBSCRIBER),
        vec![connack(SUBSCRIBER, 0, 0)]
    );
    broker
}

#[test]
fn connect_with_good_credentials_is_accepted() {
    let mut broker = Broker::new();
    broker.credentials.add_new_credentials(&vec!["alice,pw1".to_owned()]);
    broker.accept(PUBLISHER);
    let actions = broker.handle_connect(&connect("c1", "alice", "pw1", 1), PUBLISHER);
    assert_eq!(actions, vec![connack(PUBLISHER, 0, 0)]);
    assert!(broker.sessions.has_client("c1"));
    assert_eq!(broker.sessions.get_client_id(&PUBLISHER), Ok("c1".to_owned()));
    assert_eq!(broker.active.peers(), vec![PUBLISHER]);
}

#[test]
fn connect_with_a_wrong_password_is_refused_and_dropped() {
    let mut broker = Broker::new();
    broker.credentials.add_new_credentials(&vec!["alice,pw1".to_owned()]);
    broker.accept(PUBLISHER);
    let actions = broker.handle_connect(&connect("c1", "alice", "wrong", 1), PUBLISHER);
    assert_eq!(actions, vec![connack(PUBLISHER, 4, 0), Action::Drop(PUBLISHER)]);
    assert!(!broker.sessions.has_client("c1"));
    assert!(broker.active.peers().is_empty());
    let unknown = broker.handle_connect(&connect("c1", "bob", "pw1", 1), OTHER);
    assert_eq!(unknown, vec![connack(OTHER, 4, 0), Action::Drop(OTHER)]);
}

#[test]
fn connect_with_a_will_flag_above_one_is_dropped() {
    let mut broker = broker_with_clients();
    broker.accept(OTHER);
    let mut packet = connect("c3", "alice", "pw1", 1);
    packet.last_will_flag = 2;
    assert_eq!(broker.handle_connect(&packet, OTHER), vec![Action::Drop(OTHER)]);
    assert!(!broker.sessions.has_client("c3"));
    assert_eq!(broker.active.peers(), vec![PUBLISHER, SUBSCRIBER]);
}

#[test]
fn reconnect_without_clean_session_keeps_the_subscriptions() {
    let mut broker = broker_with_clients();
    broker.handle_subscribe(&subscribe("room/a", 1), SUBSCRIBER);
    broker.accept(OTHER);
    let actions = broker.handle_connect(&connect("sub", "alice", "pw1", 0), OTHER);
    assert_eq!(actions, vec![connack(OTHER, 0, 1), Action::Drop(SUBSCRIBER)]);
    assert_eq!(broker.sessions.get_old_peer("sub"), Ok(OTHER));
    assert!(!broker.sessions.has_peer(&SUBSCRIBER));
    assert_eq!(broker.active.peers(), vec![PUBLISHER, OTHER]);
    assert_eq!(broker.topics.get_client_subscriptions("sub"), vec!["room/a".to_owned()]);
}

#[test]
fn reconnect_with_clean_session_forgets_the_subscriptions() {
    let mut broker = broker_with_clients();
    broker.handle_subscribe(&subscribe("room/a", 1), SUBSCRIBER);
    broker.accept(OTHER);
    let actions = broker.handle_connect(&connect("sub", "alice", "pw1", 1), OTHER);
    assert_eq!(actions, vec![connack(OTHER, 0, 0), Action::Drop(SUBSCRIBER)]);
    assert_eq!(broker.sessions.get_old_peer("sub"), Ok(OTHER));
    assert!(broker.topics.get_client_subscriptions("sub").is_empty());
    assert!(broker.topics.has_topic("room/a"));
}

#[test]
fn publication_of_quality_of_service_zero_reaches_the_subscriber() {
    let mut broker = broker_with_clients();
    let suback = broker.handle_subscribe(&subscribe("room/a", 0), SUBSCRIBER);
    assert_eq!(
        suback,
        vec![Action::Send(
            SUBSCRIBER,
            Packet::Suback(Suback { packet_id: 20, return_codes: vec![0] })
        )]
    );
    let actions = broker.handle_publish(&publish("room/a", "hello", 0, 0, 0), PUBLISHER);
    assert_eq!(
        actions,
        vec![Action::Send(SUBSCRIBER, Packet::Publish(publish("room/a", "hello", 0, 0, 0)))]
    );
    assert!(broker.retransmit().is_empty());
}

#[test]
fn publication_of_quality_of_service_one_is_sent_again_until_acknowledged() {
    let mut broker = broker_with_clients();
    broker.handle_subscribe(&subscribe("t", 1), SUBSCRIBER);
    let actions = broker.handle_publish(&publish("t", "x", 1, 7, 0), PUBLISHER);
    assert_eq!(
        actions,
        vec![
            Action::Send(SUBSCRIBER, Packet::Publish(publish("t", "x", 1, 7, 0))),
            Action::Send(PUBLISHER, Packet::Puback(Puback { acknowledged_packet_id: 7 })),
        ]
    );
    let mut duplicate = publish("t", "x", 1, 7, 0);
    duplicate.dup_flag = 1;
    let again = vec![Action::Send(SUBSCRIBER, Packet::Publish(duplicate))];
    assert_eq!(broker.retransmit(), again);
    assert_eq!(broker.retransmit(), again);
    broker.handle_puback(&Puback { acknowledged_packet_id: 8 }, SUBSCRIBER);
    broker.handle_puback(&Puback { acknowledged_packet_id: 7 }, OTHER);
    assert_eq!(broker.retransmit(), again);
    broker.handle_puback(&Puback { acknowledged_packet_id: 7 }, SUBSCRIBER);
    assert!(broker.retransmit().is_empty());
    broker.handle_puback(&Puback { acknowledged_packet_id: 7 }, SUBSCRIBER);
    assert!(broker.retransmit().is_empty());
}

#[test]
fn subscriber_gets_the_lesser_quality_of_service() {
    let mut broker = broker_with_clients();
    broker.handle_subscribe(&subscribe("t", 0), SUBSCRIBER);
    let actions = broker.handle_publish(&publish("t", "x", 1, 7, 0), PUBLISHER);
    assert_eq!(
        actions,
        vec![
            Action::Send(SUBSCRIBER, Packet::Publish(publish("t", "x", 0, 7, 0))),
            Action::Send(PUBLISHER, Packet::Puback(Puback { acknowledged_packet_id: 7 })),
        ]
    );
    assert!(broker.retransmit().is_empty());
}

#[test]
fn publication_of_quality_of_service_two_is_passed_over() {
    let mut broker = broker_with_clients();
    broker.handle_subscribe(&subscribe("t", 1), SUBSCRIBER);
    let actions = broker.handle_publish(&publish("t", "x", 2, 7, 1), PUBLISHER);
    assert!(actions.is_empty());
    assert_eq!(broker.topics.get_retained_message("t"), None);
}

#[test]
fn retained_message_is_sent_to_a_later_subscriber() {
    let mut broker = broker_with_clients();
    let first = broker.handle_publish(&publish("light", "on", 0, 0, 1), PUBLISHER);
    assert!(first.is_empty());
    let actions = broker.handle_subscribe(&subscribe("light", 0), SUBSCRIBER);
    assert_eq!(
        actions,
        vec![
            Action::Send(SUBSCRIBER, Packet::Publish(publish("light", "on", 0, 0, 1))),
            Action::Send(
                SUBSCRIBER,
                Packet::Suback(Suback { packet_id: 20, return_codes: vec![0] })
            ),
        ]
    );
}

#[test]
fn last_will_is_published_when_the_connection_breaks() {
    let mut broker = Broker::new();
    broker.credentials.add_credential("alice", "pw1");
    broker.accept(PUBLISHER);
    broker.accept(SUBSCRIBER);
    let mut with_will = connect("c1", "alice", "pw1", 1);
    with_will.last_will_flag = 1;
    with_will.last_will_topic = "status/c1".to_owned();
    with_will.last_will_message = "down".to_owned();
    broker.handle_connect(&with_will, PUBLISHER);
    broker.handle_connect(&connect("sub", "alice", "pw1", 1), SUBSCRIBER);
    broker.handle_subscribe(&subscribe("status/c1", 0), SUBSCRIBER);
    let actions = broker.connection_broken(PUBLISHER);
    assert_eq!(
        actions,
        vec![
            Action::Send(SUBSCRIBER, Packet::Publish(publish("status/c1", "down", 0, 1, 0))),
            Action::Drop(PUBLISHER),
        ]
    );
    assert_eq!(broker.active.peers(), vec![SUBSCRIBER]);
}

#[test]
fn last_will_is_not_published_after_a_disconnect() {
    let mut broker = Broker::new();
    broker.credentials.add_credential("alice", "pw1");
    broker.accept(PUBLISHER);
    broker.accept(SUBSCRIBER);
    let mut with_will = connect("c1", "alice", "pw1", 1);
    with_will.last_will_flag = 1;
    with_will.last_will_topic = "status/c1".to_owned();
    with_will.last_will_message = "down".to_owned();
    broker.handle_connect(&with_will, PUBLISHER);
    broker.handle_connect(&connect("sub", "alice", "pw1", 1), SUBSCRIBER);
    broker.handle_subscribe(&subscribe("status/c1", 0), SUBSCRIBER);
    let actions = broker.handle_packet(&Packet::Disconnect(Disconnect {}), PUBLISHER);
    assert_eq!(actions, vec![Action::Drop(PUBLISHER)]);
    assert!(!broker.sessions.has_client("c1"));
    assert!(!broker.sessions.has_peer(&PUBLISHER));
    assert_eq!(broker.connection_broken(PUBLISHER), vec![Action::Drop(PUBLISHER)]);
}

#[test]
fn disconnect_forgets_session_messages_and_subscriptions() {
    let mut broker = broker_with_clients();
    broker.handle_subscribe(&subscribe("t", 1), SUBSCRIBER);
    broker.handle_publish(&publish("t", "x", 1, 7, 0), PUBLISHER);
    assert_eq!(broker.retransmit().len(), 1);
    assert_eq!(broker.handle_disconnect(SUBSCRIBER), vec![Action::Drop(SUBSCRIBER)]);
    assert!(broker.retransmit().is_empty());
    assert!(broker.topics.get_subscriptions("t").is_empty());
    assert!(!broker.messages._has_client("sub"));
    assert_eq!(broker.active.peers(), vec![PUBLISHER]);
    assert_eq!(broker.handle_disconnect(OTHER), vec![Action::Drop(OTHER)]);
}

#[test]
fn unsubscribe_is_answered_and_ends_the_delivery() {
    let mut broker = broker_with_clients();
    broker.handle_subscribe(&subscribe("t", 0), SUBSCRIBER);
    let request = Unsubscribe { packet_id: 31, topic_filters: vec!["t".to_owned()] };
    let actions = broker.handle_unsubscribe(&request, SUBSCRIBER);
    assert_eq!(
        actions,
        vec![Action::Send(SUBSCRIBER, Packet::Unsuback(Unsuback { packet_id: 31 }))]
    );
    assert!(broker.handle_publish(&publish("t", "x", 0, 0, 0), PUBLISHER).is_empty());
}

#[test]
fn subscribe_from_an_unknown_peer_is_answered_without_return_codes() {
    let mut broker = broker_with_clients();
    let actions = broker.handle_subscribe(&subscribe("t", 1), OTHER);
    assert_eq!(
        actions,
        vec![Action::Send(OTHER, Packet::Suback(Suback { packet_id: 20, return_codes: vec![] }))]
    );
    assert!(!broker.topics.has_topic("t"));
}

#[test]
fn pingreq_and_packets_of_a_broker_change_nothing() {
    let mut broker = broker_with_clients();
    assert!(broker.handle_pingreq().is_empty());
    assert!(broker.handle_packet(&Packet::Pingreq(Pingreq {}), PUBLISHER).is_empty());
    let stray = Packet::Connack(Connack { return_code: 0, session_present: 0 });
    assert!(broker.handle_packet(&stray, PUBLISHER).is_empty());
    assert_eq!(broker.active.peers(), vec![PUBLISHER, SUBSCRIBER]);
    assert_eq!(broker.drop_connection(PUBLISHER), vec![Action::Drop(PUBLISHER)]);
    assert_eq!(broker.active.peers(), vec![SUBSCRIBER]);
    assert!(broker.sessions.has_client("pub"));
}

#[test]
fn a_look_at_a_connection_decides_what_is_done() {
    assert_eq!(scan_decision(PeekOutcome::Data(1)), ScanDecision::Read);
    assert_eq!(scan_decision(PeekOutcome::Data(0)), ScanDecision::Skip);
    assert_eq!(scan_decision(PeekOutcome::WouldBlock), ScanDecision::Skip);
    assert_eq!(scan_decision(PeekOutcome::TimedOut), ScanDecision::Skip);
    assert_eq!(scan_decision(PeekOutcome::Failed), ScanDecision::Broken);
}

#[test]
fn credentials_are_added_but_never_changed_by_a_refresh() {
    let mut broker = Broker::new();
    let lines = vec![
        "alice,pw1".to_owned(),
        String::new(),
        "no comma".to_owned(),
        "bob,secret,extra".to_owned(),
        "alice,other".to_owned(),
    ];
    broker.credentials.add_new_credentials(&lines);
    assert!(broker.credentials.is_valid("alice", "pw1"));
    assert!(!broker.credentials.is_valid("alice", "other"));
    assert!(broker.credentials.is_valid("bob", "secret"));
    assert!(!broker.credentials.has_username("no comma"));
    assert!(!broker.credentials.has_username(""));
}

#[test]
fn configuration_is_read_from_its_lines() {
    let lines = vec!["port=1883".to_owned(), "logFile=broker.log".to_owned()];
    let config = Config::from_lines(&lines);
    assert_eq!(
        config,
        Ok(Config { port: "1883".to_owned(), log_file: "broker.log".to_owned() })
    );
    let overridden = vec![
        "port=1".to_owned(),
        "logFile=a".to_owned(),
        "port=2".to_owned(),
        "other=x=y".to_owned(),
    ];
    assert_eq!(
        Config::from_lines(&overridden),
        Ok(Config { port: "2".to_owned(), log_file: "a".to_owned() })
    );
    assert_eq!(Config::from_lines(&vec!["port=1883".to_owned()]), Err(ConfigError));
    assert_eq!(
        Config::from_lines(&vec!["port=1".to_owned(), "logFile".to_owned()]),
        Err(ConfigError)
    );
    assert_eq!(Config::from_lines(&Vec::new()), Err(ConfigError));
    assert_eq!(ConfigError.to_string(), "Error creating config");
}

#[test]
fn a_pool_needs_a_worker() {
    assert_eq!(worker_count(0), Err(PoolCreationError));
    assert_eq!(worker_count(4), Ok(4));
    assert_eq!(
        PoolCreationError.to_string(),
        "unable to create thread pool. Invalid size"
    );
}

#[test]
fn a_client_makes_events_of_the_packets_it_gets() {
    let mut ids = IDManager::new(3);
    let first = ids.take_id();
    assert_eq!(first, 1);
    let message = Packet::Publish(publish("room/a", "hello", 1, 9, 0));
    assert_eq!(
        handle_client_packet(&message, &mut ids),
        vec![
            ClientEvent::Message("room/a|hello".to_owned()),
            ClientEvent::Reply(Packet::Puback(Puback { acknowledged_packet_id: 9 })),
        ]
    );
    let plain = Packet::Publish(publish("t", "x", 0, 0, 0));
    assert_eq!(
        handle_client_packet(&plain, &mut ids),
        vec![ClientEvent::Message("t|x".to_owned())]
    );
    let accepted = Packet::Connack(Connack { return_code: 0, session_present: 1 });
    let events = handle_client_packet(&accepted, &mut ids);
    assert_eq!(events, vec![ClientEvent::Connected(ConnackResponse::new(0, 1))]);
    let response = ConnackResponse::new(4, 0);
    assert_eq!(response.get_return_code(), 4);
    assert_eq!(response.get_session_present(), 0);
    let granted = Packet::Suback(Suback { packet_id: 1, return_codes: vec![0, 1] });
    assert_eq!(
        handle_client_packet(&granted, &mut ids),
        vec![ClientEvent::Subscribed(SubackResponse::new(vec![0, 1]))]
    );
    assert_eq!(SubackResponse::new(vec![0, 1]).get_status_codes(), vec![0, 1]);
    let done = Packet::Unsuback(Unsuback { packet_id: 5 });
    assert_eq!(
        handle_client_packet(&done, &mut ids),
        vec![ClientEvent::Unsubscribed(UnsubackResponse::new(5, 0))]
    );
    let odd = Packet::Unsuback(Unsuback { packet_id: 0 });
    assert_eq!(
        handle_client_packet(&odd, &mut ids),
        vec![ClientEvent::Unsubscribed(UnsubackResponse::new(0, 1))]
    );
    assert_eq!(UnsubackResponse::new(5, 0).get_packet_id(), 5);
    assert_eq!(UnsubackResponse::new(5, 0).get_status_code(), 0);
    ids.take_id();
    ids.take_id();
    assert!(ids.is_full());
    let acknowledged = Packet::Puback(Puback { acknowledged_packet_id: 1 });
    assert!(handle_client_packet(&acknowledged, &mut ids).is_empty());
    assert!(!ids.is_full());
    assert_eq!(ids.take_id(), 1);
}

#[test]
fn retained_message_is_sent_with_the_lesser_quality_of_service() {
    let mut broker = broker_with_clients();
    broker.handle_publish(&publish("light", "on", 1, 4, 1), PUBLISHER);
    assert_eq!(broker.topics.get_retained_qos("light"), 1);
    assert_eq!(broker.topics.get_retained_qos("dark"), 0);
    let low = broker.handle_subscribe(&subscribe("light", 0), SUBSCRIBER);
    assert_eq!(
        low[0],
        Action::Send(SUBSCRIBER, Packet::Publish(publish("light", "on", 0, 4, 1)))
    );
    let high = broker.handle_subscribe(&subscribe("light", 2), SUBSCRIBER);
    assert_eq!(
        high,
        vec![
            Action::Send(SUBSCRIBER, Packet::Publish(publish("light", "on", 1, 4, 1))),
            Action::Send(
                SUBSCRIBER,
                Packet::Suback(Suback { packet_id: 20, return_codes: vec![2] })
            ),
        ]
    );
    broker.handle_publish(&publish("light", "off", 0, 0, 0), PUBLISHER);
    assert_eq!(broker.topics.get_retained_qos("light"), 1);
    assert_eq!(broker.topics.get_retained_message("light").unwrap().message, "on");
}

#[test]
fn a_subscription_with_a_wildcard_gets_the_retained_messages_of_what_it_takes_in() {
    let mut broker = broker_with_clients();
    broker.handle_publish(&publish("room/a", "1", 0, 0, 1), PUBLISHER);
    broker.handle_publish(&publish("room/b", "2", 0, 0, 1), PUBLISHER);
    broker.handle_publish(&publish("hall", "3", 0, 0, 1), PUBLISHER);
    let actions = broker.handle_subscribe(&subscribe("room/#", 0), SUBSCRIBER);
    assert_eq!(
        actions,
        vec![
            Action::Send(SUBSCRIBER, Packet::Publish(publish("room/a", "1", 0, 0, 1))),
            Action::Send(SUBSCRIBER, Packet::Publish(publish("room/b", "2", 0, 0, 1))),
            Action::Send(
                SUBSCRIBER,
                Packet::Suback(Suback { packet_id: 20, return_codes: vec![0] })
            ),
        ]
    );
    let later = broker.handle_publish(&publish("room/c", "4", 0, 0, 0), PUBLISHER);
    assert!(later.is_empty());
}

#[test]
fn messages_wait_for_a_session_whose_connection_is_gone() {
    let mut broker = broker_with_clients();
    broker.handle_subscribe(&subscribe("t", 1), SUBSCRIBER);
    assert_eq!(broker.connection_broken(SUBSCRIBER), vec![Action::Drop(SUBSCRIBER)]);
    assert!(broker.sessions.has_client("sub"));
    assert!(!broker.sessions.has_peer(&SUBSCRIBER));
    assert_eq!(broker.sessions.get_bound_peer("sub"), None);
    let actions = broker.handle_publish(&publish("t", "x", 1, 7, 0), PUBLISHER);
    assert_eq!(
        actions,
        vec![Action::Send(PUBLISHER, Packet::Puback(Puback { acknowledged_packet_id: 7 }))]
    );
    assert!(broker.retransmit().is_empty());
    broker.accept(OTHER);
    let again = broker.handle_connect(&connect("sub", "alice", "pw1", 0), OTHER);
    assert_eq!(again, vec![connack(OTHER, 0, 1), Action::Drop(SUBSCRIBER)]);
    assert_eq!(broker.sessions.get_bound_peer("sub"), Some(OTHER));
    let mut duplicate = publish("t", "x", 1, 7, 0);
    duplicate.dup_flag = 1;
    assert_eq!(broker.retransmit(), vec![Action::Send(OTHER, Packet::Publish(duplicate))]);
}

#[test]
fn a_peer_that_another_client_took_gets_nothing_of_the_first_client() {
    let mut broker = broker_with_clients();
    broker.handle_subscribe(&subscribe("t", 0), SUBSCRIBER);
    broker.connection_broken(SUBSCRIBER);
    broker.accept(SUBSCRIBER);
    let taken = broker.handle_connect(&connect("new", "alice", "pw1", 1), SUBSCRIBER);
    assert_eq!(taken, vec![connack(SUBSCRIBER, 0, 0)]);
    assert_eq!(broker.sessions.get_client_id(&SUBSCRIBER), Ok("new".to_owned()));
    assert_eq!(broker.sessions.get_bound_peer("sub"), None);
    assert_eq!(broker.sessions.get_bound_peer("new"), Some(SUBSCRIBER));
    assert!(broker.handle_publish(&publish("t", "x", 0, 0, 0), PUBLISHER).is_empty());
}
