use mqtt_broker::credentialmanager::CredentialManager;
use mqtt_broker::idmanager::IDManager;
use mqtt_broker::messagemanager::MessageManager;
use mqtt_broker::messagemanager::PendingMessage;
use mqtt_broker::publish::Publish;
use mqtt_broker::sessionmanager::LastWillTestament;
use mqtt_broker::sessionmanager::SessionManager;
use mqtt_broker::subscriptionmanager::SubscriptionManager;
use mqtt_broker::topicmanager::ClientSubscription;
use mqtt_broker::topicmanager::RetainedMessage;
use mqtt_broker::topicmanager::TopicManager;

#[test]
fn test_take_when_available() {
    let mut sut = IDManager::new(4);
    let next_id = sut.take_id();
    assert_eq!(next_id, 1_u16);
}

#[test]
fn test_free_frees_already_used_id() {
    let mgr_size = 3;
    let mut sut = IDManager::new(mgr_size);
    // take all ids
    let id_to_be_freed = sut.take_id();
    let _ = sut.take_id();
    let _ = sut.take_id();
    // free the one that was stored in id_to_be_freed
    sut.free_id(id_to_be_freed);
    let reused_id = sut.take_id();
    // check if the freed value can be reused
    assert_eq!(reused_id, id_to_be_freed);
}

#[test]
fn ids_are_taken_in_turn_and_wrap_at_the_limit() {
    let mut sut = IDManager::new(3);
    assert!(!sut.is_full());
    assert_eq!(sut.take_id(), 1);
    assert_eq!(sut.take_id(), 2);
    assert_eq!(sut.take_id(), 3);
    assert!(sut.is_full());
    sut.free_id(2);
    assert!(!sut.is_full());
    assert_eq!(sut.take_id(), 2);
    sut.free_id(9);
    assert!(sut.is_full());
}

#[test]
fn test_add_subscription_successful() {
    let mut subscription_manager = SubscriptionManager::new();
    subscription_manager.add_subscription(1234, "mi_topico");

    assert_eq!(
        subscription_manager.get_packet_topic(1234).unwrap(),
        "mi_topico"
    )
}

#[test]
fn test_delete_subscription_successful() {
    let mut subscription_manager = SubscriptionManager::new();
    subscription_manager.add_subscription(1234, "mi_topico");
    subscription_manager.delete_subscription(1234);

    match subscription_manager.get_packet_topic(1234) {
        Ok(_) => {}
        Err(e) => assert_eq!(e, "Error getting the subscription...".to_string()),
    };
}

#[test]
fn subscription_manager_counts_from_one() {
    let mut sut = SubscriptionManager::new();
    assert_eq!(sut.get_active_subscriptions(), 1);
    sut.add_active_subscription();
    sut.add_active_subscription();
    sut.remove_active_subscription();
    assert_eq!(sut.get_active_subscriptions(), 2);
    sut.add_subscription(5, "a");
    sut.add_subscription(5, "b");
    assert!(sut.has_topic(5));
    assert_eq!(sut.get_packet_topic(5), Ok("b".to_string()));
    sut.delete_all_subscription();
    assert!(!sut.has_topic(5));
    assert_eq!(sut.get_active_subscriptions(), 1);
    assert_eq!(
        sut.get_packet_topic(5),
        Err("Error getting the subscription...".to_string())
    );
}

#[test]
fn test_valid_username_and_password_succesful() {
    let mut credential_manager = CredentialManager::new();
    let username = "user".to_string();
    let password = "pass".to_string();

    credential_manager.add_credential(&username, &password);
    assert_eq!(credential_manager.is_valid(&username, &password), true);
}

#[test]
fn test_valid_username_and_password_fail() {
    let mut credential_manager = CredentialManager::new();
    let username = "user".to_string();
    let password = "pass".to_string();
    let user_not_existing = "user_false".to_string();

    credential_manager.add_credential(&username, &password);
    assert_eq!(
        credential_manager.is_valid(&user_not_existing, &password),
        false
    );
}

#[test]
fn a_wrong_password_is_not_valid_and_a_new_one_takes_its_place() {
    let mut sut = CredentialManager::new();
    sut.add_credential("alice", "pw1");
    assert!(sut.has_username("alice"));
    assert!(!sut.has_username("alic"));
    assert!(!sut.is_valid("alice", "pw"));
    assert!(!sut.is_valid("alice", "pw11"));
    sut.add_credential("alice", "pw2");
    assert!(!sut.is_valid("alice", "pw1"));
    assert!(sut.is_valid("alice", "pw2"));
}

fn get_dummy_publish() -> PendingMessage {
    PendingMessage {
        topic_name: "some_topic".to_string(),
        payload: "some payload".to_string(),
        packet_id: 1_u16,
        qos: 1_u8,
        retain_flag: 0_u8,
    }
}

#[test]
fn test_add_message_successful() {
    let mut sut = MessageManager::new();
    let packet = get_dummy_publish();
    sut.add_message("some_client", &packet);
    assert_eq!(sut._get_messages("some_client"), vec![packet])
}

#[test]
fn test_remove_message() {
    let mut sut = MessageManager::new();
    let packet = get_dummy_publish();
    let client = "some_client";
    let packet_id = packet.packet_id;
    sut.add_message(client, &packet);
    assert_eq!(sut._get_messages(client), vec![packet]);
    sut.remove_message(client, packet_id);
}

#[test]
fn only_the_first_message_with_the_packet_id_is_removed() {
    let mut sut = MessageManager::new();
    let first = get_dummy_publish();
    let mut second = get_dummy_publish();
    second.packet_id = 2;
    let mut third = get_dummy_publish();
    third.payload = "again".to_string();
    sut.add_message("c", &first);
    sut.add_message("c", &second);
    sut.add_message("c", &third);
    sut.add_message("d", &second);
    sut.remove_message("c", 1);
    assert_eq!(sut._get_messages("c"), vec![second.clone(), third.clone()]);
    sut.remove_message("c", 9);
    sut.remove_message("nobody", 1);
    assert_eq!(sut._get_messages("c"), vec![second.clone(), third.clone()]);
    let all = sut.get_all();
    assert_eq!(all.len(), 2);
    assert_eq!(all[0], ("c".to_string(), vec![second.clone(), third]));
    assert_eq!(all[1], ("d".to_string(), vec![second]));
    sut.delete("c");
    assert!(!sut._has_client("c"));
    assert!(sut._has_client("d"));
    assert_eq!(sut._get_messages("c"), vec![]);
}

#[test]
fn a_pending_message_goes_out_again_as_a_duplicate() {
    let publish = Publish {
        topic_name: "t".to_string(),
        payload: "x".to_string(),
        packet_id: 7,
        qos: 1,
        retain_flag: 0,
        dup_flag: 0,
    };
    let pending = PendingMessage::from_publish_packet(&publish);
    let again = pending.to_publish_packet();
    assert_eq!(again.dup_flag, 1);
    assert_eq!(again.packet_id, 7);
    assert_eq!(again.topic_name, "t");
    assert_eq!(again.payload, "x");
    assert_eq!(again.qos, 1);
}

#[test]
fn test_subscribe_succesful() {
    let mut sut = TopicManager::new();
    let client_sub = ClientSubscription::new("someclient", 0);
    sut.subscribe("sometopic", &client_sub);
    assert_eq!(sut.has_topic("sometopic"), true);
    assert_eq!(sut.get_subscriptions("sometopic"), vec![client_sub])
}

#[test]
fn test_subscribe_subscribes_just_once() {
    let mut sut = TopicManager::new();
    let client_sub = ClientSubscription::new("someclient", 0);
    sut.subscribe("sometopic", &client_sub);
    sut.subscribe("sometopic", &client_sub);
    assert_eq!(sut.has_topic("sometopic"), true);
    assert_eq!(sut.get_subscriptions("sometopic"), vec![client_sub])
}

#[test]
fn test_subscribe_changes_qos() {
    let mut sut = TopicManager::new();
    let client_sub = ClientSubscription::new("someclient", 0);
    sut.subscribe("sometopic", &client_sub);
    let updated_client_sub = ClientSubscription::new("someclient", 1);
    sut.subscribe("sometopic", &updated_client_sub);
    let subscriptions = sut.get_subscriptions("sometopic");
    assert_eq!(subscriptions, vec![updated_client_sub]);
}

#[test]
fn test_unsubscribe_succesful() {
    let mut sut = TopicManager::new();
    let client_sub = ClientSubscription::new("someclient", 0);
    let another_client_sub = ClientSubscription::new("anotherclient", 0);
    sut.subscribe("sometopic", &client_sub);
    sut.subscribe("sometopic", &another_client_sub);
    sut.unsubscribe("sometopic", "someclient");
    assert_eq!(sut.get_subscriptions("sometopic"), vec![another_client_sub])
}

#[test]
fn test_has_topic() {
    let mut sut = TopicManager::new();
    let client_sub = ClientSubscription::new("someclient", 0);
    assert_eq!(sut.has_topic("sometopic"), false);
    sut.subscribe("sometopic", &client_sub);
    assert_eq!(sut.has_topic("sometopic"), true);
}

#[test]
fn test_get_subscribed_clients() {
    let mut sut = TopicManager::new();
    let client_sub = ClientSubscription::new("someclient", 0);
    let another_client_sub = ClientSubscription::new("anotherclient", 0);
    sut.subscribe("sometopic", &client_sub);
    sut.subscribe("sometopic", &another_client_sub);
    assert_eq!(
        sut.get_subscriptions("sometopic"),
        vec![client_sub, another_client_sub]
    )
}

#[test]
fn test_update_topic_without_retain_flag() {
    let mut sut = TopicManager::new();
    let msg = Publish {
        topic_name: "/foo".to_string(),
        payload: "est".to_string(),
        packet_id: 1_u16,
        qos: 0_u8,
        retain_flag: 0_u8,
        dup_flag: 0_u8,
    };
    sut.update_topic(&msg);
    assert_eq!(sut.get_retained_message("/foo"), None)
}

#[test]
fn test_update_topic_with_retain_flag() {
    let mut topic_manager = TopicManager::new();
    const TOPIC_NAME: &str = "/foo";
    const MESSAGE: &str = "est";
    const PACKET_ID: u16 = 1_u16;

    let source_packet = Publish {
        topic_name: TOPIC_NAME.to_owned(),
        payload: MESSAGE.to_owned(),
        packet_id: PACKET_ID,
        qos: 0_u8,
        retain_flag: 1_u8,
        dup_flag: 0_u8,
    };
    topic_manager.update_topic(&source_packet);
    let expected_retained_message = RetainedMessage {
        topic_name: TOPIC_NAME.to_owned(),
        message: MESSAGE.to_owned(),
        packet_id: PACKET_ID,
    };
    assert_eq!(
        topic_manager.get_retained_message(TOPIC_NAME),
        Some(expected_retained_message)
    )
}

#[test]
fn test_subcribe_using_wildcard_multi_level() {
    let mut sut = TopicManager::new();
    let client_sub = ClientSubscription::new("someclient", 0);
    let another_client_sub = ClientSubscription::new("anotherclient", 0);
    sut.subscribe("topic/subtopic/topicone", &client_sub);
    sut.subscribe("topic/subtopic/topictwo", &client_sub);
    sut.subscribe("topic/subtopic/topicthree", &client_sub);

    sut.unsubscribe("topic/subtopic/topicone", "someclient");
    sut.unsubscribe("topic/subtopic/topictwo", "someclient");
    sut.unsubscribe("topic/subtopic/topicthree", "someclient");

    sut.subscribe("topic/subtopic/#", &another_client_sub);

    assert_eq!(
        sut.get_subscriptions("topic/subtopic/topicone"),
        vec![another_client_sub.clone()]
    );
    assert_eq!(
        sut.get_subscriptions("topic/subtopic/topictwo"),
        vec![another_client_sub.clone()]
    );
    assert_eq!(
        sut.get_subscriptions("topic/subtopic/topicthree"),
        vec![another_client_sub]
    );
}

#[test]
fn test_subcribe_using_wildcard_single_level() {
    let mut sut = TopicManager::new();
    let client_sub = ClientSubscription::new("someclient", 0);
    let another_client_sub = ClientSubscription::new("anotherclient", 0);
    sut.subscribe("topic/livingroom/temperature", &client_sub);
    sut.subscribe("topic/kitchen/temperature", &client_sub);
    sut.subscribe("topic/bedroom/ligth", &client_sub);

    sut.unsubscribe("topic/livingroom/temperature", "someclient");
    sut.unsubscribe("topic/kitchen/temperature", "someclient");
    sut.unsubscribe("topic/bedroom/ligth", "someclient");

    sut.subscribe("topic/+/temperature", &another_client_sub);

    assert_eq!(
        sut.get_subscriptions("topic/livingroom/temperature"),
        vec![another_client_sub.clone()]
    );
    assert_eq!(
        sut.get_subscriptions("topic/kitchen/temperature"),
        vec![another_client_sub.clone()]
    );
    assert_eq!(sut.get_subscriptions("topic/bedroom/ligth"), vec![]);
}

#[test]
fn wildcards_take_in_only_the_topics_that_are_known() {
    let mut sut = TopicManager::new();
    let first = ClientSubscription::new("first", 0);
    let second = ClientSubscription::new("second", 1);
    sut.subscribe("a/b", &first);
    sut.subscribe("c", &first);
    sut.subscribe("#", &second);
    assert_eq!(sut.get_subscriptions("a/b"), vec![first.clone(), second.clone()]);
    assert_eq!(sut.get_subscriptions("c"), vec![first.clone(), second.clone()]);
    assert!(!sut.has_topic("#"));
    sut.subscribe("later", &first);
    assert_eq!(sut.get_subscriptions("later"), vec![first.clone()]);
    let third = ClientSubscription::new("third", 0);
    sut.subscribe("/#", &third);
    assert_eq!(sut.get_subscriptions("later"), vec![first.clone(), third.clone()]);
    let fourth = ClientSubscription::new("fourth", 0);
    sut.subscribe("a/#", &fourth);
    assert_eq!(
        sut.get_subscriptions("a/b"),
        vec![first.clone(), second.clone(), third.clone(), fourth.clone()]
    );
    assert_eq!(sut.get_subscriptions("c"), vec![first, second, third]);
    assert_eq!(
        sut.get_topics_available(),
        vec!["a/b".to_string(), "c".to_string(), "later".to_string()]
    );
    assert_eq!(sut.get_client_subscriptions("fourth"), vec!["a/b".to_string()]);
    sut.unsubscribe_all("first");
    assert_eq!(sut.get_client_subscriptions("first"), Vec::<String>::new());
    assert_eq!(sut.get_subscriptions("later").len(), 1);
}

#[test]
fn a_publication_without_the_retain_flag_keeps_what_is_retained() {
    let mut sut = TopicManager::new();
    let retained = Publish {
        topic_name: "light".to_string(),
        payload: "on".to_string(),
        packet_id: 3,
        qos: 0,
        retain_flag: 1,
        dup_flag: 0,
    };
    sut.update_topic(&retained);
    let passing = Publish {
        topic_name: "light".to_string(),
        payload: "off".to_string(),
        packet_id: 4,
        qos: 0,
        retain_flag: 0,
        dup_flag: 0,
    };
    sut.update_topic(&passing);
    let kept = sut.get_retained_message("light").unwrap();
    assert_eq!(kept.message, "on");
    assert_eq!(kept.packet_id, 3);
    let again = kept.to_publish_packet(1);
    assert_eq!(again.retain_flag, 1);
    assert_eq!(again.dup_flag, 0);
    assert_eq!(again.qos, 1);
    assert_eq!(again.payload, "on");
    assert_eq!(sut.get_retained_message("dark"), None);
}

#[test]
fn a_deleted_session_and_its_peer_are_forgotten() {
    let mut sut = SessionManager::new();
    let will = LastWillTestament {
        topic_name: "status/c1".to_string(),
        payload: "down".to_string(),
        qos: 0,
        retain_flag: 0,
    };
    sut.add_client("c1", 4000, Some(will.clone()));
    sut.add_client("c2", 4001, None);
    assert!(sut.has_client("c1"));
    assert!(sut.has_peer(&4000));
    assert_eq!(sut.get_client_id(&4000), Ok("c1".to_string()));
    assert_eq!(sut.get_old_peer("c1"), Ok(4000));
    let session = sut.get_client("c1").unwrap();
    assert_eq!(session.peer, 4000);
    assert_eq!(session.last_will_testament, Some(will.clone()));
    sut.delete("c1");
    assert_eq!(sut.get_client("c1"), None);
    assert!(!sut.has_peer(&4000));
    assert!(sut.has_peer(&4001));
    assert_eq!(
        sut.get_client_id(&4000),
        Err("Failed getting client id...".to_string())
    );
    assert_eq!(
        sut.get_old_peer("c1"),
        Err("The client id doesn't exist".to_string())
    );
}

#[test]
fn a_session_that_is_bound_anew_keeps_its_last_will() {
    let mut sut = SessionManager::new();
    let will = LastWillTestament {
        topic_name: "t".to_string(),
        payload: "p".to_string(),
        qos: 1,
        retain_flag: 1,
    };
    sut.add_client("c1", 10, Some(will.clone()));
    sut.replace_stream("c1", 11);
    assert!(!sut.has_peer(&10));
    assert_eq!(sut.get_client_id(&11), Ok("c1".to_string()));
    let session = sut.get_client("c1").unwrap();
    assert_eq!(session.peer, 11);
    assert_eq!(session.last_will_testament, Some(will));
    sut.replace_stream("nobody", 12);
    assert!(!sut.has_peer(&12));
    assert!(!sut.has_client("nobody"));
}
