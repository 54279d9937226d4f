use message_broker::memory_bus::MemoryBus;
use message_broker::message_broker::{decode_routing_keys, MessageBroker};
use message_broker::message_bus::{process_delivery, BusError, MessageBus};
use message_broker::topology::{
    str_eq, MessageBrokerExchanges, MessageBrokerQueues, MessageBrokerRoutingKeys,
};

const KEYS: [MessageBrokerRoutingKeys; 2] = [
    MessageBrokerRoutingKeys::TestTopic,
    MessageBrokerRoutingKeys::TestTopicTwo,
];

fn bound_bus() -> MemoryBus {
    let mut bus = MemoryBus::new();
    let keys = KEYS.to_vec();
    assert_eq!(
        bus.listen(MessageBrokerQueues::TestQueue, MessageBrokerExchanges::TestExchange, &keys),
        Ok(())
    );
    bus
}

#[test]
fn wire_names() {
    assert_eq!(MessageBrokerExchanges::TestExchange.as_str(), "test_exchange");
    assert_eq!(MessageBrokerQueues::TestQueue.as_str(), "test_queue");
    assert_eq!(MessageBrokerRoutingKeys::TestTopic.as_str(), "test.topic");
    assert_eq!(MessageBrokerRoutingKeys::TestTopicTwo.as_str(), "test.topic_two");
    assert_eq!(MessageBrokerExchanges::all(), vec!["test_exchange"]);
    assert_eq!(MessageBrokerRoutingKeys::all(), vec!["test.topic", "test.topic_two"]);
}

#[test]
fn routing_key_round_trip() {
    for k in KEYS {
        assert_eq!(MessageBrokerRoutingKeys::from_str(k.as_str()), Ok(k));
    }
}

#[test]
fn unknown_routing_key_is_decoding_error() {
    for s in ["test.unknown", "", "test.topic ", "Test.topic", "test.topic_two_three"] {
        assert_eq!(MessageBrokerRoutingKeys::from_str(s), Err(BusError::DecodingError));
    }
}

#[test]
fn string_equality() {
    assert!(str_eq("abc", "abc"));
    assert!(str_eq("", ""));
    assert!(!str_eq("abc", "abd"));
    assert!(!str_eq("abc", "ab"));
}

#[test]
fn decode_list_of_keys() {
    assert_eq!(
        decode_routing_keys(&vec!["test.topic_two", "test.topic"]),
        Ok(vec![MessageBrokerRoutingKeys::TestTopicTwo, MessageBrokerRoutingKeys::TestTopic])
    );
    assert_eq!(decode_routing_keys(&vec![]), Ok(vec![]));
    assert_eq!(
        decode_routing_keys(&vec!["test.topic", "test.unknown"]),
        Err(BusError::DecodingError)
    );
}

#[test]
fn delivery_decoding() {
    assert_eq!(
        process_delivery("test.topic", b"hello"),
        Ok((MessageBrokerRoutingKeys::TestTopic, "hello".to_string()))
    );
    assert_eq!(
        process_delivery("test.topic_two", "h\u{e9}".as_bytes()),
        Ok((MessageBrokerRoutingKeys::TestTopicTwo, "h\u{e9}".to_string()))
    );
    assert_eq!(process_delivery("test.topic", &[0xff, 0xfe]), Err(BusError::DecodingError));
    assert_eq!(process_delivery("test.unknown", b"hello"), Err(BusError::DecodingError));
}

#[test]
fn listen_twice_keeps_bindings() {
    let mut bus = bound_bus();
    assert_eq!(bus.binding_count(), 2);
    let keys = KEYS.to_vec();
    assert_eq!(
        bus.listen(MessageBrokerQueues::TestQueue, MessageBrokerExchanges::TestExchange, &keys),
        Ok(())
    );
    assert_eq!(bus.binding_count(), 2);
    for k in KEYS {
        assert!(bus.is_bound(MessageBrokerQueues::TestQueue, MessageBrokerExchanges::TestExchange, k));
    }
}

#[test]
fn listen_with_repeated_key_binds_once() {
    let mut bus = MemoryBus::new();
    let keys = vec![MessageBrokerRoutingKeys::TestTopic, MessageBrokerRoutingKeys::TestTopic];
    assert_eq!(
        bus.listen(MessageBrokerQueues::TestQueue, MessageBrokerExchanges::TestExchange, &keys),
        Ok(())
    );
    assert_eq!(bus.binding_count(), 1);
}

#[test]
fn publish_reaches_bound_queue_only() {
    let mut bus = MemoryBus::new();
    let keys = vec![MessageBrokerRoutingKeys::TestTopicTwo];
    assert_eq!(
        bus.listen(MessageBrokerQueues::TestQueue, MessageBrokerExchanges::TestExchange, &keys),
        Ok(())
    );
    let e = MessageBrokerExchanges::TestExchange;
    assert_eq!(bus.publish(e, MessageBrokerRoutingKeys::TestTopic, b"one"), Ok(()));
    assert_eq!(bus.consume_next(MessageBrokerQueues::TestQueue), None);
    assert_eq!(bus.publish(e, MessageBrokerRoutingKeys::TestTopicTwo, b"two"), Ok(()));
    assert_eq!(
        bus.consume_next(MessageBrokerQueues::TestQueue),
        Some(Ok((MessageBrokerRoutingKeys::TestTopicTwo, "two".to_string())))
    );
    assert_eq!(bus.consume_next(MessageBrokerQueues::TestQueue), None);
}

#[test]
fn publish_without_any_queue_is_confirmed() {
    let mut bus = MemoryBus::new();
    assert_eq!(
        bus.publish(MessageBrokerExchanges::TestExchange, MessageBrokerRoutingKeys::TestTopic, b"x"),
        Ok(())
    );
    assert_eq!(bus.consume_next(MessageBrokerQueues::TestQueue), None);
}

#[test]
fn unconfirmed_publish_fails() {
    let mut bus = bound_bus();
    bus.set_confirming(false);
    assert_eq!(
        bus.publish(MessageBrokerExchanges::TestExchange, MessageBrokerRoutingKeys::TestTopic, b"x"),
        Err(BusError::PublishError)
    );
    assert_eq!(bus.consume_next(MessageBrokerQueues::TestQueue), None);
    bus.set_confirming(true);
    assert_eq!(
        bus.publish(MessageBrokerExchanges::TestExchange, MessageBrokerRoutingKeys::TestTopic, b"y"),
        Ok(())
    );
    assert_eq!(
        bus.consume_next(MessageBrokerQueues::TestQueue),
        Some(Ok((MessageBrokerRoutingKeys::TestTopic, "y".to_string())))
    );
}

#[test]
fn end_to_end_hello() {
    let mut bus = bound_bus();
    assert_eq!(
        bus.publish(
            MessageBrokerExchanges::TestExchange,
            MessageBrokerRoutingKeys::TestTopic,
            b"hello"
        ),
        Ok(())
    );
    assert_eq!(
        bus.consume_next(MessageBrokerQueues::TestQueue),
        Some(Ok((MessageBrokerRoutingKeys::TestTopic, "hello".to_string())))
    );
    assert_eq!(bus.consume_next(MessageBrokerQueues::TestQueue), None);
    assert_eq!(bus.binding_count(), 2);
    assert!(!bus.is_closed());
}

#[test]
fn unknown_key_delivery_does_not_stop_the_loop() {
    let mut bus = bound_bus();
    assert_eq!(bus.inject(MessageBrokerQueues::TestQueue, "test.unknown", b"bad"), Ok(()));
    assert_eq!(
        bus.publish(
            MessageBrokerExchanges::TestExchange,
            MessageBrokerRoutingKeys::TestTopicTwo,
            b"good"
        ),
        Ok(())
    );
    assert_eq!(
        bus.consume_next(MessageBrokerQueues::TestQueue),
        Some(Err(BusError::DecodingError))
    );
    assert_eq!(
        bus.consume_next(MessageBrokerQueues::TestQueue),
        Some(Ok((MessageBrokerRoutingKeys::TestTopicTwo, "good".to_string())))
    );
    assert_eq!(bus.consume_next(MessageBrokerQueues::TestQueue), None);
}

#[test]
fn inject_into_undeclared_queue_fails() {
    let mut bus = MemoryBus::new();
    assert_eq!(
        bus.inject(MessageBrokerQueues::TestQueue, "test.topic", b"x"),
        Err(BusError::DeclarationError)
    );
}

#[test]
fn deliveries_come_out_in_order() {
    let mut bus = bound_bus();
    let e = MessageBrokerExchanges::TestExchange;
    assert_eq!(bus.publish(e, MessageBrokerRoutingKeys::TestTopic, b"a"), Ok(()));
    assert_eq!(bus.publish(e, MessageBrokerRoutingKeys::TestTopicTwo, b"b"), Ok(()));
    assert_eq!(
        bus.consume_next(MessageBrokerQueues::TestQueue),
        Some(Ok((MessageBrokerRoutingKeys::TestTopic, "a".to_string())))
    );
    assert_eq!(
        bus.consume_next(MessageBrokerQueues::TestQueue),
        Some(Ok((MessageBrokerRoutingKeys::TestTopicTwo, "b".to_string())))
    );
}

#[test]
fn bus_close_twice() {
    let mut bus = bound_bus();
    assert_eq!(bus.close(), Ok(()));
    assert!(bus.is_closed());
    assert_eq!(bus.close(), Err(BusError::Closed));
    assert_eq!(
        bus.publish(MessageBrokerExchanges::TestExchange, MessageBrokerRoutingKeys::TestTopic, b"x"),
        Err(BusError::Closed)
    );
    assert_eq!(bus.consume_next(MessageBrokerQueues::TestQueue), None);
}

#[test]
fn broker_forwards_to_bus() {
    let mut broker = MessageBroker::new(MemoryBus::new());
    let keys = MessageBrokerRoutingKeys::all();
    assert_eq!(
        broker.listen(&MessageBrokerQueues::TestQueue, &MessageBrokerExchanges::TestExchange, &keys),
        Ok(())
    );
    assert_eq!(broker.bus().binding_count(), 2);
    assert_eq!(
        broker.publish(
            &MessageBrokerExchanges::TestExchange,
            &MessageBrokerRoutingKeys::TestTopic,
            b"hello"
        ),
        Ok(())
    );
}

#[test]
fn broker_rejects_unknown_key_names() {
    let mut broker = MessageBroker::new(MemoryBus::new());
    let keys = vec!["test.topic", "test.unknown"];
    assert_eq!(
        broker.listen(&MessageBrokerQueues::TestQueue, &MessageBrokerExchanges::TestExchange, &keys),
        Err(BusError::DecodingError)
    );
    assert_eq!(broker.bus().binding_count(), 0);
}

#[test]
fn broker_close_twice() {
    let mut broker = MessageBroker::new(MemoryBus::new());
    assert!(!broker.is_closed());
    assert_eq!(broker.close(), Ok(()));
    assert!(broker.is_closed());
    assert!(broker.bus().is_closed());
    assert_eq!(broker.close(), Err(BusError::Closed));
    assert_eq!(
        broker.publish(
            &MessageBrokerExchanges::TestExchange,
            &MessageBrokerRoutingKeys::TestTopic,
            b"x"
        ),
        Err(BusError::Closed)
    );
    let keys = vec!["test.topic"];
    assert_eq!(
        broker.listen(&MessageBrokerQueues::TestQueue, &MessageBrokerExchanges::TestExchange, &keys),
        Err(BusError::Closed)
    );
}

#[test]
fn bus_through_trait() {
    let mut bus = MemoryBus::new();
    let keys = vec![MessageBrokerRoutingKeys::TestTopic];
    assert_eq!(
        MessageBus::listen(&mut bus, MessageBrokerQueues::TestQueue, MessageBrokerExchanges::TestExchange, &keys),
        Ok(())
    );
    assert_eq!(MessageBus::close(&mut bus), Ok(()));
    assert_eq!(MessageBus::close(&mut bus), Err(BusError::Closed));
}
