use otterwatch_mqtt::metrics::{summarize_meters, MeterEvent};

#[test]
fn empty_batch_changes_nothing() {
    let u = summarize_meters(&vec![]);
    assert_eq!(u.connections_active, None);
    assert_eq!(u.messages_received_inc, 0);
    assert_eq!(u.messages_failed_inc, 0);
    assert_eq!(u.messages_sent_inc, 0);
    assert_eq!(u.subscriptions_active, None);
}

#[test]
fn router_reports_add_up_and_last_connection_count_wins() {
    let events = vec![
        MeterEvent::Router { total_connections: 3, total_publishes: 10, failed_publishes: 1 },
        MeterEvent::Subscription { routed_publishes: 4 },
        MeterEvent::Router { total_connections: 5, total_publishes: 7, failed_publishes: 2 },
        MeterEvent::Subscription { routed_publishes: 4 },
        MeterEvent::Subscription { routed_publishes: 4 },
    ];
    let u = summarize_meters(&events);
    assert_eq!(u.connections_active, Some(5));
    assert_eq!(u.messages_received_inc, 17);
    assert_eq!(u.messages_failed_inc, 3);
    assert_eq!(u.messages_sent_inc, 12);
    assert_eq!(u.subscriptions_active, Some(3));
}

#[test]
fn only_subscriptions() {
    let u = summarize_meters(&vec![MeterEvent::Subscription { routed_publishes: 2 }]);
    assert_eq!(u.connections_active, None);
    assert_eq!(u.subscriptions_active, Some(1));
    assert_eq!(u.messages_sent_inc, 2);
}
