use sniffer::decoder::Packet;
use sniffer::dispatcher::PacketListener;

#[test]
fn test_packet_listener() {
    let mut listener: PacketListener<(), fn(&Packet, &())> = PacketListener::new();

    assert_eq!(listener.listener_count(&0), 0);

    let listener_id = "test";
    let listener_fn: fn(&Packet, &()) = |_event: &Packet, _: &()| {};
    let event: u16 = 0;

    listener.subscribe(event, listener_id, listener_fn);
    assert_eq!(listener.listener_count(&event), 1);

    listener.unsubscribe(&event, listener_id);
    assert_eq!(listener.listener_count(&event), 0);
}

#[test]
fn subscribe_then_unsubscribe_leaves_no_subscription() {
    let mut listener: PacketListener<(), u32> = PacketListener::new();
    let event: u16 = 7;
    listener.subscribe(event, "keeper", 1);
    listener.subscribe(event, "leaver", 2);
    assert!(listener.has_subscriptions_for(&event, "leaver"));

    listener.unsubscribe(&event, "leaver");
    assert!(!listener.has_subscriptions_for(&event, "leaver"));
    assert!(listener.has_subscriptions_for(&event, "keeper"));
    assert_eq!(listener.listener_count(&event), 1);
}

#[test]
fn unsubscribe_absent_listener_is_noop() {
    let mut listener: PacketListener<(), u32> = PacketListener::new();
    let event: u16 = 3;
    listener.subscribe(event, "present", 5);
    listener.unsubscribe(&event, "absent");
    assert!(listener.has_subscriptions_for(&event, "present"));
    assert_eq!(listener.listener_count(&event), 1);
}

#[test]
fn unsubscribe_removes_duplicate_registrations() {
    let mut listener: PacketListener<(), u32> = PacketListener::new();
    let event: u16 = 9;
    listener.subscribe(event, "dup", 1);
    listener.subscribe(event, "dup", 2);
    assert_eq!(listener.listener_count(&event), 2);
    listener.unsubscribe(&event, "dup");
    assert_eq!(listener.listener_count(&event), 0);
}

#[test]
fn notify_returns_listeners_in_registration_order() {
    let mut listener: PacketListener<(), u32> = PacketListener::new();
    let event: u16 = 42;
    listener.subscribe(event, "a", 10);
    listener.subscribe(event, "b", 20);
    listener.subscribe(99, "c", 30);
    listener.subscribe(event, "a", 40);

    let packet = Packet { id: event, fields: Vec::new() };
    let called = listener.notify(&packet);
    assert_eq!(called, vec![10, 20, 40]);

    let other = Packet { id: 99, fields: Vec::new() };
    assert_eq!(listener.notify(&other), vec![30]);

    let nobody = Packet { id: 1000, fields: Vec::new() };
    assert_eq!(listener.notify(&nobody), Vec::<u32>::new());
}

#[test]
fn has_subscriptions_reflects_registry() {
    let mut listener: PacketListener<(), u32> = PacketListener::new();
    let event: u16 = 5;
    assert!(!listener.has_subscriptions(&event));
    listener.subscribe(event, "x", 1);
    assert!(listener.has_subscriptions(&event));
    assert!(!listener.has_subscriptions(&6));
}

#[test]
fn set_node_keeps_subscriptions() {
    let mut listener: PacketListener<u8, u32> = PacketListener::new();
    listener.subscribe(1, "x", 1);
    listener.set_node(77);
    assert!(listener.has_subscriptions_for(&1, "x"));
}
