use rust_sse::multicast::{subscriber_not_found, subscribers_to_remove, DeliveryOutcome, FanoutIdSource, SubscriberRegistry};
use rust_sse::SinkError;

#[test]
fn registry_keeps_ids_unique() {
    let mut ids = FanoutIdSource::new();
    let mut r: SubscriberRegistry<&str> = SubscriberRegistry::new();
    let a = ids.next_id().unwrap();
    let b = ids.next_id().unwrap();
    let c = ids.next_id().unwrap();
    assert!(a != b && b != c && a != c);
    assert!(r.register(a, "a"));
    assert!(r.register(b, "b"));
    assert!(r.register(c, "c"));
    assert!(!r.register(b, "again"));
    assert_eq!(r.len(), 3);
    assert_eq!(r.find(b), Some(&"b"));
    r.remove_ids(&vec![b]);
    assert_eq!(r.len(), 2);
    assert_eq!(r.find(b), None);
    let d = ids.next_id().unwrap();
    assert!(d != b);
    assert!(r.register(d, "d"));
    let order: Vec<&str> = r.entries().iter().map(|(_, s)| *s).collect();
    assert_eq!(order, vec!["a", "c", "d"]);
    r.clear();
    assert_eq!(r.len(), 0);
    assert_eq!(r.find(a), None);
}

#[test]
fn ids_are_not_reused_across_registries() {
    let mut ids = FanoutIdSource::new();
    let mut r1: SubscriberRegistry<u8> = SubscriberRegistry::new();
    let mut r2: SubscriberRegistry<u8> = SubscriberRegistry::new();
    let x = ids.next_id().unwrap();
    let y = ids.next_id().unwrap();
    assert!(r1.register(x, 1));
    assert!(r2.register(y, 2));
    assert_ne!(x, y);
    assert_eq!(r1.find(y), None);
    assert_eq!(r2.find(x), None);
}

#[test]
fn not_found_message() {
    let mut ids = FanoutIdSource::new();
    let mut r: SubscriberRegistry<u8> = SubscriberRegistry::new();
    let id = ids.next_id().unwrap();
    assert!(r.register(id, 0));
    let second = ids.next_id().unwrap();
    assert!(r.register(second, 1));
    assert_eq!(format!("{:?}", id), "FanoutId(0)");
    match subscriber_not_found(second) {
        SinkError::Send(m) => assert_eq!(m, "未找到订阅者 FanoutId(1)"),
        other => panic!("unexpected {:?}", other),
    }
}

#[test]
fn only_closed_subscribers_are_removed() {
    let mut ids = FanoutIdSource::new();
    let a = ids.next_id().unwrap();
    let b = ids.next_id().unwrap();
    let c = ids.next_id().unwrap();
    let outcomes = vec![(a, DeliveryOutcome::Full), (b, DeliveryOutcome::Closed), (c, DeliveryOutcome::Delivered)];
    assert_eq!(subscribers_to_remove(&outcomes), vec![b]);
    assert!(subscribers_to_remove(&vec![]).is_empty());
}
