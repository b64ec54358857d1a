use enostr::error::Error;
use enostr::relay::{Relay, RelayPool, Subscription};
use enostr::{Event, Filter, Pubkey};

fn kinds(k: &[u64]) -> Filter {
    let mut f = Filter::new();
    f.kinds = Some(k.to_vec());
    f
}

fn sub(id: &str, filters: Vec<Filter>) -> Subscription {
    Subscription { id: id.to_string(), filters }
}

#[test]
fn new_pool_is_empty() {
    let p = RelayPool::new();
    assert!(p.subscriptions().is_empty());
}

#[test]
fn first_subscription_is_kept_whole() {
    let mut p = RelayPool::new();
    p.add_subscription(sub("a", vec![kinds(&[1]), kinds(&[2])]));
    assert_eq!(p.subscriptions().len(), 1);
    assert_eq!(p.subscriptions()[0].id, "a");
    assert_eq!(p.subscriptions()[0].filters.len(), 2);
}

#[test]
fn filters_already_active_are_dropped() {
    let mut p = RelayPool::new();
    p.add_subscription(sub("a", vec![kinds(&[1]), kinds(&[2])]));
    p.add_subscription(sub("b", vec![kinds(&[2]), kinds(&[3]), kinds(&[1])]));
    let subs = p.subscriptions();
    assert_eq!(subs.len(), 2);
    assert_eq!(subs[1].id, "b");
    assert_eq!(subs[1].filters.len(), 1);
    assert!(subs[1].filters[0] == kinds(&[3]));
    assert_eq!(subs[0].filters.len(), 2);
}

#[test]
fn repeated_matches_remove_by_position() {
    // The new filter at position 0 equals two active filters, so position 0
    // is removed twice: the second removal takes the filter that moved there.
    let mut p = RelayPool::new();
    p.add_subscription(sub("a", vec![kinds(&[1]), kinds(&[1])]));
    assert_eq!(p.subscriptions()[0].filters.len(), 2);
    p.add_subscription(sub("c", vec![kinds(&[1]), kinds(&[5]), kinds(&[6])]));
    let c = &p.subscriptions()[1];
    assert_eq!(c.filters.len(), 1);
    assert!(c.filters[0] == kinds(&[6]));
}

#[test]
fn filter_equality_looks_at_every_field() {
    let a = Filter::new();
    let mut b = Filter::new();
    assert!(a == b);
    b.ids = Some(vec!["x".to_string()]);
    assert!(a != b);
    let mut c = Filter::new();
    c.ids = Some(vec!["x".to_string()]);
    assert!(b == c);
    c.authors = Some(vec![Pubkey::new(&[1u8; 32])]);
    assert!(b != c);
    b.authors = Some(vec![Pubkey::new(&[1u8; 32])]);
    assert!(b == c);
    assert!(kinds(&[1, 2]) != kinds(&[2, 1]));
    assert!(kinds(&[]) != Filter::new());
}

#[test]
fn new_relay_refuses_known_url() {
    let mut p = RelayPool::new();
    let r = p.new_relay("wss://one".to_string()).unwrap();
    assert_eq!(r.url, "wss://one");
    assert!(p.insert_relay(r).is_ok());
    assert!(matches!(p.new_relay("wss://one".to_string()), Err(Error::AlreadyConnected)));
    assert!(p.new_relay("wss://two".to_string()).is_ok());
    assert!(matches!(p.new_relay("ws://two".to_string()), Err(Error::InsecureConnection)));
    p.keepalive();
    assert_eq!(p.relay_count(), 1);
    let _ = Relay::new("wss://x".to_string());
}

#[test]
fn inserted_relays_join_in_order_and_urls_stay_distinct() {
    let mut p = RelayPool::new();
    assert_eq!(p.relay_count(), 0);
    assert!(p.insert_relay(Relay::new("wss://one".to_string()).unwrap()).is_ok());
    assert!(p.insert_relay(Relay::new("wss://two".to_string()).unwrap()).is_ok());
    let again = p.insert_relay(Relay::new("wss://one".to_string()).unwrap());
    assert!(matches!(again, Err(Error::AlreadyConnected)));
    assert_eq!(p.relay_count(), 2);
    assert_eq!(p.relay(0).url, "wss://one");
    assert_eq!(p.relay(1).url, "wss://two");
    p.add_subscription(sub("a", vec![kinds(&[1])]));
    assert_eq!(p.relay_count(), 2);
}

#[test]
fn default_event_and_subscription() {
    let e = Event::default();
    assert_eq!(e.kind, 1);
    assert_eq!(e.created_at, 0);
    assert!(e.id.is_none() && e.sig.is_none() && e.pubkey.is_none());
    assert!(e.tags.is_empty());
    assert_eq!(e.content, "");
    let s = Subscription::default();
    assert_eq!(s.id, "");
    assert!(s.filters.is_empty());
    let f = Filter::new();
    assert!(f.ids.is_none() && f.authors.is_none() && f.kinds.is_none());
}

#[test]
fn matches_are_removed_from_the_largest_position() {
    // The matches are noted as [1, 0]; they must be removed largest first.
    let mut p = RelayPool::new();
    p.add_subscription(sub("a", vec![kinds(&[2])]));
    p.add_subscription(sub("b", vec![kinds(&[1])]));
    p.add_subscription(sub("c", vec![kinds(&[1]), kinds(&[2]), kinds(&[3])]));
    let c = &p.subscriptions()[2];
    assert_eq!(c.filters.len(), 1);
    assert!(c.filters[0] == kinds(&[3]));
}

#[test]
fn can_add_subscription_reports_out_of_range_removals() {
    let mut p = RelayPool::new();
    p.add_subscription(sub("a", vec![kinds(&[1]), kinds(&[1]), kinds(&[1])]));
    // position 0 would be removed three times from a list of two filters
    assert!(!p.can_add_subscription(&sub("b", vec![kinds(&[1]), kinds(&[4])])));
    assert!(p.can_add_subscription(&sub("b", vec![kinds(&[1]), kinds(&[4]), kinds(&[5])])));
    assert!(p.can_add_subscription(&sub("b", vec![kinds(&[4])])));
}

#[test]
fn sending_to_relays_needs_every_relay_connected() {
    let mut p = RelayPool::new();
    let msg = ewebsock::WsMessage::Text("[\"REQ\",\"a\"]".to_string());
    assert!(p.send_to_relays(msg.clone()).is_ok());
    assert!(p.insert_relay(Relay::new("wss://one".to_string()).unwrap()).is_ok());
    assert!(matches!(p.send_to_relays(msg), Err(Error::NotConnected)));
    assert_eq!(p.relay_count(), 1);
}

#[test]
fn polling_relays_without_connections_gives_nothing() {
    let mut p = RelayPool::new();
    assert!(matches!(p.try_recv(), Ok(None)));
    assert!(p.insert_relay(Relay::new("wss://one".to_string()).unwrap()).is_ok());
    assert!(matches!(p.try_recv(), Ok(None)));
    assert_eq!(p.relay_count(), 1);
}
