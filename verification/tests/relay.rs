use enostr::error::{DbError, Error};
use enostr::relay::{deliverable, IncomingEvent};
use enostr::relay::{Relay, RelayStats, RelayStatus};

#[test]
fn insecure_url_is_refused() {
    match Relay::new("ws://relay.example.com".to_string()) {
        Err(Error::InsecureConnection) => {}
        Err(e) => panic!("unexpected error {:?}", e),
        Ok(_) => panic!("ws:// accepted"),
    }
}

#[test]
fn secure_url_gives_a_disconnected_relay() {
    let r = Relay::new("wss://relay.example.com".to_string()).unwrap();
    assert_eq!(r.url, "wss://relay.example.com");
    assert_eq!(r.url(), "wss://relay.example.com");
    assert_eq!(r.status, RelayStatus::Disconnected);
    assert_eq!(r.stats.attempts, 0);
    assert_eq!(r.stats.success, 0);
    assert!(r.stats.connected_at.is_none());
}

#[test]
fn short_and_other_urls_are_accepted() {
    assert!(Relay::new("ws:/".to_string()).is_ok());
    assert!(Relay::new("".to_string()).is_ok());
    assert!(Relay::new("WS://x".to_string()).is_ok());
}

#[test]
fn start_connect_counts_an_attempt() {
    let mut r = Relay::new("wss://a".to_string()).unwrap();
    r.start_connect();
    r.start_connect();
    assert_eq!(r.status, RelayStatus::Connecting);
    assert_eq!(r.stats.attempts, 2);
    assert_eq!(r.stats.success, 0);
}

#[test]
fn unconnected_relay_cannot_send_or_receive() {
    let mut r = Relay::new("wss://a".to_string()).unwrap();
    assert!(matches!(r.sender(), Err(Error::NotConnected)));
    assert!(matches!(r.receiver(), Err(Error::NotConnected)));
    r.start_connect();
    assert!(matches!(r.sender(), Err(Error::NotConnected)));
}

#[test]
fn connected_status_without_writer_sends_nothing() {
    let mut r = Relay::new("wss://a".to_string()).unwrap();
    r.status = RelayStatus::Connected;
    assert!(matches!(r.sender(), Ok(None)));
}

#[test]
fn stats_counting() {
    let mut s = RelayStats::new();
    s.add_attempt();
    assert_eq!(s.attempts, 1);
    assert!(s.first_connect_time.is_none());
    s.add_success();
    assert_eq!(s.success, 1);
    let first = s.first_connect_time;
    assert!(first.is_some());
    assert!(s.connected_at.is_some());
    s.add_success();
    assert_eq!(s.success, 2);
    assert_eq!(s.first_connect_time, first);
    assert_eq!(s.attempts, 1);
}

#[test]
fn only_text_messages_are_delivered() {
    assert_eq!(
        deliverable(Ok(Some(IncomingEvent::Text("[\"EOSE\",\"s\"]".to_string())))),
        Some("[\"EOSE\",\"s\"]".to_string())
    );
    assert_eq!(deliverable(Ok(Some(IncomingEvent::Binary(vec![1])))), None);
    assert_eq!(deliverable(Ok(Some(IncomingEvent::Opened))), None);
    assert_eq!(deliverable(Ok(None)), None);
    assert_eq!(deliverable(Err(Error::NotConnected)), None);
    assert!(DbError::NotFound.asks_relays());
    assert!(!DbError::DecodeError.asks_relays());
}

#[test]
fn start_connect_keeps_other_statistics() {
    let mut r = Relay::new("wss://a".to_string()).unwrap();
    r.stats.bytes_sent = 7;
    r.stats.add_success();
    let first = r.stats.first_connect_time;
    let at = r.stats.connected_at;
    r.start_connect();
    assert_eq!(r.stats.bytes_sent, 7);
    assert_eq!(r.stats.success, 1);
    assert_eq!(r.stats.first_connect_time, first);
    assert_eq!(r.stats.connected_at, at);
}

#[test]
fn sender_keeps_statistics() {
    let mut r = Relay::new("wss://a".to_string()).unwrap();
    r.start_connect();
    let _ = r.sender();
    assert_eq!(r.stats.attempts, 1);
    assert_eq!(r.status, RelayStatus::Connecting);
}

#[test]
fn repeated_successes_keep_first_time() {
    let mut s = RelayStats::new();
    s.add_success();
    let first = s.first_connect_time;
    for k in 2..5 {
        s.add_success();
        assert_eq!(s.success, k);
        assert_eq!(s.first_connect_time, first);
    }
}

#[test]
fn record_success_keeps_the_readings_given() {
    let t0 = std::time::Instant::now();
    let t1 = t0 + std::time::Duration::from_secs(1);
    let t2 = t0 + std::time::Duration::from_secs(2);
    let t3 = t0 + std::time::Duration::from_secs(3);
    let mut s = RelayStats::new();
    s.record_success(t0, t1);
    assert_eq!(s.success, 1);
    assert_eq!(s.first_connect_time, Some(t0));
    assert_eq!(s.connected_at, Some(t1));
    s.record_success(t2, t3);
    assert_eq!(s.success, 2);
    assert_eq!(s.first_connect_time, Some(t0));
    assert_eq!(s.connected_at, Some(t3));
    assert_eq!(s.attempts, 0);
}

#[test]
fn later_successes_refresh_the_connection_time() {
    let mut s = RelayStats::new();
    s.add_success();
    let first_at = s.connected_at.unwrap();
    while std::time::Instant::now() <= first_at {}
    s.add_success();
    assert!(s.connected_at.unwrap() > first_at);
    assert!(s.first_connect_time.unwrap() <= first_at);
}

#[test]
fn getters_show_status_and_statistics() {
    let mut r = Relay::new("wss://a".to_string()).unwrap();
    assert_eq!(r.status(), RelayStatus::Disconnected);
    r.start_connect();
    assert_eq!(r.status(), RelayStatus::Connecting);
    assert_eq!(r.stats().attempts, 1);
    assert_eq!(r.stats().success, 0);
}

#[test]
fn a_relay_without_connection_neither_sends_nor_receives() {
    let mut r = Relay::new("wss://a".to_string()).unwrap();
    let msg = ewebsock::WsMessage::Text("hello".to_string());
    assert!(matches!(r.send(msg.clone()), Err(Error::NotConnected)));
    assert!(matches!(r.try_recv(), Err(Error::NotConnected)));
    r.status = RelayStatus::Connected;
    assert!(r.send(msg).is_ok());
    assert_eq!(r.stats.attempts, 0);
}
