use enostr::relay::message::{ClientElement, ClientMessage, MessageError, RelayElement, RelayMessage};
use enostr::relay::Subscription;
use enostr::{Event, Filter};

fn text(s: &str) -> RelayElement {
    RelayElement::Text(s.to_string())
}

fn note(content: &str) -> Event {
    let mut e = Event::default();
    e.content = content.to_string();
    e
}

#[test]
fn event_message() {
    let m = RelayMessage::from_elements(vec![
        text("EVENT"),
        text("sub1"),
        RelayElement::Event(note("hi")),
    ])
    .unwrap();
    match m {
        RelayMessage::Event { subscription_id, event } => {
            assert_eq!(subscription_id, "sub1");
            assert_eq!(event.content, "hi");
        }
        other => panic!("unexpected {:?}", other),
    }
}

#[test]
fn ok_message() {
    let m = RelayMessage::from_elements(vec![
        text("OK"),
        text("abc"),
        RelayElement::Bool(true),
        text("saved"),
    ])
    .unwrap();
    match m {
        RelayMessage::OK { event_id, accepted, message } => {
            assert_eq!(event_id, "abc");
            assert!(accepted);
            assert_eq!(message, "saved");
        }
        other => panic!("unexpected {:?}", other),
    }
}

#[test]
fn eose_closed_notice_messages() {
    assert!(matches!(
        RelayMessage::from_elements(vec![text("EOSE"), text("s")]),
        Ok(RelayMessage::Eose { subscription_id }) if subscription_id == "s"
    ));
    assert!(matches!(
        RelayMessage::from_elements(vec![text("CLOSED"), text("s"), text("bye")]),
        Ok(RelayMessage::Closed { subscription_id, message }) if subscription_id == "s" && message == "bye"
    ));
    assert!(matches!(
        RelayMessage::from_elements(vec![text("NOTICE"), text("hello")]),
        Ok(RelayMessage::Notice { message }) if message == "hello"
    ));
}

#[test]
fn empty_array_misses_the_tag() {
    assert!(matches!(
        RelayMessage::from_elements(vec![]),
        Err(MessageError::MissingElement(0))
    ));
}

#[test]
fn tag_must_be_text() {
    assert!(matches!(
        RelayMessage::from_elements(vec![RelayElement::Bool(true)]),
        Err(MessageError::InvalidType(0))
    ));
}

#[test]
fn unknown_tag() {
    assert!(matches!(
        RelayMessage::from_elements(vec![text("AUTH"), text("x")]),
        Err(MessageError::UnknownTag(t)) if t == "AUTH"
    ));
}

#[test]
fn missing_and_mistyped_elements() {
    assert!(matches!(
        RelayMessage::from_elements(vec![text("EVENT"), text("s")]),
        Err(MessageError::MissingElement(2))
    ));
    assert!(matches!(
        RelayMessage::from_elements(vec![text("EVENT"), text("s"), text("not an event")]),
        Err(MessageError::InvalidType(2))
    ));
    assert!(matches!(
        RelayMessage::from_elements(vec![text("OK"), text("id"), text("true"), text("m")]),
        Err(MessageError::InvalidType(2))
    ));
    assert!(matches!(
        RelayMessage::from_elements(vec![text("OK"), text("id"), RelayElement::Bool(false)]),
        Err(MessageError::MissingElement(3))
    ));
    assert!(matches!(
        RelayMessage::from_elements(vec![text("CLOSED"), RelayElement::Other, text("m")]),
        Err(MessageError::InvalidType(1))
    ));
}

#[test]
fn trailing_elements_are_refused() {
    assert!(matches!(
        RelayMessage::from_elements(vec![text("EOSE"), text("s"), text("extra")]),
        Err(MessageError::TrailingElements)
    ));
    assert!(matches!(
        RelayMessage::from_elements(vec![text("NOTICE"), text("a"), RelayElement::Other]),
        Err(MessageError::TrailingElements)
    ));
}

#[test]
fn request_frame() {
    let mut f = Filter::new();
    f.kinds = Some(vec![1, 7]);
    let sub = Subscription { id: "sub".to_string(), filters: vec![Filter::new(), f] };
    let m: ClientMessage = sub.into();
    let out = m.into_elements();
    assert_eq!(out.len(), 4);
    assert!(matches!(&out[0], ClientElement::Text(t) if t == "REQ"));
    assert!(matches!(&out[1], ClientElement::Text(t) if t == "sub"));
    assert!(matches!(&out[2], ClientElement::Filter(g) if g.kinds.is_none()));
    assert!(matches!(&out[3], ClientElement::Filter(g) if g.kinds == Some(vec![1, 7])));
}

#[test]
fn event_and_close_frames() {
    let out = ClientMessage::Event { event: note("x") }.into_elements();
    assert_eq!(out.len(), 2);
    assert!(matches!(&out[0], ClientElement::Text(t) if t == "EVENT"));
    assert!(matches!(&out[1], ClientElement::Event(e) if e.content == "x"));
    let out = ClientMessage::Close { subscription_id: "s".to_string() }.into_elements();
    assert_eq!(out.len(), 2);
    assert!(matches!(&out[0], ClientElement::Text(t) if t == "CLOSE"));
    assert!(matches!(&out[1], ClientElement::Text(t) if t == "s"));
}
