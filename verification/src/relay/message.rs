use vstd::prelude::*;

use crate::event::Event;
use crate::filter::Filter;
use crate::relay::subscription::Subscription;

verus! {

/// The tag of an event message.
pub open spec fn tag_event() -> Seq<char> {
    seq!['E', 'V', 'E', 'N', 'T']
}

/// The tag of an acceptance report.
pub open spec fn tag_ok() -> Seq<char> {
    seq!['O', 'K']
}

/// The tag of an end-of-stored-events notice.
pub open spec fn tag_eose() -> Seq<char> {
    seq!['E', 'O', 'S', 'E']
}

/// The tag of a closed-subscription notice.
pub open spec fn tag_closed() -> Seq<char> {
    seq!['C', 'L', 'O', 'S', 'E', 'D']
}

/// The tag of a human-readable notice.
pub open spec fn tag_notice() -> Seq<char> {
    seq!['N', 'O', 'T', 'I', 'C', 'E']
}

/// The tag of a subscription request.
pub open spec fn tag_req() -> Seq<char> {
    seq!['R', 'E', 'Q']
}

/// The tag of a request to close a subscription.
pub open spec fn tag_close() -> Seq<char> {
    seq!['C', 'L', 'O', 'S', 'E']
}

/// A message from a relay to the client.
#[derive(Debug)]
pub enum RelayMessage {
    Event { subscription_id: String, event: Event },
    OK { event_id: String, accepted: bool, message: String },
    Eose { subscription_id: String },
    Closed { subscription_id: String, message: String },
    Notice { message: String },
}

/// One element of the JSON array that a relay sent, as read: a string, a
/// boolean, an event, or anything else.
#[derive(Debug)]
pub enum RelayElement {
    Text(String),
    Bool(bool),
    Event(Event),
    Other,
}

/// Why the elements of a relay's array are not a relay message.
#[derive(Debug)]
pub enum MessageError {
    /// The array ends before the element at this position.
    MissingElement(usize),
    /// The element at this position does not have the type its place needs.
    InvalidType(usize),
    /// The first element names no known message.
    UnknownTag(String),
    /// The array holds more elements than the message takes.
    TrailingElements,
}

/// The string at position `i`, or why there is none.
pub open spec fn text_at(elems: Seq<RelayElement>, i: int) -> Result<String, MessageError> {
    if i >= elems.len() {
        Err(MessageError::MissingElement(i as usize))
    } else {
        match elems[i] {
            RelayElement::Text(s) => Ok(s),
            _ => Err(MessageError::InvalidType(i as usize)),
        }
    }
}

/// The boolean at position `i`, or why there is none.
pub open spec fn bool_at(elems: Seq<RelayElement>, i: int) -> Result<bool, MessageError> {
    if i >= elems.len() {
        Err(MessageError::MissingElement(i as usize))
    } else {
        match elems[i] {
            RelayElement::Bool(b) => Ok(b),
            _ => Err(MessageError::InvalidType(i as usize)),
        }
    }
}

/// The event at position `i`, or why there is none.
pub open spec fn event_at(elems: Seq<RelayElement>, i: int) -> Result<Event, MessageError> {
    if i >= elems.len() {
        Err(MessageError::MissingElement(i as usize))
    } else {
        match elems[i] {
            RelayElement::Event(e) => Ok(e),
            _ => Err(MessageError::InvalidType(i as usize)),
        }
    }
}

/// The message, unless the array holds more than its `n` elements.
pub open spec fn complete(elems: Seq<RelayElement>, n: int, m: RelayMessage) -> Result<
    RelayMessage,
    MessageError,
> {
    if elems.len() > n {
        Err(MessageError::TrailingElements)
    } else {
        Ok(m)
    }
}

/// The relay message that an array's elements stand for. The first element
/// is the tag; the elements that the tag calls for are read in order, the
/// first missing or mistyped one being the error; an array longer than the
/// message is refused last.
pub open spec fn relay_message_of(elems: Seq<RelayElement>) -> Result<RelayMessage, MessageError> {
    match text_at(elems, 0) {
        Err(e) => Err(e),
        Ok(tag) => if tag@ == tag_event() {
            match text_at(elems, 1) {
                Err(e) => Err(e),
                Ok(subscription_id) => match event_at(elems, 2) {
                    Err(e) => Err(e),
                    Ok(event) => complete(
                        elems,
                        3,
                        RelayMessage::Event { subscription_id, event },
                    ),
                },
            }
        } else if tag@ == tag_ok() {
            match text_at(elems, 1) {
                Err(e) => Err(e),
                Ok(event_id) => match bool_at(elems, 2) {
                    Err(e) => Err(e),
                    Ok(accepted) => match text_at(elems, 3) {
                        Err(e) => Err(e),
                        Ok(message) => complete(
                            elems,
                            4,
                            RelayMessage::OK { event_id, accepted, message },
                        ),
                    },
                },
            }
        } else if tag@ == tag_eose() {
            match text_at(elems, 1) {
                Err(e) => Err(e),
                Ok(subscription_id) => complete(elems, 2, RelayMessage::Eose { subscription_id }),
            }
        } else if tag@ == tag_closed() {
            match text_at(elems, 1) {
                Err(e) => Err(e),
                Ok(subscription_id) => match text_at(elems, 2) {
                    Err(e) => Err(e),
                    Ok(message) => complete(
                        elems,
                        3,
                        RelayMessage::Closed { subscription_id, message },
                    ),
                },
            }
        } else if tag@ == tag_notice() {
            match text_at(elems, 1) {
                Err(e) => Err(e),
                Ok(message) => complete(elems, 2, RelayMessage::Notice { message }),
            }
        } else {
            Err(MessageError::UnknownTag(tag))
        }
    }
}

/// `elems` is the array that carries `m`: the tag of `m`, then each field
/// of `m` in order (the subscription id or event id first), each as the
/// element of its type, and nothing more.
pub open spec fn relay_frame(m: RelayMessage, elems: Seq<RelayElement>) -> bool {
    match m {
        RelayMessage::Event { subscription_id, event } => {
            &&& elems.len() == 3
            &&& elems[0] matches RelayElement::Text(t) && t@ == tag_event()
            &&& elems[1] == RelayElement::Text(subscription_id)
            &&& elems[2] == RelayElement::Event(event)
        },
        RelayMessage::OK { event_id, accepted, message } => {
            &&& elems.len() == 4
            &&& elems[0] matches RelayElement::Text(t) && t@ == tag_ok()
            &&& elems[1] == RelayElement::Text(event_id)
            &&& elems[2] == RelayElement::Bool(accepted)
            &&& elems[3] == RelayElement::Text(message)
        },
        RelayMessage::Eose { subscription_id } => {
            &&& elems.len() == 2
            &&& elems[0] matches RelayElement::Text(t) && t@ == tag_eose()
            &&& elems[1] == RelayElement::Text(subscription_id)
        },
        RelayMessage::Closed { subscription_id, message } => {
            &&& elems.len() == 3
            &&& elems[0] matches RelayElement::Text(t) && t@ == tag_closed()
            &&& elems[1] == RelayElement::Text(subscription_id)
            &&& elems[2] == RelayElement::Text(message)
        },
        RelayMessage::Notice { message } => {
            &&& elems.len() == 2
            &&& elems[0] matches RelayElement::Text(t) && t@ == tag_notice()
            &&& elems[1] == RelayElement::Text(message)
        },
    }
}

/// The tags of relay messages are all different.
proof fn lemma_relay_tags_differ()
    ensures
        tag_event() != tag_ok(),
        tag_event() != tag_eose(),
        tag_event() != tag_closed(),
        tag_event() != tag_notice(),
        tag_ok() != tag_eose(),
        tag_ok() != tag_closed(),
        tag_ok() != tag_notice(),
        tag_eose() != tag_closed(),
        tag_eose() != tag_notice(),
        tag_closed() != tag_notice(),
{
    assert(tag_event().len() == 5);
    assert(tag_ok().len() == 2);
    assert(tag_eose().len() == 4);
    assert(tag_closed().len() == 6);
    assert(tag_notice().len() == 6);
    assert(tag_closed()[0] != tag_notice()[0]);
}

/// Reading a relay's array gives back exactly the message it carries: the
/// elements read as `m` exactly when they are the tag of `m` followed by
/// its fields, each unchanged (an OK's boolean among them), and nothing
/// more.
pub proof fn lemma_relay_message_read_exactly(m: RelayMessage, elems: Seq<RelayElement>)
    ensures
        relay_message_of(elems) == Ok::<RelayMessage, MessageError>(m) <==> relay_frame(m, elems),
{
    lemma_relay_tags_differ();
}

/// Takes the element at position `index` of `elems`, the first of the
/// remaining ones, as a string.
fn take_text(rest: &mut Vec<RelayElement>, index: usize, Ghost(elems): Ghost<Seq<RelayElement>>) -> (res:
    Result<String, MessageError>)
    requires
        index <= elems.len(),
        old(rest)@ == elems.skip(index as int),
    ensures
        res == text_at(elems, index as int),
        res is Ok ==> final(rest)@ == elems.skip(index + 1),
{
    if rest.len() == 0 {
        return Err(MessageError::MissingElement(index));
    }
    assert(elems.skip(index + 1) =~= rest@.drop_first());
    match rest.remove(0) {
        RelayElement::Text(s) => Ok(s),
        _ => Err(MessageError::InvalidType(index)),
    }
}

/// Takes the element at position `index` of `elems` as a boolean.
fn take_bool(rest: &mut Vec<RelayElement>, index: usize, Ghost(elems): Ghost<Seq<RelayElement>>) -> (res:
    Result<bool, MessageError>)
    requires
        index <= elems.len(),
        old(rest)@ == elems.skip(index as int),
    ensures
        res == bool_at(elems, index as int),
        res is Ok ==> final(rest)@ == elems.skip(index + 1),
{
    if rest.len() == 0 {
        return Err(MessageError::MissingElement(index));
    }
    assert(elems.skip(index + 1) =~= rest@.drop_first());
    match rest.remove(0) {
        RelayElement::Bool(b) => Ok(b),
        _ => Err(MessageError::InvalidType(index)),
    }
}

/// Takes the element at position `index` of `elems` as an event.
fn take_event(rest: &mut Vec<RelayElement>, index: usize, Ghost(elems): Ghost<Seq<RelayElement>>) -> (res:
    Result<Event, MessageError>)
    requires
        index <= elems.len(),
        old(rest)@ == elems.skip(index as int),
    ensures
        res == event_at(elems, index as int),
        res is Ok ==> final(rest)@ == elems.skip(index + 1),
{
    if rest.len() == 0 {
        return Err(MessageError::MissingElement(index));
    }
    assert(elems.skip(index + 1) =~= rest@.drop_first());
    match rest.remove(0) {
        RelayElement::Event(e) => Ok(e),
        _ => Err(MessageError::InvalidType(index)),
    }
}

/// The message, unless elements remain after it.
fn finish(rest: &Vec<RelayElement>, m: RelayMessage, Ghost(elems): Ghost<Seq<RelayElement>>, Ghost(n): Ghost<int>) -> (res:
    Result<RelayMessage, MessageError>)
    requires
        0 <= n <= elems.len(),
        rest@ == elems.skip(n),
    ensures
        res == complete(elems, n, m),
{
    if rest.len() > 0 {
        Err(MessageError::TrailingElements)
    } else {
        Ok(m)
    }
}

/// Whether `s` holds exactly the characters of `lit`.
fn text_is(s: &String, lit: &str) -> (b: bool)
    ensures
        b == (s@ == lit@),
{
    let t = lit.to_owned();
    *s == t
}

impl RelayMessage {
    /// Reads a relay message from the elements of the JSON array a relay
    /// sent.
    pub fn from_elements(elems: Vec<RelayElement>) -> (res: Result<RelayMessage, MessageError>)
        ensures
            res == relay_message_of(elems@),
    {
        let ghost all = elems@;
        let mut rest = elems;
        assert(all.skip(0) =~= all);
        let tag = match take_text(&mut rest, 0, Ghost(all)) {
            Ok(t) => t,
            Err(e) => return Err(e),
        };
        proof {
            reveal_strlit("EVENT");
            reveal_strlit("OK");
            reveal_strlit("EOSE");
            reveal_strlit("CLOSED");
            reveal_strlit("NOTICE");
            assert("EVENT"@ =~= tag_event());
            assert("OK"@ =~= tag_ok());
            assert("EOSE"@ =~= tag_eose());
            assert("CLOSED"@ =~= tag_closed());
            assert("NOTICE"@ =~= tag_notice());
        }
        if text_is(&tag, "EVENT") {
            let subscription_id = match take_text(&mut rest, 1, Ghost(all)) {
                Ok(t) => t,
                Err(e) => return Err(e),
            };
            let event = match take_event(&mut rest, 2, Ghost(all)) {
                Ok(e) => e,
                Err(e) => return Err(e),
            };
            finish(&rest, RelayMessage::Event { subscription_id, event }, Ghost(all), Ghost(3))
        } else if text_is(&tag, "OK") {
            let event_id = match take_text(&mut rest, 1, Ghost(all)) {
                Ok(t) => t,
                Err(e) => return Err(e),
            };
            let accepted = match take_bool(&mut rest, 2, Ghost(all)) {
                Ok(b) => b,
                Err(e) => return Err(e),
            };
            let message = match take_text(&mut rest, 3, Ghost(all)) {
                Ok(t) => t,
                Err(e) => return Err(e),
            };
            finish(&rest, RelayMessage::OK { event_id, accepted, message }, Ghost(all), Ghost(4))
        } else if text_is(&tag, "EOSE") {
            let subscription_id = match take_text(&mut rest, 1, Ghost(all)) {
                Ok(t) => t,
                Err(e) => return Err(e),
            };
            finish(&rest, RelayMessage::Eose { subscription_id }, Ghost(all), Ghost(2))
        } else if text_is(&tag, "CLOSED") {
            let subscription_id = match take_text(&mut rest, 1, Ghost(all)) {
                Ok(t) => t,
                Err(e) => return Err(e),
            };
            let message = match take_text(&mut rest, 2, Ghost(all)) {
                Ok(t) => t,
                Err(e) => return Err(e),
            };
            finish(&rest, RelayMessage::Closed { subscription_id, message }, Ghost(all), Ghost(3))
        } else if text_is(&tag, "NOTICE") {
            let message = match take_text(&mut rest, 1, Ghost(all)) {
                Ok(t) => t,
                Err(e) => return Err(e),
            };
            finish(&rest, RelayMessage::Notice { message }, Ghost(all), Ghost(2))
        } else {
            Err(MessageError::UnknownTag(tag))
        }
    }
}

/// A message from the client to a relay.
#[derive(Debug)]
pub enum ClientMessage {
    Event { event: Event },
    Req { subscription_id: String, filters: Vec<Filter> },
    Close { subscription_id: String },
}

/// One element of the JSON array that carries a client message.
#[derive(Debug)]
pub enum ClientElement {
    Text(String),
    Event(Event),
    Filter(Filter),
}

/// `out` is the array that carries `m`: its tag, then for an event the
/// event, for a request the subscription id and each filter in order, for a
/// close the subscription id.
pub open spec fn client_frame(m: ClientMessage, out: Seq<ClientElement>) -> bool {
    match m {
        ClientMessage::Event { event } => {
            &&& out.len() == 2
            &&& out[0] matches ClientElement::Text(t) && t@ == tag_event()
            &&& out[1] == ClientElement::Event(event)
        },
        ClientMessage::Req { subscription_id, filters } => {
            &&& out.len() == 2 + filters@.len()
            &&& out[0] matches ClientElement::Text(t) && t@ == tag_req()
            &&& out[1] == ClientElement::Text(subscription_id)
            &&& forall|i: int|
                0 <= i < filters@.len() ==> #[trigger] out[2 + i] == ClientElement::Filter(
                    filters@[i],
                )
        },
        ClientMessage::Close { subscription_id } => {
            &&& out.len() == 2
            &&& out[0] matches ClientElement::Text(t) && t@ == tag_close()
            &&& out[1] == ClientElement::Text(subscription_id)
        },
    }
}

/// An event goes to a relay whole: the element after the `EVENT` tag is
/// the event given, with its id, signature, author, kind, time, tags and
/// content as they were.
pub proof fn lemma_event_frame_is_the_event(event: Event, out: Seq<ClientElement>)
    requires
        client_frame(ClientMessage::Event { event }, out),
    ensures
        out.len() == 2,
        out[1] == ClientElement::Event(event),
        out[1] matches ClientElement::Event(e) && e.id == event.id && e.sig == event.sig
            && e.pubkey == event.pubkey && e.kind == event.kind && e.created_at
            == event.created_at && e.tags == event.tags && e.content == event.content,
{
}

/// The fields that a client message carries agree with those of another:
/// the same kind of message with the same event, or the same subscription
/// id and filters.
pub open spec fn same_client_message(a: ClientMessage, b: ClientMessage) -> bool {
    match (a, b) {
        (ClientMessage::Event { event: e1 }, ClientMessage::Event { event: e2 }) => e1 == e2,
        (
            ClientMessage::Req { subscription_id: s1, filters: f1 },
            ClientMessage::Req { subscription_id: s2, filters: f2 },
        ) => s1 == s2 && f1@ == f2@,
        (ClientMessage::Close { subscription_id: s1 }, ClientMessage::Close { subscription_id: s2 }) => s1
            == s2,
        _ => false,
    }
}

/// An array carries at most one client message: two messages framed as the
/// same elements have the same kind and the same content, so nothing of a
/// message (an event's id or signature among it) is lost in its frame.
pub proof fn lemma_client_frame_keeps_everything(a: ClientMessage, b: ClientMessage, out: Seq<ClientElement>)
    requires
        client_frame(a, out),
        client_frame(b, out),
    ensures
        same_client_message(a, b),
{
    assert(tag_event() != tag_req()) by {
        assert(tag_event().len() == 5);
        assert(tag_req().len() == 3);
    }
    assert(tag_event() != tag_close()) by {
        assert(tag_event()[0] != tag_close()[0]);
    }
    assert(tag_req() != tag_close()) by {
        assert(tag_req().len() == 3);
        assert(tag_close().len() == 5);
    }
    match (a, b) {
        (
            ClientMessage::Req { subscription_id: s1, filters: f1 },
            ClientMessage::Req { subscription_id: s2, filters: f2 },
        ) => {
            assert forall|i: int| 0 <= i < f1@.len() implies f1@[i] == f2@[i] by {
                assert(out[2 + i] == ClientElement::Filter(f1@[i]));
                assert(out[2 + i] == ClientElement::Filter(f2@[i]));
            }
            assert(f1@ =~= f2@);
        },
        _ => {},
    }
}

impl ClientMessage {
    /// The elements of the JSON array that carries this message.
    pub fn into_elements(self) -> (out: Vec<ClientElement>)
        ensures
            client_frame(self, out@),
    {
        proof {
            reveal_strlit("EVENT");
            reveal_strlit("REQ");
            reveal_strlit("CLOSE");
            assert("EVENT"@ =~= tag_event());
            assert("REQ"@ =~= tag_req());
            assert("CLOSE"@ =~= tag_close());
        }
        match self {
            ClientMessage::Event { event } => {
                let mut out = Vec::new();
                out.push(ClientElement::Text("EVENT".to_owned()));
                out.push(ClientElement::Event(event));
                out
            },
            ClientMessage::Req { subscription_id, filters } => {
                let ghost fs = filters@;
                let n = filters.len();
                let mut out = Vec::new();
                out.push(ClientElement::Text("REQ".to_owned()));
                out.push(ClientElement::Text(subscription_id));
                let mut rest = filters;
                let mut k: usize = 0;
                assert(fs.skip(0) =~= fs);
                while rest.len() > 0
                    invariant
                        k <= fs.len(),
                        fs.len() == n,
                        rest@ == fs.skip(k as int),
                        out@.len() == 2 + k,
                        out@[0] matches ClientElement::Text(t) && t@ == tag_req(),
                        out@[1] == ClientElement::Text(subscription_id),
                        forall|i: int|
                            0 <= i < k ==> #[trigger] out@[2 + i] == ClientElement::Filter(fs[i]),
                    decreases rest.len(),
                {
                    let f = rest.remove(0);
                    assert(fs.skip(k + 1) =~= rest@);
                    out.push(ClientElement::Filter(f));
                    k = k + 1;
                }
                out
            },
            ClientMessage::Close { subscription_id } => {
                let mut out = Vec::new();
                out.push(ClientElement::Text("CLOSE".to_owned()));
                out.push(ClientElement::Text(subscription_id));
                out
            },
        }
    }
}

impl From<Subscription> for ClientMessage {
    /// A request for the subscription's filters under its id.
    fn from(sub: Subscription) -> (m: ClientMessage) {
        ClientMessage::Req { subscription_id: sub.id, filters: sub.filters }
    }
}

impl vstd::std_specs::convert::FromSpecImpl<Subscription> for ClientMessage {
    open spec fn obeys_from_spec() -> bool {
        true
    }

    open spec fn from_spec(sub: Subscription) -> ClientMessage {
        ClientMessage::Req { subscription_id: sub.id, filters: sub.filters }
    }
}

/// A subscription goes to a relay as a request: the tag `REQ`, the
/// subscription's id, then each of its filters in order.
pub proof fn lemma_subscription_request(sub: Subscription, out: Seq<ClientElement>)
    requires
        client_frame(
            <ClientMessage as vstd::std_specs::convert::FromSpec<Subscription>>::from_spec(sub),
            out,
        ),
    ensures
        out.len() == 2 + sub.filters@.len(),
        out[0] matches ClientElement::Text(t) && t@ == tag_req(),
        out[1] == ClientElement::Text(sub.id),
        forall|i: int|
            0 <= i < sub.filters@.len() ==> #[trigger] out[2 + i] == ClientElement::Filter(
                sub.filters@[i],
            ),
{
}

} // verus!
