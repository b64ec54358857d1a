pub mod message;
pub mod pool;
pub mod stats;
pub mod subscription;

pub use pool::RelayPool;
pub use stats::RelayStats;
use stats::{attempt_counted, lemma_recorded_is_counted, now, success_counted, success_recorded};
use std::time::Instant;
pub use subscription::Subscription;

use ewebsock::{WsEvent, WsMessage, WsReceiver, WsSender};
use vstd::prelude::*;

use crate::error::Error;
use crate::Result;

verus! {

/// The sending half of a websocket connection; carried, never inspected.
#[verifier::external_type_specification]
#[verifier::external_body]
pub struct ExWsSender(WsSender);

/// The receiving half of a websocket connection; carried, never inspected.
#[verifier::external_type_specification]
#[verifier::external_body]
pub struct ExWsReceiver(WsReceiver);

/// A websocket message: binary, text, of unknown type, ping or pong, with
/// its content.
#[verifier::external_type_specification]
pub struct ExWsMessage(WsMessage);

/// Calls `WsSender::send`, which hands `msg` to the connection when it is
/// open; nothing is promised of the sending half afterwards.
#[verifier::external_body]
fn send_message(write: &mut WsSender, msg: WsMessage) {
    write.send(msg)
}

/// Calls `Clone::clone` on a message: a copy of it to send.
#[verifier::external_body]
pub(crate) fn clone_message(msg: &WsMessage) -> WsMessage {
    msg.clone()
}

/// An event of a websocket connection: opened, a message, an error or
/// closed.
#[verifier::external_type_specification]
pub struct ExWsEvent(WsEvent);

/// Calls `WsReceiver::try_recv`: the next event that has arrived, if any;
/// what has arrived is not known here.
#[verifier::external_body]
fn poll_receiver(recv: &WsReceiver) -> Option<WsEvent> {
    recv.try_recv()
}

/// The library's form of a websocket event: each kind of event and of
/// message becomes the variant of the same name, with the same content.
pub open spec fn event_of(event: WsEvent) -> IncomingEvent {
    match event {
        WsEvent::Opened => IncomingEvent::Opened,
        WsEvent::Message(WsMessage::Text(t)) => IncomingEvent::Text(t),
        WsEvent::Message(WsMessage::Binary(b)) => IncomingEvent::Binary(b),
        WsEvent::Message(WsMessage::Unknown(u)) => IncomingEvent::Unknown(u),
        WsEvent::Message(WsMessage::Ping(p)) => IncomingEvent::Ping(p),
        WsEvent::Message(WsMessage::Pong(p)) => IncomingEvent::Pong(p),
        WsEvent::Error(e) => IncomingEvent::Error(e),
        WsEvent::Closed => IncomingEvent::Closed,
    }
}

/// No websocket event is lost in the library's form of it: two events that
/// give the same library event are the same event, of the same kind and
/// with the same content.
pub proof fn lemma_event_of_keeps_everything(a: WsEvent, b: WsEvent)
    requires
        event_of(a) == event_of(b),
    ensures
        a == b,
{
}

/// The library's form of a websocket event (see `event_of`).
pub fn incoming_event(event: WsEvent) -> (ev: IncomingEvent)
    ensures
        ev == event_of(event),
{
    match event {
        WsEvent::Opened => IncomingEvent::Opened,
        WsEvent::Message(WsMessage::Text(t)) => IncomingEvent::Text(t),
        WsEvent::Message(WsMessage::Binary(b)) => IncomingEvent::Binary(b),
        WsEvent::Message(WsMessage::Unknown(u)) => IncomingEvent::Unknown(u),
        WsEvent::Message(WsMessage::Ping(p)) => IncomingEvent::Ping(p),
        WsEvent::Message(WsMessage::Pong(p)) => IncomingEvent::Pong(p),
        WsEvent::Error(e) => IncomingEvent::Error(e),
        WsEvent::Closed => IncomingEvent::Closed,
    }
}

/// Calls `str::starts_with` with a string pattern: true exactly when the
/// characters of `prefix` begin `s`.
#[verifier::external_body]
fn str_starts_with(s: &str, prefix: &str) -> (b: bool)
    ensures
        b == (prefix@.len() <= s@.len() && s@.subrange(0, prefix@.len() as int) == prefix@),
{
    s.starts_with(prefix)
}

/// A url of the plain, unencrypted websocket scheme.
pub open spec fn is_insecure_url(url: Seq<char>) -> bool {
    url.len() >= 5 && url.subrange(0, 5) == seq!['w', 's', ':', '/', '/']
}

/// Where a relay's connection stands.
#[derive(Debug, Clone, Copy, PartialEq, Eq, Structural)]
pub enum RelayStatus {
    Connected,
    Connecting,
    Disconnected,
}

/// What a relay's receiving half can give: the connection opened, a
/// message of some kind, an error, or the connection closed.
#[derive(Debug)]
pub enum IncomingEvent {
    Opened,
    Text(String),
    Binary(Vec<u8>),
    Unknown(String),
    Ping(Vec<u8>),
    Pong(Vec<u8>),
    Error(String),
    Closed,
}

/// The text that polling a relay delivers: the text of a text message that
/// was received; nothing for an error, for no event, or for any other event.
pub open spec fn delivered_text(received: Result<Option<IncomingEvent>>) -> Option<String> {
    match received {
        Ok(Some(IncomingEvent::Text(t))) => Some(t),
        _ => None,
    }
}

/// What polling a relay delivers to the pool (see `delivered_text`).
pub fn deliverable(received: Result<Option<IncomingEvent>>) -> (text: Option<String>)
    ensures
        text == delivered_text(received),
{
    match received {
        Ok(Some(IncomingEvent::Text(t))) => Some(t),
        _ => None,
    }
}

/// A relay: its url, its connection and its statistics.
pub struct Relay {
    pub url: String,
    write: Option<WsSender>,
    recieve: Option<WsReceiver>,
    pub status: RelayStatus,
    pub stats: RelayStats,
}

/// What can be said of a relay: its url, status and statistics, and which
/// halves of a connection it holds.
pub struct RelayView {
    pub url: Seq<char>,
    pub status: RelayStatus,
    pub stats: RelayStats,
    pub has_writer: bool,
    pub has_receiver: bool,
}

impl View for Relay {
    type V = RelayView;

    closed spec fn view(&self) -> RelayView {
        RelayView {
            url: self.url@,
            status: self.status,
            stats: self.stats,
            has_writer: self.write is Some,
            has_receiver: self.recieve is Some,
        }
    }
}

/// `new` is `old` as a connection starts: connecting, with one more
/// attempt counted and everything else kept.
pub open spec fn connect_started(old: RelayView, new: RelayView) -> bool {
    &&& new.status == RelayStatus::Connecting
    &&& attempt_counted(old.stats, new.stats)
    &&& new.url == old.url
    &&& new.has_writer == old.has_writer
    &&& new.has_receiver == old.has_receiver
}

/// `new` is `old` once a connection is made: connected, holding both
/// halves, with one more success counted and the url kept.
pub open spec fn connect_completed(old: RelayView, new: RelayView) -> bool {
    &&& new.status == RelayStatus::Connected
    &&& success_counted(old.stats, new.stats)
    &&& new.url == old.url
    &&& new.has_writer
    &&& new.has_receiver
}

/// `new` is `old` once a connection is made at the clock readings `first`
/// and `at`: connected, holding both halves, with the success recorded from
/// those readings (see `success_recorded`) and the url kept.
pub open spec fn connect_recorded(old: RelayView, new: RelayView, first: Instant, at: Instant) -> bool {
    &&& new.status == RelayStatus::Connected
    &&& success_recorded(old.stats, new.stats, first, at)
    &&& new.url == old.url
    &&& new.has_writer
    &&& new.has_receiver
}

/// What one call that connects does to a relay: it starts the connection,
/// and then either fails there or completes it.
pub open spec fn connect_step(before: RelayView, after: RelayView) -> bool {
    ||| connect_started(before, after)
    ||| exists|mid: RelayView| #[trigger] connect_started(before, mid) && connect_completed(mid, after)
}

/// The status and statistics of a relay agree: successes are counted
/// between zero and the attempts, a connected relay has succeeded, a relay
/// that is not disconnected has tried, and the time of the first connection
/// is recorded exactly when there has been a success.
pub open spec fn connection_consistent(r: RelayView) -> bool {
    &&& 0 <= r.stats.success
    &&& r.stats.success <= r.stats.attempts
    &&& r.status == RelayStatus::Connected ==> r.stats.success >= 1
    &&& r.status != RelayStatus::Disconnected ==> r.stats.attempts >= 1
    &&& (r.stats.success >= 1 <==> r.stats.first_connect_time is Some)
}

/// A relay that `Relay::new` gives is consistent.
pub proof fn lemma_new_relay_consistent(r: RelayView)
    requires
        r.status == RelayStatus::Disconnected,
        r.stats.is_fresh(),
    ensures
        connection_consistent(r),
{
}

/// A connect that fails after starting keeps a relay consistent.
pub proof fn lemma_failed_connect_consistent(before: RelayView, after: RelayView)
    requires
        connection_consistent(before),
        connect_started(before, after),
    ensures
        connection_consistent(after),
{
}

/// A connect that starts and then succeeds keeps a relay consistent.
pub proof fn lemma_connect_consistent(before: RelayView, started: RelayView, after: RelayView)
    requires
        connection_consistent(before),
        connect_started(before, started),
        connect_completed(started, after),
    ensures
        connection_consistent(after),
{
}

/// From a new relay, any sequence of connects, each failing or succeeding,
/// keeps the relay consistent after every one of them.
pub proof fn lemma_connects_consistent(states: Seq<RelayView>)
    requires
        states.len() >= 1,
        states[0].status == RelayStatus::Disconnected,
        states[0].stats.is_fresh(),
        forall|i: int| 0 <= i < states.len() - 1 ==> #[trigger] connect_step(states[i], states[i + 1]),
    ensures
        forall|k: int| 0 <= k < states.len() ==> #[trigger] connection_consistent(states[k]),
    decreases states.len(),
{
    if states.len() == 1 {
        lemma_new_relay_consistent(states[0]);
    } else {
        let prefix = states.drop_last();
        assert forall|i: int| 0 <= i < prefix.len() - 1 implies #[trigger] connect_step(prefix[i], prefix[i + 1]) by {
            assert(connect_step(states[i], states[i + 1]));
        }
        lemma_connects_consistent(prefix);
        let n = states.len() - 1;
        let last = n - 1;
        assert(connect_step(states[last], states[last + 1]));
        assert(states[last + 1] == states[n]);
        assert(connection_consistent(prefix[n - 1]));
        if connect_started(states[n - 1], states[n]) {
            lemma_failed_connect_consistent(states[n - 1], states[n]);
        } else {
            let mid = choose|mid: RelayView| #[trigger] connect_started(states[n - 1], mid) && connect_completed(mid, states[n]);
            lemma_connect_consistent(states[n - 1], mid, states[n]);
        }
        assert forall|k: int| 0 <= k < states.len() implies #[trigger] connection_consistent(states[k]) by {
            if k < n {
                assert(prefix[k] == states[k]);
            }
        }
    }
}

impl Relay {
    /// A relay for `url`, not connected; a `ws://` url is refused.
    pub fn new(url: String) -> (res: Result<Self>)
        ensures
            is_insecure_url(url@) <==> res is Err,
            res matches Err(e) ==> e is InsecureConnection,
            res matches Ok(r) ==> {
                &&& r@.url == url@
                &&& r@.status == RelayStatus::Disconnected
                &&& r@.stats.is_fresh()
                &&& !r@.has_writer
                &&& !r@.has_receiver
            },
    {
        proof {
            reveal_strlit("ws://");
        }
        if str_starts_with(url.as_str(), "ws://") {
            assert(seq!['w', 's', ':', '/', '/'] =~= "ws://"@);
            return Err(Error::InsecureConnection);
        }
        assert(seq!['w', 's', ':', '/', '/'] =~= "ws://"@);
        Ok(Relay {
            url,
            write: None,
            recieve: None,
            status: RelayStatus::Disconnected,
            stats: RelayStats::new(),
        })
    }

    /// The url of the relay.
    pub fn url(&self) -> (u: &String)
        ensures
            u@ == self@.url,
    {
        &self.url
    }

    /// The status of the relay's connection.
    pub fn status(&self) -> (s: RelayStatus)
        ensures
            s == self@.status,
    {
        self.status
    }

    /// The statistics of the relay.
    pub fn stats(&self) -> (s: &RelayStats)
        ensures
            *s == self@.stats,
    {
        &self.stats
    }

    /// The bookkeeping before a connection is tried: the relay is
    /// connecting and one more attempt is counted.
    pub fn start_connect(&mut self)
        requires
            old(self)@.stats.attempts < u32::MAX,
        ensures
            connect_started(old(self)@, final(self)@),
    {
        self.status = RelayStatus::Connecting;
        self.stats.add_attempt();
    }

    /// The bookkeeping after a connection was made: the relay keeps both
    /// halves, is connected, and one more success is counted. The clock is
    /// read twice, and the readings are recorded as `record_connection`
    /// says; what the clock reads is not known here.
    pub fn complete_connect(&mut self, write: WsSender, recieve: WsReceiver)
        requires
            old(self)@.stats.success < i32::MAX,
        ensures
            connect_completed(old(self)@, final(self)@),
    {
        let first = now();
        let at = now();
        self.record_connection(write, recieve, first, at);
        proof {
            lemma_recorded_is_counted(old(self)@.stats, self@.stats, first, at);
        }
    }

    /// The bookkeeping after a connection was made, with the clock readings
    /// given: the relay keeps both halves, is connected, and the success is
    /// recorded from `first` and `at` (see `RelayStats::record_success`).
    pub fn record_connection(&mut self, write: WsSender, recieve: WsReceiver, first: Instant, at: Instant)
        requires
            old(self)@.stats.success < i32::MAX,
        ensures
            connect_recorded(old(self)@, final(self)@, first, at),
    {
        self.recieve = Some(recieve);
        self.write = Some(write);
        self.status = RelayStatus::Connected;
        self.stats.record_success(first, at);
    }

    /// The receiving half, or `NotConnected` when there is none.
    pub fn receiver(&self) -> (res: Result<&WsReceiver>)
        ensures
            res is Ok <==> self@.has_receiver,
            res matches Err(e) ==> e is NotConnected,
    {
        match &self.recieve {
            Some(r) => Ok(r),
            None => Err(Error::NotConnected),
        }
    }

    /// Polls the receiving half: `NotConnected` when there is none, else
    /// the next event that has arrived, if any. The relay is unchanged.
    pub fn try_recv(&mut self) -> (res: Result<Option<IncomingEvent>>)
        ensures
            res is Err <==> !old(self)@.has_receiver,
            res matches Err(e) ==> e is NotConnected,
            res matches Ok(Some(ev)) ==> exists|w: WsEvent| ev == #[trigger] event_of(w),
            final(self)@ == old(self)@,
    {
        match self.receiver() {
            Ok(recv) => match poll_receiver(recv) {
                Some(event) => Ok(Some(incoming_event(event))),
                None => Ok(None),
            },
            Err(e) => Err(e),
        }
    }

    /// Sends `msg`: `NotConnected` unless the relay is connected; a
    /// connected relay hands the message to its sending half when it has
    /// one. What can be said of the relay is unchanged.
    pub fn send(&mut self, msg: WsMessage) -> (res: Result<()>)
        ensures
            res is Ok <==> old(self)@.status == RelayStatus::Connected,
            res matches Err(e) ==> e is NotConnected,
            final(self)@ == old(self)@,
    {
        match self.sender() {
            Err(e) => Err(e),
            Ok(Some(write)) => {
                send_message(write, msg);
                Ok(())
            },
            Ok(None) => Ok(()),
        }
    }

    /// What a send goes through: `NotConnected` unless the relay is
    /// connected, else the sending half when there is one.
    pub fn sender(&mut self) -> (res: Result<Option<&mut WsSender>>)
        ensures
            res is Ok <==> old(self)@.status == RelayStatus::Connected,
            res matches Err(e) ==> e is NotConnected,
            res matches Ok(w) ==> (w is Some <==> old(self)@.has_writer),
            final(self)@ == old(self)@,
    {
        if self.status != RelayStatus::Connected {
            return Err(Error::NotConnected);
        }
        Ok(self.write.as_mut())
    }
}

} // verus!
