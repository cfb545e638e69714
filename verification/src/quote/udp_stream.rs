//! The decisions of a UDP stream to one client: when it stops, and what it
//! answers. The server performs each action and reports what happened.

use vstd::prelude::*;

verus! {

/// The failed sends and receives in a row after which a client counts as
/// gone.
pub const COUNT_TRY_SEND: u8 = 10;

/// The nanoseconds without a ping or pong after which a client counts as
/// gone.
pub const PING_INTERVAL_NANOS: u128 = 5_000_000_000;

/// What a stream's subscription delivered.
pub enum SubscriberEvent {
    /// Nothing new.
    Nothing,
    /// A new quote of a ticker.
    Update,
    /// The subscription ends.
    Disconnect,
}

/// What a receive from the client gave.
pub enum Received {
    /// The read timed out or would block.
    Nothing,
    /// The connection failed.
    Failed,
    /// A datagram that is no message.
    Unreadable,
    /// A ping.
    Ping,
    /// A pong.
    Pong,
    /// Another message.
    Other,
}

/// What happened at a step of the stream's loop.
pub enum StreamEvent {
    /// A new turn of the loop begins.
    Turn,
    /// The subscription was polled.
    Polled(SubscriberEvent),
    /// The time since the last ping or pong, in nanoseconds.
    PingClock(u128),
    /// A receive finished.
    Received(Received),
    /// A send finished, successfully or not.
    Sent(bool),
}

/// What the stream does next.
#[derive(PartialEq, Eq, Structural, Debug)]
pub enum StreamAction {
    /// Go on.
    Continue,
    /// Send the quote that arrived.
    SendQuote,
    /// Send a disconnect, then stop successfully.
    SendDisconnectAndStop,
    /// Send a pong and restart the ping clock.
    SendPong,
    /// Send a ping and restart the ping clock.
    SendPing,
    /// Stop: the client does not answer.
    StopNotResponding,
    /// Stop: no ping came in time.
    StopPingLost,
}

/// The state of a stream: the failures in a row.
pub struct StreamState {
    pub count: u8,
}

/// The action of a stream whose failure count is `count` on `e`.
pub open spec fn spec_stream_action(count: u8, e: StreamEvent) -> StreamAction {
    match e {
        StreamEvent::Turn => if count >= COUNT_TRY_SEND {
            StreamAction::StopNotResponding
        } else {
            StreamAction::Continue
        },
        StreamEvent::Polled(SubscriberEvent::Update) => StreamAction::SendQuote,
        StreamEvent::Polled(SubscriberEvent::Disconnect) => StreamAction::SendDisconnectAndStop,
        StreamEvent::Polled(SubscriberEvent::Nothing) => StreamAction::Continue,
        StreamEvent::PingClock(t) => if t > PING_INTERVAL_NANOS {
            StreamAction::StopPingLost
        } else {
            StreamAction::Continue
        },
        StreamEvent::Received(Received::Ping) => StreamAction::SendPong,
        StreamEvent::Received(Received::Pong) => StreamAction::SendPing,
        _ => StreamAction::Continue,
    }
}

/// The failure count after `e`: a failed send or receive adds one, a
/// successful send or a message read resets it.
pub open spec fn spec_stream_count(count: u8, e: StreamEvent) -> int {
    match e {
        StreamEvent::Received(Received::Failed) => count + 1,
        StreamEvent::Received(Received::Ping) => 0,
        StreamEvent::Received(Received::Pong) => 0,
        StreamEvent::Received(Received::Other) => 0,
        StreamEvent::Sent(ok) => if ok {
            0
        } else {
            count + 1
        },
        _ => count as int,
    }
}

impl StreamState {
    /// A new stream, with no failure yet.
    pub fn new() -> (r: Self)
        ensures
            r.count == 0,
    {
        StreamState { count: 0 }
    }

    /// Takes the event `e` into account and says what to do next.
    pub fn step(&mut self, e: StreamEvent) -> (r: StreamAction)
        requires
            old(self).count < u8::MAX,
        ensures
            r == spec_stream_action(old(self).count, e),
            final(self).count == spec_stream_count(old(self).count, e),
    {
        match e {
            StreamEvent::Turn => {
                if self.count >= COUNT_TRY_SEND {
                    StreamAction::StopNotResponding
                } else {
                    StreamAction::Continue
                }
            },
            StreamEvent::Polled(p) => match p {
                SubscriberEvent::Update => StreamAction::SendQuote,
                SubscriberEvent::Disconnect => StreamAction::SendDisconnectAndStop,
                SubscriberEvent::Nothing => StreamAction::Continue,
            },
            StreamEvent::PingClock(t) => {
                if t > PING_INTERVAL_NANOS {
                    StreamAction::StopPingLost
                } else {
                    StreamAction::Continue
                }
            },
            StreamEvent::Received(r) => match r {
                Received::Failed => {
                    self.count = self.count + 1;
                    StreamAction::Continue
                },
                Received::Ping => {
                    self.count = 0;
                    StreamAction::SendPong
                },
                Received::Pong => {
                    self.count = 0;
                    StreamAction::SendPing
                },
                Received::Other => {
                    self.count = 0;
                    StreamAction::Continue
                },
                _ => StreamAction::Continue,
            },
            StreamEvent::Sent(ok) => {
                if ok {
                    self.count = 0;
                } else {
                    self.count = self.count + 1;
                }
                StreamAction::Continue
            },
        }
    }
}

} // verus!
