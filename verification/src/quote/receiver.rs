//! The decisions of the client's quote receiver: when it keeps the
//! connection alive, reconnects or stops, and the worst ping latency seen.
//! The client performs each action and reports what happened.

use vstd::prelude::*;

verus! {

/// The reconnections after which the receiver gives up.
pub const COUNT_RECONNECT: u8 = 5;

/// The timed-out reads after which each further timeout reconnects.
pub const COUNT_TIMEOUT: u8 = 10;

/// The latency, in milliseconds, that the receiver starts from.
pub const START_LATENCY: u128 = 1000;

/// What a message from the server is.
pub enum ServerMessage {
    /// The last quotes, on joining.
    Init,
    /// A new quote.
    Stock,
    /// The server ends the stream.
    Disconnect,
    /// A ping, with the milliseconds since the last keep-alive, when one
    /// was sent.
    Ping(Option<u128>),
    /// Another message.
    Other,
}

/// What happened at a step of the receiver's loop.
pub enum ReceiverEvent {
    /// The shutdown flag was read: whether the client shuts down.
    Shutdown(bool),
    /// A message arrived.
    Message(ServerMessage),
    /// A datagram that is no message arrived.
    Unreadable,
    /// The read timed out or would block.
    Timeout,
    /// The read failed.
    Failed,
}

/// What the receiver does next.
#[derive(PartialEq, Eq, Structural, Debug)]
pub enum ReceiverAction {
    /// Go on.
    Continue,
    /// Hand the message to the client.
    Forward,
    /// Hand a disconnect to the client, then stop successfully.
    ForwardDisconnectAndStop,
    /// Send a keep-alive ping.
    KeepAlive,
    /// Send a keep-alive ping, then reconnect.
    KeepAliveAndReconnect,
    /// Reconnect, then send a keep-alive ping.
    ReconnectAndKeepAlive,
}

/// The receiver's counters and the worst latency seen.
pub struct ReceiverState {
    pub count_reconnect: u8,
    pub count_timeout: u8,
    pub latency: u128,
}

/// The mathematical value of a [`ReceiverState`].
pub struct ReceiverView {
    pub count_reconnect: int,
    pub count_timeout: int,
    pub latency: int,
}

impl View for ReceiverState {
    type V = ReceiverView;

    open spec fn view(&self) -> ReceiverView {
        ReceiverView {
            count_reconnect: self.count_reconnect as int,
            count_timeout: self.count_timeout as int,
            latency: self.latency as int,
        }
    }
}

/// The state after the event `e`, before the check for giving up. A message
/// resets both counters, and a ping raises the latency to its own when that
/// is larger; a timeout counts, and reconnects once enough have counted; a
/// failed read reconnects.
pub open spec fn spec_receiver_next(s: ReceiverView, e: ReceiverEvent) -> ReceiverView {
    match e {
        ReceiverEvent::Shutdown(true) => ReceiverView { count_reconnect: 0, count_timeout: 0, ..s },
        ReceiverEvent::Message(m) => ReceiverView {
            count_reconnect: 0,
            count_timeout: 0,
            latency: match m {
                ServerMessage::Ping(Some(l)) => if l > s.latency {
                    l as int
                } else {
                    s.latency
                },
                _ => s.latency,
            },
        },
        ReceiverEvent::Timeout => {
            let t = s.count_timeout + 1;
            ReceiverView {
                count_timeout: t,
                count_reconnect: if t >= COUNT_TIMEOUT {
                    s.count_reconnect + 1
                } else {
                    s.count_reconnect
                },
                ..s
            }
        },
        ReceiverEvent::Failed => ReceiverView { count_reconnect: s.count_reconnect + 1, ..s },
        _ => s,
    }
}

/// What the receiver does on `e` from the state `s`.
pub open spec fn spec_receiver_action(s: ReceiverView, e: ReceiverEvent) -> ReceiverAction {
    match e {
        ReceiverEvent::Shutdown(true) => ReceiverAction::ForwardDisconnectAndStop,
        ReceiverEvent::Message(m) => match m {
            ServerMessage::Init => ReceiverAction::Forward,
            ServerMessage::Stock => ReceiverAction::Forward,
            ServerMessage::Disconnect => ReceiverAction::Forward,
            _ => ReceiverAction::Continue,
        },
        ReceiverEvent::Timeout => if s.count_timeout + 1 >= COUNT_TIMEOUT {
            ReceiverAction::KeepAliveAndReconnect
        } else {
            ReceiverAction::KeepAlive
        },
        ReceiverEvent::Failed => ReceiverAction::ReconnectAndKeepAlive,
        _ => ReceiverAction::Continue,
    }
}

/// Whether the receiver gives up after acting on `e` from the state `s`:
/// when it has reconnected too often, unless the client shuts down.
pub open spec fn spec_receiver_gives_up(s: ReceiverView, e: ReceiverEvent) -> bool {
    !(e matches ReceiverEvent::Shutdown(true)) && spec_receiver_next(s, e).count_reconnect
        >= COUNT_RECONNECT
}

impl ReceiverState {
    /// A new receiver: no reconnection, no timeout, the starting latency.
    pub fn new() -> (r: Self)
        ensures
            r@ == (ReceiverView { count_reconnect: 0, count_timeout: 0, latency: START_LATENCY as int }),
    {
        ReceiverState { count_reconnect: 0, count_timeout: 0, latency: START_LATENCY }
    }

    /// Takes the event `e` into account and says what to do next, and
    /// whether to give up once that is done.
    pub fn step(&mut self, e: ReceiverEvent) -> (r: (ReceiverAction, bool))
        requires
            old(self).count_reconnect < u8::MAX,
            old(self).count_timeout < u8::MAX,
        ensures
            final(self)@ == spec_receiver_next(old(self)@, e),
            r.0 == spec_receiver_action(old(self)@, e),
            r.1 == spec_receiver_gives_up(old(self)@, e),
    {
        let action = match e {
            ReceiverEvent::Shutdown(stop) => {
                if stop {
                    self.count_reconnect = 0;
                    self.count_timeout = 0;
                    return (ReceiverAction::ForwardDisconnectAndStop, false);
                }
                ReceiverAction::Continue
            },
            ReceiverEvent::Message(m) => {
                self.count_reconnect = 0;
                self.count_timeout = 0;
                match m {
                    ServerMessage::Init => ReceiverAction::Forward,
                    ServerMessage::Stock => ReceiverAction::Forward,
                    ServerMessage::Disconnect => ReceiverAction::Forward,
                    ServerMessage::Ping(elapsed) => {
                        if let Some(l) = elapsed {
                            if l > self.latency {
                                self.latency = l;
                            }
                        }
                        ReceiverAction::Continue
                    },
                    ServerMessage::Other => ReceiverAction::Continue,
                }
            },
            ReceiverEvent::Unreadable => ReceiverAction::Continue,
            ReceiverEvent::Timeout => {
                self.count_timeout = self.count_timeout + 1;
                if self.count_timeout >= COUNT_TIMEOUT {
                    self.count_reconnect = self.count_reconnect + 1;
                    ReceiverAction::KeepAliveAndReconnect
                } else {
                    ReceiverAction::KeepAlive
                }
            },
            ReceiverEvent::Failed => {
                self.count_reconnect = self.count_reconnect + 1;
                ReceiverAction::ReconnectAndKeepAlive
            },
        };
        (action, self.count_reconnect >= COUNT_RECONNECT)
    }
}

} // verus!
