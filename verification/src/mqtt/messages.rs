//! Topics and delivery of outgoing messages, and reactions to incoming events.

use vstd::prelude::*;

use crate::mqtt::cup_counter::{parse_cup_counter, says};

verus! {

/// How long to wait for the broker before going on without a subscription, in nanoseconds.
pub const CONNECT_TIMEOUT_NS: u64 = 10_000_000_000;

/// State of a network connection.
#[derive(Debug, Clone, Copy, PartialEq, Eq, Structural)]
pub enum ConnectionStatus {
    Connecting,
    Connected,
    Disconnected,
    Disabled,
}

impl ConnectionStatus {
    /// Whether the broker has to be told again what to send: it forgets across connections.
    pub fn needs_subscription(self) -> (res: bool)
        ensures
            res <==> self == ConnectionStatus::Connected,
    {
        self == ConnectionStatus::Connected
    }
}

/// How hard a message is delivered.
#[derive(Debug, Clone, Copy, PartialEq, Eq, Structural)]
pub enum Delivery {
    AtMostOnce,
    AtLeastOnce,
}

/// A message to publish.
#[derive(Debug)]
pub struct MqttOutboundMessage {
    /// Whether `topic_suffix` is the whole topic.
    pub absolute: bool,
    pub topic_suffix: String,
    pub payload: String,
    /// Whether the broker keeps the message for later subscribers.
    pub retain: bool,
}

/// `suffix` as a topic below `prefix`.
pub open spec fn below(prefix: Seq<char>, suffix: Seq<char>) -> Seq<char> {
    prefix + "/"@ + suffix
}

/// Put `suffix` below `prefix`.
fn topic_below(prefix: &str, suffix: &str) -> (res: String)
    ensures
        res@ == below(prefix@, suffix@),
{
    let mut topic: String = prefix.to_owned();
    topic.append("/");
    topic.append(suffix);
    topic
}

/// The topic of the cup counter.
pub fn cup_counter_topic(prefix: &str) -> (res: String)
    ensures
        res@ == below(prefix@, "cup_counter"@),
{
    topic_below(prefix, "cup_counter")
}

impl MqttOutboundMessage {
    /// The topic that the message goes to.
    pub open spec fn full_topic(self, prefix: Seq<char>) -> Seq<char> {
        if self.absolute {
            self.topic_suffix@
        } else {
            below(prefix, self.topic_suffix@)
        }
    }

    /// How the message is delivered: what is to be kept has to arrive.
    pub open spec fn delivered(self) -> Delivery {
        if self.retain {
            Delivery::AtLeastOnce
        } else {
            Delivery::AtMostOnce
        }
    }

    /// The topic that the message goes to.
    pub fn topic(&self, prefix: &str) -> (res: String)
        ensures
            res@ == self.full_topic(prefix@),
    {
        if self.absolute {
            self.topic_suffix.clone()
        } else {
            topic_below(prefix, self.topic_suffix.as_str())
        }
    }

    /// How the message is delivered.
    pub fn delivery(&self) -> (res: Delivery)
        ensures
            res == self.delivered(),
    {
        if self.retain {
            Delivery::AtLeastOnce
        } else {
            Delivery::AtMostOnce
        }
    }
}

/// What the client reports.
#[derive(Debug)]
pub enum MqttEvent {
    Connected,
    Disconnected,
    /// A message came in. Later parts of a long one carry no topic.
    Received { topic: Option<String>, data: Vec<u8> },
    Other,
}

/// What to do about an event.
#[derive(Debug, Clone, Copy, PartialEq, Eq, Structural)]
pub enum MqttReaction {
    /// Announce this status.
    Status(ConnectionStatus),
    /// Announce this number of cups.
    Cups(u64),
    /// Complain of a counter that makes no sense.
    BadCounter,
    /// Nothing but a note in the log.
    Ignore,
}

impl MqttReaction {
    /// Whether a reaction is the right one to an event.
    pub open spec fn answers(self, event: MqttEvent, counter_topic: Seq<char>) -> bool {
        match event {
            MqttEvent::Connected => self == MqttReaction::Status(ConnectionStatus::Connected),
            MqttEvent::Disconnected => self == MqttReaction::Status(ConnectionStatus::Connecting),
            MqttEvent::Received { topic: Some(topic), data } if topic@ == counter_topic => {
                &&& self is Cups || self is BadCounter
                &&& forall|count: u64|
                    #[trigger] says(data@, count as nat) <==> self == MqttReaction::Cups(count)
            },
            _ => self == MqttReaction::Ignore,
        }
    }

    /// The reaction to an event.
    pub fn to_event(event: &MqttEvent, counter_topic: &String) -> (res: MqttReaction)
        ensures
            res.answers(*event, counter_topic@),
    {
        match event {
            MqttEvent::Connected => MqttReaction::Status(ConnectionStatus::Connected),
            MqttEvent::Disconnected => MqttReaction::Status(ConnectionStatus::Connecting),
            MqttEvent::Received { topic: Some(topic), data } => {
                if *topic == *counter_topic {
                    match parse_cup_counter(data.as_slice()) {
                        Some(cups) => MqttReaction::Cups(cups),
                        None => MqttReaction::BadCounter,
                    }
                } else {
                    MqttReaction::Ignore
                }
            },
            _ => MqttReaction::Ignore,
        }
    }
}

} // verus!
