//! The MQTT side: topics, delivery, and what incoming events mean.

pub mod cup_counter;
pub mod laws;
pub mod messages;

pub use cup_counter::parse_cup_counter;
pub use messages::{
    cup_counter_topic, ConnectionStatus, Delivery, MqttEvent, MqttOutboundMessage, MqttReaction,
};
