//! Dispatch core of a shared-subscription leader for an MQTT broker: the
//! registry of share groups and their dispatchers, the supervisor's
//! reconciliation passes, round-robin selection of a group member, the
//! construction of the outgoing publish, and the QoS handshake decisions.

pub mod qos;
pub mod subscriber;
pub mod publish;
pub mod dispatch;
pub mod handshake;
pub mod leader;
