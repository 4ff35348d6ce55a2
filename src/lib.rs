//! Simulation of Sparkplug B edge nodes: device models that produce metric
//! values tick by tick, the payloads and topics of the Sparkplug B
//! convention, and the life cycle of a node (birth, data, death).
pub mod config;
pub mod device;
pub mod mqtt;
pub mod node;
pub mod sparkplug;
