//! Sensor hubs that report over LoRa.

pub mod mesh;
pub mod node_registry;

pub use node_registry::{LoRaNode, NodeRegistry};
