//! Provisioning of the gateway and of its LoRa nodes.

pub mod lora_provisioning;
pub mod provision;

pub use lora_provisioning::LoRaProvisioningMode;
pub use provision::{ProvisioningConfig, ProvisioningService, ProvisioningStatus};
