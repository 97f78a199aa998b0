//! The frames of wired sensors.

pub mod can;
pub mod rs232;
pub mod rs485;
