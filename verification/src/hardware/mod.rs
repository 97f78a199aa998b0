//! The protocols of the parts on the carrier board: the bytes that go to them,
//! what their answers mean, and the state that is kept of them.

pub mod atecc608b;
pub mod bg95;
pub mod config_button;
pub mod led;
pub mod sx1262;
pub mod watchdog;
