//! Positions and time from satellites.

pub mod gnss;
pub mod rtc;

pub use gnss::GnssService;
pub use rtc::RtcSync;
