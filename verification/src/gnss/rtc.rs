//! Setting the hardware clock.

use crate::text::{decimal_of, push_decimal, text2};
use vstd::prelude::*;
use vstd::string::StringExecFns;

verus! {

#[derive(Debug)]
pub enum RtcError {
    Hwclock(String),
}

impl RtcError {
    /// The error in words.
    pub fn message(&self) -> (r: String)
        ensures
            r@ == match self {
                RtcError::Hwclock(s) => "hwclock error: "@ + s@,
            },
    {
        match self {
            RtcError::Hwclock(s) => text2("hwclock error: ", s.as_str()),
        }
    }
}

#[derive(Debug, Clone, Copy)]
pub struct RtcSync;

impl RtcSync {
    /// The date to set, as `hwclock` reads it: whole seconds since the epoch behind
    /// an at sign.
    pub fn date_argument(timestamp_ms: u64) -> (r: String)
        ensures
            r@ == "@"@ + decimal_of((timestamp_ms / 1000) as nat),
    {
        let mut out = String::from_str("@");
        push_decimal(&mut out, timestamp_ms / 1000);
        out
    }
}

} // verus!
