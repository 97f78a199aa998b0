//! The watchdog timer.

use crate::text::text2;
use vstd::prelude::*;
use vstd::string::StringExecFns;

verus! {

/// How often the watchdog is kicked, in milliseconds.
pub const WATCHDOG_KICK_INTERVAL_MS: u64 = 25000;

/// After how long without a kick it resets the board, in milliseconds.
pub const WATCHDOG_TIMEOUT_MS: u64 = 30000;

#[derive(Debug)]
pub enum WatchdogError {
    GpioInit(String),
    KickFailed,
}

impl WatchdogError {
    /// The error in words.
    pub fn message(&self) -> (r: String)
        ensures
            r@ == match self {
                WatchdogError::GpioInit(s) => "GPIO init failed: "@ + s@,
                WatchdogError::KickFailed => "Watchdog kick failed"@,
            },
    {
        match self {
            WatchdogError::GpioInit(s) => text2("GPIO init failed: ", s.as_str()),
            WatchdogError::KickFailed => String::from_str("Watchdog kick failed"),
        }
    }
}

/// One step of a kick: the level of the line, and how long to wait with it.
#[derive(Debug, Clone, Copy, PartialEq, Eq, Structural)]
pub struct KickStep {
    pub high: bool,
    pub hold_ms: u64,
}

/// The steps of a kick: low, high and low again.
pub open spec fn kick_steps() -> Seq<KickStep> {
    seq![
        KickStep { high: false, hold_ms: 10 },
        KickStep { high: true, hold_ms: 10 },
        KickStep { high: false, hold_ms: 0 },
    ]
}

/// The steps of a kick.
pub fn kick() -> (r: Vec<KickStep>)
    ensures
        r@ == kick_steps(),
{
    let mut steps: Vec<KickStep> = Vec::new();
    steps.push(KickStep { high: false, hold_ms: 10 });
    steps.push(KickStep { high: true, hold_ms: 10 });
    steps.push(KickStep { high: false, hold_ms: 0 });
    assert(steps@ =~= kick_steps());
    steps
}

/// From the start of one kick to the end of the next there is less time than the
/// watchdog waits.
pub proof fn kicks_come_in_time()
    ensures
        WATCHDOG_KICK_INTERVAL_MS + kick_steps()[0].hold_ms + kick_steps()[1].hold_ms
            + kick_steps()[2].hold_ms < WATCHDOG_TIMEOUT_MS,
{
}

} // verus!
