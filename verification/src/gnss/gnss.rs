//! The positioning service: when a fix may be asked for and when to give up.

use crate::text::text2;
use vstd::prelude::*;
use vstd::string::StringExecFns;

verus! {

#[derive(Debug)]
pub enum GnssError {
    NotEnabled,
    Timeout,
    ModemError(String),
}

impl GnssError {
    /// The error in words.
    pub fn message(&self) -> (r: String)
        ensures
            r@ == match self {
                GnssError::NotEnabled => "GNSS not enabled"@,
                GnssError::Timeout => "GNSS fix timeout"@,
                GnssError::ModemError(s) => "Modem error: "@ + s@,
            },
    {
        match self {
            GnssError::NotEnabled => String::from_str("GNSS not enabled"),
            GnssError::Timeout => String::from_str("GNSS fix timeout"),
            GnssError::ModemError(s) => text2("Modem error: ", s.as_str()),
        }
    }
}

/// What to do next while a fix is awaited.
#[derive(Debug, Clone, Copy, PartialEq, Eq, Structural)]
pub enum FixStep {
    /// The fix is good.
    Accept,
    /// Ask again in a second.
    Wait,
}

#[derive(Debug, Clone, Copy)]
pub struct GnssService {
    enabled: bool,
}

impl GnssService {
    /// Whether the modem's receiver is on.
    pub closed spec fn on(&self) -> bool {
        self.enabled
    }

    /// A service whose receiver is off.
    pub fn new() -> (r: Self)
        ensures
            !r.on(),
    {
        GnssService { enabled: false }
    }

    /// Takes note that the receiver is on.
    pub fn enable(&mut self)
        ensures
            final(self).on(),
    {
        self.enabled = true;
    }

    /// Whether a fix may be asked for.
    pub fn get_fix(&self) -> (r: Result<(), GnssError>)
        ensures
            r is Ok <==> self.on(),
            r matches Err(e) ==> e is NotEnabled,
    {
        if self.enabled {
            Ok(())
        } else {
            Err(GnssError::NotEnabled)
        }
    }

    /// Whether there is still time to ask for a fix.
    pub fn check_time(elapsed_ms: u64, timeout_ms: u64) -> (r: Result<(), GnssError>)
        ensures
            r is Ok <==> elapsed_ms <= timeout_ms,
            r matches Err(e) ==> e is Timeout,
    {
        if elapsed_ms > timeout_ms {
            Err(GnssError::Timeout)
        } else {
            Ok(())
        }
    }

    /// What to do with a fix of the given quality; 0 is no fix.
    pub fn wait_for_fix(fix_quality: u8) -> (r: FixStep)
        ensures
            r == (if fix_quality > 0 {
                FixStep::Accept
            } else {
                FixStep::Wait
            }),
    {
        if fix_quality > 0 {
            FixStep::Accept
        } else {
            FixStep::Wait
        }
    }

    pub fn is_enabled(&self) -> (r: bool)
        ensures
            r == self.on(),
    {
        self.enabled
    }
}

} // verus!
