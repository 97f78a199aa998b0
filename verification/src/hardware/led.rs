//! The status light.
//!
//! It has a common anode: a colour is on while its line is low.

use crate::text::text2;
use vstd::prelude::*;

verus! {

#[derive(Debug, Clone, Copy, PartialEq, Eq, Structural)]
pub enum LedState {
    /// Solid green: the uplink is there and nothing waits.
    Connected,
    /// Slowly pulsing green: there is no uplink.
    NoUplink,
    /// Fast amber: a reconnect burst is drained.
    BurstInProgress,
    /// Solid red.
    Fault,
    Off,
}

#[derive(Debug)]
pub enum LedError {
    GpioInit(String),
}

impl LedError {
    /// The error in words.
    pub fn message(&self) -> (r: String)
        ensures
            r@ == match self {
                LedError::GpioInit(s) => "GPIO init failed: "@ + s@,
            },
    {
        match self {
            LedError::GpioInit(s) => text2("GPIO init failed: ", s.as_str()),
        }
    }
}

/// Whether each of the three lines is high.
#[derive(Debug, Clone, Copy, PartialEq, Eq, Structural)]
pub struct LedLevels {
    pub red_high: bool,
    pub green_high: bool,
    pub blue_high: bool,
}

/// The levels at which the given colours shine.
pub open spec fn shining(red: bool, green: bool, blue: bool) -> LedLevels {
    LedLevels { red_high: !red, green_high: !green, blue_high: !blue }
}

/// The levels at which the given colours shine.
pub fn levels(red: bool, green: bool, blue: bool) -> (r: LedLevels)
    ensures
        r == shining(red, green, blue),
{
    LedLevels { red_high: !red, green_high: !green, blue_high: !blue }
}

/// What the light does: it takes on a colour, or pulses with it a number of times
/// and goes dark.
#[derive(Debug, Clone, Copy, PartialEq, Eq, Structural)]
pub enum LedPattern {
    Solid { color: LedLevels },
    Pulse { color: LedLevels, times: u32, half_period_ms: u64 },
}

/// What the light does in each state: green pulses once a second, amber, that is
/// red with green, five times a second.
pub open spec fn pattern_of(s: LedState) -> LedPattern {
    match s {
        LedState::Connected => LedPattern::Solid { color: shining(false, true, false) },
        LedState::NoUplink => LedPattern::Pulse {
            color: shining(false, true, false),
            times: 5,
            half_period_ms: 500,
        },
        LedState::BurstInProgress => LedPattern::Pulse {
            color: shining(true, true, false),
            times: 10,
            half_period_ms: 100,
        },
        LedState::Fault => LedPattern::Solid { color: shining(true, false, false) },
        LedState::Off => LedPattern::Solid { color: shining(false, false, false) },
    }
}

fn pattern(s: LedState) -> (r: LedPattern)
    ensures
        r == pattern_of(s),
{
    match s {
        LedState::Connected => LedPattern::Solid { color: levels(false, true, false) },
        LedState::NoUplink => LedPattern::Pulse {
            color: levels(false, true, false),
            times: 5,
            half_period_ms: 500,
        },
        LedState::BurstInProgress => LedPattern::Pulse {
            color: levels(true, true, false),
            times: 10,
            half_period_ms: 100,
        },
        LedState::Fault => LedPattern::Solid { color: levels(true, false, false) },
        LedState::Off => LedPattern::Solid { color: levels(false, false, false) },
    }
}

/// The state that the light should show and the one that it shows.
#[derive(Debug, Clone, Copy)]
pub struct LedController {
    pub state: LedState,
    pub shown: LedState,
    pub running: bool,
}

impl LedController {
    pub fn new() -> (r: Self)
        ensures
            r == (LedController { state: LedState::Off, shown: LedState::Off, running: true }),
    {
        LedController { state: LedState::Off, shown: LedState::Off, running: true }
    }

    pub fn set_state(&mut self, state: LedState)
        ensures
            *final(self) == (LedController { state, ..*old(self) }),
    {
        self.state = state;
    }

    /// What the light has to do now. Nothing where it shows its state already.
    pub fn tick(&mut self) -> (r: Option<LedPattern>)
        ensures
            r == (if old(self).running && old(self).state != old(self).shown {
                Some(pattern_of(old(self).state))
            } else {
                None
            }),
            *final(self) == (if old(self).running {
                LedController { shown: old(self).state, ..*old(self) }
            } else {
                *old(self)
            }),
    {
        if !self.running {
            return None;
        }
        if self.state != self.shown {
            self.shown = self.state;
            Some(pattern(self.state))
        } else {
            None
        }
    }

    pub fn stop(&mut self)
        ensures
            *final(self) == (LedController { running: false, ..*old(self) }),
    {
        self.running = false;
    }
}

/// No two states look alike.
pub proof fn states_look_different(a: LedState, b: LedState)
    ensures
        pattern_of(a) == pattern_of(b) <==> a == b,
{
}

/// The colours of the states: green with an uplink or while there is none, red with green
/// while a burst is drained, red for a fault, and none at all when off. A line is low while
/// its colour shines, blue never does, and only the second and third state pulse.
pub proof fn colours_tell_the_state(s: LedState)
    ensures
        match pattern_of(s) {
            LedPattern::Solid { color } => {
                &&& s == LedState::Connected || s == LedState::Fault || s == LedState::Off
                &&& color.blue_high
                &&& !color.green_high <==> s == LedState::Connected
                &&& !color.red_high <==> s == LedState::Fault
            },
            LedPattern::Pulse { color, times, half_period_ms } => {
                &&& s == LedState::NoUplink || s == LedState::BurstInProgress
                &&& color.blue_high
                &&& !color.green_high
                &&& !color.red_high <==> s == LedState::BurstInProgress
                &&& s == LedState::NoUplink ==> times == 5 && half_period_ms
                    == 500
                &&& s == LedState::BurstInProgress ==> times == 10
                    && half_period_ms == 100
            },
        },
{
}

} // verus!
