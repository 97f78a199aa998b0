//! The configuration button.
//!
//! A hold of 3 seconds starts provisioning, a hold of 10 seconds a factory reset.
//! The button's level is sampled; a change counts if it is still there after the
//! debounce time.

use crate::batcher::{elapsed, elapsed_ms};
use crate::text::text2;
use vstd::prelude::*;

verus! {

pub const DEBOUNCE_MS: u64 = 50;

pub const PROVISIONING_HOLD_MS: u64 = 3000;

pub const FACTORY_RESET_HOLD_MS: u64 = 10000;

#[derive(Debug, Clone, Copy, PartialEq, Eq, Structural)]
pub enum ButtonEvent {
    Pressed,
    Released,
    /// Held for 3 seconds.
    ProvisioningMode,
    /// Held for 10 seconds.
    FactoryReset,
}

#[derive(Debug)]
pub enum ButtonError {
    GpioInit(String),
}

impl ButtonError {
    /// The error in words.
    pub fn message(&self) -> (r: String)
        ensures
            r@ == match self {
                ButtonError::GpioInit(s) => "GPIO init failed: "@ + s@,
            },
    {
        match self {
            ButtonError::GpioInit(s) => text2("GPIO init failed: ", s.as_str()),
        }
    }
}

/// The state of the button. The line is low while it is pressed.
#[derive(Debug, Clone, Copy)]
pub struct ConfigButton {
    pub pressed: bool,
    pub press_start: Option<u64>,
    /// Whether the line was low when it was last settled.
    pub last_low: bool,
}

/// What a hold of the given length means.
pub open spec fn hold_events(held: int) -> Seq<ButtonEvent> {
    if held >= FACTORY_RESET_HOLD_MS {
        seq![ButtonEvent::FactoryReset]
    } else if held >= PROVISIONING_HOLD_MS {
        seq![ButtonEvent::ProvisioningMode]
    } else {
        Seq::empty()
    }
}

/// The button after a change of level that held, and what happened.
pub open spec fn settled(b: ConfigButton, low: bool, now: u64) -> (ConfigButton, Seq<ButtonEvent>) {
    if low {
        (
            ConfigButton { pressed: true, press_start: Some(now), ..b },
            seq![ButtonEvent::Pressed],
        )
    } else {
        (
            ConfigButton { pressed: false, press_start: None, ..b },
            match b.press_start {
                Some(t) => hold_events(elapsed(t, now)),
                None => Seq::empty(),
            }.push(ButtonEvent::Released),
        )
    }
}

/// The button after a sample: the level, and the level after the debounce time
/// where the first one was a change.
pub open spec fn sampled(b: ConfigButton, low: bool, debounced_low: bool, now: u64) -> (
    ConfigButton,
    Seq<ButtonEvent>,
) {
    if low == b.last_low {
        (b, Seq::empty())
    } else {
        let (c, e) = if debounced_low == low {
            settled(b, low, now)
        } else {
            (b, Seq::empty())
        };
        (ConfigButton { last_low: debounced_low, ..c }, e)
    }
}

/// The button after a look at how long it has been held: a reset is announced
/// once, provisioning with every look from 3 seconds on.
pub open spec fn checked(b: ConfigButton, now: u64) -> (ConfigButton, Seq<ButtonEvent>) {
    match b.press_start {
        Some(t) => if !b.pressed {
            (b, Seq::empty())
        } else if elapsed(t, now) >= FACTORY_RESET_HOLD_MS {
            (
                ConfigButton { pressed: false, press_start: None, ..b },
                hold_events(elapsed(t, now)),
            )
        } else {
            (b, hold_events(elapsed(t, now)))
        },
        None => (b, Seq::empty()),
    }
}

fn hold_event(held: u64) -> (r: Option<ButtonEvent>)
    ensures
        hold_events(held as int) == match r {
            Some(e) => seq![e],
            None => Seq::empty(),
        },
{
    if held >= FACTORY_RESET_HOLD_MS {
        Some(ButtonEvent::FactoryReset)
    } else if held >= PROVISIONING_HOLD_MS {
        Some(ButtonEvent::ProvisioningMode)
    } else {
        None
    }
}

impl ConfigButton {
    /// A button that is not pressed, with the line at the given level.
    pub fn new(low: bool) -> (r: Self)
        ensures
            r == (ConfigButton { pressed: false, press_start: None, last_low: low }),
    {
        ConfigButton { pressed: false, press_start: None, last_low: low }
    }

    /// Whether a level is a change, so that it must be read again after the
    /// debounce time.
    pub fn changed(&self, low: bool) -> (r: bool)
        ensures
            r <==> low != self.last_low,
    {
        low != self.last_low
    }

    /// Takes a sample, with the level after the debounce time where the first one
    /// was a change, and tells what happened.
    pub fn sample(&mut self, low: bool, debounced_low: bool, now: u64) -> (r: Vec<ButtonEvent>)
        ensures
            *final(self) == sampled(*old(self), low, debounced_low, now).0,
            r@ == sampled(*old(self), low, debounced_low, now).1,
    {
        let mut events: Vec<ButtonEvent> = Vec::new();
        if low != self.last_low {
            if debounced_low == low {
                if low {
                    self.pressed = true;
                    self.press_start = Some(now);
                    events.push(ButtonEvent::Pressed);
                } else {
                    self.pressed = false;
                    if let Some(t) = self.press_start {
                        if let Some(e) = hold_event(elapsed_ms(t, now)) {
                            events.push(e);
                        }
                    }
                    self.press_start = None;
                    events.push(ButtonEvent::Released);
                }
            }
            self.last_low = debounced_low;
        }
        assert(events@ =~= sampled(*old(self), low, debounced_low, now).1);
        events
    }

    /// Looks at how long the button has been held.
    pub fn check_hold(&mut self, now: u64) -> (r: Option<ButtonEvent>)
        ensures
            *final(self) == checked(*old(self), now).0,
            checked(*old(self), now).1 == match r {
                Some(e) => seq![e],
                None => Seq::empty(),
            },
    {
        if !self.pressed {
            return None;
        }
        match self.press_start {
            Some(t) => {
                let held: u64 = elapsed_ms(t, now);
                if held >= FACTORY_RESET_HOLD_MS {
                    self.pressed = false;
                    self.press_start = None;
                }
                hold_event(held)
            },
            None => None,
        }
    }

    pub fn is_pressed(&self) -> (r: bool)
        ensures
            r == self.pressed,
    {
        self.pressed
    }

    /// How long the button has been held, in milliseconds.
    pub fn press_duration(&self, now: u64) -> (r: Option<u64>)
        ensures
            match r {
                Some(d) => self.press_start matches Some(t) && d == elapsed(t, now),
                None => self.press_start is None,
            },
    {
        match self.press_start {
            Some(t) => Some(elapsed_ms(t, now)),
            None => None,
        }
    }
}

/// A press that is let go within 3 seconds starts neither provisioning nor a
/// reset; one of 3 to 10 seconds starts provisioning and no reset; one of 10
/// seconds or more starts a reset.
pub proof fn holds_mean_what_they_say(b: ConfigButton, down: u64, up: u64)
    requires
        !b.last_low,
    ensures
        ({
            let p = sampled(b, true, true, down).0;
            let e = sampled(p, false, false, up).1;
            let held = elapsed(down, up);
            &&& e.last() == ButtonEvent::Released
            &&& e.contains(ButtonEvent::FactoryReset) <==> held >= FACTORY_RESET_HOLD_MS
            &&& e.contains(ButtonEvent::ProvisioningMode) <==> PROVISIONING_HOLD_MS <= held
                < FACTORY_RESET_HOLD_MS
        }),
{
    let p = sampled(b, true, true, down).0;
    let e = sampled(p, false, false, up).1;
    let held = elapsed(down, up);
    assert(e == hold_events(held).push(ButtonEvent::Released));
    if held >= PROVISIONING_HOLD_MS {
        assert(e[0] == hold_events(held)[0]);
        assert(e.contains(e[0]));
    }
    assert forall|x: ButtonEvent| e.contains(x) implies x == ButtonEvent::Released
        || hold_events(held).contains(x) by {
        let i = choose|i: int| 0 <= i < e.len() && e[i] == x;
        if i < hold_events(held).len() {
            assert(hold_events(held)[i] == x);
        }
    }
}

/// A change that does not last through the debounce time is no press and no
/// release.
pub proof fn glitches_do_nothing(b: ConfigButton, low: bool, now: u64)
    ensures
        sampled(b, low, !low, now).1.len() == 0,
        sampled(b, low, !low, now).0.pressed == b.pressed,
        sampled(b, low, !low, now).0.press_start == b.press_start,
{
}

/// Once a reset was announced for a hold, nothing more is announced until the
/// button is let go, and then only its release.
pub proof fn resets_are_announced_once(b: ConfigButton, t: u64, now: u64, later: u64)
    requires
        b.pressed,
        b.press_start == Some(t),
        b.last_low,
        elapsed(t, now) >= FACTORY_RESET_HOLD_MS,
    ensures
        ({
            let (c, e) = checked(b, now);
            &&& e == seq![ButtonEvent::FactoryReset]
            &&& checked(c, later).1.len() == 0
            &&& sampled(c, false, false, later).1 == seq![ButtonEvent::Released]
        }),
{
    let (c, e) = checked(b, now);
    assert(sampled(c, false, false, later).1 =~= seq![ButtonEvent::Released]);
}

/// A low level that lasts is a press from that time on, a high one that lasts ends it, and
/// a level that is the one before is nothing at all.
pub proof fn presses_start_and_end(b: ConfigButton, low: bool, now: u64)
    ensures
        low == b.last_low ==> sampled(b, low, low, now) == (b, Seq::<ButtonEvent>::empty()),
        low != b.last_low ==> {
            let (c, e) = sampled(b, low, low, now);
            &&& c.last_low == low
            &&& c.pressed == low
            &&& low ==> c.press_start == Some(now) && e == seq![ButtonEvent::Pressed]
            &&& !low ==> c.press_start is None && e.last() == ButtonEvent::Released
        },
{
}

/// While the button is held, a look tells nothing in the first 3 seconds, of provisioning
/// up to 10 and of the reset from then on; until the reset it changes nothing.
pub proof fn looks_tell_the_hold(b: ConfigButton, t: u64, now: u64)
    requires
        b.pressed,
        b.press_start == Some(t),
    ensures
        now < t + 3000 ==> checked(b, now).1.len() == 0,
        t + 3000 <= now < t + 10000 ==> checked(b, now).1 == seq![ButtonEvent::ProvisioningMode],
        now >= t + 10000 ==> checked(b, now).1 == seq![ButtonEvent::FactoryReset],
        now < t + 10000 ==> checked(b, now).0 == b,
        now >= t + 10000 ==> !checked(b, now).0.pressed && checked(b, now).0.press_start is None,
        checked(b, now).0.last_low == b.last_low,
{
}

/// A look at a button that is not held tells nothing and changes nothing.
pub proof fn looks_at_rest_tell_nothing(b: ConfigButton, now: u64)
    requires
        !b.pressed || b.press_start is None,
    ensures
        checked(b, now) == (b, Seq::<ButtonEvent>::empty()),
{
}

} // verus!
