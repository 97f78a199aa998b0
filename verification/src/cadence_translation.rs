//! Cadences: how often each kind of message may pass from one network to the
//! other.
//!
//! Iridium speaks rarely and ASTS often. Rules say what becomes of a message of
//! a type and a source protocol; emergencies always pass.

use crate::batcher::{elapsed, elapsed_ms};
use crate::protocol::{now_ms, protocol_name, Priority, Protocol};
use crate::text::same_text;
use vstd::hash_map::StringHashMap;
use vstd::prelude::*;
use vstd::string::StringExecFns;

verus! {

broadcast use vstd::hash_map::group_hash_map_axioms;

#[derive(Debug, Clone, Copy, PartialEq, Eq, Structural)]
pub enum MessageCadence {
    OncePerHour,
    OncePerMinute,
    OncePerSecond,
    Every5Seconds,
    Every10Seconds,
    Every30Seconds,
    /// An interval in milliseconds.
    Custom(u64),
}

/// The interval of a cadence in milliseconds.
pub open spec fn interval_of(c: MessageCadence) -> u64 {
    match c {
        MessageCadence::OncePerHour => 3600000,
        MessageCadence::OncePerMinute => 60000,
        MessageCadence::OncePerSecond => 1000,
        MessageCadence::Every5Seconds => 5000,
        MessageCadence::Every10Seconds => 10000,
        MessageCadence::Every30Seconds => 30000,
        MessageCadence::Custom(d) => d,
    }
}

impl MessageCadence {
    /// The interval in milliseconds.
    pub fn to_duration(&self) -> (r: u64)
        ensures
            r == interval_of(*self),
    {
        match self {
            MessageCadence::OncePerHour => 3600000,
            MessageCadence::OncePerMinute => 60000,
            MessageCadence::OncePerSecond => 1000,
            MessageCadence::Every5Seconds => 5000,
            MessageCadence::Every10Seconds => 10000,
            MessageCadence::Every30Seconds => 30000,
            MessageCadence::Custom(d) => *d,
        }
    }
}

#[derive(Debug, Clone, Copy, PartialEq, Eq, Structural)]
pub enum CadenceTransformation {
    /// Every message passes.
    Passthrough,
    /// One message per interval passes.
    RateLimit { min_interval_ms: u64 },
    /// Messages are gathered over a window.
    Aggregate { window_ms: u64 },
    /// Each message stands for several.
    Duplicate { max_duplicates: usize },
    /// One message per interval passes.
    Throttle { target_interval_ms: u64 },
}

#[derive(Debug)]
pub struct CadenceRule {
    pub source_protocol: Protocol,
    pub source_cadence: MessageCadence,
    pub target_protocol: Protocol,
    pub target_cadence: MessageCadence,
    /// Such as "heartbeat", "location" or "telemetry".
    pub message_type: String,
    pub transformation: CadenceTransformation,
}

/// What a rule says, apart from how its text is held.
#[verifier::ext_equal]
pub struct RuleView {
    pub source_protocol: Protocol,
    pub source_cadence: MessageCadence,
    pub target_protocol: Protocol,
    pub target_cadence: MessageCadence,
    pub message_type: Seq<char>,
    pub transformation: CadenceTransformation,
}

impl View for CadenceRule {
    type V = RuleView;

    open spec fn view(&self) -> RuleView {
        RuleView {
            source_protocol: self.source_protocol,
            source_cadence: self.source_cadence,
            target_protocol: self.target_protocol,
            target_cadence: self.target_cadence,
            message_type: self.message_type@,
            transformation: self.transformation,
        }
    }
}

/// What a list of rules says.
pub open spec fn rule_views(s: Seq<CadenceRule>) -> Seq<RuleView> {
    s.map_values(|r: CadenceRule| r@)
}

/// When a message of a kind last passed, and how many were held back since.
#[derive(Debug, Clone, Copy)]
pub struct RateLimiter {
    pub last_sent: Option<u64>,
    pub min_interval: u64,
    pub messages_since_last: usize,
}

/// Whether a limiter lets a message pass: the first one does, and then one
/// whenever the interval has gone by.
pub open spec fn lets_pass(l: RateLimiter, now: u64) -> bool {
    match l.last_sent {
        None => true,
        Some(t) => elapsed(t, now) >= l.min_interval,
    }
}

/// The limiter after a message.
pub open spec fn limiter_after(l: RateLimiter, now: u64) -> RateLimiter {
    if lets_pass(l, now) {
        RateLimiter { last_sent: Some(now), messages_since_last: 0, ..l }
    } else if l.messages_since_last < usize::MAX {
        RateLimiter { messages_since_last: (l.messages_since_last + 1) as usize, ..l }
    } else {
        l
    }
}

impl RateLimiter {
    /// A limiter that has let nothing pass yet.
    pub fn new(min_interval: u64) -> (r: Self)
        ensures
            r == (RateLimiter { last_sent: None, min_interval, messages_since_last: 0 }),
    {
        RateLimiter { last_sent: None, min_interval, messages_since_last: 0 }
    }

    /// Whether a message may pass at the given time.
    pub fn should_send(&mut self, now: u64) -> (r: bool)
        ensures
            r <==> lets_pass(*old(self), now),
            *final(self) == limiter_after(*old(self), now),
    {
        let pass: bool = match self.last_sent {
            None => true,
            Some(t) => elapsed_ms(t, now) >= self.min_interval,
        };
        if pass {
            self.last_sent = Some(now);
            self.messages_since_last = 0;
        } else {
            self.messages_since_last = self.messages_since_last.saturating_add(1);
        }
        pass
    }
}

/// What becomes of a message.
#[derive(Debug, Clone, Copy, PartialEq, Eq, Structural)]
pub enum TranslationAction {
    Send,
    Drop,
    Duplicate { count: usize },
    Buffer { window_ms: u64 },
}

#[derive(Debug, Clone, Copy)]
pub struct CadenceStats {
    pub total_rules: usize,
    pub active_rate_limiters: usize,
}

/// The rules and the limiters that they have made.
#[verifier::ext_equal]
pub struct CadenceView {
    pub rules: Seq<RuleView>,
    pub limiters: Map<Seq<char>, RateLimiter>,
}

pub struct CadenceTranslator {
    rules: Vec<CadenceRule>,
    rate_limiters: StringHashMap<RateLimiter>,
}

impl View for CadenceTranslator {
    type V = CadenceView;

    closed spec fn view(&self) -> CadenceView {
        CadenceView { rules: rule_views(self.rules@), limiters: self.rate_limiters@ }
    }
}

/// Whether a rule speaks of a message.
pub open spec fn rule_applies(r: RuleView, message_type: Seq<char>, p: Protocol) -> bool {
    r.message_type == message_type && r.source_protocol == p
}

/// The first rule that speaks of a message, if any.
pub open spec fn first_rule(rules: Seq<RuleView>, message_type: Seq<char>, p: Protocol) -> Option<
    RuleView,
>
    decreases rules.len(),
{
    if rules.len() == 0 {
        None
    } else if rule_applies(rules[0], message_type, p) {
        Some(rules[0])
    } else {
        first_rule(rules.skip(1), message_type, p)
    }
}

/// The name under which messages of a type and a protocol are limited.
pub open spec fn limiter_key(message_type: Seq<char>, p: Protocol) -> Seq<char> {
    message_type + ":"@ + protocol_name(p)
}

/// The interval by which a rule limits its messages, if it does.
pub open spec fn limit_of(t: CadenceTransformation) -> Option<u64> {
    match t {
        CadenceTransformation::RateLimit { min_interval_ms } => Some(min_interval_ms),
        CadenceTransformation::Throttle { target_interval_ms } => Some(target_interval_ms),
        _ => None,
    }
}

/// The limiter of a key, made anew where there is none.
pub open spec fn limiter_for(c: CadenceView, key: Seq<char>, interval: u64) -> RateLimiter {
    if c.limiters.contains_key(key) {
        c.limiters[key]
    } else {
        RateLimiter { last_sent: None, min_interval: interval, messages_since_last: 0 }
    }
}

/// What becomes of a message.
pub open spec fn action_for(
    c: CadenceView,
    message_type: Seq<char>,
    p: Protocol,
    priority: Priority,
    now: u64,
) -> TranslationAction {
    if priority == Priority::Emergency {
        TranslationAction::Send
    } else {
        match first_rule(c.rules, message_type, p) {
            None => TranslationAction::Send,
            Some(r) => match r.transformation {
                CadenceTransformation::Passthrough => TranslationAction::Send,
                CadenceTransformation::Aggregate { window_ms } => TranslationAction::Buffer {
                    window_ms,
                },
                CadenceTransformation::Duplicate { max_duplicates } => TranslationAction::Duplicate {
                    count: max_duplicates,
                },
                _ => if lets_pass(
                    limiter_for(c, limiter_key(message_type, p), limit_of(r.transformation)->0),
                    now,
                ) {
                    TranslationAction::Send
                } else {
                    TranslationAction::Drop
                },
            },
        }
    }
}

/// The rules and limiters after a message.
pub open spec fn cadence_after(
    c: CadenceView,
    message_type: Seq<char>,
    p: Protocol,
    priority: Priority,
    now: u64,
) -> CadenceView {
    let rule = first_rule(c.rules, message_type, p);
    if priority != Priority::Emergency && rule is Some && limit_of(rule->0.transformation) is Some {
        let key = limiter_key(message_type, p);
        let l = limiter_for(c, key, limit_of(rule->0.transformation)->0);
        CadenceView { limiters: c.limiters.insert(key, limiter_after(l, now)), ..c }
    } else {
        c
    }
}

/// The rules from Iridium to ASTS: heartbeats go from one an hour to one every
/// five seconds, locations are throttled to ten seconds, telemetry goes from one
/// a minute to one a second, emergencies pass.
pub open spec fn default_rules() -> Seq<RuleView> {
    seq![
        RuleView {
            source_protocol: Protocol::IridiumSBD,
            source_cadence: MessageCadence::OncePerHour,
            target_protocol: Protocol::ASTSpaceMobile,
            target_cadence: MessageCadence::Every5Seconds,
            message_type: "heartbeat"@,
            transformation: CadenceTransformation::Duplicate { max_duplicates: 720 },
        },
        RuleView {
            source_protocol: Protocol::IridiumSBD,
            source_cadence: MessageCadence::OncePerMinute,
            target_protocol: Protocol::ASTSpaceMobile,
            target_cadence: MessageCadence::Every10Seconds,
            message_type: "location"@,
            transformation: CadenceTransformation::Throttle { target_interval_ms: 10000 },
        },
        RuleView {
            source_protocol: Protocol::IridiumSBD,
            source_cadence: MessageCadence::OncePerMinute,
            target_protocol: Protocol::ASTSpaceMobile,
            target_cadence: MessageCadence::OncePerSecond,
            message_type: "telemetry"@,
            transformation: CadenceTransformation::Duplicate { max_duplicates: 60 },
        },
        RuleView {
            source_protocol: Protocol::IridiumSBD,
            source_cadence: MessageCadence::OncePerMinute,
            target_protocol: Protocol::ASTSpaceMobile,
            target_cadence: MessageCadence::OncePerMinute,
            message_type: "emergency"@,
            transformation: CadenceTransformation::Passthrough,
        },
    ]
}

fn iridium_rule(
    source_cadence: MessageCadence,
    target_cadence: MessageCadence,
    message_type: &str,
    transformation: CadenceTransformation,
) -> (r: CadenceRule)
    ensures
        r@ == (RuleView {
            source_protocol: Protocol::IridiumSBD,
            source_cadence,
            target_protocol: Protocol::ASTSpaceMobile,
            target_cadence,
            message_type: message_type@,
            transformation,
        }),
{
    CadenceRule {
        source_protocol: Protocol::IridiumSBD,
        source_cadence,
        target_protocol: Protocol::ASTSpaceMobile,
        target_cadence,
        message_type: String::from_str(message_type),
        transformation,
    }
}

impl CadenceTranslator {
    /// A translator without rules.
    pub fn new() -> (r: Self)
        ensures
            r@.rules == Seq::<RuleView>::empty(),
            r@.limiters == Map::<Seq<char>, RateLimiter>::empty(),
    {
        let r = CadenceTranslator { rules: Vec::new(), rate_limiters: StringHashMap::new() };
        assert(r@.rules =~= Seq::<RuleView>::empty());
        r
    }

    /// Adds a rule after those that there are.
    pub fn add_rule(&mut self, rule: CadenceRule)
        ensures
            final(self)@ == (CadenceView { rules: old(self)@.rules.push(rule@), ..old(self)@ }),
    {
        self.rules.push(rule);
        assert(self@.rules =~= old(self)@.rules.push(rule@));
    }

    /// The rules from Iridium to ASTS.
    pub fn default_iridium_to_asts_rules() -> (r: Vec<CadenceRule>)
        ensures
            rule_views(r@) == default_rules(),
    {
        let mut rules: Vec<CadenceRule> = Vec::new();
        rules.push(
            iridium_rule(
                MessageCadence::OncePerHour,
                MessageCadence::Every5Seconds,
                "heartbeat",
                CadenceTransformation::Duplicate { max_duplicates: 720 },
            ),
        );
        rules.push(
            iridium_rule(
                MessageCadence::OncePerMinute,
                MessageCadence::Every10Seconds,
                "location",
                CadenceTransformation::Throttle { target_interval_ms: 10000 },
            ),
        );
        rules.push(
            iridium_rule(
                MessageCadence::OncePerMinute,
                MessageCadence::OncePerSecond,
                "telemetry",
                CadenceTransformation::Duplicate { max_duplicates: 60 },
            ),
        );
        rules.push(
            iridium_rule(
                MessageCadence::OncePerMinute,
                MessageCadence::OncePerMinute,
                "emergency",
                CadenceTransformation::Passthrough,
            ),
        );
        assert(rule_views(rules@) =~= default_rules());
        rules
    }

    /// The position of the first rule that speaks of a message.
    fn find(&self, message_type: &str, source_protocol: Protocol) -> (r: Option<usize>)
        ensures
            match r {
                Some(i) => i < self@.rules.len() && first_rule(
                    self@.rules,
                    message_type@,
                    source_protocol,
                ) == Some(self@.rules[i as int]),
                None => first_rule(self@.rules, message_type@, source_protocol) is None,
            },
    {
        let ghost all = self@.rules;
        let mut i: usize = 0;
        assert(all.skip(0) =~= all);
        while i < self.rules.len()
            invariant
                i <= self.rules@.len() == all.len(),
                all == self@.rules,
                first_rule(all, message_type@, source_protocol) == first_rule(
                    all.skip(i as int),
                    message_type@,
                    source_protocol,
                ),
            decreases self.rules@.len() - i,
        {
            assert(all.skip(i as int).skip(1) =~= all.skip(i + 1));
            assert(all.skip(i as int)[0] == self.rules@[i as int]@);
            if self.rules[i].source_protocol == source_protocol && same_text(
                self.rules[i].message_type.as_str(),
                message_type,
            ) {
                return Some(i);
            }
            i = i + 1;
        }
        None
    }

    fn limited(&mut self, message_type: &str, source_protocol: Protocol, interval: u64, now: u64) -> (r:
        TranslationAction)
        ensures
            ({
                let key = limiter_key(message_type@, source_protocol);
                let l = limiter_for(old(self)@, key, interval);
                &&& r == (if lets_pass(l, now) {
                    TranslationAction::Send
                } else {
                    TranslationAction::Drop
                })
                &&& final(self)@ == (CadenceView {
                    limiters: old(self)@.limiters.insert(key, limiter_after(l, now)),
                    ..old(self)@
                })
            }),
    {
        let mut key = String::from_str(message_type);
        key.append(":");
        key.append(source_protocol.name());
        let mut limiter = match self.rate_limiters.get(key.as_str()) {
            Some(l) => *l,
            None => RateLimiter::new(interval),
        };
        let pass = limiter.should_send(now);
        self.rate_limiters.insert(key, limiter);
        if pass {
            TranslationAction::Send
        } else {
            TranslationAction::Drop
        }
    }

    /// What becomes of a message now.
    pub fn translate_message(
        &mut self,
        message_type: &str,
        source_protocol: Protocol,
        priority: Priority,
    ) -> (r: TranslationAction)
        ensures
            exists|now: u64|
                r == #[trigger] action_for(
                    old(self)@,
                    message_type@,
                    source_protocol,
                    priority,
                    now,
                ) && final(self)@ == cadence_after(
                    old(self)@,
                    message_type@,
                    source_protocol,
                    priority,
                    now,
                ),
    {
        self.translate_message_at(message_type, source_protocol, priority, now_ms())
    }

    /// What becomes of a message at the given time.
    pub fn translate_message_at(
        &mut self,
        message_type: &str,
        source_protocol: Protocol,
        priority: Priority,
        now: u64,
    ) -> (r: TranslationAction)
        ensures
            r == action_for(old(self)@, message_type@, source_protocol, priority, now),
            final(self)@ == cadence_after(
                old(self)@,
                message_type@,
                source_protocol,
                priority,
                now,
            ),
    {
        if priority == Priority::Emergency {
            return TranslationAction::Send;
        }
        let i: usize = match self.find(message_type, source_protocol) {
            Some(i) => i,
            None => {
                return TranslationAction::Send;
            },
        };
        assert(self@.rules[i as int] == self.rules@[i as int]@);
        let transformation = self.rules[i].transformation;
        match transformation {
            CadenceTransformation::Passthrough => TranslationAction::Send,
            CadenceTransformation::RateLimit { min_interval_ms } => self.limited(
                message_type,
                source_protocol,
                min_interval_ms,
                now,
            ),
            CadenceTransformation::Aggregate { window_ms } => TranslationAction::Buffer {
                window_ms,
            },
            CadenceTransformation::Duplicate { max_duplicates } => TranslationAction::Duplicate {
                count: max_duplicates,
            },
            CadenceTransformation::Throttle { target_interval_ms } => self.limited(
                message_type,
                source_protocol,
                target_interval_ms,
                now,
            ),
        }
    }

    /// The cadence that messages of a type should have, if a rule says.
    pub fn get_target_cadence(&self, message_type: &str, source_protocol: Protocol) -> (r: Option<
        MessageCadence,
    >)
        ensures
            r == match first_rule(self@.rules, message_type@, source_protocol) {
                Some(rule) => Some(rule.target_cadence),
                None => None,
            },
    {
        match self.find(message_type, source_protocol) {
            Some(i) => {
                assert(self@.rules[i as int] == self.rules@[i as int]@);
                Some(self.rules[i].target_cadence)
            },
            None => None,
        }
    }

    pub fn stats(&self) -> (r: CadenceStats)
        ensures
            r.total_rules == self@.rules.len(),
            r.active_rate_limiters == self@.limiters.len(),
    {
        CadenceStats {
            total_rules: self.rules.len(),
            active_rate_limiters: self.rate_limiters.len(),
        }
    }
}

/// Emergencies pass whatever the rules say, and leave no trace.
pub proof fn emergencies_pass(c: CadenceView, message_type: Seq<char>, p: Protocol, now: u64)
    ensures
        action_for(c, message_type, p, Priority::Emergency, now) == TranslationAction::Send,
        cadence_after(c, message_type, p, Priority::Emergency, now) == c,
{
}

/// After a message has passed a limited rule, the next one is dropped until the
/// interval has gone by.
pub proof fn limited_messages_keep_their_distance(
    c: CadenceView,
    message_type: Seq<char>,
    p: Protocol,
    first: Priority,
    second: Priority,
    t: u64,
    now: u64,
)
    requires
        first != Priority::Emergency,
        second != Priority::Emergency,
        first_rule(c.rules, message_type, p) matches Some(r) && limit_of(r.transformation) is Some,
        action_for(c, message_type, p, first, t) == TranslationAction::Send,
    ensures
        ({
            let key = limiter_key(message_type, p);
            let d = cadence_after(c, message_type, p, first, t);
            action_for(d, message_type, p, second, now) == (if elapsed(t, now)
                >= d.limiters[key].min_interval {
                TranslationAction::Send
            } else {
                TranslationAction::Drop
            })
        }),
{
}

/// Names of cadences mean what they say.
pub proof fn cadences_mean_what_they_say(d: u64)
    ensures
        interval_of(MessageCadence::OncePerHour) == 60 * interval_of(MessageCadence::OncePerMinute),
        interval_of(MessageCadence::OncePerMinute) == 60 * interval_of(
            MessageCadence::OncePerSecond,
        ),
        interval_of(MessageCadence::OncePerSecond) == 1000,
        interval_of(MessageCadence::Every5Seconds) == 5 * 1000,
        interval_of(MessageCadence::Every10Seconds) == 10 * 1000,
        interval_of(MessageCadence::Every30Seconds) == 30 * 1000,
        interval_of(MessageCadence::Custom(d)) == d,
{
}

/// A limiter lets the first message pass, and after that one whenever its interval has
/// gone by since the last that passed. What it holds back it counts.
pub proof fn limiters_keep_the_interval(l: RateLimiter, t: u64, now: u64)
    ensures
        l.last_sent is None ==> lets_pass(l, now),
        l.last_sent == Some(t) && t <= now ==> (lets_pass(l, now) <==> now - t >= l.min_interval),
        l.last_sent == Some(t) && t > now ==> (lets_pass(l, now) <==> l.min_interval == 0),
        lets_pass(l, now) ==> limiter_after(l, now).last_sent == Some(now) && limiter_after(
            l,
            now,
        ).messages_since_last == 0,
        !lets_pass(l, now) ==> limiter_after(l, now).last_sent == l.last_sent,
        !lets_pass(l, now) && l.messages_since_last < usize::MAX ==> limiter_after(
            l,
            now,
        ).messages_since_last == l.messages_since_last + 1,
        limiter_after(l, now).min_interval == l.min_interval,
{
}

/// The rule that is followed is the first one of the message's type and protocol.
pub proof fn first_rule_is_followed(
    rules: Seq<RuleView>,
    message_type: Seq<char>,
    p: Protocol,
    i: int,
)
    requires
        0 <= i < rules.len(),
        rules[i].message_type == message_type,
        rules[i].source_protocol == p,
        forall|k: int|
            0 <= k < i ==> (#[trigger] rules[k]).message_type != message_type
                || rules[k].source_protocol != p,
    ensures
        first_rule(rules, message_type, p) == Some(rules[i]),
    decreases i,
{
    if i > 0 {
        let t = rules.skip(1);
        assert(!rule_applies(rules[0], message_type, p));
        assert forall|k: int| 0 <= k < i - 1 implies (#[trigger] t[k]).message_type != message_type
            || t[k].source_protocol != p by {
            assert(t[k] == rules[k + 1]);
        }
        first_rule_is_followed(t, message_type, p, i - 1);
    }
}

/// Messages that no rule speaks of pass.
pub proof fn unruled_messages_pass(
    c: CadenceView,
    message_type: Seq<char>,
    p: Protocol,
    priority: Priority,
    now: u64,
)
    requires
        forall|k: int|
            0 <= k < c.rules.len() ==> (#[trigger] c.rules[k]).message_type != message_type
                || c.rules[k].source_protocol != p,
    ensures
        action_for(c, message_type, p, priority, now) == TranslationAction::Send,
        cadence_after(c, message_type, p, priority, now) == c,
{
    lemma_no_rule(c.rules, message_type, p);
}

proof fn lemma_no_rule(rules: Seq<RuleView>, message_type: Seq<char>, p: Protocol)
    requires
        forall|k: int|
            0 <= k < rules.len() ==> (#[trigger] rules[k]).message_type != message_type
                || rules[k].source_protocol != p,
    ensures
        first_rule(rules, message_type, p) is None,
    decreases rules.len(),
{
    if rules.len() > 0 {
        let t = rules.skip(1);
        assert(!rule_applies(rules[0], message_type, p));
        assert forall|k: int| 0 <= k < t.len() implies (#[trigger] t[k]).message_type
            != message_type || t[k].source_protocol != p by {
            assert(t[k] == rules[k + 1]);
        }
        lemma_no_rule(t, message_type, p);
    }
}

/// A rule does to a message what it says: lets it pass, gathers it over its window, makes
/// its number of copies, or lets the first one pass that comes under it. Only the last
/// kind leaves a trace, under the name of type and protocol.
pub proof fn rules_do_what_they_say(
    c: CadenceView,
    message_type: Seq<char>,
    p: Protocol,
    priority: Priority,
    now: u64,
    other: Seq<char>,
)
    requires
        priority != Priority::Emergency,
        first_rule(c.rules, message_type, p) is Some,
    ensures
        ({
            let t = first_rule(c.rules, message_type, p)->0.transformation;
            let a = action_for(c, message_type, p, priority, now);
            let d = cadence_after(c, message_type, p, priority, now);
            let key = message_type + ":"@ + protocol_name(p);
            &&& t is Passthrough ==> a == TranslationAction::Send && d == c
            &&& t matches CadenceTransformation::Aggregate { window_ms } ==> a
                == (TranslationAction::Buffer { window_ms }) && d == c
            &&& t matches CadenceTransformation::Duplicate { max_duplicates } ==> a
                == (TranslationAction::Duplicate { count: max_duplicates }) && d == c
            &&& (t is RateLimit || t is Throttle) && !c.limiters.contains_key(key) ==> a
                == TranslationAction::Send && d.limiters.contains_key(key)
                && d.limiters[key].last_sent == Some(now)
            &&& t matches CadenceTransformation::RateLimit { min_interval_ms } ==> (
            !c.limiters.contains_key(key) ==> d.limiters[key].min_interval == min_interval_ms)
            &&& t matches CadenceTransformation::Throttle { target_interval_ms } ==> (
            !c.limiters.contains_key(key) ==> d.limiters[key].min_interval == target_interval_ms)
            &&& other != key ==> d.limiters.contains_key(other) == c.limiters.contains_key(other)
                && (c.limiters.contains_key(other) ==> d.limiters[other] == c.limiters[other])
            &&& d.rules == c.rules
            &&& a == TranslationAction::Drop ==> (t is RateLimit || t is Throttle)
                && c.limiters.contains_key(key)
        }),
{
}

/// Whatever its priority, a message that is no emergency is treated alike.
pub proof fn cadence_is_blind_to_priority(
    c: CadenceView,
    message_type: Seq<char>,
    p: Protocol,
    first: Priority,
    second: Priority,
    now: u64,
)
    requires
        first != Priority::Emergency,
        second != Priority::Emergency,
    ensures
        action_for(c, message_type, p, first, now) == action_for(
            c,
            message_type,
            p,
            second,
            now,
        ),
        cadence_after(c, message_type, p, first, now) == cadence_after(
            c,
            message_type,
            p,
            second,
            now,
        ),
{
}

/// The default rules lift cadences without gaps: each message stands for as many as its
/// source interval holds of the target interval. Throttled messages keep the interval of
/// their target cadence, and emergencies pass as they come. All of them lead from Iridium
/// to the cellular side.
pub proof fn default_rules_fill_the_gaps(i: int)
    requires
        0 <= i < default_rules().len(),
    ensures
        ({
            let r = default_rules()[i];
            &&& default_rules().len() == 4
            &&& r.source_protocol == Protocol::IridiumSBD
            &&& r.target_protocol == Protocol::ASTSpaceMobile
            &&& r.transformation matches CadenceTransformation::Duplicate { max_duplicates }
                ==> max_duplicates * interval_of(r.target_cadence) == interval_of(
                r.source_cadence,
            )
            &&& r.transformation matches CadenceTransformation::Throttle { target_interval_ms }
                ==> target_interval_ms == interval_of(r.target_cadence)
            &&& r.transformation is Passthrough ==> r.source_cadence == r.target_cadence
        }),
        default_rules()[0].message_type == "heartbeat"@ && default_rules()[0].transformation
            is Duplicate,
        default_rules()[1].message_type == "location"@ && default_rules()[1].transformation
            is Throttle,
        default_rules()[2].message_type == "telemetry"@ && default_rules()[2].transformation
            is Duplicate,
        default_rules()[3].message_type == "emergency"@ && default_rules()[3].transformation
            is Passthrough,
        default_rules()[0].source_cadence == MessageCadence::OncePerHour
            && default_rules()[0].target_cadence == MessageCadence::Every5Seconds,
        default_rules()[1].target_cadence == MessageCadence::Every10Seconds,
        default_rules()[2].source_cadence == MessageCadence::OncePerMinute
            && default_rules()[2].target_cadence == MessageCadence::OncePerSecond,
{
    let r = default_rules();
    if i == 0 {
        assert(r[0].transformation == (CadenceTransformation::Duplicate { max_duplicates: 720 }));
        assert(720 * interval_of(r[0].target_cadence) == interval_of(r[0].source_cadence));
    } else if i == 1 {
        assert(r[1].transformation is Throttle);
    } else if i == 2 {
        assert(r[2].transformation == (CadenceTransformation::Duplicate { max_duplicates: 60 }));
        assert(60 * interval_of(r[2].target_cadence) == interval_of(r[2].source_cadence));
    } else {
        assert(i == 3);
    }
}

} // verus!
