//! Reconciliation of device clocks with network time.
//!
//! A device's clock drifts while it is in a dead zone. Its measured offset is
//! taken off its timestamps, as long as the measurement is not stale.

use crate::batcher::{elapsed, elapsed_ms};
use crate::bitemporal::quotient;
use crate::protocol::{now_ms, wrapped64};
use crate::seqs::{lemma_filter_ends, lemma_filter_next};
use crate::wire::to_signed64;
use vstd::prelude::*;

verus! {

/// A measured offset: device time less network time.
#[derive(Debug, Clone, Copy)]
pub struct ClockOffset {
    pub device_id: u64,
    pub offset_ms: i64,
    /// Unix time of the measurement in milliseconds.
    pub last_updated: u64,
    /// The IEEE 754 encoding of a confidence from 0.0 to 1.0.
    pub confidence_bits: u64,
}

/// Whether a measurement is older than it may be.
pub open spec fn stale(o: ClockOffset, max_age: u64, now: u64) -> bool {
    elapsed(o.last_updated, now) > max_age
}

/// Whether the double with the given encoding is not a number.
pub open spec fn is_nan(bits: u64) -> bool {
    bits as int % 0x8000_0000_0000_0000 > 0x7FF0_0000_0000_0000
}

/// A number by which the encodings of doubles are ordered as the doubles are: the
/// magnitude's encoding with the sign of the double. Both zeros have 0.
pub open spec fn double_rank(bits: u64) -> int {
    if bits < 0x8000_0000_0000_0000 {
        bits as int
    } else {
        0x8000_0000_0000_0000 - bits
    }
}

/// Whether the double with one encoding is less than the one with another. What is
/// not a number is neither less nor greater than anything.
pub open spec fn double_less(a: u64, b: u64) -> bool {
    !is_nan(a) && !is_nan(b) && double_rank(a) < double_rank(b)
}

fn is_double_less(a: u64, b: u64) -> (r: bool)
    ensures
        r == double_less(a, b),
{
    let sign: u64 = 0x8000_0000_0000_0000;
    let infinity: u64 = 0x7FF0_0000_0000_0000;
    if a % sign > infinity || b % sign > infinity {
        return false;
    }
    let x: i128 = if a < sign {
        a as i128
    } else {
        sign as i128 - a as i128
    };
    let y: i128 = if b < sign {
        b as i128
    } else {
        sign as i128 - b as i128
    };
    x < y
}

/// Measurements that are not stale.
pub open spec fn current(max_age: u64, now: u64) -> spec_fn(ClockOffset) -> bool {
    |o: ClockOffset| !stale(o, max_age, now)
}

/// Measurements of other devices.
pub open spec fn not_of(device_id: u64) -> spec_fn(ClockOffset) -> bool {
    |o: ClockOffset| o.device_id != device_id
}

impl ClockOffset {
    /// An offset measured now.
    pub fn new(device_id: u64, offset_ms: i64, confidence_bits: u64) -> (r: Self)
        ensures
            r.device_id == device_id,
            r.offset_ms == offset_ms,
            r.confidence_bits == confidence_bits,
    {
        Self::new_at(device_id, offset_ms, confidence_bits, now_ms())
    }

    /// An offset measured at the given time.
    pub fn new_at(device_id: u64, offset_ms: i64, confidence_bits: u64, now: u64) -> (r: Self)
        ensures
            r == (ClockOffset { device_id, offset_ms, last_updated: now, confidence_bits }),
    {
        ClockOffset { device_id, offset_ms, last_updated: now, confidence_bits }
    }

    /// Whether this measurement is older than it may be, now.
    pub fn is_stale(&self, max_age: u64) -> (r: bool)
        ensures
            exists|now: u64| r == #[trigger] stale(*self, max_age, now),
    {
        self.is_stale_at(max_age, now_ms())
    }

    /// Whether this measurement is older than it may be, at the given time.
    pub fn is_stale_at(&self, max_age: u64, now: u64) -> (r: bool)
        ensures
            r == stale(*self, max_age, now),
    {
        elapsed_ms(self.last_updated, now) > max_age
    }
}

#[derive(Debug, Clone, Copy, PartialEq, Eq, Structural)]
pub enum NetworkTimeSource {
    ASTS,
    NTP,
    GPS,
    LocalClock,
}

/// The newest measurement of each device, up to a number of them.
pub struct ClockReconciler {
    offsets: Vec<ClockOffset>,
    max_offsets: usize,
    max_age: u64,
    network_time_source: NetworkTimeSource,
}

impl View for ClockReconciler {
    type V = Seq<ClockOffset>;

    closed spec fn view(&self) -> Seq<ClockOffset> {
        self.offsets@
    }
}

/// The measurements after one more: it replaces that of its device, and the
/// oldest leaves where there are too many.
pub open spec fn with_offset(s: Seq<ClockOffset>, max: nat, o: ClockOffset) -> Seq<ClockOffset> {
    let t = s.filter(not_of(o.device_id)).push(o);
    if t.len() > max {
        t.skip(1)
    } else {
        t
    }
}

/// The first measurement of a device, if any.
pub open spec fn offset_of(s: Seq<ClockOffset>, device_id: u64) -> Option<ClockOffset>
    decreases s.len(),
{
    if s.len() == 0 {
        None
    } else if s[0].device_id == device_id {
        Some(s[0])
    } else {
        offset_of(s.skip(1), device_id)
    }
}

/// The measurement of a device, if there is one that is not stale.
pub open spec fn current_offset(s: Seq<ClockOffset>, device_id: u64, max_age: u64, now: u64) -> Option<
    ClockOffset,
> {
    match offset_of(s, device_id) {
        Some(o) => if stale(o, max_age, now) {
            None
        } else {
            Some(o)
        },
        None => None,
    }
}

/// Device time in network time, as a signed number of 64 bits; none where that is before
/// the epoch.
pub open spec fn network_time(o: ClockOffset, device_timestamp_ms: u64) -> Option<u64> {
    let t = wrapped64(device_timestamp_ms - o.offset_ms);
    if t < 0 {
        None
    } else {
        Some(t as u64)
    }
}

/// Device time in network time, by what is known of the device.
pub open spec fn reconciled(
    s: Seq<ClockOffset>,
    device_id: u64,
    device_timestamp_ms: u64,
    max_age: u64,
    now: u64,
) -> Option<u64> {
    match current_offset(s, device_id, max_age, now) {
        Some(o) => network_time(o, device_timestamp_ms),
        None => None,
    }
}

/// The sum of the offsets.
pub open spec fn offset_sum(s: Seq<ClockOffset>) -> int
    decreases s.len(),
{
    if s.len() == 0 {
        0
    } else {
        offset_sum(s.drop_last()) + s.last().offset_ms
    }
}

#[derive(Debug, Clone, Copy)]
pub struct ClockStats {
    pub total_offsets: usize,
    pub stale_offsets: usize,
    pub avg_offset_ms: i64,
}

/// Device time in network time.
fn apply_offset(o: &ClockOffset, device_timestamp_ms: u64) -> (r: Option<u64>)
    ensures
        r == network_time(*o, device_timestamp_ms),
{
    let t: i64 = to_signed64(device_timestamp_ms).wrapping_sub(o.offset_ms);
    if t < 0 {
        None
    } else {
        Some(t as u64)
    }
}

impl ClockReconciler {
    /// The most measurements that are kept.
    pub closed spec fn bound(&self) -> nat {
        self.max_offsets as nat
    }

    /// How old a measurement may be, in milliseconds.
    pub closed spec fn age_limit(&self) -> u64 {
        self.max_age
    }

    /// Where network time comes from.
    pub closed spec fn source(&self) -> NetworkTimeSource {
        self.network_time_source
    }

    /// No more measurements are kept than the bound, at most one per device.
    pub open spec fn wf(&self) -> bool {
        &&& self@.len() <= self.bound()
        &&& forall|i: int, j: int|
            0 <= i < j < self@.len() ==> (#[trigger] self@[i]).device_id != (
            #[trigger] self@[j]).device_id
    }

    pub fn new(max_offsets: usize, max_age: u64, network_time_source: NetworkTimeSource) -> (r: Self)
        ensures
            r.wf(),
            r@ == Seq::<ClockOffset>::empty(),
            r.bound() == max_offsets,
            r.age_limit() == max_age,
            r.source() == network_time_source,
    {
        ClockReconciler { offsets: Vec::new(), max_offsets, max_age, network_time_source }
    }

    /// Takes a measurement; it replaces that of its device, and the oldest one
    /// leaves where there are too many.
    pub fn register_offset(&mut self, offset: ClockOffset)
        requires
            old(self).wf(),
        ensures
            final(self).wf(),
            final(self)@ == with_offset(old(self)@, old(self).bound(), offset),
            final(self).bound() == old(self).bound(),
            final(self).age_limit() == old(self).age_limit(),
            final(self).source() == old(self).source(),
    {
        let ghost all = self@;
        let ghost p = not_of(offset.device_id);
        let mut kept: Vec<ClockOffset> = Vec::new();
        let mut i: usize = 0;
        proof {
            lemma_filter_ends(all, p);
        }
        while i < self.offsets.len()
            invariant
                i <= self.offsets@.len(),
                all == self.offsets@,
                p == not_of(offset.device_id),
                kept@ == all.subrange(0, i as int).filter(p),
                kept@.len() <= i,
                forall|a: int, b: int|
                    0 <= a < b < all.len() ==> (#[trigger] all[a]).device_id != (
                    #[trigger] all[b]).device_id,
                forall|a: int, b: int|
                    0 <= a < b < kept@.len() ==> (#[trigger] kept@[a]).device_id != (
                    #[trigger] kept@[b]).device_id,
                forall|a: int|
                    0 <= a < kept@.len() ==> (#[trigger] kept@[a]).device_id != offset.device_id
                        && exists|b: int| 0 <= b < i && all[b] == kept@[a],
            decreases self.offsets@.len() - i,
        {
            let ghost before = kept@;
            proof {
                lemma_filter_next(all, i as int, p);
            }
            if self.offsets[i].device_id != offset.device_id {
                kept.push(self.offsets[i]);
                proof {
                    assert forall|a: int| 0 <= a < kept@.len() implies (
                    #[trigger] kept@[a]).device_id != offset.device_id && exists|b: int|
                        0 <= b < i + 1 && all[b] == kept@[a] by {
                        if a < before.len() {
                            assert(kept@[a] == before[a]);
                            let b = choose|b: int| 0 <= b < i && all[b] == before[a];
                            assert(0 <= b < i + 1 && all[b] == kept@[a]);
                        } else {
                            assert(all[i as int] == kept@[a]);
                        }
                    }
                    assert forall|a: int, b: int| 0 <= a < b < kept@.len() implies (
                    #[trigger] kept@[a]).device_id != (#[trigger] kept@[b]).device_id by {
                        assert(kept@[a] == before[a]);
                        if b < before.len() {
                            assert(kept@[b] == before[b]);
                        } else {
                            let c = choose|c: int| 0 <= c < i && all[c] == before[a];
                            assert(all[c].device_id != all[i as int].device_id);
                        }
                    }
                }
            } else {
                proof {
                    assert forall|a: int| 0 <= a < kept@.len() implies (
                    #[trigger] kept@[a]).device_id != offset.device_id && exists|b: int|
                        0 <= b < i + 1 && all[b] == kept@[a] by {
                        let b = choose|b: int| 0 <= b < i && all[b] == kept@[a];
                        assert(0 <= b < i + 1 && all[b] == kept@[a]);
                    }
                }
            }
            i = i + 1;
        }
        proof {
            lemma_filter_ends(all, p);
        }
        kept.push(offset);
        if kept.len() > self.max_offsets {
            let ghost before = kept@;
            kept.remove(0);
            assert(kept@ =~= before.skip(1));
        }
        self.offsets = kept;
    }

    fn lookup(&self, device_id: u64) -> (r: Option<ClockOffset>)
        ensures
            r == offset_of(self@, device_id),
    {
        let ghost all = self@;
        let mut i: usize = 0;
        assert(all.skip(0) =~= all);
        while i < self.offsets.len()
            invariant
                i <= self.offsets@.len(),
                all == self.offsets@,
                offset_of(all, device_id) == offset_of(all.skip(i as int), device_id),
            decreases self.offsets@.len() - i,
        {
            assert(all.skip(i as int).skip(1) =~= all.skip(i + 1));
            if self.offsets[i].device_id == device_id {
                return Some(self.offsets[i]);
            }
            i = i + 1;
        }
        None
    }

    /// The measurement of a device, if there is one that is not stale now.
    pub fn get_offset(&self, device_id: u64) -> (r: Option<ClockOffset>)
        ensures
            exists|now: u64|
                r == #[trigger] current_offset(self@, device_id, self.age_limit(), now),
    {
        self.get_offset_at(device_id, now_ms())
    }

    /// The measurement of a device, if there is one that is not stale at the
    /// given time.
    pub fn get_offset_at(&self, device_id: u64, now: u64) -> (r: Option<ClockOffset>)
        ensures
            r == current_offset(self@, device_id, self.age_limit(), now),
    {
        match self.lookup(device_id) {
            Some(o) => if o.is_stale_at(self.max_age, now) {
                None
            } else {
                Some(o)
            },
            None => None,
        }
    }

    /// Device time in network time, by what is known of the device now.
    pub fn reconcile(&self, device_id: u64, device_timestamp_ms: u64) -> (r: Option<u64>)
        ensures
            exists|now: u64|
                r == #[trigger] reconciled(
                    self@,
                    device_id,
                    device_timestamp_ms,
                    self.age_limit(),
                    now,
                ),
    {
        self.reconcile_at(device_id, device_timestamp_ms, now_ms())
    }

    /// Device time in network time, by what is known of the device at the given
    /// time. `None` where nothing is known or the result is out of range.
    pub fn reconcile_at(&self, device_id: u64, device_timestamp_ms: u64, now: u64) -> (r: Option<u64>)
        ensures
            r == reconciled(self@, device_id, device_timestamp_ms, self.age_limit(), now),
    {
        match self.get_offset_at(device_id, now) {
            Some(o) => apply_offset(&o, device_timestamp_ms),
            None => None,
        }
    }

    /// As `reconcile_at`, with the present time, but only where the measurement
    /// is trusted enough.
    pub fn reconcile_with_confidence(
        &self,
        device_id: u64,
        device_timestamp_ms: u64,
        min_confidence_bits: u64,
    ) -> (r: Option<u64>)
        ensures
            exists|now: u64|
                r == (match #[trigger] current_offset(self@, device_id, self.age_limit(), now) {
                    Some(o) => if double_less(o.confidence_bits, min_confidence_bits) {
                        None
                    } else {
                        network_time(o, device_timestamp_ms)
                    },
                    None => None,
                }),
    {
        self.reconcile_with_confidence_at(
            device_id,
            device_timestamp_ms,
            min_confidence_bits,
            now_ms(),
        )
    }

    /// As `reconcile_at`, but only where the measurement is trusted enough.
    pub fn reconcile_with_confidence_at(
        &self,
        device_id: u64,
        device_timestamp_ms: u64,
        min_confidence_bits: u64,
        now: u64,
    ) -> (r: Option<u64>)
        ensures
            r == (match current_offset(self@, device_id, self.age_limit(), now) {
                Some(o) => if double_less(o.confidence_bits, min_confidence_bits) {
                    None
                } else {
                    network_time(o, device_timestamp_ms)
                },
                None => None,
            }),
    {
        match self.get_offset_at(device_id, now) {
            Some(o) => if is_double_less(o.confidence_bits, min_confidence_bits) {
                None
            } else {
                apply_offset(&o, device_timestamp_ms)
            },
            None => None,
        }
    }

    /// Device time less network time.
    pub fn calculate_offset(device_id: u64, device_timestamp_ms: u64, network_timestamp_ms: u64) -> (r:
        i64)
        ensures
            r == wrapped64(device_timestamp_ms - network_timestamp_ms),
    {
        crate::protocol::spread_from(network_timestamp_ms, device_timestamp_ms)
    }

    /// The present network time. Nothing is said of the result: it rests on the
    /// machine's clock.
    pub fn get_network_time(&self) -> (r: u64) {
        self.get_network_time_at(now_ms())
    }

    /// The network time where the local clock shows the given one. Every source is read
    /// from the local clock.
    pub fn get_network_time_at(&self, local_ms: u64) -> (r: u64)
        ensures
            r == local_ms,
    {
        match self.network_time_source {
            NetworkTimeSource::ASTS => local_ms,
            NetworkTimeSource::NTP => local_ms,
            NetworkTimeSource::GPS => local_ms,
            NetworkTimeSource::LocalClock => local_ms,
        }
    }

    /// Drops the measurements that are stale at the given time.
    pub fn update_offsets(&mut self, now: u64)
        ensures
            final(self)@ == old(self)@.filter(current(old(self).age_limit(), now)),
            final(self).bound() == old(self).bound(),
            final(self).age_limit() == old(self).age_limit(),
            final(self).source() == old(self).source(),
    {
        let ghost all = self@;
        let ghost p = current(self.age_limit(), now);
        let mut kept: Vec<ClockOffset> = Vec::new();
        let mut i: usize = 0;
        proof {
            lemma_filter_ends(all, p);
        }
        while i < self.offsets.len()
            invariant
                i <= self.offsets@.len(),
                all == self.offsets@,
                p == current(self.max_age, now),
                kept@ == all.subrange(0, i as int).filter(p),
                self.max_offsets == old(self).max_offsets,
                self.max_age == old(self).max_age,
                self.network_time_source == old(self).network_time_source,
            decreases self.offsets@.len() - i,
        {
            proof {
                lemma_filter_next(all, i as int, p);
            }
            if !self.offsets[i].is_stale_at(self.max_age, now) {
                kept.push(self.offsets[i]);
            }
            i = i + 1;
        }
        proof {
            lemma_filter_ends(all, p);
        }
        self.offsets = kept;
    }

    /// How many measurements there are, how many of them are stale at the given
    /// time, and their average.
    pub fn stats(&self, now: u64) -> (r: ClockStats)
        ensures
            r.total_offsets == self@.len(),
            r.stale_offsets + self@.filter(current(self.age_limit(), now)).len() == self@.len(),
            r.avg_offset_ms == (if self@.len() == 0 {
                0
            } else {
                quotient(offset_sum(self@), self@.len() as int)
            }),
    {
        let ghost all = self@;
        let ghost p = current(self.age_limit(), now);
        let n: usize = self.offsets.len();
        let mut stale_offsets: usize = 0;
        let mut sum: i128 = 0;
        let mut i: usize = 0;
        proof {
            lemma_filter_ends(all, p);
        }
        while i < n
            invariant
                i <= n == all.len(),
                all == self.offsets@,
                p == current(self.max_age, now),
                stale_offsets + all.subrange(0, i as int).filter(p).len() == i,
                sum == offset_sum(all.subrange(0, i as int)),
                -0x8000_0000_0000_0000 * i <= sum <= 0x7fff_ffff_ffff_ffff * i,
            decreases n - i,
        {
            proof {
                lemma_filter_next(all, i as int, p);
                assert(all.subrange(0, i + 1).drop_last() =~= all.subrange(0, i as int));
            }
            if self.offsets[i].is_stale_at(self.max_age, now) {
                stale_offsets = stale_offsets + 1;
            }
            sum = sum + self.offsets[i].offset_ms as i128;
            i = i + 1;
        }
        proof {
            lemma_filter_ends(all, p);
        }
        let avg_offset_ms: i64 = if n == 0 {
            0
        } else {
            let avg: i128 = crate::bitemporal::rounded_quotient(sum, n as u64);
            proof {
                crate::bitemporal::lemma_average(sum as int, n as int);
            }
            avg as i64
        };
        ClockStats { total_offsets: n, stale_offsets, avg_offset_ms }
    }
}

/// A measurement that was just taken is the one that is found.
pub proof fn registered_is_found(s: Seq<ClockOffset>, max: nat, o: ClockOffset)
    requires
        max > 0,
    ensures
        offset_of(with_offset(s, max, o), o.device_id) == Some(o),
{
    let f = s.filter(not_of(o.device_id));
    lemma_filter_excludes(s, o.device_id);
    let t = f.push(o);
    lemma_find_last(t, o.device_id);
    if t.len() > max {
        let u = t.skip(1);
        assert forall|i: int| 0 <= i < u.len() - 1 implies (#[trigger] u[i]).device_id
            != o.device_id by {
            assert(u[i] == f[i + 1]);
        }
        lemma_find_last(u, o.device_id);
    }
}

proof fn lemma_filter_excludes(s: Seq<ClockOffset>, device_id: u64)
    ensures
        forall|i: int|
            0 <= i < s.filter(not_of(device_id)).len() ==> (#[trigger] s.filter(
                not_of(device_id),
            )[i]).device_id != device_id,
    decreases s.len(),
{
    reveal(Seq::filter);
    if s.len() > 0 {
        lemma_filter_excludes(s.drop_last(), device_id);
    }
}

proof fn lemma_find_last(s: Seq<ClockOffset>, device_id: u64)
    requires
        s.len() > 0,
        s.last().device_id == device_id,
        forall|i: int| 0 <= i < s.len() - 1 ==> (#[trigger] s[i]).device_id != device_id,
    ensures
        offset_of(s, device_id) == Some(s.last()),
    decreases s.len(),
{
    if s.len() > 1 {
        let t = s.skip(1);
        assert(s[0].device_id != device_id);
        assert forall|i: int| 0 <= i < t.len() - 1 implies (#[trigger] t[i]).device_id
            != device_id by {
            assert(t[i] == s[i + 1]);
        }
        lemma_find_last(t, device_id);
        assert(t.last() == s.last());
    }
}

/// Taking off a measured offset recovers the network time at which it was
/// measured, as long as that is a signed number of 64 bits.
pub proof fn offset_is_taken_off(o: ClockOffset, device_ms: u64, network_ms: u64)
    requires
        o.offset_ms == wrapped64(device_ms - network_ms),
        network_ms <= i64::MAX,
    ensures
        network_time(o, device_ms) == Some(network_ms),
{
}

/// Where no measurement is of a device, nothing is known of its clock.
pub proof fn unknown_devices_have_no_offset(s: Seq<ClockOffset>, device_id: u64)
    requires
        forall|i: int| 0 <= i < s.len() ==> (#[trigger] s[i]).device_id != device_id,
    ensures
        offset_of(s, device_id) is None,
    decreases s.len(),
{
    if s.len() > 0 {
        let t = s.skip(1);
        assert(s[0].device_id != device_id);
        assert forall|i: int| 0 <= i < t.len() implies (#[trigger] t[i]).device_id != device_id by {
            assert(t[i] == s[i + 1]);
        }
        unknown_devices_have_no_offset(t, device_id);
    }
}

/// A measurement is used for as long as it may be old, to the last millisecond, and no
/// longer.
pub proof fn measurements_go_stale(o: ClockOffset, max_age: u64, now: u64)
    ensures
        stale(o, max_age, now) <==> now > o.last_updated + max_age,
        current_offset(seq![o], o.device_id, max_age, now) == (if now > o.last_updated + max_age {
            None
        } else {
            Some(o)
        }),
{
    reveal_with_fuel(offset_of, 2);
}

/// Registering a measurement replaces that of its device and leaves those of the others
/// in their order; only where there are too many, the oldest of them leaves.
pub proof fn registering_keeps_the_others(s: Seq<ClockOffset>, max: nat, o: ClockOffset, x: ClockOffset)
    requires
        x.device_id != o.device_id,
        s.len() < max,
    ensures
        with_offset(s, max, o).contains(x) <==> s.contains(x),
        with_offset(s, max, o).last() == o,
        with_offset(s, max, o).len() <= s.len() + 1,
{
    let f = s.filter(not_of(o.device_id));
    crate::seqs::lemma_filter_holds(s, not_of(o.device_id), x);
    crate::seqs::lemma_filter_shrinks(s, not_of(o.device_id));
    let t = f.push(o);
    if f.contains(x) {
        let i = choose|i: int| 0 <= i < f.len() && f[i] == x;
        assert(t[i] == x);
    }
    if t.contains(x) {
        let i = choose|i: int| 0 <= i < t.len() && t[i] == x;
        assert(f[i] == x);
    }
}

/// Network time is device time less what the device's clock is ahead: a device that is
/// ahead is set back, one that is behind is set forward, and one that is right stays.
pub proof fn offsets_are_taken_off(o: ClockOffset, t: u64)
    requires
        t <= i64::MAX,
        t - o.offset_ms <= i64::MAX,
    ensures
        t >= o.offset_ms ==> network_time(o, t) == Some((t - o.offset_ms) as u64),
        t < o.offset_ms ==> network_time(o, t) is None,
        o.offset_ms == 0 ==> network_time(o, t) == Some(t),
{
}

/// Doubles are ordered by their values: those from 0 on as their encodings are, those
/// below 0 the other way round and below all of the former, both zeros alike. What is not
/// a number is not less than anything.
pub proof fn doubles_are_ordered(a: u64, b: u64)
    ensures
        !double_less(a, a),
        !(double_less(a, b) && double_less(b, a)),
        a < b && b <= 0x7FF0_0000_0000_0000 ==> double_less(a, b),
        0x8000_0000_0000_0000 <= a && a < b && b <= 0xFFF0_0000_0000_0000 ==> double_less(b, a),
        0x8000_0000_0000_0000 < a && a <= 0xFFF0_0000_0000_0000 && b <= 0x7FF0_0000_0000_0000
            ==> double_less(a, b),
        !double_less(0, 0x8000_0000_0000_0000) && !double_less(0x8000_0000_0000_0000, 0),
        0x7FF0_0000_0000_0000 < a && a < 0x8000_0000_0000_0000 ==> !double_less(a, b)
            && !double_less(b, a),
        a > 0xFFF0_0000_0000_0000 ==> !double_less(a, b) && !double_less(b, a),
{
}

/// The offsets are summed up one by one.
pub proof fn offsets_add_up(s: Seq<ClockOffset>, o: ClockOffset)
    ensures
        offset_sum(Seq::empty()) == 0,
        offset_sum(s.push(o)) == offset_sum(s) + o.offset_ms,
{
    assert(s.push(o).drop_last() =~= s);
}

/// Dropping what is stale keeps exactly the measurements that are not.
pub proof fn updating_keeps_the_current(s: Seq<ClockOffset>, max_age: u64, now: u64, x: ClockOffset)
    ensures
        s.filter(current(max_age, now)).contains(x) <==> s.contains(x) && now <= x.last_updated
            + max_age,
{
    crate::seqs::lemma_filter_holds(s, current(max_age, now), x);
}

/// Device time is set right by the measurement of that device, however many others there
/// are, for as long as the measurement is not too old and no longer.
pub proof fn devices_have_their_own_offsets(
    s: Seq<ClockOffset>,
    i: int,
    t: u64,
    max_age: u64,
    now: u64,
)
    requires
        0 <= i < s.len(),
        forall|k: int| 0 <= k < i ==> (#[trigger] s[k]).device_id != s[i].device_id,
        t <= i64::MAX,
        0 <= t - s[i].offset_ms <= i64::MAX,
    ensures
        now <= s[i].last_updated + max_age ==> reconciled(s, s[i].device_id, t, max_age, now)
            == Some((t - s[i].offset_ms) as u64),
        now > s[i].last_updated + max_age ==> reconciled(s, s[i].device_id, t, max_age, now)
            is None,
{
    lemma_first_offset(s, i);
}

proof fn lemma_first_offset(s: Seq<ClockOffset>, i: int)
    requires
        0 <= i < s.len(),
        forall|k: int| 0 <= k < i ==> (#[trigger] s[k]).device_id != s[i].device_id,
    ensures
        offset_of(s, s[i].device_id) == Some(s[i]),
    decreases i,
{
    if i > 0 {
        let t = s.skip(1);
        assert(s[0].device_id != s[i].device_id);
        assert forall|k: int| 0 <= k < i - 1 implies (#[trigger] t[k]).device_id != t[i
            - 1].device_id by {
            assert(t[k] == s[k + 1]);
        }
        lemma_first_offset(t, i - 1);
    }
}

} // verus!
