//! A cache of translations.
//!
//! A translation is kept under its protocol and a hash of its payload: the time
//! of the event plays no part, since the same bytes always translate to the same
//! bytes. Entries expire, and the one that came first leaves when the cache is
//! full.

use bytes::Bytes;
use crate::batcher::{elapsed, elapsed_ms};
use crate::payload::{bytes_as_slice, bytes_content};
use crate::protocol::{now_ms, Message, MessageView, Protocol};
use crate::seqs::map_keys;
use std::collections::{HashMap, VecDeque};
use vstd::prelude::*;

verus! {

broadcast use vstd::std_specs::hash::group_hash_axioms;

struct CacheEntry {
    message: Message,
    t_event: u64,
    timestamp: u64,
    ttl: u64,
}

/// What a cache entry says.
#[verifier::ext_equal]
pub struct EntryView {
    pub message: MessageView,
    pub t_event: u64,
    /// When it was put in.
    pub timestamp: u64,
    /// How long it is good for, in milliseconds.
    pub ttl: u64,
}

impl View for CacheEntry {
    type V = EntryView;

    closed spec fn view(&self) -> EntryView {
        EntryView {
            message: self.message@,
            t_event: self.t_event,
            timestamp: self.timestamp,
            ttl: self.ttl,
        }
    }
}

/// The entries of a cache and the order in which their keys came.
#[verifier::ext_equal]
pub struct CacheView {
    pub entries: Map<u128, EntryView>,
    pub order: Seq<u128>,
}

pub struct AsyncCache {
    entries: HashMap<u128, CacheEntry>,
    eviction_order: VecDeque<u128>,
    max_entries: usize,
    default_ttl: u64,
}

impl View for AsyncCache {
    type V = CacheView;

    closed spec fn view(&self) -> CacheView {
        CacheView {
            entries: self.entries@.map_values(|e: CacheEntry| e@),
            order: self.eviction_order@,
        }
    }
}

#[derive(Debug, Clone, Copy)]
pub struct CacheStats {
    pub total_entries: usize,
    /// Entries that have not expired.
    pub valid_entries: usize,
    pub max_entries: usize,
}

/// The djb2 hash of a byte string.
pub open spec fn djb2(data: Seq<u8>) -> u64
    decreases data.len(),
{
    if data.len() == 0 {
        5381
    } else {
        ((djb2(data.drop_last()) * 33 + data.last()) % 0x1_0000_0000_0000_0000) as u64
    }
}

/// A number for each protocol.
pub open spec fn protocol_number(p: Protocol) -> nat {
    match p {
        Protocol::IridiumSBD => 0,
        Protocol::InmarsatC => 1,
        Protocol::VSAT => 2,
        Protocol::HFVHF => 3,
        Protocol::RockBLOCK => 4,
        Protocol::Samsara => 5,
        Protocol::ASTSpaceMobile => 6,
        Protocol::NIDD => 7,
        Protocol::LoRaMesh => 8,
    }
}

/// The key of a protocol and a hash.
pub open spec fn key_of(p: Protocol, hash: u64) -> u128 {
    (protocol_number(p) * 0x1_0000_0000_0000_0000 + hash) as u128
}

/// The key of a payload.
pub open spec fn cache_key(p: Protocol, data: Seq<u8>) -> u128 {
    key_of(p, djb2(data))
}

/// Whether a key is one of a protocol.
pub open spec fn is_key_of(k: u128, p: Protocol) -> bool {
    k as int / 0x1_0000_0000_0000_0000 == protocol_number(p)
}

/// Whether an entry is still good.
pub open spec fn fresh(e: EntryView, now: u64) -> bool {
    elapsed(e.timestamp, now) < e.ttl
}

/// The entry under a key, if there is a good one.
pub open spec fn found(c: CacheView, k: u128, now: u64) -> Option<MessageView> {
    if c.entries.contains_key(k) && fresh(c.entries[k], now) {
        Some(c.entries[k].message)
    } else {
        None
    }
}

/// A full cache gives up the key that came first.
pub open spec fn with_room(c: CacheView, max: nat) -> CacheView {
    if c.entries.len() >= max && c.order.len() > 0 {
        CacheView { entries: c.entries.remove(c.order[0]), order: c.order.skip(1) }
    } else {
        c
    }
}

/// The cache after an entry is put in.
pub open spec fn with_entry(c: CacheView, max: nat, k: u128, e: EntryView) -> CacheView {
    let d = with_room(c, max);
    CacheView {
        entries: d.entries.insert(k, e),
        order: if d.entries.contains_key(k) {
            d.order
        } else {
            d.order.push(k)
        },
    }
}

/// The entry that a message makes.
pub open spec fn entry_of(m: MessageView, now: u64, ttl: u64) -> EntryView {
    EntryView { message: m, t_event: m.t_event, timestamp: now, ttl }
}

/// The cache after a list of entries is put in, one after the other.
pub open spec fn with_entries(
    c: CacheView,
    max: nat,
    batch: Seq<(Protocol, Bytes, Message)>,
    now: u64,
    ttl: u64,
) -> CacheView
    decreases batch.len(),
{
    if batch.len() == 0 {
        c
    } else {
        let b = batch.last();
        with_entry(
            with_entries(c, max, batch.drop_last(), now, ttl),
            max,
            cache_key(b.0, bytes_content(b.1)),
            entry_of(b.2@, now, ttl),
        )
    }
}

/// The entries that stay when those that a predicate names are dropped.
pub open spec fn without(m: Map<u128, EntryView>, p: spec_fn(u128, EntryView) -> bool) -> Map<
    u128,
    EntryView,
> {
    Map::new(|k: u128| m.contains_key(k) && !p(k, m[k]), |k: u128| m[k])
}

/// Entries of a protocol whose event falls in a range.
pub open spec fn within(p: Protocol, start_ms: u64, end_ms: u64) -> spec_fn(u128, EntryView) -> bool {
    |k: u128, e: EntryView| is_key_of(k, p) && start_ms <= e.t_event <= end_ms
}

/// The keys of good entries.
pub open spec fn fresh_keys(m: Map<u128, EntryView>, now: u64) -> Set<u128> {
    m.dom().filter(|k: u128| fresh(m[k], now))
}

pub(crate) fn protocol_code(p: Protocol) -> (r: u128)
    ensures
        r == protocol_number(p),
{
    match p {
        Protocol::IridiumSBD => 0,
        Protocol::InmarsatC => 1,
        Protocol::VSAT => 2,
        Protocol::HFVHF => 3,
        Protocol::RockBLOCK => 4,
        Protocol::Samsara => 5,
        Protocol::ASTSpaceMobile => 6,
        Protocol::NIDD => 7,
        Protocol::LoRaMesh => 8,
    }
}

/// The djb2 hash of a byte string.
pub fn hash_data(data: &[u8]) -> (r: u64)
    ensures
        r == djb2(data@),
{
    let mut h: u64 = 5381;
    let mut i: usize = 0;
    assert(data@.subrange(0, 0) =~= Seq::empty());
    while i < data.len()
        invariant
            i <= data@.len(),
            h == djb2(data@.subrange(0, i as int)),
        decreases data@.len() - i,
    {
        assert(data@.subrange(0, i + 1).drop_last() =~= data@.subrange(0, i as int));
        h = ((h as u128 * 33 + data[i] as u128) % 0x1_0000_0000_0000_0000) as u64;
        i = i + 1;
    }
    assert(data@.subrange(0, i as int) =~= data@);
    h
}

fn key(p: Protocol, data: &Bytes) -> (r: u128)
    ensures
        r == cache_key(p, bytes_content(*data)),
{
    protocol_code(p) * 0x1_0000_0000_0000_0000 + hash_data(bytes_as_slice(data)) as u128
}

impl AsyncCache {
    /// The number of entries above which the first one leaves.
    pub closed spec fn bound(&self) -> nat {
        self.max_entries as nat
    }

    /// How long entries are good for, in milliseconds.
    pub closed spec fn lifetime(&self) -> u64 {
        self.default_ttl
    }

    /// An empty cache.
    pub fn new(max_entries: usize, default_ttl: u64) -> (r: Self)
        ensures
            r@.entries == Map::<u128, EntryView>::empty(),
            r@.order == Seq::<u128>::empty(),
            r.bound() == max_entries,
            r.lifetime() == default_ttl,
    {
        let r = AsyncCache {
            entries: HashMap::new(),
            eviction_order: VecDeque::new(),
            max_entries,
            default_ttl,
        };
        assert(r@.entries =~= Map::<u128, EntryView>::empty());
        r
    }

    fn lookup(&self, k: u128, now: u64) -> (r: Option<Message>)
        ensures
            match r {
                Some(m) => found(self@, k, now) == Some(m@),
                None => found(self@, k, now) is None,
            },
    {
        match self.entries.get(&k) {
            Some(e) => if elapsed_ms(e.timestamp, now) < e.ttl {
                Some(e.message.clone())
            } else {
                None
            },
            None => None,
        }
    }

    /// The cached translation of a payload, if there is a good one now.
    pub fn get(&self, protocol: Protocol, data: &Bytes) -> (r: Option<Message>)
        ensures
            exists|now: u64|
                match r {
                    Some(m) => #[trigger] found(
                        self@,
                        cache_key(protocol, bytes_content(*data)),
                        now,
                    ) == Some(m@),
                    None => found(self@, cache_key(protocol, bytes_content(*data)), now) is None,
                },
    {
        let now = now_ms();
        let r = self.get_at(protocol, data, now);
        assert(found(self@, cache_key(protocol, bytes_content(*data)), now) is None || r is Some);
        r
    }

    /// The cached translation of a payload, if there is a good one at the given
    /// time.
    pub fn get_at(&self, protocol: Protocol, data: &Bytes, now: u64) -> (r: Option<Message>)
        ensures
            match r {
                Some(m) => found(self@, cache_key(protocol, bytes_content(*data)), now) == Some(m@),
                None => found(self@, cache_key(protocol, bytes_content(*data)), now) is None,
            },
    {
        self.lookup(key(protocol, data), now)
    }

    fn put(&mut self, k: u128, message: Message, now: u64)
        ensures
            final(self)@ == with_entry(
                old(self)@,
                old(self).bound(),
                k,
                entry_of(message@, now, old(self).lifetime()),
            ),
            final(self).bound() == old(self).bound(),
            final(self).lifetime() == old(self).lifetime(),
    {
        let ghost before = self@;
        let ghost max = self.bound();
        assert(before.entries.dom() =~= self.entries@.dom());
        if self.entries.len() >= self.max_entries {
            if let Some(oldest) = self.eviction_order.pop_front() {
                self.entries.remove(&oldest);
                assert(self@.entries =~= before.entries.remove(oldest));
                assert(self@.order =~= before.order.skip(1));
            }
        }
        assert(self@ =~= with_room(before, max));
        let ghost room = self@;
        let entry = CacheEntry {
            t_event: message.t_event,
            message,
            timestamp: now,
            ttl: self.default_ttl,
        };
        let known = self.entries.contains_key(&k);
        self.entries.insert(k, entry);
        if !known {
            self.eviction_order.push_back(k);
        }
        assert(self@.entries =~= room.entries.insert(k, entry@));
    }

    /// Keeps the translation of a payload from now on.
    pub fn set(&mut self, protocol: Protocol, data: &Bytes, message: Message)
        ensures
            exists|now: u64|
                final(self)@ == #[trigger] with_entry(
                    old(self)@,
                    old(self).bound(),
                    cache_key(protocol, bytes_content(*data)),
                    entry_of(message@, now, old(self).lifetime()),
                ),
            final(self).bound() == old(self).bound(),
            final(self).lifetime() == old(self).lifetime(),
    {
        self.set_at(protocol, data, message, now_ms());
    }

    /// Keeps the translation of a payload from the given time on.
    pub fn set_at(&mut self, protocol: Protocol, data: &Bytes, message: Message, now: u64)
        ensures
            final(self)@ == with_entry(
                old(self)@,
                old(self).bound(),
                cache_key(protocol, bytes_content(*data)),
                entry_of(message@, now, old(self).lifetime()),
            ),
            final(self).bound() == old(self).bound(),
            final(self).lifetime() == old(self).lifetime(),
    {
        self.put(key(protocol, data), message, now);
    }

    /// The cached translations of several payloads, in their order.
    pub fn get_batch(&self, queries: &[(Protocol, &Bytes)], now: u64) -> (r: Vec<Option<Message>>)
        ensures
            r@.len() == queries@.len(),
            forall|i: int|
                0 <= i < queries@.len() ==> match #[trigger] r@[i] {
                    Some(m) => found(
                        self@,
                        cache_key(queries@[i].0, bytes_content(*queries@[i].1)),
                        now,
                    ) == Some(m@),
                    None => found(
                        self@,
                        cache_key(queries@[i].0, bytes_content(*queries@[i].1)),
                        now,
                    ) is None,
                },
    {
        let mut results: Vec<Option<Message>> = Vec::new();
        let mut i: usize = 0;
        while i < queries.len()
            invariant
                i <= queries@.len(),
                results@.len() == i,
                forall|k: int|
                    0 <= k < i ==> match #[trigger] results@[k] {
                        Some(m) => found(
                            self@,
                            cache_key(queries@[k].0, bytes_content(*queries@[k].1)),
                            now,
                        ) == Some(m@),
                        None => found(
                            self@,
                            cache_key(queries@[k].0, bytes_content(*queries@[k].1)),
                            now,
                        ) is None,
                    },
            decreases queries@.len() - i,
        {
            let q = &queries[i];
            results.push(self.get_at(q.0, q.1, now));
            i = i + 1;
        }
        results
    }

    /// Keeps several translations, one after the other.
    pub fn set_batch(&mut self, batch: Vec<(Protocol, Bytes, Message)>, now: u64)
        ensures
            final(self)@ == with_entries(
                old(self)@,
                old(self).bound(),
                batch@,
                now,
                old(self).lifetime(),
            ),
            final(self).bound() == old(self).bound(),
            final(self).lifetime() == old(self).lifetime(),
    {
        let ghost all = batch@;
        let ghost first = self@;
        let mut rest = batch;
        let mut i: usize = 0;
        let n: usize = rest.len();
        assert(all.subrange(0, 0) =~= Seq::empty());
        while i < n
            invariant
                i <= n == all.len(),
                rest@ == all,
                self@ == with_entries(
                    first,
                    self.bound(),
                    all.subrange(0, i as int),
                    now,
                    self.lifetime(),
                ),
                self.bound() == old(self).bound(),
                self.lifetime() == old(self).lifetime(),
            decreases n - i,
        {
            assert(all.subrange(0, i + 1).drop_last() =~= all.subrange(0, i as int));
            self.set_at(rest[i].0, &rest[i].1, rest[i].2.clone(), now);
            i = i + 1;
        }
        assert(all.subrange(0, i as int) =~= all);
    }

    fn drop_entries(&mut self, protocol: Protocol, start_ms: u64, end_ms: u64)
        ensures
            final(self)@.entries == without(old(self)@.entries, within(protocol, start_ms, end_ms)),
            final(self)@.order == old(self)@.order,
            final(self).bound() == old(self).bound(),
            final(self).lifetime() == old(self).lifetime(),
    {
        let keys = map_keys(&self.entries);
        let ghost before = self@.entries;
        let ghost p = within(protocol, start_ms, end_ms);
        let code: u128 = protocol_code(protocol);
        let mut i: usize = 0;
        assert(before.dom() =~= self.entries@.dom());
        while i < keys.len()
            invariant
                i <= keys@.len(),
                code == protocol_number(protocol),
                keys@.no_duplicates(),
                keys@.to_set() == before.dom(),
                p == within(protocol, start_ms, end_ms),
                self.eviction_order@ == old(self).eviction_order@,
                self.max_entries == old(self).max_entries,
                self.default_ttl == old(self).default_ttl,
                forall|k: u128|
                    #![trigger self@.entries.contains_key(k)]
                    self@.entries.contains_key(k) <==> before.contains_key(k) && !(p(k, before[k])
                        && exists|j: int| 0 <= j < i && keys@[j] == k),
                forall|k: u128|
                    #![trigger self@.entries[k]]
                    self@.entries.contains_key(k) ==> self@.entries[k] == before[k],
            decreases keys@.len() - i,
        {
            let k: u128 = keys[i];
            let ghost now = self@.entries;
            proof {
                assert(keys@.to_set().contains(k));
                assert(before.contains_key(k));
                if !now.contains_key(k) {
                    let j = choose|j: int| 0 <= j < i && keys@[j] == k;
                    assert(false);
                }
                assert(now.dom() =~= self.entries@.dom());
                assert(now[k] == self.entries@[k]@);
            }
            let t_event: u64 = match self.entries.get(&k) {
                Some(e) => e.t_event,
                None => 0,
            };
            if k / 0x1_0000_0000_0000_0000 == code && t_event >= start_ms && t_event <= end_ms {
                self.entries.remove(&k);
                assert(self@.entries =~= now.remove(k));
            }
            proof {
                assert forall|x: u128|
                    #![trigger self@.entries.contains_key(x)]
                    self@.entries.contains_key(x) <==> before.contains_key(x) && !(p(x, before[x])
                        && exists|j: int| 0 <= j < i + 1 && keys@[j] == x) by {
                    if x == k {
                        assert(keys@[i as int] == x);
                    } else {
                        assert(self@.entries.contains_key(x) <==> now.contains_key(x));
                        if exists|j: int| 0 <= j < i && keys@[j] == x {
                            let j = choose|j: int| 0 <= j < i && keys@[j] == x;
                            assert(0 <= j < i + 1);
                        }
                    }
                }
            }
            i = i + 1;
        }
        proof {
            assert forall|k: u128| before.contains_key(k) implies exists|j: int|
                0 <= j < keys@.len() && keys@[j] == k by {
                assert(keys@.to_set().contains(k));
            }
            assert(self@.entries =~= without(before, p));
        }
    }

    /// Drops the translations of a protocol whose event falls in a range.
    pub fn invalidate_protocol_time_range(&mut self, protocol: Protocol, start_ms: u64, end_ms: u64)
        ensures
            final(self)@.entries == without(old(self)@.entries, within(protocol, start_ms, end_ms)),
            final(self)@.order == old(self)@.order,
            final(self).bound() == old(self).bound(),
            final(self).lifetime() == old(self).lifetime(),
    {
        self.drop_entries(protocol, start_ms, end_ms);
    }

    /// Drops the translations of a protocol.
    pub fn invalidate_protocol(&mut self, protocol: Protocol)
        ensures
            final(self)@.entries == without(
                old(self)@.entries,
                |k: u128, e: EntryView| is_key_of(k, protocol),
            ),
            final(self)@.order == old(self)@.order,
            final(self).bound() == old(self).bound(),
            final(self).lifetime() == old(self).lifetime(),
    {
        self.drop_entries(protocol, 0, u64::MAX);
        assert(self@.entries =~= without(
            old(self)@.entries,
            |k: u128, e: EntryView| is_key_of(k, protocol),
        ));
    }

    /// Drops everything.
    pub fn clear(&mut self)
        ensures
            final(self)@.entries == Map::<u128, EntryView>::empty(),
            final(self)@.order == Seq::<u128>::empty(),
            final(self).bound() == old(self).bound(),
            final(self).lifetime() == old(self).lifetime(),
    {
        self.entries.clear();
        self.eviction_order.clear();
        assert(self@.entries =~= Map::<u128, EntryView>::empty());
    }

    /// How many entries there are, and how many of them are good at the given
    /// time.
    pub fn stats(&self, now: u64) -> (r: CacheStats)
        ensures
            r.total_entries == self@.entries.len(),
            r.valid_entries == fresh_keys(self@.entries, now).len(),
            r.max_entries == self.bound(),
    {
        let keys = map_keys(&self.entries);
        let ghost m = self@.entries;
        let ghost mut good: Set<u128> = Set::empty();
        let mut valid: usize = 0;
        let mut i: usize = 0;
        assert(m.dom() =~= self.entries@.dom());
        while i < keys.len()
            invariant
                i <= keys@.len(),
                m == self@.entries,
                m.dom() == self.entries@.dom(),
                keys@.no_duplicates(),
                keys@.to_set() == m.dom(),
                good.finite(),
                good.len() == valid,
                valid <= i,
                forall|k: u128| #[trigger]
                    good.contains(k) <==> fresh(m[k], now) && exists|j: int|
                        0 <= j < i && keys@[j] == k,
            decreases keys@.len() - i,
        {
            let k: u128 = keys[i];
            let ghost was = good;
            proof {
                assert(keys@.to_set().contains(k));
                assert(m[k] == self.entries@[k]@);
                if good.contains(k) {
                    let j = choose|j: int| 0 <= j < i && keys@[j] == k;
                    assert(false);
                }
            }
            let is_fresh: bool = match self.entries.get(&k) {
                Some(e) => elapsed_ms(e.timestamp, now) < e.ttl,
                None => false,
            };
            if is_fresh {
                valid = valid + 1;
                proof {
                    good = good.insert(k);
                }
            }
            proof {
                assert forall|x: u128| #[trigger]
                    good.contains(x) <==> fresh(m[x], now) && exists|j: int|
                        0 <= j < i + 1 && keys@[j] == x by {
                    if x == k {
                        assert(keys@[i as int] == x);
                    } else {
                        assert(good.contains(x) <==> was.contains(x));
                        if exists|j: int| 0 <= j < i && keys@[j] == x {
                            let j = choose|j: int| 0 <= j < i && keys@[j] == x;
                            assert(0 <= j < i + 1);
                        }
                    }
                }
            }
            i = i + 1;
        }
        proof {
            assert forall|k: u128| m.contains_key(k) implies exists|j: int|
                0 <= j < keys@.len() && keys@[j] == k by {
                assert(keys@.to_set().contains(k));
            }
            assert forall|k: u128| #[trigger] good.contains(k) implies m.contains_key(k) by {
                let j = choose|j: int| 0 <= j < keys@.len() && keys@[j] == k;
                assert(keys@.to_set().contains(keys@[j]));
            }
            assert(good =~= fresh_keys(m, now));
        }
        CacheStats {
            total_entries: self.entries.len(),
            valid_entries: valid,
            max_entries: self.max_entries,
        }
    }
}

/// Payloads of different protocols never share a key.
pub proof fn keys_differ(p: Protocol, h: u64, q: Protocol, g: u64)
    ensures
        key_of(p, h) == key_of(q, g) <==> p == q && h == g,
        is_key_of(key_of(p, h), q) <==> p == q,
{
    assert((protocol_number(p) * 0x1_0000_0000_0000_0000 + h) / 0x1_0000_0000_0000_0000
        == protocol_number(p));
}

/// A translation that was just kept is found until it expires.
pub proof fn kept_is_found(c: CacheView, max: nat, k: u128, e: EntryView, now: u64)
    requires
        fresh(e, now),
    ensures
        found(with_entry(c, max, k, e), k, now) == Some(e.message),
{
}

/// Keeping a translation changes no other entry but the one that leaves.
pub proof fn keeping_leaves_others(c: CacheView, max: nat, k: u128, e: EntryView, other: u128, now: u64)
    requires
        other != k,
        c.entries.len() < max || c.order.len() == 0 || c.order[0] != other,
    ensures
        found(with_entry(c, max, k, e), other, now) == found(c, other, now),
{
}

/// An expired entry is not found.
pub proof fn expired_is_lost(c: CacheView, k: u128, now: u64)
    requires
        c.entries.contains_key(k),
        elapsed(c.entries[k].timestamp, now) >= c.entries[k].ttl,
    ensures
        found(c, k, now) is None,
{
}

/// Whether the order lists the keys of the entries, each once.
pub open spec fn in_order(c: CacheView) -> bool {
    &&& c.entries.dom().finite()
    &&& c.order.no_duplicates()
    &&& forall|k: u128| c.entries.contains_key(k) <==> #[trigger] c.order.contains(k)
}

/// As long as nothing was invalidated, a cache never holds more entries than
/// its bound, and the keys stay in the order in which they came.
pub proof fn bound_is_kept(c: CacheView, max: nat, k: u128, e: EntryView)
    requires
        max > 0,
        in_order(c),
        c.entries.len() <= max,
    ensures
        in_order(with_entry(c, max, k, e)),
        with_entry(c, max, k, e).entries.len() <= max,
{
    let d = with_room(c, max);
    let r = with_entry(c, max, k, e);
    if c.entries.len() >= max && c.order.len() > 0 {
        let first = c.order[0];
        assert(c.order.contains(first));
        assert forall|x: u128| d.entries.contains_key(x) <==> #[trigger] d.order.contains(x) by {
            if d.order.contains(x) {
                let i = choose|i: int| 0 <= i < d.order.len() && d.order[i] == x;
                assert(c.order[i + 1] == x);
                assert(c.order.contains(x));
            }
            if d.entries.contains_key(x) {
                assert(c.order.contains(x));
                let i = choose|i: int| 0 <= i < c.order.len() && c.order[i] == x;
                assert(d.order[i - 1] == x);
            }
        }
        assert(d.entries.len() < max);
    } else if c.entries.len() >= max {
        assert(c.order.len() == 0);
        assert(c.entries.dom() =~= Set::<u128>::empty()) by {
            assert forall|x: u128| !c.entries.dom().contains(x) by {
                if c.entries.contains_key(x) {
                    assert(c.order.contains(x));
                }
            }
        }
        assert(false);
    }
    assert(in_order(d));
    if d.entries.contains_key(k) {
        assert(r.entries.dom() =~= d.entries.dom());
    } else {
        assert(r.entries.dom() =~= d.entries.dom().insert(k));
        assert(!d.order.contains(k));
        assert forall|x: u128| r.entries.contains_key(x) <==> #[trigger] r.order.contains(x) by {
            if d.order.contains(x) {
                let i = choose|i: int| 0 <= i < d.order.len() && d.order[i] == x;
                assert(r.order[i] == x);
            }
            if x == k {
                assert(r.order[d.order.len() as int] == x);
            }
            if r.order.contains(x) {
                let i = choose|i: int| 0 <= i < r.order.len() && r.order[i] == x;
                if i < d.order.len() {
                    assert(d.order[i] == x);
                    assert(d.order.contains(x));
                }
            }
        }
    }
    assert forall|x: u128| r.entries.contains_key(x) <==> #[trigger] r.order.contains(x) by {
        assert(d.entries.contains_key(x) <==> d.order.contains(x));
    }
}

/// The hash takes in every byte, at every length: a byte more multiplies it by 33 and
/// adds the byte, modulo 2^64, starting from 5381.
pub proof fn hash_takes_every_byte(s: Seq<u8>, b: u8)
    ensures
        djb2(Seq::empty()) == 5381,
        djb2(s.push(b)) == (djb2(s) * 33 + b) % 0x1_0000_0000_0000_0000,
{
    assert(s.push(b).drop_last() =~= s);
}

/// Multiplying by 33 modulo 2^64 loses nothing: 33 is odd.
proof fn lemma_step_is_injective(x: u64, y: u64, c: u8)
    requires
        x != y,
    ensures
        (x * 33 + c) % 0x1_0000_0000_0000_0000 != (y * 33 + c) % 0x1_0000_0000_0000_0000,
{
    let m: int = 0x1_0000_0000_0000_0000;
    let a = x * 33 + c;
    let b = y * 33 + c;
    if a % m == b % m {
        let j = a / m - b / m;
        let inverse: int = 0xf83_e0f8_3e0f_83e1;
        let d = x - y;
        assert(33 * d == m * j);
        assert(33 * inverse == 1 + 2 * m);
        assert(d == m * (inverse * j - 2 * d)) by (nonlinear_arith)
            requires
                33 * d == m * j,
                33 * inverse == 1 + 2 * m,
        ;
        let q = inverse * j - 2 * d;
        assert(q == 0);
        assert(false);
    }
}

/// Two payloads that differ in one byte have different hashes.
pub proof fn one_byte_changes_the_hash(s: Seq<u8>, a: u8, b: u8, t: Seq<u8>)
    requires
        a != b,
    ensures
        djb2(s.push(a) + t) != djb2(s.push(b) + t),
    decreases t.len(),
{
    if t.len() == 0 {
        assert(s.push(a) + t =~= s.push(a));
        assert(s.push(b) + t =~= s.push(b));
        hash_takes_every_byte(s, a);
        hash_takes_every_byte(s, b);
    } else {
        let u = t.drop_last();
        let c = t.last();
        one_byte_changes_the_hash(s, a, b, u);
        assert(s.push(a) + t =~= (s.push(a) + u).push(c));
        assert(s.push(b) + t =~= (s.push(b) + u).push(c));
        hash_takes_every_byte(s.push(a) + u, c);
        hash_takes_every_byte(s.push(b) + u, c);
        lemma_step_is_injective(djb2(s.push(a) + u), djb2(s.push(b) + u), c);
    }
}

/// A payload that differs in one byte from one that was just kept is not answered with
/// its translation: what was missed before is missed still.
pub proof fn other_payloads_are_missed(
    c: CacheView,
    max: nat,
    p: Protocol,
    s: Seq<u8>,
    a: u8,
    b: u8,
    t: Seq<u8>,
    e: EntryView,
    now: u64,
)
    requires
        a != b,
        found(c, cache_key(p, s.push(b) + t), now) is None,
    ensures
        found(
            with_entry(c, max, cache_key(p, s.push(a) + t), e),
            cache_key(p, s.push(b) + t),
            now,
        ) is None,
{
    one_byte_changes_the_hash(s, a, b, t);
    keys_differ(p, djb2(s.push(a) + t), p, djb2(s.push(b) + t));
}

/// A translation is found under its own protocol only.
pub proof fn other_protocols_are_missed(
    c: CacheView,
    max: nat,
    p: Protocol,
    q: Protocol,
    data: Seq<u8>,
    other: Seq<u8>,
    e: EntryView,
    now: u64,
)
    requires
        p != q,
        found(c, cache_key(q, other), now) is None,
    ensures
        found(with_entry(c, max, cache_key(p, data), e), cache_key(q, other), now) is None,
{
    keys_differ(p, djb2(data), q, djb2(other));
}

/// The key of a payload stands for its protocol and its hash: two payloads share a key
/// only where they share both.
pub proof fn keys_stand_for_hashes(p: Protocol, a: Seq<u8>, q: Protocol, b: Seq<u8>)
    ensures
        cache_key(p, a) == cache_key(q, b) <==> p == q && djb2(a) == djb2(b),
{
    keys_differ(p, djb2(a), q, djb2(b));
}

/// A translation that is kept at a time with a lifetime is found, unchanged, at that time
/// and for as many milliseconds as the lifetime, and no longer. A clock that goes back
/// takes nothing from it.
pub proof fn kept_for_its_lifetime(
    c: CacheView,
    max: nat,
    p: Protocol,
    data: Seq<u8>,
    m: MessageView,
    t: u64,
    ttl: u64,
    now: u64,
)
    ensures
        found(with_entry(c, max, cache_key(p, data), entry_of(m, t, ttl)), cache_key(p, data), now)
            == (if ttl > 0 && now < t + ttl {
            Some(m)
        } else {
            None
        }),
{
}

/// A full cache gives up one entry for a new one: the one whose key came first. The
/// others are found as before.
pub proof fn first_key_leaves(c: CacheView, max: nat, k: u128, e: EntryView, other: u128, now: u64)
    requires
        c.entries.len() >= max,
        c.order.len() > 0,
        other != k,
    ensures
        found(with_entry(c, max, k, e), other, now) == (if other == c.order[0] {
            None
        } else {
            found(c, other, now)
        }),
{
}

/// Putting an entry under a key that is there already replaces it and lengthens nothing.
pub proof fn keeping_again_replaces(c: CacheView, max: nat, k: u128, e: EntryView)
    requires
        c.entries.contains_key(k),
        c.entries.len() < max,
    ensures
        with_entry(c, max, k, e).entries.dom() == c.entries.dom(),
        with_entry(c, max, k, e).order == c.order,
{
    assert(with_entry(c, max, k, e).entries.dom() =~= c.entries.dom());
}

/// Invalidating drops the translations of a protocol whose event falls in a range, both
/// ends included, and no others.
pub proof fn invalidated_is_missed(
    c: CacheView,
    p: Protocol,
    q: Protocol,
    data: Seq<u8>,
    start_ms: u64,
    end_ms: u64,
    now: u64,
)
    ensures
        ({
            let k = cache_key(q, data);
            let d = CacheView { entries: without(c.entries, within(p, start_ms, end_ms)), ..c };
            found(d, k, now) == (if p == q && c.entries.contains_key(k) && start_ms
                <= c.entries[k].t_event <= end_ms {
                None
            } else {
                found(c, k, now)
            })
        }),
{
    keys_differ(q, djb2(data), p, 0);
}

/// The entries that are counted as good are those that are found.
pub proof fn good_entries_are_found(c: CacheView, k: u128, now: u64)
    ensures
        fresh_keys(c.entries, now).contains(k) <==> found(c, k, now) is Some,
{
}

/// Keeping several translations is keeping one after the other: the last one is found
/// for its lifetime, and the others were kept before it.
pub proof fn batches_are_kept_in_order(
    c: CacheView,
    max: nat,
    batch: Seq<(Protocol, Bytes, Message)>,
    more: (Protocol, Bytes, Message),
    now: u64,
    ttl: u64,
)
    ensures
        with_entries(c, max, Seq::empty(), now, ttl) == c,
        with_entries(c, max, batch.push(more), now, ttl) == with_entry(
            with_entries(c, max, batch, now, ttl),
            max,
            cache_key(more.0, bytes_content(more.1)),
            entry_of(more.2@, now, ttl),
        ),
{
    assert(batch.push(more).drop_last() =~= batch);
}

/// What was just kept is dropped by an invalidation exactly where the protocol is its own
/// and the event of its message falls in the range.
pub proof fn kept_can_be_invalidated(
    c: CacheView,
    max: nat,
    p: Protocol,
    q: Protocol,
    data: Seq<u8>,
    m: MessageView,
    t: u64,
    ttl: u64,
    start_ms: u64,
    end_ms: u64,
)
    requires
        ttl > 0,
    ensures
        ({
            let k = cache_key(p, data);
            let d = with_entry(c, max, k, entry_of(m, t, ttl));
            let e = CacheView { entries: without(d.entries, within(q, start_ms, end_ms)), ..d };
            found(e, k, t) == (if p == q && start_ms <= m.t_event <= end_ms {
                None
            } else {
                Some(m)
            })
        }),
{
    keys_differ(p, djb2(data), q, 0);
}

} // verus!
