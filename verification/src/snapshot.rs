//! Snapshots of message batches, for uplink without reprocessing.
//!
//! A snapshot's id is made from its protocol and its payloads alone: the same
//! batch always has the same id.

use crate::batcher::{elapsed, elapsed_ms};
use crate::cache::{protocol_code, protocol_number};
use crate::payload::bytes_as_slice;
use crate::protocol::{message_views, now_ms, protocol_name, Message, MessageView, Protocol};
use crate::seqs::{lemma_filter_ends, lemma_filter_next};
use crate::text::{decimal_of, push_decimal, same_text};
use crate::wire::{be_bytes, push_be};
use vstd::prelude::*;
use vstd::string::StringExecFns;

verus! {

/// The start of the FNV-1a hash of 64 bits.
pub const FNV_BASIS: u64 = 0xcbf2_9ce4_8422_2325;

/// The factor of the FNV-1a hash of 64 bits.
pub const FNV_PRIME: u64 = 0x0000_0100_0000_01b3;

/// FNV-1a, going on from a hash.
pub open spec fn fnv_from(h: u64, data: Seq<u8>) -> u64
    decreases data.len(),
{
    if data.len() == 0 {
        h
    } else {
        (((fnv_from(h, data.drop_last()) ^ (data.last() as u64)) * FNV_PRIME)
            % 0x1_0000_0000_0000_0000) as u64
    }
}

/// The hash of a batch: of the protocol's number, then of each payload behind
/// its length.
pub open spec fn batch_hash(p: Protocol, messages: Seq<MessageView>) -> u64
    decreases messages.len(),
{
    if messages.len() == 0 {
        fnv_from(FNV_BASIS, seq![protocol_number(p) as u8])
    } else {
        let d = messages.last().data;
        fnv_from(fnv_from(batch_hash(p, messages.drop_last()), be_bytes(d.len(), 8)), d)
    }
}

/// The id of a batch.
pub open spec fn batch_id(p: Protocol, messages: Seq<MessageView>) -> Seq<char> {
    "snap_"@ + protocol_name(p) + "_"@ + decimal_of(batch_hash(p, messages) as nat)
}

/// The number of payload bytes of a batch.
pub open spec fn batch_size(messages: Seq<MessageView>) -> nat
    decreases messages.len(),
{
    if messages.len() == 0 {
        0
    } else {
        batch_size(messages.drop_last()) + messages.last().data.len()
    }
}

#[derive(Debug)]
pub struct Snapshot {
    pub id: String,
    pub messages: Vec<Message>,
    pub protocol: Protocol,
    /// Unix time in milliseconds.
    pub created_at: u64,
    pub size_bytes: usize,
}

/// What a snapshot says.
#[verifier::ext_equal]
pub struct SnapshotView {
    pub id: Seq<char>,
    pub messages: Seq<MessageView>,
    pub protocol: Protocol,
    pub created_at: u64,
    pub size_bytes: usize,
}

impl View for Snapshot {
    type V = SnapshotView;

    open spec fn view(&self) -> SnapshotView {
        SnapshotView {
            id: self.id@,
            messages: message_views(self.messages@),
            protocol: self.protocol,
            created_at: self.created_at,
            size_bytes: self.size_bytes,
        }
    }
}

impl Clone for Snapshot {
    fn clone(&self) -> (r: Self)
        ensures
            r@ == self@,
    {
        let mut messages: Vec<Message> = Vec::new();
        let mut i: usize = 0;
        while i < self.messages.len()
            invariant
                i <= self.messages@.len(),
                messages@.len() == i,
                forall|k: int| 0 <= k < i ==> (#[trigger] messages@[k])@ == self.messages@[k]@,
            decreases self.messages@.len() - i,
        {
            messages.push(self.messages[i].clone());
            i = i + 1;
        }
        assert(message_views(messages@) =~= message_views(self.messages@));
        Snapshot {
            id: self.id.clone(),
            messages,
            protocol: self.protocol,
            created_at: self.created_at,
            size_bytes: self.size_bytes,
        }
    }
}

/// What a list of snapshots says.
pub open spec fn snapshot_views(s: Seq<Snapshot>) -> Seq<SnapshotView> {
    s.map_values(|x: Snapshot| x@)
}

/// Whether a snapshot is young enough.
pub open spec fn valid(s: SnapshotView, ttl: u64, now: u64) -> bool {
    elapsed(s.created_at, now) < ttl
}

/// Snapshots that are young enough.
pub open spec fn validity(ttl: u64, now: u64) -> spec_fn(SnapshotView) -> bool {
    |s: SnapshotView| valid(s, ttl, now)
}

/// Snapshots of a protocol that are young enough.
pub open spec fn validity_of(p: Protocol, ttl: u64, now: u64) -> spec_fn(SnapshotView) -> bool {
    |s: SnapshotView| s.protocol == p && valid(s, ttl, now)
}

/// Snapshots with another id.
pub open spec fn other_than(id: Seq<char>) -> spec_fn(SnapshotView) -> bool {
    |s: SnapshotView| s.id != id
}

/// The position of the oldest snapshot; of several, that of the first.
pub open spec fn oldest(s: Seq<SnapshotView>) -> int
    decreases s.len(),
{
    if s.len() <= 1 {
        0
    } else {
        let i = oldest(s.drop_last());
        if s.last().created_at < s[i].created_at {
            s.len() - 1
        } else {
            i
        }
    }
}

/// The snapshots after a new one: where there is no room the oldest leaves, and
/// one with the same id is replaced.
pub open spec fn with_snapshot(s: Seq<SnapshotView>, max: nat, x: SnapshotView) -> Seq<SnapshotView> {
    let t = if s.len() >= max && s.len() > 0 {
        s.remove(oldest(s))
    } else {
        s
    };
    t.filter(other_than(x.id)).push(x)
}

/// The snapshot of a batch.
pub open spec fn snapshot_of(messages: Seq<MessageView>, p: Protocol, now: u64) -> SnapshotView {
    SnapshotView {
        id: batch_id(p, messages),
        messages,
        protocol: p,
        created_at: now,
        size_bytes: batch_size(messages) as usize,
    }
}

/// The first snapshot with an id, if any.
pub open spec fn snapshot_with(s: Seq<SnapshotView>, id: Seq<char>) -> Option<SnapshotView>
    decreases s.len(),
{
    if s.len() == 0 {
        None
    } else if s[0].id == id {
        Some(s[0])
    } else {
        snapshot_with(s.skip(1), id)
    }
}

/// The snapshot with an id, if there is one that has not expired.
pub open spec fn retrieved(s: Seq<SnapshotView>, id: Seq<char>, ttl: u64, now: u64) -> Option<
    SnapshotView,
> {
    match snapshot_with(s, id) {
        Some(x) => if elapsed(x.created_at, now) > ttl {
            None
        } else {
            Some(x)
        },
        None => None,
    }
}

/// The sum of the snapshots' sizes.
pub open spec fn size_sum(s: Seq<SnapshotView>) -> nat
    decreases s.len(),
{
    if s.len() == 0 {
        0
    } else {
        size_sum(s.drop_last()) + s.last().size_bytes as nat
    }
}

proof fn lemma_size_sum_grows(s: Seq<SnapshotView>, i: int)
    requires
        0 <= i <= s.len(),
    ensures
        size_sum(s.subrange(0, i)) <= size_sum(s),
    decreases s.len() - i,
{
    if i < s.len() {
        lemma_size_sum_grows(s, i + 1);
        assert(s.subrange(0, i + 1).drop_last() =~= s.subrange(0, i));
    } else {
        assert(s.subrange(0, i) =~= s);
    }
}

proof fn lemma_batch_size_grows(s: Seq<MessageView>, i: int)
    requires
        0 <= i <= s.len(),
    ensures
        batch_size(s.subrange(0, i)) <= batch_size(s),
    decreases s.len() - i,
{
    if i < s.len() {
        lemma_batch_size_grows(s, i + 1);
        assert(s.subrange(0, i + 1).drop_last() =~= s.subrange(0, i));
    } else {
        assert(s.subrange(0, i) =~= s);
    }
}

/// FNV-1a, going on from a hash.
pub fn fnv1a(start: u64, data: &[u8]) -> (r: u64)
    ensures
        r == fnv_from(start, data@),
{
    let mut h: u64 = start;
    let mut i: usize = 0;
    assert(data@.subrange(0, 0) =~= Seq::empty());
    while i < data.len()
        invariant
            i <= data@.len(),
            h == fnv_from(start, data@.subrange(0, i as int)),
        decreases data@.len() - i,
    {
        assert(data@.subrange(0, i + 1).drop_last() =~= data@.subrange(0, i as int));
        let x: u64 = h ^ (data[i] as u64);
        h = ((x as u128 * FNV_PRIME as u128) % 0x1_0000_0000_0000_0000) as u64;
        i = i + 1;
    }
    assert(data@.subrange(0, i as int) =~= data@);
    h
}

fn hash_messages(messages: &Vec<Message>, protocol: Protocol) -> (r: u64)
    ensures
        r == batch_hash(protocol, message_views(messages@)),
{
    let ghost all = message_views(messages@);
    let mut head: Vec<u8> = Vec::new();
    head.push(protocol_code(protocol) as u8);
    assert(head@ =~= seq![protocol_number(protocol) as u8]);
    let mut h: u64 = fnv1a(FNV_BASIS, head.as_slice());
    let mut i: usize = 0;
    assert(all.subrange(0, 0) =~= Seq::empty());
    while i < messages.len()
        invariant
            i <= messages@.len() == all.len(),
            all == message_views(messages@),
            h == batch_hash(protocol, all.subrange(0, i as int)),
        decreases messages@.len() - i,
    {
        assert(all.subrange(0, i + 1).drop_last() =~= all.subrange(0, i as int));
        assert(all[i as int] == messages@[i as int]@);
        let data = bytes_as_slice(&messages[i].data);
        let mut length: Vec<u8> = Vec::new();
        push_be(&mut length, data.len() as u64, 8);
        assert(length@ =~= be_bytes(data@.len(), 8));
        h = fnv1a(fnv1a(h, length.as_slice()), data);
        i = i + 1;
    }
    assert(all.subrange(0, i as int) =~= all);
    h
}

fn generate_snapshot_id(messages: &Vec<Message>, protocol: Protocol) -> (r: String)
    ensures
        r@ == batch_id(protocol, message_views(messages@)),
{
    let hash: u64 = hash_messages(messages, protocol);
    let mut id = String::from_str("snap_");
    id.append(protocol.name());
    id.append("_");
    push_decimal(&mut id, hash);
    id
}

fn total_size(messages: &Vec<Message>) -> (r: usize)
    requires
        batch_size(message_views(messages@)) <= usize::MAX,
    ensures
        r == batch_size(message_views(messages@)),
{
    let ghost all = message_views(messages@);
    let mut sum: usize = 0;
    let mut i: usize = 0;
    assert(all.subrange(0, 0) =~= Seq::empty());
    while i < messages.len()
        invariant
            i <= messages@.len() == all.len(),
            all == message_views(messages@),
            batch_size(all) <= usize::MAX,
            sum == batch_size(all.subrange(0, i as int)),
        decreases messages@.len() - i,
    {
        proof {
            assert(all.subrange(0, i + 1).drop_last() =~= all.subrange(0, i as int));
            assert(all[i as int] == messages@[i as int]@);
            lemma_batch_size_grows(all, i + 1);
        }
        sum = sum + messages[i].size();
        i = i + 1;
    }
    assert(all.subrange(0, i as int) =~= all);
    sum
}

#[derive(Debug, Clone, Copy)]
pub struct SnapshotStats {
    pub total_snapshots: usize,
    /// Snapshots that are young enough.
    pub valid_snapshots: usize,
    pub total_size_bytes: usize,
    pub max_snapshots: usize,
}

/// A bounded set of snapshots that expire.
pub struct SnapshotManager {
    snapshots: Vec<Snapshot>,
    max_snapshots: usize,
    snapshot_ttl: u64,
}

impl View for SnapshotManager {
    type V = Seq<SnapshotView>;

    closed spec fn view(&self) -> Seq<SnapshotView> {
        snapshot_views(self.snapshots@)
    }
}

impl SnapshotManager {
    /// The number of snapshots above which the oldest leaves.
    pub closed spec fn bound(&self) -> nat {
        self.max_snapshots as nat
    }

    /// How long a snapshot is good for, in milliseconds.
    pub closed spec fn lifetime(&self) -> u64 {
        self.snapshot_ttl
    }

    pub fn new(max_snapshots: usize, snapshot_ttl: u64) -> (r: Self)
        ensures
            r@ == Seq::<SnapshotView>::empty(),
            r.bound() == max_snapshots,
            r.lifetime() == snapshot_ttl,
    {
        let r = SnapshotManager { snapshots: Vec::new(), max_snapshots, snapshot_ttl };
        assert(r@ =~= Seq::<SnapshotView>::empty());
        r
    }

    fn evict_oldest(&mut self)
        ensures
            final(self)@ == (if old(self)@.len() > 0 {
                old(self)@.remove(oldest(old(self)@))
            } else {
                old(self)@
            }),
            final(self).bound() == old(self).bound(),
            final(self).lifetime() == old(self).lifetime(),
    {
        let ghost all = self@;
        if self.snapshots.len() == 0 {
            return;
        }
        let mut best: usize = 0;
        let mut i: usize = 1;
        assert(all.subrange(0, 1).len() == 1);
        while i < self.snapshots.len()
            invariant
                0 < i <= self.snapshots@.len() == all.len(),
                all == snapshot_views(self.snapshots@),
                best < i,
                best == oldest(all.subrange(0, i as int)),
            decreases self.snapshots@.len() - i,
        {
            assert(all.subrange(0, i + 1).drop_last() =~= all.subrange(0, i as int));
            assert(all[i as int] == self.snapshots@[i as int]@);
            assert(all[best as int] == self.snapshots@[best as int]@);
            if self.snapshots[i].created_at < self.snapshots[best].created_at {
                best = i;
            }
            i = i + 1;
        }
        assert(all.subrange(0, i as int) =~= all);
        self.snapshots.remove(best);
        assert(self@ =~= all.remove(best as int));
    }

    fn drop_id(&mut self, id: &str)
        ensures
            final(self)@ == old(self)@.filter(other_than(id@)),
            final(self)@.len() <= old(self)@.len(),
            final(self).bound() == old(self).bound(),
            final(self).lifetime() == old(self).lifetime(),
    {
        let ghost all = self@;
        let ghost p = other_than(id@);
        let ghost mut done: int = 0;
        let mut i: usize = 0;
        proof {
            lemma_filter_ends(all, p);
            assert(all.skip(0) =~= all);
            assert(self@ =~= all.subrange(0, 0).filter(p) + all.skip(0));
        }
        while i < self.snapshots.len()
            invariant
                0 <= done <= all.len(),
                i <= self.snapshots@.len(),
                p == other_than(id@),
                i == all.subrange(0, done).filter(p).len(),
                i <= done,
                self@ == all.subrange(0, done).filter(p) + all.skip(done),
                self.max_snapshots == old(self).max_snapshots,
                self.snapshot_ttl == old(self).snapshot_ttl,
            decreases all.len() - done,
        {
            let ghost before = self@;
            proof {
                lemma_filter_next(all, done, p);
                assert(before[i as int] == all.skip(done)[0]);
                assert(before[i as int] == self.snapshots@[i as int]@);
            }
            if same_text(self.snapshots[i].id.as_str(), id) {
                self.snapshots.remove(i);
                assert(self@ =~= before.remove(i as int));
            } else {
                i = i + 1;
            }
            proof {
                done = done + 1;
                assert(self@ =~= all.subrange(0, done).filter(p) + all.skip(done));
            }
        }
        proof {
            lemma_filter_ends(all, p);
            assert(done == all.len());
            assert(self@ =~= all.filter(p));
        }
    }

    /// Takes a snapshot of a batch now and returns its id.
    pub fn create_snapshot(&mut self, messages: Vec<Message>, protocol: Protocol) -> (r: String)
        requires
            batch_size(message_views(messages@)) <= usize::MAX,
        ensures
            r@ == batch_id(protocol, message_views(messages@)),
            exists|now: u64|
                final(self)@ == with_snapshot(
                    old(self)@,
                    old(self).bound(),
                    #[trigger] snapshot_of(message_views(messages@), protocol, now),
                ),
            final(self).bound() == old(self).bound(),
            final(self).lifetime() == old(self).lifetime(),
    {
        self.create_snapshot_at(messages, protocol, now_ms())
    }

    /// Takes a snapshot of a batch at the given time and returns its id.
    pub fn create_snapshot_at(&mut self, messages: Vec<Message>, protocol: Protocol, now: u64) -> (r:
        String)
        requires
            batch_size(message_views(messages@)) <= usize::MAX,
        ensures
            r@ == batch_id(protocol, message_views(messages@)),
            final(self)@ == with_snapshot(
                old(self)@,
                old(self).bound(),
                snapshot_of(message_views(messages@), protocol, now),
            ),
            final(self).bound() == old(self).bound(),
            final(self).lifetime() == old(self).lifetime(),
    {
        let id = generate_snapshot_id(&messages, protocol);
        let size_bytes: usize = total_size(&messages);
        if self.snapshots.len() >= self.max_snapshots {
            self.evict_oldest();
        }
        self.drop_id(id.as_str());
        let ghost before = self@;
        let snapshot = Snapshot { id: id.clone(), messages, protocol, created_at: now, size_bytes };
        self.snapshots.push(snapshot);
        assert(self@ =~= before.push(snapshot@));
        id
    }

    /// A snapshot by its id, if there is one that has not expired now.
    pub fn get_snapshot(&self, snapshot_id: &str) -> (r: Option<Snapshot>)
        ensures
            exists|now: u64|
                match r {
                    Some(s) => #[trigger] retrieved(
                        self@,
                        snapshot_id@,
                        self.lifetime(),
                        now,
                    ) == Some(s@),
                    None => retrieved(self@, snapshot_id@, self.lifetime(), now) is None,
                },
    {
        let now = now_ms();
        let r = self.get_snapshot_at(snapshot_id, now);
        assert(retrieved(self@, snapshot_id@, self.lifetime(), now) is None || r is Some);
        r
    }

    /// A snapshot by its id, if there is one that has not expired at the given
    /// time.
    pub fn get_snapshot_at(&self, snapshot_id: &str, now: u64) -> (r: Option<Snapshot>)
        ensures
            match r {
                Some(s) => retrieved(self@, snapshot_id@, self.lifetime(), now) == Some(s@),
                None => retrieved(self@, snapshot_id@, self.lifetime(), now) is None,
            },
    {
        let ghost all = self@;
        let mut i: usize = 0;
        assert(all.skip(0) =~= all);
        while i < self.snapshots.len()
            invariant
                i <= self.snapshots@.len() == all.len(),
                all == self@,
                snapshot_with(all, snapshot_id@) == snapshot_with(
                    all.skip(i as int),
                    snapshot_id@,
                ),
            decreases self.snapshots@.len() - i,
        {
            assert(all.skip(i as int).skip(1) =~= all.skip(i + 1));
            assert(all.skip(i as int)[0] == self.snapshots@[i as int]@);
            if same_text(self.snapshots[i].id.as_str(), snapshot_id) {
                if elapsed_ms(self.snapshots[i].created_at, now) > self.snapshot_ttl {
                    return None;
                }
                return Some(self.snapshots[i].clone());
            }
            i = i + 1;
        }
        None
    }

    /// The snapshots of a protocol that are young enough at the given time.
    pub fn get_protocol_snapshots(&self, protocol: Protocol, now: u64) -> (r: Vec<Snapshot>)
        ensures
            snapshot_views(r@) == self@.filter(validity_of(protocol, self.lifetime(), now)),
    {
        let ghost all = self@;
        let ghost p = validity_of(protocol, self.lifetime(), now);
        let mut results: Vec<Snapshot> = Vec::new();
        let mut i: usize = 0;
        proof {
            lemma_filter_ends(all, p);
            assert(snapshot_views(results@) =~= Seq::<SnapshotView>::empty());
        }
        while i < self.snapshots.len()
            invariant
                i <= self.snapshots@.len() == all.len(),
                all == self@,
                p == validity_of(protocol, self.snapshot_ttl, now),
                snapshot_views(results@) == all.subrange(0, i as int).filter(p),
            decreases self.snapshots@.len() - i,
        {
            let ghost before = results@;
            proof {
                lemma_filter_next(all, i as int, p);
                assert(all[i as int] == self.snapshots@[i as int]@);
            }
            if self.snapshots[i].protocol == protocol && elapsed_ms(
                self.snapshots[i].created_at,
                now,
            ) < self.snapshot_ttl {
                results.push(self.snapshots[i].clone());
                assert(snapshot_views(results@) =~= snapshot_views(before).push(all[i as int]));
            }
            i = i + 1;
        }
        proof {
            lemma_filter_ends(all, p);
        }
        results
    }

    /// Drops the snapshot with an id; whether there was one.
    pub fn delete_snapshot(&mut self, snapshot_id: &str) -> (r: bool)
        ensures
            final(self)@ == old(self)@.filter(other_than(snapshot_id@)),
            r <==> final(self)@ != old(self)@,
            final(self).bound() == old(self).bound(),
            final(self).lifetime() == old(self).lifetime(),
    {
        let n: usize = self.snapshots.len();
        self.drop_id(snapshot_id);
        proof {
            lemma_filter_same_len(old(self)@, other_than(snapshot_id@));
        }
        self.snapshots.len() < n
    }

    /// Drops the snapshots that are too old at the given time.
    pub fn clear_expired(&mut self, now: u64)
        ensures
            final(self)@ == old(self)@.filter(validity(old(self).lifetime(), now)),
            final(self).bound() == old(self).bound(),
            final(self).lifetime() == old(self).lifetime(),
    {
        let ghost all = self@;
        let ghost p = validity(self.lifetime(), now);
        let ghost mut done: int = 0;
        let mut i: usize = 0;
        proof {
            lemma_filter_ends(all, p);
            assert(all.skip(0) =~= all);
            assert(self@ =~= all.subrange(0, 0).filter(p) + all.skip(0));
        }
        while i < self.snapshots.len()
            invariant
                0 <= done <= all.len(),
                i <= self.snapshots@.len(),
                p == validity(self.snapshot_ttl, now),
                i == all.subrange(0, done).filter(p).len(),
                self@ == all.subrange(0, done).filter(p) + all.skip(done),
                self.max_snapshots == old(self).max_snapshots,
                self.snapshot_ttl == old(self).snapshot_ttl,
            decreases all.len() - done,
        {
            let ghost before = self@;
            proof {
                lemma_filter_next(all, done, p);
                assert(before[i as int] == all.skip(done)[0]);
                assert(before[i as int] == self.snapshots@[i as int]@);
            }
            if elapsed_ms(self.snapshots[i].created_at, now) < self.snapshot_ttl {
                i = i + 1;
            } else {
                self.snapshots.remove(i);
                assert(self@ =~= before.remove(i as int));
            }
            proof {
                done = done + 1;
                assert(self@ =~= all.subrange(0, done).filter(p) + all.skip(done));
            }
        }
        proof {
            lemma_filter_ends(all, p);
            assert(done == all.len());
            assert(self@ =~= all.filter(p));
        }
    }

    /// How many snapshots there are, how many are young enough at the given
    /// time, and how large they are together.
    pub fn stats(&self, now: u64) -> (r: SnapshotStats)
        requires
            size_sum(self@) <= usize::MAX,
        ensures
            r.total_snapshots == self@.len(),
            r.valid_snapshots == self@.filter(validity(self.lifetime(), now)).len(),
            r.total_size_bytes == size_sum(self@),
            r.max_snapshots == self.bound(),
    {
        let ghost all = self@;
        let ghost p = validity(self.lifetime(), now);
        let mut valid_snapshots: usize = 0;
        let mut sum: usize = 0;
        let mut i: usize = 0;
        proof {
            lemma_filter_ends(all, p);
        }
        while i < self.snapshots.len()
            invariant
                i <= self.snapshots@.len() == all.len(),
                all == self@,
                p == validity(self.snapshot_ttl, now),
                size_sum(all) <= usize::MAX,
                valid_snapshots == all.subrange(0, i as int).filter(p).len(),
                valid_snapshots <= i,
                sum == size_sum(all.subrange(0, i as int)),
            decreases self.snapshots@.len() - i,
        {
            proof {
                lemma_filter_next(all, i as int, p);
                lemma_size_sum_grows(all, i + 1);
                assert(all.subrange(0, i + 1).drop_last() =~= all.subrange(0, i as int));
                assert(all[i as int] == self.snapshots@[i as int]@);
            }
            if elapsed_ms(self.snapshots[i].created_at, now) < self.snapshot_ttl {
                valid_snapshots = valid_snapshots + 1;
            }
            sum = sum + self.snapshots[i].size_bytes;
            i = i + 1;
        }
        proof {
            lemma_filter_ends(all, p);
        }
        SnapshotStats {
            total_snapshots: self.snapshots.len(),
            valid_snapshots,
            total_size_bytes: sum,
            max_snapshots: self.max_snapshots,
        }
    }
}

proof fn lemma_filter_same_len(s: Seq<SnapshotView>, p: spec_fn(SnapshotView) -> bool)
    ensures
        s.filter(p).len() <= s.len(),
        s.filter(p).len() == s.len() ==> s.filter(p) == s,
    decreases s.len(),
{
    reveal(Seq::filter);
    if s.len() > 0 {
        lemma_filter_same_len(s.drop_last(), p);
        assert(s.drop_last().push(s.last()) =~= s);
    }
}

proof fn lemma_none_with_id(s: Seq<SnapshotView>, id: Seq<char>)
    ensures
        forall|i: int|
            0 <= i < s.filter(other_than(id)).len() ==> (#[trigger] s.filter(
                other_than(id),
            )[i]).id != id,
    decreases s.len(),
{
    reveal(Seq::filter);
    if s.len() > 0 {
        lemma_none_with_id(s.drop_last(), id);
    }
}

proof fn lemma_found_last(s: Seq<SnapshotView>, id: Seq<char>)
    requires
        s.len() > 0,
        s.last().id == id,
        forall|i: int| 0 <= i < s.len() - 1 ==> (#[trigger] s[i]).id != id,
    ensures
        snapshot_with(s, id) == Some(s.last()),
    decreases s.len(),
{
    if s.len() > 1 {
        let t = s.skip(1);
        assert(s[0].id != id);
        assert forall|i: int| 0 <= i < t.len() - 1 implies (#[trigger] t[i]).id != id by {
            assert(t[i] == s[i + 1]);
        }
        lemma_found_last(t, id);
        assert(t.last() == s.last());
    }
}

/// A snapshot that was just taken is retrieved under its id until it expires,
/// with the batch as it was.
pub proof fn taken_is_retrieved(
    s: Seq<SnapshotView>,
    max: nat,
    messages: Seq<MessageView>,
    p: Protocol,
    t: u64,
    ttl: u64,
    now: u64,
)
    ensures
        ({
            let x = snapshot_of(messages, p, t);
            retrieved(with_snapshot(s, max, x), batch_id(p, messages), ttl, now) == (if elapsed(
                t,
                now,
            ) > ttl {
                None
            } else {
                Some(x)
            })
        }),
{
    let x = snapshot_of(messages, p, t);
    let room = if s.len() >= max && s.len() > 0 {
        s.remove(oldest(s))
    } else {
        s
    };
    lemma_none_with_id(room, x.id);
    lemma_found_last(room.filter(other_than(x.id)).push(x), x.id);
}

proof fn lemma_oldest_in_range(s: Seq<SnapshotView>)
    requires
        s.len() > 0,
    ensures
        0 <= oldest(s) < s.len(),
        forall|i: int| 0 <= i < s.len() ==> s[oldest(s)].created_at <= (#[trigger] s[i]).created_at,
    decreases s.len(),
{
    if s.len() > 1 {
        let t = s.drop_last();
        lemma_oldest_in_range(t);
        assert forall|i: int| 0 <= i < s.len() implies s[oldest(s)].created_at <= (
        #[trigger] s[i]).created_at by {
            if i < t.len() {
                assert(t[i] == s[i]);
            }
        }
    }
}

/// The pool never holds more snapshots than its bound.
pub proof fn pool_is_bounded(s: Seq<SnapshotView>, max: nat, x: SnapshotView)
    requires
        0 < max,
        s.len() <= max,
    ensures
        with_snapshot(s, max, x).len() <= max,
{
    if s.len() >= max {
        lemma_oldest_in_range(s);
        lemma_filter_same_len(s.remove(oldest(s)), other_than(x.id));
    } else {
        lemma_filter_same_len(s, other_than(x.id));
    }
}

/// The snapshot that leaves for want of room is one than which none is older.
pub proof fn oldest_leaves(s: Seq<SnapshotView>)
    requires
        s.len() > 0,
    ensures
        0 <= oldest(s) < s.len(),
        forall|i: int| 0 <= i < s.len() ==> s[oldest(s)].created_at <= (#[trigger] s[i]).created_at,
{
    lemma_oldest_in_range(s);
}

/// Hashing goes on byte by byte: two byte strings may be hashed one after the other, and
/// each byte is mixed in and multiplied by the factor.
pub proof fn hashes_go_on(h: u64, a: Seq<u8>, b: Seq<u8>)
    ensures
        fnv_from(h, Seq::empty()) == h,
        fnv_from(h, a + b) == fnv_from(fnv_from(h, a), b),
        forall|x: u8| #[trigger]
            fnv_from(h, a.push(x)) == ((fnv_from(h, a) ^ (x as u64)) * 0x100_0000_01b3)
                % 0x1_0000_0000_0000_0000,
    decreases b.len(),
{
    if b.len() == 0 {
        assert(a + b =~= a);
    } else {
        assert((a + b).drop_last() =~= a + b.drop_last());
        hashes_go_on(h, a, b.drop_last());
    }
    assert forall|x: u8| #[trigger]
        fnv_from(h, a.push(x)) == ((fnv_from(h, a) ^ (x as u64)) * 0x100_0000_01b3)
            % 0x1_0000_0000_0000_0000 by {
        assert(a.push(x).drop_last() =~= a);
    }
}

/// Multiplying by the factor modulo 2^64 loses nothing: the factor is odd.
proof fn lemma_factor_is_injective(x: u64, y: u64)
    requires
        x != y,
    ensures
        (x * FNV_PRIME) % 0x1_0000_0000_0000_0000 != (y * FNV_PRIME) % 0x1_0000_0000_0000_0000,
{
    let m: int = 0x1_0000_0000_0000_0000;
    let f: int = 0x100_0000_01b3;
    let a = x * FNV_PRIME;
    let b = y * FNV_PRIME;
    if a % m == b % m {
        let j = a / m - b / m;
        let inverse: int = 0xce96_5057_aff6_957b;
        let k: int = 887285111055;
        let d = x - y;
        assert(f * d == m * j) by (nonlinear_arith)
            requires
                a == x * f,
                b == y * f,
                d == x - y,
                a - b == m * j,
        ;
        assert(f * inverse == 1 + k * m) by (nonlinear_arith)
            requires
                f == 0x100_0000_01b3,
                inverse == 0xce96_5057_aff6_957b,
                k == 887285111055,
                m == 0x1_0000_0000_0000_0000,
        ;
        let q = inverse * j - k * d;
        assert(d == m * q) by (nonlinear_arith)
            requires
                f * d == m * j,
                f * inverse == 1 + k * m,
                q == inverse * j - k * d,
        ;
        assert(q == 0) by (nonlinear_arith)
            requires
                d == m * q,
                -m < d < m,
                m > 0,
        ;
        assert(d == 0);
    }
}

/// Going on from different hashes with the same bytes gives different hashes.
proof fn lemma_hash_of_start(g: u64, h: u64, data: Seq<u8>)
    requires
        g != h,
    ensures
        fnv_from(g, data) != fnv_from(h, data),
    decreases data.len(),
{
    if data.len() > 0 {
        lemma_hash_of_start(g, h, data.drop_last());
        let a = fnv_from(g, data.drop_last());
        let b = fnv_from(h, data.drop_last());
        let x = data.last() as u64;
        assert(a ^ x != b ^ x) by (bit_vector)
            requires
                a != b,
        ;
        lemma_factor_is_injective(a ^ x, b ^ x);
    }
}

/// Two byte strings that differ in one byte have different hashes.
pub proof fn one_byte_changes_the_hash(h: u64, s: Seq<u8>, a: u8, b: u8, t: Seq<u8>)
    requires
        a != b,
    ensures
        fnv_from(h, s.push(a) + t) != fnv_from(h, s.push(b) + t),
{
    let c = fnv_from(h, s);
    let x = a as u64;
    let y = b as u64;
    assert(s.push(a).drop_last() =~= s);
    assert(s.push(b).drop_last() =~= s);
    assert(c ^ x != c ^ y) by (bit_vector)
        requires
            x != y,
    ;
    lemma_factor_is_injective(c ^ x, c ^ y);
    hashes_go_on(h, s.push(a), t);
    hashes_go_on(h, s.push(b), t);
    lemma_hash_of_start(fnv_from(h, s.push(a)), fnv_from(h, s.push(b)), t);
}

/// Two batches of a protocol that differ in one byte of one message have different
/// hashes, and with them different ids: neither replaces the other.
pub proof fn one_byte_changes_the_id(
    p: Protocol,
    before: Seq<MessageView>,
    m: MessageView,
    n: MessageView,
    after: Seq<MessageView>,
    s: Seq<u8>,
    a: u8,
    b: u8,
    t: Seq<u8>,
)
    requires
        a != b,
        m.data == s.push(a) + t,
        n.data == s.push(b) + t,
    ensures
        batch_hash(p, before.push(m) + after) != batch_hash(p, before.push(n) + after),
        batch_id(p, before.push(m) + after) != batch_id(p, before.push(n) + after),
    decreases after.len(),
{
    let x = before.push(m) + after;
    let y = before.push(n) + after;
    if after.len() == 0 {
        assert(x =~= before.push(m));
        assert(y =~= before.push(n));
        assert(x.drop_last() =~= before);
        assert(y.drop_last() =~= before);
        assert(m.data.len() == n.data.len());
        one_byte_changes_the_hash(
            fnv_from(batch_hash(p, before), be_bytes(m.data.len(), 8)),
            s,
            a,
            b,
            t,
        );
    } else {
        one_byte_changes_the_id(p, before, m, n, after.drop_last(), s, a, b, t);
        assert(x.drop_last() =~= before.push(m) + after.drop_last());
        assert(y.drop_last() =~= before.push(n) + after.drop_last());
        let d = after.last().data;
        lemma_hash_of_start(
            batch_hash(p, x.drop_last()),
            batch_hash(p, y.drop_last()),
            be_bytes(d.len(), 8),
        );
        lemma_hash_of_start(
            fnv_from(batch_hash(p, x.drop_last()), be_bytes(d.len(), 8)),
            fnv_from(batch_hash(p, y.drop_last()), be_bytes(d.len(), 8)),
            d,
        );
    }
    lemma_ids_tell_hashes(p, x, y);
}

proof fn lemma_ids_tell_hashes(p: Protocol, x: Seq<MessageView>, y: Seq<MessageView>)
    requires
        batch_hash(p, x) != batch_hash(p, y),
    ensures
        batch_id(p, x) != batch_id(p, y),
{
    let head = "snap_"@ + protocol_name(p) + "_"@;
    let a = decimal_of(batch_hash(p, x) as nat);
    let b = decimal_of(batch_hash(p, y) as nat);
    crate::text::decimals_differ(batch_hash(p, x) as nat, batch_hash(p, y) as nat);
    if batch_id(p, x) == batch_id(p, y) {
        assert(batch_id(p, x).skip(head.len() as int) =~= a);
        assert(batch_id(p, y).skip(head.len() as int) =~= b);
    }
}

/// Batches of different protocols have different ids.
pub proof fn ids_tell_protocols(
    p: Protocol,
    x: Seq<MessageView>,
    q: Protocol,
    y: Seq<MessageView>,
)
    requires
        batch_id(p, x) == batch_id(q, y),
    ensures
        p == q,
{
    let i = batch_id(p, x);
    reveal_strlit("snap_");
    reveal_strlit("_");
    lemma_name_is_plain(p);
    lemma_name_is_plain(q);
    let a = protocol_name(p);
    let b = protocol_name(q);
    assert(i.subrange(5, 5 + a.len() as int) =~= a);
    assert(i.subrange(5, 5 + b.len() as int) =~= b);
    assert(i[5 + a.len() as int] == '_');
    assert(i[5 + b.len() as int] == '_');
    if a.len() < b.len() {
        assert(b[a.len() as int] == i[5 + a.len() as int]);
    } else if b.len() < a.len() {
        assert(a[b.len() as int] == i[5 + b.len() as int]);
    }
    crate::protocol::protocol_names_differ(p, q);
}

proof fn lemma_name_is_plain(p: Protocol)
    ensures
        forall|k: int| 0 <= k < protocol_name(p).len() ==> #[trigger] protocol_name(p)[k] != '_',
{
    reveal_strlit("IridiumSBD");
    reveal_strlit("InmarsatC");
    reveal_strlit("VSAT");
    reveal_strlit("HFVHF");
    reveal_strlit("RockBLOCK");
    reveal_strlit("Samsara");
    reveal_strlit("ASTSpaceMobile");
    reveal_strlit("NIDD");
    reveal_strlit("LoRaMesh");
}

/// The id of a batch is the same at any time: it is made from protocol and payloads
/// alone.
pub proof fn ids_are_of_the_payloads(p: Protocol, x: Seq<MessageView>, y: Seq<MessageView>)
    requires
        x.len() == y.len(),
        forall|i: int| 0 <= i < x.len() ==> (#[trigger] x[i]).data == y[i].data,
    ensures
        batch_id(p, x) == batch_id(p, y),
        batch_size(x) == batch_size(y),
{
    lemma_hash_of_payloads(p, x, y);
}

proof fn lemma_hash_of_payloads(p: Protocol, x: Seq<MessageView>, y: Seq<MessageView>)
    requires
        x.len() == y.len(),
        forall|i: int| 0 <= i < x.len() ==> (#[trigger] x[i]).data == y[i].data,
    ensures
        batch_hash(p, x) == batch_hash(p, y),
        batch_size(x) == batch_size(y),
    decreases x.len(),
{
    if x.len() > 0 {
        let a = x.drop_last();
        let b = y.drop_last();
        assert forall|i: int| 0 <= i < a.len() implies (#[trigger] a[i]).data == b[i].data by {
            assert(x[i].data == y[i].data);
        }
        assert(x[x.len() - 1].data == y[x.len() - 1].data);
        lemma_hash_of_payloads(p, a, b);
    }
}

/// A snapshot holds its whole batch, the protocol, the time and the size of all payloads
/// together.
pub proof fn snapshots_hold_the_batch(messages: Seq<MessageView>, p: Protocol, now: u64, m: MessageView)
    ensures
        snapshot_of(messages, p, now).messages == messages,
        snapshot_of(messages, p, now).protocol == p,
        snapshot_of(messages, p, now).created_at == now,
        snapshot_of(messages, p, now).id == batch_id(p, messages),
        batch_size(messages) <= usize::MAX ==> snapshot_of(messages, p, now).size_bytes
            == batch_size(messages),
        batch_size(Seq::empty()) == 0,
        batch_size(messages.push(m)) == batch_size(messages) + m.data.len(),
{
    assert(messages.push(m).drop_last() =~= messages);
}

/// A new snapshot takes the place of one with its id, and where there is no room that of
/// the oldest; all others stay.
pub proof fn other_snapshots_stay(s: Seq<SnapshotView>, max: nat, x: SnapshotView, y: SnapshotView)
    requires
        y.id != x.id,
    ensures
        s.len() < max ==> (with_snapshot(s, max, x).contains(y) <==> s.contains(y)),
        s.contains(y) && y != s[oldest(s)] ==> with_snapshot(s, max, x).contains(y),
        with_snapshot(s, max, x).contains(y) ==> s.contains(y),
        with_snapshot(s, max, x).last() == x,
{
    let t = if s.len() >= max && s.len() > 0 {
        s.remove(oldest(s))
    } else {
        s
    };
    let f = t.filter(other_than(x.id));
    let w = f.push(x);
    crate::seqs::lemma_filter_holds(t, other_than(x.id), y);
    if s.len() > 0 {
        lemma_oldest_in_range(s);
    }
    if f.contains(y) {
        let i = choose|i: int| 0 <= i < f.len() && f[i] == y;
        assert(w[i] == y);
    }
    if w.contains(y) {
        let i = choose|i: int| 0 <= i < w.len() && w[i] == y;
        assert(f[i] == y);
    }
    if s.len() >= max && s.len() > 0 {
        let o = oldest(s);
        if t.contains(y) {
            let i = choose|i: int| 0 <= i < t.len() && t[i] == y;
            assert(s[if i < o {
                i
            } else {
                i + 1
            }] == y);
        }
        if s.contains(y) && y != s[o] {
            let i = choose|i: int| 0 <= i < s.len() && s[i] == y;
            assert(t[if i < o {
                i
            } else {
                i - 1
            }] == y);
        }
    }
}

/// The snapshots of a protocol that are given out are those of that protocol that are
/// younger than their lifetime; clearing keeps exactly the young ones; deleting drops
/// exactly those with the id.
pub proof fn young_snapshots_are_given(
    s: Seq<SnapshotView>,
    x: SnapshotView,
    p: Protocol,
    ttl: u64,
    now: u64,
    id: Seq<char>,
)
    ensures
        s.filter(validity_of(p, ttl, now)).contains(x) <==> {
            &&& s.contains(x)
            &&& x.protocol == p
            &&& ttl > 0 && now < x.created_at + ttl
        },
        s.filter(validity(ttl, now)).contains(x) <==> s.contains(x) && ttl > 0 && now
            < x.created_at + ttl,
        s.filter(other_than(id)).contains(x) <==> s.contains(x) && x.id != id,
{
    crate::seqs::lemma_filter_holds(s, validity_of(p, ttl, now), x);
    crate::seqs::lemma_filter_holds(s, validity(ttl, now), x);
    crate::seqs::lemma_filter_holds(s, other_than(id), x);
}

/// Sizes are summed up one by one.
pub proof fn sizes_add_up(s: Seq<SnapshotView>, x: SnapshotView)
    ensures
        size_sum(Seq::empty()) == 0,
        size_sum(s.push(x)) == size_sum(s) + x.size_bytes,
{
    assert(s.push(x).drop_last() =~= s);
}

} // verus!
