//! The write-ahead log.
//!
//! A log is a header, `[magic (8)][version (2)][sequence (8)]`, and entries,
//! `[length (4)][data (length)][CRC-32 of the data (4)]`. It is only ever appended
//! to, so that records survive a loss of power: what was written is read again, an
//! entry that was not written to its end is cut off, and a damaged one does no harm
//! to the others.

use crate::digest::{crc32_ieee, crc32_of};
use crate::protocol::{Message, MessageView};
use crate::seqs::{lemma_filter_ends, lemma_filter_next};
use crate::text::text2;
use crate::wire::{
    be_bytes,
    be_value,
    copy_range,
    lemma_be_bytes_len,
    lemma_be_value_of_bytes,
    lemma_pow256,
    push_be,
    push_bytes,
    read_u16,
    read_u32,
    read_u64,
};
use vstd::prelude::*;
use vstd::string::StringExecFns;

verus! {

pub const WAL_VERSION: u16 = 1;

/// The number of bytes of a header.
pub const WAL_HEADER_SIZE: usize = 18;

/// The bytes `FLOATWAL`.
pub open spec fn wal_magic() -> Seq<u8> {
    seq![0x46u8, 0x4C, 0x4F, 0x41, 0x54, 0x57, 0x41, 0x4C]
}

#[derive(Debug, Clone, Copy)]
pub struct WalHeader {
    pub magic: [u8; 8],
    pub version: u16,
    /// The sequence number before the first entry.
    pub sequence: u64,
}

/// The bytes of a header.
pub open spec fn header_bytes(version: u16, sequence: u64) -> Seq<u8> {
    wal_magic() + be_bytes(version as nat, 2) + be_bytes(sequence as nat, 8)
}

/// Whether a byte string starts with a header.
pub open spec fn has_header(s: Seq<u8>) -> bool {
    s.len() >= WAL_HEADER_SIZE && s.subrange(0, 8) == wal_magic()
}

impl WalHeader {
    pub fn new(sequence: u64) -> (r: Self)
        ensures
            r.magic@ == wal_magic(),
            r.version == WAL_VERSION,
            r.sequence == sequence,
    {
        let magic: [u8; 8] = [0x46, 0x4C, 0x4F, 0x41, 0x54, 0x57, 0x41, 0x4C];
        assert(magic@ =~= wal_magic());
        WalHeader { magic, version: WAL_VERSION, sequence }
    }

    pub fn to_bytes(&self) -> (r: Vec<u8>)
        ensures
            r@ == self.magic@ + be_bytes(self.version as nat, 2) + be_bytes(
                self.sequence as nat,
                8,
            ),
    {
        let mut bytes: Vec<u8> = Vec::new();
        push_bytes(&mut bytes, self.magic.as_slice());
        push_be(&mut bytes, self.version as u64, 2);
        push_be(&mut bytes, self.sequence, 8);
        assert(bytes@ =~= self.magic@ + be_bytes(self.version as nat, 2) + be_bytes(
            self.sequence as nat,
            8,
        ));
        bytes
    }

    /// The header at the start of a byte string, if there is one.
    pub fn from_bytes(bytes: &[u8]) -> (r: Option<Self>)
        ensures
            match r {
                Some(h) => has_header(bytes@) && h.magic@ == wal_magic() && h.version as nat
                    == be_value(bytes@.subrange(8, 10)) && h.sequence as nat == be_value(
                    bytes@.subrange(10, 18),
                ),
                None => !has_header(bytes@),
            },
    {
        if bytes.len() < WAL_HEADER_SIZE {
            return None;
        }
        let h = WalHeader::new(0);
        let mut i: usize = 0;
        while i < 8
            invariant
                i <= 8,
                bytes@.len() >= 18,
                h.magic@ == wal_magic(),
                forall|k: int| 0 <= k < i ==> bytes@[k] == wal_magic()[k],
            decreases 8 - i,
        {
            if bytes[i] != h.magic[i] {
                assert(bytes@.subrange(0, 8)[i as int] == bytes@[i as int]);
                return None;
            }
            i = i + 1;
        }
        assert(bytes@.subrange(0, 8) =~= wal_magic());
        Some(
            WalHeader {
                magic: h.magic,
                version: read_u16(bytes, 8),
                sequence: read_u64(bytes, 10),
            },
        )
    }
}

/// A header that was written is read as it was.
pub proof fn header_roundtrip(version: u16, sequence: u64, rest: Seq<u8>)
    ensures
        ({
            let s = header_bytes(version, sequence) + rest;
            &&& has_header(s)
            &&& be_value(s.subrange(8, 10)) == version
            &&& be_value(s.subrange(10, 18)) == sequence
        }),
{
    let s = header_bytes(version, sequence) + rest;
    lemma_pow256();
    lemma_be_value_of_bytes(version as nat, 2);
    lemma_be_value_of_bytes(sequence as nat, 8);
    assert(s.subrange(0, 8) =~= wal_magic());
    assert(s.subrange(8, 10) =~= be_bytes(version as nat, 2));
    assert(s.subrange(10, 18) =~= be_bytes(sequence as nat, 8));
}

/// A message with its place in the log.
#[derive(Debug)]
pub struct WalEntry {
    pub sequence: u64,
    pub message: Message,
    pub timestamp_ms: u64,
}

impl WalEntry {
    pub fn new(sequence: u64, message: Message, now: u64) -> (r: Self)
        ensures
            r == (WalEntry { sequence, message, timestamp_ms: now }),
    {
        WalEntry { sequence, message, timestamp_ms: now }
    }
}

#[derive(Debug)]
pub enum WalError {
    FileOpen(String),
    FileRead(String),
    FileWrite(String),
    FileSeek(String),
    Serialization(String),
    Deserialization(String),
    InvalidHeader,
    CrcMismatch,
}

/// An error in words.
pub open spec fn wal_error_text(e: WalError) -> Seq<char> {
    match e {
        WalError::FileOpen(s) => "Failed to open WAL file: "@ + s@,
        WalError::FileRead(s) => "Failed to read WAL file: "@ + s@,
        WalError::FileWrite(s) => "Failed to write WAL file: "@ + s@,
        WalError::FileSeek(s) => "Failed to seek WAL file: "@ + s@,
        WalError::Serialization(s) => "Serialization error: "@ + s@,
        WalError::Deserialization(s) => "Deserialization error: "@ + s@,
        WalError::InvalidHeader => "Invalid WAL header"@,
        WalError::CrcMismatch => "CRC mismatch in WAL entry"@,
    }
}

impl WalError {
    /// The error in words.
    pub fn message(&self) -> (r: String)
        ensures
            r@ == wal_error_text(*self),
    {
        match self {
            WalError::FileOpen(s) => text2("Failed to open WAL file: ", s.as_str()),
            WalError::FileRead(s) => text2("Failed to read WAL file: ", s.as_str()),
            WalError::FileWrite(s) => text2("Failed to write WAL file: ", s.as_str()),
            WalError::FileSeek(s) => text2("Failed to seek WAL file: ", s.as_str()),
            WalError::Serialization(s) => text2("Serialization error: ", s.as_str()),
            WalError::Deserialization(s) => text2(
                "Deserialization error: ",
                s.as_str(),
            ),
            WalError::InvalidHeader => String::from_str("Invalid WAL header"),
            WalError::CrcMismatch => String::from_str("CRC mismatch in WAL entry"),
        }
    }
}

/// The bytes of an entry. The length is that of the data in 32 bits.
pub open spec fn frame_of(data: Seq<u8>) -> Seq<u8> {
    be_bytes(data.len(), 4) + data + be_bytes(crc32_of(data) as nat, 4)
}

/// The bytes of an entry with the given data.
pub fn frame(data: &[u8]) -> (r: Vec<u8>)
    ensures
        r@ == frame_of(data@),
{
    let crc: u32 = crc32_ieee(data);
    let mut out: Vec<u8> = Vec::new();
    push_be(&mut out, data.len() as u64, 4);
    push_bytes(&mut out, data);
    push_be(&mut out, crc as u64, 4);
    assert(out@ =~= frame_of(data@));
    out
}

/// What stands at a position of a log.
pub enum FrameView {
    /// The log ends here, or within an entry.
    End,
    /// An entry whose checksum is wrong.
    Damaged { next: int },
    Intact { data: Seq<u8>, next: int },
}

/// What stands at a position of a log.
pub open spec fn frame_at(s: Seq<u8>, at: int) -> FrameView {
    if at + 4 > s.len() {
        FrameView::End
    } else {
        let n = be_value(s.subrange(at, at + 4)) as int;
        if at + 8 + n > s.len() {
            FrameView::End
        } else {
            let data = s.subrange(at + 4, at + 4 + n);
            if be_value(s.subrange(at + 4 + n, at + 8 + n)) == crc32_of(data) {
                FrameView::Intact { data, next: at + 8 + n }
            } else {
                FrameView::Damaged { next: at + 8 + n }
            }
        }
    }
}

/// The data of the intact entries from a position on.
pub open spec fn replayed(s: Seq<u8>, at: int) -> Seq<Seq<u8>>
    decreases s.len() - at,
{
    match frame_at(s, at) {
        FrameView::End => Seq::empty(),
        FrameView::Damaged { next } => replayed(s, next),
        FrameView::Intact { data, next } => seq![data] + replayed(s, next),
    }
}

/// The data of the entries from a position on; none where one of them is damaged.
pub open spec fn loaded(s: Seq<u8>, at: int) -> Option<Seq<Seq<u8>>>
    decreases s.len() - at,
{
    match frame_at(s, at) {
        FrameView::End => Some(Seq::empty()),
        FrameView::Damaged { next } => None,
        FrameView::Intact { data, next } => match loaded(s, next) {
            Some(rest) => Some(seq![data] + rest),
            None => None,
        },
    }
}

/// Where the last entry from a position on ends. What stands behind it was not written
/// to its end.
pub open spec fn entries_end(s: Seq<u8>, at: int) -> int
    decreases s.len() - at,
{
    match frame_at(s, at) {
        FrameView::End => at,
        FrameView::Damaged { next } => entries_end(s, next),
        FrameView::Intact { data, next } => entries_end(s, next),
    }
}

/// The contents of a list of byte vectors.
pub open spec fn contents(v: Seq<Vec<u8>>) -> Seq<Seq<u8>> {
    v.map_values(|d: Vec<u8>| d@)
}

enum Frame {
    End,
    Damaged { next: usize },
    Intact { data: Vec<u8>, next: usize },
}

/// What stands at a position of a log.
fn read_frame(bytes: &[u8], at: usize) -> (r: Frame)
    requires
        at <= bytes@.len(),
    ensures
        match r {
            Frame::End => frame_at(bytes@, at as int) is End,
            Frame::Damaged { next } => next <= bytes@.len() && at < next && frame_at(
                bytes@,
                at as int,
            ) == (FrameView::Damaged { next: next as int }),
            Frame::Intact { data, next } => next <= bytes@.len() && at < next && frame_at(
                bytes@,
                at as int,
            ) == (FrameView::Intact { data: data@, next: next as int }),
        },
{
    if bytes.len() - at < 4 {
        return Frame::End;
    }
    assert(at + 4 <= bytes.len());
    let n: usize = read_u32(bytes, at) as usize;
    let left: usize = bytes.len() - at - 4;
    if left < 4 || left - 4 < n {
        return Frame::End;
    }
    assert(at + 8 + n <= bytes.len());
    let data = copy_range(bytes, at + 4, at + 4 + n);
    let stored: u32 = read_u32(bytes, at + 4 + n);
    let next: usize = at + 8 + n;
    if crc32_ieee(data.as_slice()) == stored {
        Frame::Intact { data, next }
    } else {
        Frame::Damaged { next }
    }
}

fn unexpected_end() -> (r: WalError)
    ensures
        r is FileRead,
{
    WalError::FileRead(String::from_str("failed to fill whole buffer"))
}

/// The data of the intact entries of a log. A damaged entry is passed over, and one
/// that the log ends in is left out; a log that ends within its header cannot be read.
pub fn replay(bytes: &[u8]) -> (r: Result<Vec<Vec<u8>>, WalError>)
    ensures
        match r {
            Ok(v) => bytes@.len() >= WAL_HEADER_SIZE && contents(v@) == replayed(
                bytes@,
                WAL_HEADER_SIZE as int,
            ),
            Err(e) => bytes@.len() < WAL_HEADER_SIZE && e is FileRead,
        },
{
    if bytes.len() < WAL_HEADER_SIZE {
        return Err(unexpected_end());
    }
    let ghost start = WAL_HEADER_SIZE as int;
    let mut out: Vec<Vec<u8>> = Vec::new();
    let mut at: usize = WAL_HEADER_SIZE;
    assert(contents(out@) + replayed(bytes@, start) =~= replayed(bytes@, start));
    loop
        invariant
            at <= bytes@.len(),
            replayed(bytes@, start) == contents(out@) + replayed(bytes@, at as int),
            start == WAL_HEADER_SIZE,
            bytes@.len() >= WAL_HEADER_SIZE,
        decreases bytes@.len() - at,
    {
        match read_frame(bytes, at) {
            Frame::End => {
                assert(contents(out@) + Seq::<Seq<u8>>::empty() =~= contents(out@));
                return Ok(out);
            },
            Frame::Damaged { next } => {
                at = next;
            },
            Frame::Intact { data, next } => {
                let ghost before = contents(out@);
                let ghost d = data@;
                out.push(data);
                proof {
                    assert(contents(out@) =~= before.push(d));
                    let rest = replayed(bytes@, next as int);
                    assert(before + (seq![d] + rest) =~= before.push(d) + rest);
                }
                at = next;
            },
        }
    }
}

/// A log that was read.
#[derive(Debug)]
pub struct LoadedLog {
    /// The sequence number in the header.
    pub sequence: u64,
    /// The data of the entries.
    pub entries: Vec<Vec<u8>>,
    /// Where the last entry ends. What stands behind it is to be cut off before more is
    /// appended.
    pub end: usize,
}

/// Reads a log. An entry that the log ends in is left out. Unlike `replay` this fails
/// at the first damaged entry.
pub fn load(bytes: &[u8]) -> (r: Result<LoadedLog, WalError>)
    ensures
        match r {
            Ok(log) => {
                &&& has_header(bytes@)
                &&& log.sequence as nat == be_value(bytes@.subrange(10, 18))
                &&& loaded(bytes@, WAL_HEADER_SIZE as int) == Some(contents(log.entries@))
                &&& log.end == entries_end(bytes@, WAL_HEADER_SIZE as int)
                &&& log.end <= bytes@.len()
            },
            Err(e) => {
                ||| bytes@.len() < WAL_HEADER_SIZE && e is FileRead
                ||| bytes@.len() >= WAL_HEADER_SIZE && !has_header(bytes@) && e is InvalidHeader
                ||| has_header(bytes@) && loaded(bytes@, WAL_HEADER_SIZE as int) is None
                    && e is CrcMismatch
            },
        },
{
    if bytes.len() < WAL_HEADER_SIZE {
        return Err(unexpected_end());
    }
    let header = match WalHeader::from_bytes(bytes) {
        Some(h) => h,
        None => {
            return Err(WalError::InvalidHeader);
        },
    };
    let ghost start = WAL_HEADER_SIZE as int;
    let mut out: Vec<Vec<u8>> = Vec::new();
    let mut at: usize = WAL_HEADER_SIZE;
    proof {
        assert(contents(out@) =~= Seq::<Seq<u8>>::empty());
        if loaded(bytes@, start) is Some {
            let r = loaded(bytes@, start)->0;
            assert(contents(out@) + r =~= r);
        }
    }
    loop
        invariant
            at <= bytes@.len(),
            match loaded(bytes@, at as int) {
                Some(rest) => loaded(bytes@, start) == Some(contents(out@) + rest),
                None => loaded(bytes@, start) is None,
            },
            entries_end(bytes@, start) == entries_end(bytes@, at as int),
            start == WAL_HEADER_SIZE,
            has_header(bytes@),
            header.sequence as nat == be_value(bytes@.subrange(10, 18)),
        decreases bytes@.len() - at,
    {
        match read_frame(bytes, at) {
            Frame::End => {
                assert(contents(out@) + Seq::<Seq<u8>>::empty() =~= contents(out@));
                return Ok(LoadedLog { sequence: header.sequence, entries: out, end: at });
            },
            Frame::Damaged { next } => {
                return Err(WalError::CrcMismatch);
            },
            Frame::Intact { data, next } => {
                let ghost before = contents(out@);
                let ghost d = data@;
                out.push(data);
                proof {
                    assert(contents(out@) =~= before.push(d));
                    if loaded(bytes@, next as int) is Some {
                        let rest = loaded(bytes@, next as int)->0;
                        assert(before + (seq![d] + rest) =~= before.push(d) + rest);
                    }
                }
                at = next;
            },
        }
    }
}

/// The sequence number that a log has come to: that of the last entry that could
/// be read, or the one of the header.
pub open spec fn reached(header: u64, entries: Seq<Option<u64>>) -> u64
    decreases entries.len(),
{
    if entries.len() == 0 {
        header
    } else {
        match entries.last() {
            Some(s) => s,
            None => reached(header, entries.drop_last()),
        }
    }
}

/// The sequence number that a log has come to.
pub fn last_sequence(header: u64, entries: &Vec<Option<u64>>) -> (r: u64)
    ensures
        r == reached(header, entries@),
{
    let mut i: usize = entries.len();
    assert(entries@.subrange(0, i as int) =~= entries@);
    while i > 0
        invariant
            i <= entries@.len(),
            reached(header, entries@) == reached(header, entries@.subrange(0, i as int)),
        decreases i,
    {
        assert(entries@.subrange(0, i as int).drop_last() =~= entries@.subrange(0, i - 1));
        if let Some(s) = entries[i - 1] {
            return s;
        }
        i = i - 1;
    }
    header
}

/// Messages that are young enough.
pub open spec fn since(cutoff: u64) -> spec_fn(MessageView) -> bool {
    |m: MessageView| m.timestamp >= cutoff
}

/// The entries of a log after old messages were left out: the others, numbered
/// from 1.
pub fn compacted(messages: &Vec<Message>, now: u64, retain_ms: u64) -> (r: Vec<WalEntry>)
    requires
        retain_ms <= now,
    ensures
        r@.map_values(|e: WalEntry| e.message@) == crate::protocol::message_views(
            messages@,
        ).filter(since((now - retain_ms) as u64)),
        forall|i: int|
            0 <= i < r@.len() ==> (#[trigger] r@[i]).sequence == i + 1 && r@[i].timestamp_ms == now,
{
    let cutoff: u64 = now - retain_ms;
    let ghost all = crate::protocol::message_views(messages@);
    let ghost p = since(cutoff);
    let ghost pick = |e: WalEntry| e.message@;
    let mut out: Vec<WalEntry> = Vec::new();
    let mut i: usize = 0;
    proof {
        lemma_filter_ends(all, p);
        assert(out@.map_values(pick) =~= Seq::<MessageView>::empty());
    }
    while i < messages.len()
        invariant
            i <= messages@.len() == all.len(),
            all == crate::protocol::message_views(messages@),
            p == since(cutoff),
            pick == (|e: WalEntry| e.message@),
            out@.len() <= i,
            out@.map_values(pick) == all.subrange(0, i as int).filter(p),
            forall|k: int|
                0 <= k < out@.len() ==> (#[trigger] out@[k]).sequence == k + 1
                    && out@[k].timestamp_ms == now,
        decreases messages@.len() - i,
    {
        let ghost before = out@;
        proof {
            lemma_filter_next(all, i as int, p);
            assert(all[i as int] == messages@[i as int]@);
            assert(i < messages.len());
        }
        if messages[i].timestamp >= cutoff {
            let entry = WalEntry::new(out.len() as u64 + 1, messages[i].clone(), now);
            out.push(entry);
            assert(out@.map_values(pick) =~= before.map_values(pick).push(all[i as int]));
        }
        i = i + 1;
    }
    proof {
        lemma_filter_ends(all, p);
    }
    out
}

/// Several entries, one after the other.
pub open spec fn log_of(entries: Seq<Seq<u8>>) -> Seq<u8>
    decreases entries.len(),
{
    if entries.len() == 0 {
        Seq::empty()
    } else {
        frame_of(entries[0]) + log_of(entries.skip(1))
    }
}

/// Whether each entry is short enough for its length field.
pub open spec fn fit(entries: Seq<Seq<u8>>) -> bool {
    forall|i: int| 0 <= i < entries.len() ==> (#[trigger] entries[i]).len() <= u32::MAX
}

proof fn lemma_frame_at(head: Seq<u8>, data: Seq<u8>, rest: Seq<u8>)
    requires
        data.len() <= u32::MAX,
    ensures
        frame_at(head + frame_of(data) + rest, head.len() as int) == (FrameView::Intact {
            data,
            next: (head + frame_of(data)).len() as int,
        }),
{
    let s = head + frame_of(data) + rest;
    let at = head.len() as int;
    let n = data.len() as int;
    lemma_pow256();
    lemma_be_value_of_bytes(data.len(), 4);
    lemma_be_value_of_bytes(crc32_of(data) as nat, 4);
    assert(s.subrange(at, at + 4) =~= be_bytes(data.len(), 4));
    assert(s.subrange(at + 4, at + 4 + n) =~= data);
    assert(s.subrange(at + 4 + n, at + 8 + n) =~= be_bytes(crc32_of(data) as nat, 4));
}

/// Whether a byte string holds no whole entry: it ends within a length, or before what
/// the length announces.
pub open spec fn unfinished(tail: Seq<u8>) -> bool {
    tail.len() < 4 || tail.len() < 8 + be_value(tail.subrange(0, 4))
}

proof fn lemma_log(head: Seq<u8>, entries: Seq<Seq<u8>>, tail: Seq<u8>)
    requires
        fit(entries),
        unfinished(tail),
    ensures
        replayed(head + log_of(entries) + tail, head.len() as int) == entries,
        loaded(head + log_of(entries) + tail, head.len() as int) == Some(entries),
        entries_end(head + log_of(entries) + tail, head.len() as int) == (head + log_of(
            entries,
        )).len(),
    decreases entries.len(),
{
    let s = head + log_of(entries) + tail;
    let at = head.len() as int;
    if entries.len() == 0 {
        assert(entries =~= Seq::<Seq<u8>>::empty());
        if tail.len() >= 4 {
            assert(s.subrange(at, at + 4) =~= tail.subrange(0, 4));
        }
    } else {
        let d = entries[0];
        let more = entries.skip(1);
        let h = head + frame_of(d);
        assert(s =~= h + (log_of(more) + tail));
        lemma_frame_at(head, d, log_of(more) + tail);
        assert(s =~= h + log_of(more) + tail);
        lemma_log(h, more, tail);
        assert(seq![d] + more =~= entries);
    }
}

/// What was logged is replayed, all of it and in order, even where the log ends within
/// a further entry. That one can be told apart: the entries end where it starts.
pub proof fn logged_is_replayed(sequence: u64, entries: Seq<Seq<u8>>, tail: Seq<u8>)
    requires
        fit(entries),
        unfinished(tail),
    ensures
        ({
            let s = header_bytes(WAL_VERSION, sequence) + log_of(entries) + tail;
            &&& has_header(s)
            &&& replayed(s, WAL_HEADER_SIZE as int) == entries
            &&& loaded(s, WAL_HEADER_SIZE as int) == Some(entries)
            &&& s.take(entries_end(s, WAL_HEADER_SIZE as int)) == header_bytes(
                WAL_VERSION,
                sequence,
            ) + log_of(entries)
        }),
{
    let head = header_bytes(WAL_VERSION, sequence);
    lemma_be_bytes_len(WAL_VERSION as nat, 2);
    lemma_be_bytes_len(sequence as nat, 8);
    header_roundtrip(WAL_VERSION, sequence, log_of(entries) + tail);
    assert(head + (log_of(entries) + tail) =~= head + log_of(entries) + tail);
    assert(head.len() == WAL_HEADER_SIZE);
    lemma_log(head, entries, tail);
    let s = head + log_of(entries) + tail;
    assert(s.take((head + log_of(entries)).len() as int) =~= head + log_of(entries));
}

/// Records survive a loss of power: wherever the writing of an entry breaks off, all
/// entries before it are replayed, and an entry that is appended where they end is
/// replayed behind them.
pub proof fn records_survive_power_loss(
    sequence: u64,
    entries: Seq<Seq<u8>>,
    lost: Seq<u8>,
    written: int,
    later: Seq<u8>,
)
    requires
        fit(entries),
        lost.len() <= u32::MAX,
        0 <= written < frame_of(lost).len(),
        later.len() <= u32::MAX,
    ensures
        ({
            let s = header_bytes(WAL_VERSION, sequence) + log_of(entries) + frame_of(lost).take(
                written,
            );
            let end = entries_end(s, WAL_HEADER_SIZE as int);
            &&& has_header(s)
            &&& replayed(s, WAL_HEADER_SIZE as int) == entries
            &&& loaded(s, WAL_HEADER_SIZE as int) == Some(entries)
            &&& replayed(s.take(end) + frame_of(later), WAL_HEADER_SIZE as int) == entries.push(
                later,
            )
        }),
{
    let tail = frame_of(lost).take(written);
    lemma_pow256();
    lemma_be_value_of_bytes(lost.len(), 4);
    lemma_be_bytes_len(crc32_of(lost) as nat, 4);
    if written >= 4 {
        assert(tail.subrange(0, 4) =~= be_bytes(lost.len(), 4));
    }
    logged_is_replayed(sequence, entries, tail);
    appended_is_replayed(sequence, entries, later);
}

/// Appending an entry to a log adds it at the end of what is replayed.
pub proof fn appended_is_replayed(sequence: u64, entries: Seq<Seq<u8>>, data: Seq<u8>)
    requires
        fit(entries),
        data.len() <= u32::MAX,
    ensures
        replayed(
            header_bytes(WAL_VERSION, sequence) + log_of(entries) + frame_of(data),
            WAL_HEADER_SIZE as int,
        ) == entries.push(data),
{
    let head = header_bytes(WAL_VERSION, sequence);
    let e = entries.push(data);
    assert forall|i: int| 0 <= i < e.len() implies (#[trigger] e[i]).len() <= u32::MAX by {
        if i < entries.len() {
            assert(e[i] == entries[i]);
        }
    }
    lemma_log_push(entries, data);
    logged_is_replayed(sequence, e, Seq::empty());
    assert(head + log_of(e) + Seq::<u8>::empty() =~= head + log_of(entries) + frame_of(data));
}

proof fn lemma_log_push(entries: Seq<Seq<u8>>, data: Seq<u8>)
    ensures
        log_of(entries.push(data)) == log_of(entries) + frame_of(data),
    decreases entries.len(),
{
    let e = entries.push(data);
    if entries.len() == 0 {
        assert(e.skip(1) =~= Seq::<Seq<u8>>::empty());
        assert(log_of(e.skip(1)) =~= Seq::<u8>::empty());
        assert(log_of(e) =~= log_of(entries) + frame_of(data));
    } else {
        lemma_log_push(entries.skip(1), data);
        assert(e.skip(1) =~= entries.skip(1).push(data));
        assert(log_of(e) =~= log_of(entries) + frame_of(data));
    }
}

/// An entry whose data was altered, its length aside, is passed over by a replay
/// wherever the checksum shows it; the entries behind it are replayed.
pub proof fn damage_is_passed_over(
    head: Seq<u8>,
    damaged: Seq<u8>,
    crc: u32,
    entries: Seq<Seq<u8>>,
)
    requires
        damaged.len() <= u32::MAX,
        crc != crc32_of(damaged),
        fit(entries),
    ensures
        replayed(
            head + (be_bytes(damaged.len(), 4) + damaged + be_bytes(crc as nat, 4)) + log_of(
                entries,
            ),
            head.len() as int,
        ) == entries,
{
    let bad = be_bytes(damaged.len(), 4) + damaged + be_bytes(crc as nat, 4);
    let s = head + bad + log_of(entries);
    lemma_damaged_at(head, damaged, crc, log_of(entries));
    lemma_log(head + bad, entries, Seq::empty());
    assert(s + Seq::<u8>::empty() =~= s);
}

proof fn lemma_damaged_at(head: Seq<u8>, damaged: Seq<u8>, crc: u32, rest: Seq<u8>)
    requires
        damaged.len() <= u32::MAX,
        crc != crc32_of(damaged),
    ensures
        ({
            let bad = be_bytes(damaged.len(), 4) + damaged + be_bytes(crc as nat, 4);
            frame_at(head + bad + rest, head.len() as int) == (FrameView::Damaged {
                next: (head + bad).len() as int,
            })
        }),
{
    let bad = be_bytes(damaged.len(), 4) + damaged + be_bytes(crc as nat, 4);
    let s = head + bad + rest;
    let at = head.len() as int;
    let n = damaged.len() as int;
    lemma_pow256();
    lemma_be_value_of_bytes(damaged.len(), 4);
    lemma_be_value_of_bytes(crc as nat, 4);
    assert(s.subrange(at, at + 4) =~= be_bytes(damaged.len(), 4));
    assert(s.subrange(at + 4, at + 4 + n) =~= damaged);
    assert(s.subrange(at + 4 + n, at + 8 + n) =~= be_bytes(crc as nat, 4));
}

/// An entry is the length of its data in four bytes, the data as they are, and their
/// checksum in four bytes.
pub proof fn entries_hold_their_data(data: Seq<u8>)
    requires
        data.len() <= u32::MAX,
    ensures
        ({
            let f = frame_of(data);
            let n = data.len() as int;
            &&& f.len() == 8 + n
            &&& be_value(f.subrange(0, 4)) == n
            &&& f.subrange(4, 4 + n) == data
            &&& be_value(f.subrange(4 + n, 8 + n)) == crc32_of(data)
        }),
{
    let f = frame_of(data);
    let n = data.len() as int;
    lemma_pow256();
    lemma_be_value_of_bytes(data.len(), 4);
    lemma_be_value_of_bytes(crc32_of(data) as nat, 4);
    assert(f.subrange(0, 4) =~= be_bytes(data.len(), 4));
    assert(f.subrange(4, 4 + n) =~= data);
    assert(f.subrange(4 + n, 8 + n) =~= be_bytes(crc32_of(data) as nat, 4));
}

/// A damaged entry does no harm to the others: those before it and those behind it are
/// replayed, in their order. Loading such a log fails.
pub proof fn damage_is_contained(
    head: Seq<u8>,
    before: Seq<Seq<u8>>,
    damaged: Seq<u8>,
    crc: u32,
    behind: Seq<Seq<u8>>,
)
    requires
        fit(before),
        damaged.len() <= u32::MAX,
        crc != crc32_of(damaged),
        fit(behind),
    ensures
        ({
            let bad = be_bytes(damaged.len(), 4) + damaged + be_bytes(crc as nat, 4);
            let s = head + log_of(before) + bad + log_of(behind);
            &&& replayed(s, head.len() as int) == before + behind
            &&& loaded(s, head.len() as int) is None
        }),
    decreases before.len(),
{
    let bad = be_bytes(damaged.len(), 4) + damaged + be_bytes(crc as nat, 4);
    let s = head + log_of(before) + bad + log_of(behind);
    if before.len() == 0 {
        assert(head + log_of(before) =~= head);
        damage_is_passed_over(head, damaged, crc, behind);
        lemma_damaged_at(head, damaged, crc, log_of(behind));
        assert(before + behind =~= behind);
    } else {
        let d = before[0];
        let more = before.skip(1);
        let h = head + frame_of(d);
        assert forall|i: int| 0 <= i < more.len() implies (#[trigger] more[i]).len()
            <= u32::MAX by {
            assert(more[i] == before[i + 1]);
        }
        damage_is_contained(h, more, damaged, crc, behind);
        let rest = log_of(more) + bad + log_of(behind);
        assert(s =~= head + frame_of(d) + rest);
        assert(s =~= h + log_of(more) + bad + log_of(behind));
        lemma_frame_at(head, d, rest);
        assert(before + behind =~= seq![d] + (more + behind));
    }
}

/// Compaction keeps a message exactly where it is no older than the time from which on
/// messages are kept.
pub proof fn recent_messages_are_kept(s: Seq<MessageView>, m: MessageView, cutoff: u64)
    ensures
        s.filter(since(cutoff)).contains(m) <==> s.contains(m) && m.timestamp >= cutoff,
{
    crate::seqs::lemma_filter_holds(s, since(cutoff), m);
}

/// A log has come to the number of its last entry that could be read, and without one to
/// that of its header.
pub proof fn the_last_number_counts(header: u64, entries: Seq<Option<u64>>, n: u64)
    ensures
        reached(header, Seq::empty()) == header,
        reached(header, entries.push(Some(n))) == n,
        reached(header, entries.push(None)) == reached(header, entries),
{
    assert(entries.push(None).drop_last() =~= entries);
}

/// A byte string starts with a header exactly where it has at least 18 bytes and the first
/// eight of them spell the name of the log.
pub proof fn headers_spell_the_name(s: Seq<u8>)
    requires
        s.len() >= 8,
    ensures
        has_header(s) <==> {
            &&& s.len() >= 18
            &&& s[0] == 0x46 && s[1] == 0x4C && s[2] == 0x4F && s[3] == 0x41
            &&& s[4] == 0x54 && s[5] == 0x57 && s[6] == 0x41 && s[7] == 0x4C
        },
{
    let a = s.subrange(0, 8);
    let w = wal_magic();
    if a == w {
        assert(a[0] == w[0] && a[1] == w[1] && a[2] == w[2] && a[3] == w[3]);
        assert(a[4] == w[4] && a[5] == w[5] && a[6] == w[6] && a[7] == w[7]);
    } else {
        if s[0] == 0x46 && s[1] == 0x4C && s[2] == 0x4F && s[3] == 0x41 && s[4] == 0x54 && s[5]
            == 0x57 && s[6] == 0x41 && s[7] == 0x4C {
            assert(a =~= w);
        }
    }
}

} // verus!
