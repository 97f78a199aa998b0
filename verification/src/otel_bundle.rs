//! Bundles of compact spans, with optional compression.
//!
//! A bundle is `[sequence (8)][timestamp (8)][compression (1)][compressed (1)]`
//! `[length (4)][payload]`. The payload is the spans, each with its length in
//! four bytes, compressed where the flag is 1.

use bytes::Bytes;
use crate::compress::{
    gzip_decode,
    gzip_decoded,
    gzip_encode,
    gzip_encoded,
    zstd_decode,
    zstd_decoded,
    zstd_encode,
    zstd_encoded,
};
use crate::otel_compact_span::{
    span_decoded,
    span_encodes,
    span_frame,
    span_roundtrip,
    CompactSpan,
    SpanView,
};
use crate::payload::{bytes_as_slice, bytes_content, bytes_copy_from_slice, bytes_from_vec};
use crate::wire::{
    be_bytes,
    be_value,
    lemma_be_bytes_len,
    lemma_be_value_of_bytes,
    lemma_pow256,
    push_be,
    push_bytes,
    read_u32,
    read_u64,
    signed64,
    to_signed64,
    to_unsigned64,
    unsigned64,
};
use vstd::prelude::*;
use vstd::slice::slice_subrange;

verus! {

#[derive(Debug, Clone, Copy, PartialEq, Eq, Structural)]
pub enum CompressionType {
    Uncompressed,
    Zstd,
    Gzip,
}

/// Spans on their way to the satellite.
#[derive(Debug)]
pub struct TelemetryBundle {
    /// Orders the bundles.
    pub sequence_number: u64,
    /// Unix time in milliseconds.
    pub batch_timestamp: i64,
    pub compression_type: CompressionType,
    pub spans: Vec<CompactSpan>,
    /// The compressed spans, once `compress` has made them.
    pub compressed_data: Option<Bytes>,
}

/// What a bundle says, apart from how its spans and bytes are held.
#[verifier::ext_equal]
pub struct BundleView {
    pub sequence_number: u64,
    pub batch_timestamp: i64,
    pub compression_type: CompressionType,
    pub spans: Seq<SpanView>,
    pub compressed_data: Option<Seq<u8>>,
}

/// What a list of spans says.
pub open spec fn spans_view(s: Seq<CompactSpan>) -> Seq<SpanView> {
    s.map_values(|c: CompactSpan| c@)
}

impl View for TelemetryBundle {
    type V = BundleView;

    open spec fn view(&self) -> BundleView {
        BundleView {
            sequence_number: self.sequence_number,
            batch_timestamp: self.batch_timestamp,
            compression_type: self.compression_type,
            spans: spans_view(self.spans@),
            compressed_data: match self.compressed_data {
                Some(b) => Some(bytes_content(b)),
                None => None,
            },
        }
    }
}

/// The spans, each with its length before it.
pub open spec fn span_list_bytes(s: Seq<SpanView>) -> Seq<u8>
    decreases s.len(),
{
    if s.len() == 0 {
        Seq::empty()
    } else {
        be_bytes(span_frame(s[0]).len(), 4) + span_frame(s[0]) + span_list_bytes(s.skip(1))
    }
}

/// The result of reading a list of spans.
pub type SpansResult = Result<Seq<SpanView>, Seq<char>>;

/// A result with spans put before those that it has.
pub open spec fn prepended(first: Seq<SpanView>, r: SpansResult) -> SpansResult {
    match r {
        Ok(rest) => Ok(first + rest),
        Err(e) => Err(e),
    }
}

/// The spans of a list, or the first error in reading it. Fewer than four bytes
/// at the end are passed over.
pub open spec fn spans_from(raw: Seq<u8>) -> SpansResult
    decreases raw.len(),
{
    if raw.len() < 4 {
        Ok(Seq::empty())
    } else {
        let end = 4 + be_value(raw.subrange(0, 4)) as int;
        if raw.len() < end {
            Err("Insufficient data for span"@)
        } else {
            match span_decoded(raw.subrange(4, end)) {
                Err(e) => Err(e),
                Ok(s) => prepended(seq![s], spans_from(raw.skip(end))),
            }
        }
    }
}

pub open spec fn compression_code(c: CompressionType) -> u8 {
    match c {
        CompressionType::Uncompressed => 0,
        CompressionType::Zstd => 1,
        CompressionType::Gzip => 2,
    }
}

/// The compressed form of a list of spans, or the error.
pub open spec fn compressed(c: CompressionType, raw: Seq<u8>, level: i32) -> Option<Seq<u8>> {
    match c {
        CompressionType::Uncompressed => None,
        CompressionType::Zstd => zstd_encoded(raw, level),
        CompressionType::Gzip => gzip_encoded(raw, level as u32),
    }
}

/// What a compressed payload holds, if it can be read.
pub open spec fn decompressed(c: CompressionType, data: Seq<u8>) -> Option<Seq<u8>> {
    match c {
        CompressionType::Uncompressed => Some(data),
        CompressionType::Zstd => zstd_decoded(data),
        CompressionType::Gzip => gzip_decoded(data),
    }
}

/// The error where a payload cannot be decompressed.
pub open spec fn decompression_error(c: CompressionType) -> Seq<char> {
    if c == CompressionType::Zstd {
        "Zstd decompression failed"@
    } else {
        "Gzip decompression failed"@
    }
}

/// The payload of a bundle.
pub open spec fn bundle_payload(b: BundleView) -> Seq<u8> {
    match b.compressed_data {
        Some(c) => c,
        None => span_list_bytes(b.spans),
    }
}

/// The bytes of a bundle.
pub open spec fn bundle_frame(b: BundleView) -> Seq<u8> {
    be_bytes(b.sequence_number as nat, 8) + be_bytes(unsigned64(b.batch_timestamp), 8)
        + seq![compression_code(b.compression_type), if b.compressed_data is Some { 1u8 } else { 0u8 }]
        + be_bytes(bundle_payload(b).len(), 4) + bundle_payload(b)
}

/// The bundle at the start of a byte string, or the first error in reading it.
pub open spec fn bundle_decoded(d: Seq<u8>) -> Result<BundleView, Seq<char>> {
    if d.len() < 22 {
        Err("Insufficient data for bundle header"@)
    } else if d[16] > 2 {
        Err("Invalid compression type"@)
    } else {
        let end = 22 + be_value(d.subrange(18, 22)) as int;
        if d.len() < end {
            Err("Insufficient data for bundle payload"@)
        } else {
            let kind = if d[16] == 0 {
                CompressionType::Uncompressed
            } else if d[16] == 1 {
                CompressionType::Zstd
            } else {
                CompressionType::Gzip
            };
            let payload = d.subrange(22, end);
            let raw = if d[17] == 1 {
                decompressed(kind, payload)
            } else {
                Some(payload)
            };
            match raw {
                None => Err(decompression_error(kind)),
                Some(raw) => match spans_from(raw) {
                    Err(e) => Err(e),
                    Ok(spans) => Ok(
                        BundleView {
                            sequence_number: be_value(d.subrange(0, 8)) as u64,
                            batch_timestamp: signed64(be_value(d.subrange(8, 16)) as u64) as i64,
                            compression_type: kind,
                            spans,
                            compressed_data: if d[17] == 1 && kind
                                != CompressionType::Uncompressed {
                                Some(payload)
                            } else {
                                None
                            },
                        },
                    ),
                },
            }
        }
    }
}

/// Whether the compressed form of a bundle, where it has one, is that of its
/// spans. Only a bundle with a compression has one.
pub open spec fn bundle_consistent(b: BundleView) -> bool {
    b.compressed_data matches Some(c) ==> b.compression_type != CompressionType::Uncompressed
        && decompressed(b.compression_type, c) == Some(span_list_bytes(b.spans))
}

/// Reads a list of spans.
pub fn decode_spans(raw: &[u8]) -> (r: Result<Vec<CompactSpan>, &'static str>)
    ensures
        match r {
            Ok(s) => spans_from(raw@) == Ok::<Seq<SpanView>, Seq<char>>(spans_view(s@)),
            Err(e) => spans_from(raw@) == Err::<Seq<SpanView>, Seq<char>>(e@),
        },
{
    let mut spans: Vec<CompactSpan> = Vec::new();
    let mut pos: usize = 0;
    let n: usize = raw.len();
    proof {
        assert(raw@.skip(0) =~= raw@);
        let r = spans_from(raw@);
        if r is Ok {
            assert(spans_view(spans@) + r->Ok_0 =~= r->Ok_0);
        }
    }
    while n - pos >= 4
        invariant
            pos <= n == raw@.len(),
            spans_from(raw@) == prepended(spans_view(spans@), spans_from(raw@.skip(pos as int))),
        decreases n - pos,
    {
        let ghost rest = raw@.skip(pos as int);
        let ghost before = spans_view(spans@);
        let span_len: usize = read_u32(raw, pos) as usize;
        assert(rest.subrange(0, 4) =~= raw@.subrange(pos as int, pos + 4));
        if n - pos - 4 < span_len {
            return Err("Insufficient data for span");
        }
        let end: usize = pos + 4 + span_len;
        assert(rest.subrange(4, 4 + span_len) =~= raw@.subrange(pos + 4, end as int));
        let span = match CompactSpan::decode(slice_subrange(raw, pos + 4, end)) {
            Ok(s) => s,
            Err(e) => {
                return Err(e);
            },
        };
        proof {
            let one = seq![span@];
            assert(rest.skip(4 + span_len) =~= raw@.skip(end as int));
            let r = spans_from(raw@.skip(end as int));
            if r is Ok {
                assert(before + (one + r->Ok_0) =~= (before + one) + r->Ok_0);
            }
            assert(prepended(before, prepended(one, r)) == prepended(before + one, r));
            assert(spans_view(spans@.push(span)) =~= before + one);
        }
        spans.push(span);
        pos = end;
    }
    assert(spans_view(spans@) + Seq::<SpanView>::empty() =~= spans_view(spans@));
    Ok(spans)
}

impl Clone for TelemetryBundle {
    fn clone(&self) -> (r: Self)
        ensures
            r@ == self@,
    {
        let mut spans: Vec<CompactSpan> = Vec::new();
        let mut i: usize = 0;
        while i < self.spans.len()
            invariant
                i <= self.spans@.len(),
                spans_view(spans@) == spans_view(self.spans@).subrange(0, i as int),
            decreases self.spans@.len() - i,
        {
            let ghost before = spans@;
            spans.push(self.spans[i].clone());
            assert(spans_view(spans@) =~= spans_view(before).push(self.spans@[i as int]@));
            assert(spans_view(spans@) =~= spans_view(self.spans@).subrange(0, i + 1));
            i = i + 1;
        }
        assert(spans_view(spans@) =~= spans_view(self.spans@));
        let compressed_data = match &self.compressed_data {
            Some(b) => Some(b.clone()),
            None => None,
        };
        TelemetryBundle {
            sequence_number: self.sequence_number,
            batch_timestamp: self.batch_timestamp,
            compression_type: self.compression_type,
            spans,
            compressed_data,
        }
    }
}

impl TelemetryBundle {
    /// An empty bundle made now.
    pub fn new(sequence_number: u64) -> (r: Self)
        ensures
            r.sequence_number == sequence_number,
            r.compression_type == CompressionType::Uncompressed,
            r.spans@.len() == 0,
            r.compressed_data is None,
    {
        Self::new_at(sequence_number, crate::protocol::now_ms())
    }

    /// An empty bundle made at the given time, in milliseconds.
    pub fn new_at(sequence_number: u64, now: u64) -> (r: Self)
        ensures
            r@ == (BundleView {
                sequence_number,
                batch_timestamp: signed64(now) as i64,
                compression_type: CompressionType::Uncompressed,
                spans: Seq::empty(),
                compressed_data: None,
            }),
            r.spans@.len() == 0,
    {
        let r = TelemetryBundle {
            sequence_number,
            batch_timestamp: to_signed64(now),
            compression_type: CompressionType::Uncompressed,
            spans: Vec::new(),
            compressed_data: None,
        };
        assert(r@.spans =~= Seq::empty());
        r
    }

    pub fn add_span(&mut self, span: CompactSpan)
        ensures
            final(self)@ == (BundleView { spans: old(self)@.spans.push(span@), ..old(self)@ }),
    {
        self.spans.push(span);
        assert(spans_view(self.spans@) =~= old(self)@.spans.push(span@));
    }

    pub fn with_compression(self, compression: CompressionType) -> (r: Self)
        ensures
            r == (TelemetryBundle { compression_type: compression, ..self }),
    {
        let mut b = self;
        b.compression_type = compression;
        b
    }

    /// The spans, each with its length before it.
    fn raw_spans(&self) -> (r: Vec<u8>)
        ensures
            r@ == span_list_bytes(self@.spans),
    {
        let mut out: Vec<u8> = Vec::new();
        let mut i: usize = 0;
        let ghost all = spans_view(self.spans@);
        assert(all.skip(0) =~= all);
        while i < self.spans.len()
            invariant
                i <= self.spans@.len(),
                all == spans_view(self.spans@),
                out@ + span_list_bytes(all.skip(i as int)) == span_list_bytes(all),
            decreases self.spans@.len() - i,
        {
            let ghost before = out@;
            let encoded = self.spans[i].encode_vec();
            push_be(&mut out, encoded.len() as u64, 4);
            push_bytes(&mut out, encoded.as_slice());
            proof {
                let a = all.skip(i as int);
                assert(a.skip(1) =~= all.skip(i + 1));
                assert(out@ + span_list_bytes(all.skip(i + 1)) =~= before + span_list_bytes(a));
            }
            i = i + 1;
        }
        assert(out@ =~= span_list_bytes(all));
        out
    }

    /// Makes the compressed form of the spans, from which decompression gives
    /// them back. An empty bundle stays as it is.
    pub fn compress(&mut self, level: i32) -> (r: Result<(), &'static str>)
        requires
            old(self).compression_type == CompressionType::Gzip ==> 0 <= level <= 10,
        ensures
            old(self)@.spans.len() == 0 ==> r is Ok && *final(self) == *old(self),
            old(self)@.spans.len() > 0 && old(self).compression_type
                == CompressionType::Uncompressed ==> {
                &&& r is Ok
                &&& final(self)@ == (BundleView { compressed_data: None, ..old(self)@ })
            },
            old(self)@.spans.len() > 0 && old(self).compression_type
                != CompressionType::Uncompressed ==> {
                let c = compressed(
                    old(self).compression_type,
                    span_list_bytes(old(self)@.spans),
                    level,
                );
                &&& r is Ok <==> c is Some
                &&& c is Some ==> final(self)@ == (BundleView { compressed_data: c, ..old(self)@ })
                &&& c is None ==> *final(self) == *old(self)
            },
            bundle_consistent(old(self)@) && r is Ok ==> bundle_consistent(final(self)@),
            old(self)@.spans.len() > 0 && r is Ok ==> bundle_consistent(final(self)@),
    {
        if self.spans.len() == 0 {
            return Ok(());
        }
        match self.compression_type {
            CompressionType::Uncompressed => {
                self.compressed_data = None;
                Ok(())
            },
            CompressionType::Zstd => {
                let raw = self.raw_spans();
                match zstd_encode(raw.as_slice(), level) {
                    Some(c) => {
                        self.compressed_data = Some(bytes_from_vec(c));
                        Ok(())
                    },
                    None => Err("Zstd compression failed"),
                }
            },
            CompressionType::Gzip => {
                let raw = self.raw_spans();
                match gzip_encode(raw.as_slice(), level as u32) {
                    Some(c) => {
                        self.compressed_data = Some(bytes_from_vec(c));
                        Ok(())
                    },
                    None => Err("Gzip compression failed"),
                }
            },
        }
    }

    /// The bytes of this bundle.
    pub fn encode(&self) -> (r: Bytes)
        ensures
            bytes_content(r) == bundle_frame(self@),
    {
        let mut buf: Vec<u8> = Vec::new();
        push_be(&mut buf, self.sequence_number, 8);
        push_be(&mut buf, to_unsigned64(self.batch_timestamp), 8);
        let code: u8 = match self.compression_type {
            CompressionType::Uncompressed => 0,
            CompressionType::Zstd => 1,
            CompressionType::Gzip => 2,
        };
        buf.push(code);
        match &self.compressed_data {
            Some(data) => {
                buf.push(1);
                let s = bytes_as_slice(data);
                push_be(&mut buf, s.len() as u64, 4);
                push_bytes(&mut buf, s);
            },
            None => {
                buf.push(0);
                let raw = self.raw_spans();
                push_be(&mut buf, raw.len() as u64, 4);
                push_bytes(&mut buf, raw.as_slice());
            },
        }
        assert(buf@ =~= bundle_frame(self@));
        bytes_from_vec(buf)
    }

    /// Reads the bundle at the start of `data`. Where its spans were compressed,
    /// the compressed form is kept beside them.
    pub fn decode(data: &[u8]) -> (r: Result<Self, &'static str>)
        ensures
            match r {
                Ok(b) => bundle_decoded(data@) == Ok::<BundleView, Seq<char>>(b@),
                Err(e) => bundle_decoded(data@) == Err::<BundleView, Seq<char>>(e@),
            },
    {
        if data.len() < 22 {
            return Err("Insufficient data for bundle header");
        }
        let sequence_number = read_u64(data, 0);
        let batch_timestamp = to_signed64(read_u64(data, 8));
        let compression_type = match data[16] {
            0 => CompressionType::Uncompressed,
            1 => CompressionType::Zstd,
            2 => CompressionType::Gzip,
            _ => {
                return Err("Invalid compression type");
            },
        };
        let has_data: bool = data[17] == 1;
        let data_len: usize = read_u32(data, 18) as usize;
        if data.len() - 22 < data_len {
            return Err("Insufficient data for bundle payload");
        }
        let payload = slice_subrange(data, 22, 22 + data_len);
        let decoded = if has_data {
            match compression_type {
                CompressionType::Uncompressed => decode_spans(payload),
                CompressionType::Zstd => match zstd_decode(payload) {
                    Some(raw) => decode_spans(raw.as_slice()),
                    None => {
                        return Err("Zstd decompression failed");
                    },
                },
                CompressionType::Gzip => match gzip_decode(payload) {
                    Some(raw) => decode_spans(raw.as_slice()),
                    None => {
                        return Err("Gzip decompression failed");
                    },
                },
            }
        } else {
            decode_spans(payload)
        };
        let spans = match decoded {
            Ok(s) => s,
            Err(e) => {
                return Err(e);
            },
        };
        let compressed_data = if has_data && compression_type != CompressionType::Uncompressed {
            Some(bytes_copy_from_slice(payload))
        } else {
            None
        };
        Ok(
            TelemetryBundle {
                sequence_number,
                batch_timestamp,
                compression_type,
                spans,
                compressed_data,
            },
        )
    }

    pub fn span_count(&self) -> (r: usize)
        ensures
            r == self@.spans.len(),
    {
        self.spans.len()
    }

    /// The number of bytes that `encode` gives.
    pub fn encoded_size(&self) -> (r: usize)
        requires
            bundle_frame(self@).len() <= usize::MAX,
        ensures
            r == bundle_frame(self@).len(),
    {
        proof {
            lemma_bundle_len(self@);
        }
        match &self.compressed_data {
            Some(d) => 22 + bytes_as_slice(d).len(),
            None => {
                let ghost all = spans_view(self.spans@);
                let mut n: usize = 22;
                let mut i: usize = 0;
                assert(all.skip(0) =~= all);
                while i < self.spans.len()
                    invariant
                        i <= self.spans@.len(),
                        all == spans_view(self.spans@),
                        n + span_list_bytes(all.skip(i as int)).len() == bundle_frame(self@).len(),
                        bundle_frame(self@).len() <= usize::MAX,
                    decreases self.spans@.len() - i,
                {
                    proof {
                        let a = all.skip(i as int);
                        assert(a.skip(1) =~= all.skip(i + 1));
                        lemma_be_bytes_len(span_frame(a[0]).len(), 4);
                    }
                    n = n + 4 + self.spans[i].encoded_size();
                    i = i + 1;
                }
                n
            },
        }
    }
}

proof fn lemma_bundle_len(b: BundleView)
    ensures
        bundle_frame(b).len() == 22 + bundle_payload(b).len(),
{
    lemma_be_bytes_len(b.sequence_number as nat, 8);
    lemma_be_bytes_len(unsigned64(b.batch_timestamp), 8);
    lemma_be_bytes_len(bundle_payload(b).len(), 4);
}

/// Whether every span of a list can be read back.
pub open spec fn spans_encode(s: Seq<SpanView>) -> bool {
    forall|i: int|
        0 <= i < s.len() ==> span_encodes(#[trigger] s[i]) && span_frame(s[i]).len() <= u32::MAX
}

/// Reading a list of encoded spans gives them back.
pub proof fn span_list_roundtrip(s: Seq<SpanView>)
    requires
        spans_encode(s),
    ensures
        spans_from(span_list_bytes(s)) == Ok::<Seq<SpanView>, Seq<char>>(s),
    decreases s.len(),
{
    if s.len() > 0 {
        let raw = span_list_bytes(s);
        let f = span_frame(s[0]);
        let rest = s.skip(1);
        assert forall|i: int| 0 <= i < rest.len() implies span_encodes(#[trigger] rest[i])
            && span_frame(rest[i]).len() <= u32::MAX by {
            assert(rest[i] == s[i + 1]);
        }
        span_list_roundtrip(rest);
        span_roundtrip(s[0]);
        lemma_pow256();
        lemma_be_value_of_bytes(f.len(), 4);
        assert(raw.subrange(0, 4) =~= be_bytes(f.len(), 4));
        assert(raw.subrange(4, 4 + f.len() as int) =~= f);
        assert(raw.skip(4 + f.len() as int) =~= span_list_bytes(rest));
        assert(seq![s[0]] + rest =~= s);
    } else {
        assert(s =~= Seq::empty());
    }
}

/// Reading an encoded bundle gives it back, compressed or not.
pub proof fn bundle_roundtrip(b: BundleView)
    requires
        spans_encode(b.spans),
        bundle_consistent(b),
        bundle_payload(b).len() <= u32::MAX,
    ensures
        bundle_decoded(bundle_frame(b)) == Ok::<BundleView, Seq<char>>(b),
{
    let d = bundle_frame(b);
    let p = bundle_payload(b);
    lemma_bundle_len(b);
    lemma_pow256();
    lemma_be_value_of_bytes(b.sequence_number as nat, 8);
    lemma_be_value_of_bytes(unsigned64(b.batch_timestamp), 8);
    lemma_be_value_of_bytes(p.len(), 4);
    assert(d.subrange(0, 8) =~= be_bytes(b.sequence_number as nat, 8));
    assert(d.subrange(8, 16) =~= be_bytes(unsigned64(b.batch_timestamp), 8));
    assert(d[16] == compression_code(b.compression_type));
    assert(d[17] == if b.compressed_data is Some { 1u8 } else { 0u8 });
    assert(d.subrange(18, 22) =~= be_bytes(p.len(), 4));
    assert(d.subrange(22, 22 + p.len() as int) =~= p);
    span_list_roundtrip(b.spans);
}

/// A bundle is its number, its time, the code of its compression, whether it is
/// compressed, the length of the payload and the payload: the compressed form where it has
/// one, the spans themselves otherwise.
pub proof fn frame_holds_its_fields(b: BundleView)
    requires
        bundle_payload(b).len() <= u32::MAX,
    ensures
        ({
            let f = bundle_frame(b);
            &&& be_value(f.subrange(0, 8)) == b.sequence_number
            &&& be_value(f.subrange(8, 16)) == unsigned64(b.batch_timestamp)
            &&& f[16] == 0 <==> b.compression_type == CompressionType::Uncompressed
            &&& f[16] == 1 <==> b.compression_type == CompressionType::Zstd
            &&& f[16] == 2 <==> b.compression_type == CompressionType::Gzip
            &&& f[17] == 1 <==> b.compressed_data is Some
            &&& f[17] == 0 <==> b.compressed_data is None
            &&& be_value(f.subrange(18, 22)) == f.len() - 22
            &&& b.compressed_data matches Some(c) ==> f.skip(22) == c
            &&& b.compressed_data is None ==> f.skip(22) == span_list_bytes(b.spans)
        }),
{
    let f = bundle_frame(b);
    let p = bundle_payload(b);
    lemma_bundle_len(b);
    lemma_pow256();
    lemma_be_value_of_bytes(b.sequence_number as nat, 8);
    lemma_be_value_of_bytes(unsigned64(b.batch_timestamp), 8);
    lemma_be_value_of_bytes(p.len(), 4);
    assert(f.subrange(0, 8) =~= be_bytes(b.sequence_number as nat, 8));
    assert(f.subrange(8, 16) =~= be_bytes(unsigned64(b.batch_timestamp), 8));
    assert(f.subrange(18, 22) =~= be_bytes(p.len(), 4));
    assert(f.skip(22) =~= p);
}

/// Each span is written behind those before it, its length in four bytes before it.
pub proof fn spans_are_written_in_turn(s: Seq<SpanView>, x: SpanView)
    ensures
        span_list_bytes(Seq::empty()) == Seq::<u8>::empty(),
        span_list_bytes(s.push(x)) == span_list_bytes(s) + be_bytes(span_frame(x).len(), 4)
            + span_frame(x),
    decreases s.len(),
{
    let t = s.push(x);
    if s.len() == 0 {
        assert(t.skip(1) =~= Seq::empty());
        assert(span_list_bytes(t.skip(1)) =~= Seq::<u8>::empty());
    } else {
        spans_are_written_in_turn(s.skip(1), x);
        assert(t.skip(1) =~= s.skip(1).push(x));
        assert(t[0] == s[0]);
    }
}

/// A bundle is read from the start of a byte string, whatever comes behind it.
pub proof fn bundle_is_read_from_the_start(b: BundleView, behind: Seq<u8>)
    requires
        spans_encode(b.spans),
        bundle_consistent(b),
        bundle_payload(b).len() <= u32::MAX,
    ensures
        bundle_decoded(bundle_frame(b) + behind) == Ok::<BundleView, Seq<char>>(b),
{
    let d = bundle_frame(b);
    let e = d + behind;
    let p = bundle_payload(b);
    bundle_roundtrip(b);
    lemma_bundle_len(b);
    lemma_pow256();
    lemma_be_value_of_bytes(p.len(), 4);
    assert(d.subrange(18, 22) =~= be_bytes(p.len(), 4));
    assert(e.subrange(18, 22) =~= d.subrange(18, 22));
    assert(e.subrange(0, 8) =~= d.subrange(0, 8));
    assert(e.subrange(8, 16) =~= d.subrange(8, 16));
    assert(e.subrange(22, 22 + p.len() as int) =~= d.subrange(22, 22 + p.len() as int));
}

/// A byte string is refused where it is shorter than a header, where the code of its
/// compression is above 2, and where it is shorter than its length field says.
pub proof fn bad_bundles_are_refused(d: Seq<u8>)
    requires
        d.len() < 22 || d[16] > 2 || d.len() < 22 + be_value(d.subrange(18, 22)),
    ensures
        bundle_decoded(d) is Err,
{
}

/// Compressing and decompressing go by the kind that is asked for.
pub proof fn kinds_are_kept_apart(raw: Seq<u8>, level: i32)
    ensures
        compressed(CompressionType::Uncompressed, raw, level) is None,
        compressed(CompressionType::Zstd, raw, level) == zstd_encoded(raw, level),
        compressed(CompressionType::Gzip, raw, level) == gzip_encoded(raw, level as u32),
        decompressed(CompressionType::Uncompressed, raw) == Some(raw),
        decompressed(CompressionType::Zstd, raw) == zstd_decoded(raw),
        decompressed(CompressionType::Gzip, raw) == gzip_decoded(raw),
{
}

} // verus!
