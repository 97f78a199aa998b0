//! Compact telemetry spans for satellite links.
//!
//! A span is `[trace id (16)][span id (8)][parent id (8)][name][start (8)]`
//! `[end (8)][t_event (8)][t_system (8)][sensor id][attribute count (1)]`
//! `[attributes][status (1)]`. A text is its length in one byte and its UTF-8
//! bytes; an attribute is a key text and a value text.

use bytes::Bytes;
use crate::payload::{bytes_content, bytes_from_vec};
use crate::protocol::wrapped64;
use crate::text::text_from_bytes;
use crate::wire::{
    be_bytes,
    be_value,
    copy_range,
    lemma_be_bytes_len,
    lemma_be_value_of_bytes,
    lemma_pow256,
    push_be,
    push_bytes,
    read_u64,
    signed64,
    to_signed64,
    to_unsigned64,
    unsigned64,
};
use vstd::prelude::*;
use vstd::string::StringExecFns;
use vstd::utf8::{
    decode_utf8,
    encode_utf8,
    encode_utf8_decode_utf8,
    encode_utf8_valid_utf8,
    valid_utf8,
};

verus! {

/// The keys and values of a span.
pub type AttributesView = Seq<(Seq<char>, Seq<char>)>;

#[derive(Debug, Clone, Copy, PartialEq, Eq, Structural)]
pub enum SpanStatus {
    Success,
    Error,
}

/// A span, small enough for a satellite link.
#[derive(Debug)]
pub struct CompactSpan {
    pub trace_id: [u8; 16],
    pub span_id: [u8; 8],
    /// All zeros where the span has no parent.
    pub parent_span_id: [u8; 8],
    pub name: String,
    pub start_time_unix_nano: u64,
    pub end_time_unix_nano: u64,
    /// Valid time: when the event happened.
    pub t_event: i64,
    /// Transaction time: when the span was made.
    pub t_system: i64,
    pub sensor_id: String,
    pub attributes: Vec<(String, String)>,
    pub status: SpanStatus,
}

/// What a span says, apart from how its text is held.
#[verifier::ext_equal]
pub struct SpanView {
    pub trace_id: Seq<u8>,
    pub span_id: Seq<u8>,
    pub parent_span_id: Seq<u8>,
    pub name: Seq<char>,
    pub start_time_unix_nano: u64,
    pub end_time_unix_nano: u64,
    pub t_event: i64,
    pub t_system: i64,
    pub sensor_id: Seq<char>,
    pub attributes: AttributesView,
    pub status: SpanStatus,
}

/// The keys and values of a list of attributes.
pub open spec fn attributes_view(a: Seq<(String, String)>) -> AttributesView {
    a.map_values(|p: (String, String)| (p.0@, p.1@))
}

impl View for CompactSpan {
    type V = SpanView;

    open spec fn view(&self) -> SpanView {
        SpanView {
            trace_id: self.trace_id@,
            span_id: self.span_id@,
            parent_span_id: self.parent_span_id@,
            name: self.name@,
            start_time_unix_nano: self.start_time_unix_nano,
            end_time_unix_nano: self.end_time_unix_nano,
            t_event: self.t_event,
            t_system: self.t_system,
            sensor_id: self.sensor_id@,
            attributes: attributes_view(self.attributes@),
            status: self.status,
        }
    }
}

/// A text with its length in one byte, of which only the low order bits are
/// kept.
pub open spec fn text_field(s: Seq<char>) -> Seq<u8> {
    be_bytes(encode_utf8(s).len(), 1) + encode_utf8(s)
}

/// The bytes of a list of attributes.
pub open spec fn attribute_bytes(a: AttributesView) -> Seq<u8>
    decreases a.len(),
{
    if a.len() == 0 {
        Seq::empty()
    } else {
        text_field(a[0].0) + text_field(a[0].1) + attribute_bytes(a.skip(1))
    }
}

pub open spec fn status_code(s: SpanStatus) -> u8 {
    match s {
        SpanStatus::Success => 0,
        SpanStatus::Error => 1,
    }
}

/// The bytes of a span.
pub open spec fn span_frame(s: SpanView) -> Seq<u8> {
    s.trace_id + s.span_id + s.parent_span_id + text_field(s.name) + be_bytes(
        s.start_time_unix_nano as nat,
        8,
    ) + be_bytes(s.end_time_unix_nano as nat, 8) + be_bytes(unsigned64(s.t_event), 8) + be_bytes(
        unsigned64(s.t_system),
        8,
    ) + text_field(s.sensor_id) + be_bytes(s.attributes.len(), 1) + attribute_bytes(s.attributes)
        + seq![status_code(s.status)]
}

/// The result of reading a list of attributes: what was read and where it
/// ended, or the error.
pub type AttributesResult = Result<(AttributesView, int), Seq<char>>;

/// The `n` attributes that start at `at`.
pub open spec fn attributes_from(d: Seq<u8>, at: int, n: nat) -> AttributesResult
    decreases n,
{
    if n == 0 {
        Ok((Seq::empty(), at))
    } else if d.len() - at < 2 {
        Err("Insufficient data for attribute"@)
    } else {
        let key_end = at + 1 + d[at] as int;
        if d.len() < key_end + 1 {
            Err("Insufficient data for attribute value"@)
        } else {
            let end = key_end + 1 + d[key_end] as int;
            if d.len() < end {
                Err("Insufficient data for attribute value"@)
            } else if !valid_utf8(d.subrange(at + 1, key_end)) {
                Err("Invalid UTF-8 in attribute key"@)
            } else if !valid_utf8(d.subrange(key_end + 1, end)) {
                Err("Invalid UTF-8 in attribute value"@)
            } else {
                prepended(
                    seq![
                        (
                            decode_utf8(d.subrange(at + 1, key_end)),
                            decode_utf8(d.subrange(key_end + 1, end)),
                        ),
                    ],
                    attributes_from(d, end, (n - 1) as nat),
                )
            }
        }
    }
}

/// A result with attributes put before those that it has.
pub open spec fn prepended(first: AttributesView, r: AttributesResult) -> AttributesResult {
    match r {
        Ok((rest, end)) => Ok((first + rest, end)),
        Err(e) => Err(e),
    }
}

/// The span at the start of a byte string, or the first error in reading it.
#[verifier::opaque]
pub open spec fn span_decoded(d: Seq<u8>) -> Result<SpanView, Seq<char>> {
    if d.len() < 68 {
        Err("Insufficient data for compact span"@)
    } else {
        let name_end = 33 + d[32] as int;
        if d.len() < name_end {
            Err("Insufficient data for name"@)
        } else if !valid_utf8(d.subrange(33, name_end)) {
            Err("Invalid UTF-8 in name"@)
        } else if d.len() < name_end + 33 {
            Err("Insufficient data for compact span"@)
        } else {
            let sensor = name_end + 33;
            let sensor_end = sensor + d[sensor - 1] as int;
            if d.len() < sensor_end {
                Err("Insufficient data for sensor_id"@)
            } else if !valid_utf8(d.subrange(sensor, sensor_end)) {
                Err("Invalid UTF-8 in sensor_id"@)
            } else if d.len() < sensor_end + 1 {
                Err("Insufficient data for compact span"@)
            } else {
                match attributes_from(d, sensor_end + 1, d[sensor_end] as nat) {
                    Err(e) => Err(e),
                    Ok((attributes, end)) => if d.len() < end + 1 {
                        Err("Insufficient data for compact span"@)
                    } else if d[end] > 1 {
                        Err("Invalid status byte"@)
                    } else {
                        Ok(
                            SpanView {
                                trace_id: d.subrange(0, 16),
                                span_id: d.subrange(16, 24),
                                parent_span_id: d.subrange(24, 32),
                                name: decode_utf8(d.subrange(33, name_end)),
                                start_time_unix_nano: be_value(
                                    d.subrange(name_end, name_end + 8),
                                ) as u64,
                                end_time_unix_nano: be_value(
                                    d.subrange(name_end + 8, name_end + 16),
                                ) as u64,
                                t_event: signed64(
                                    be_value(d.subrange(name_end + 16, name_end + 24)) as u64,
                                ) as i64,
                                t_system: signed64(
                                    be_value(d.subrange(name_end + 24, name_end + 32)) as u64,
                                ) as i64,
                                sensor_id: decode_utf8(d.subrange(sensor, sensor_end)),
                                attributes,
                                status: if d[end] == 0 {
                                    SpanStatus::Success
                                } else {
                                    SpanStatus::Error
                                },
                            },
                        )
                    },
                }
            }
        }
    }
}

/// The present Unix time in nanoseconds (`SystemTime::now`). Nothing is said of
/// the result: it rests on the machine's clock.
#[verifier::external_body]
fn now_nanos() -> (r: u64) {
    std::time::SystemTime::now().duration_since(std::time::UNIX_EPOCH).unwrap_or_default().as_nanos() as u64
}

fn push_text(out: &mut Vec<u8>, s: &String)
    ensures
        final(out)@ == old(out)@ + text_field(s@),
{
    let b = s.as_str().as_bytes();
    push_be(out, b.len() as u64, 1);
    push_bytes(out, b);
    assert(out@ =~= old(out)@ + text_field(s@));
}

fn decode_attributes(data: &[u8], at: usize, n: u8) -> (r: Result<
    (Vec<(String, String)>, usize),
    &'static str,
>)
    requires
        at <= data@.len(),
    ensures
        match r {
            Ok((a, end)) => {
                &&& attributes_from(data@, at as int, n as nat) == Ok::<(AttributesView, int), Seq<char>>(
                    (attributes_view(a@), end as int),
                )
                &&& at <= end <= data@.len()
            },
            Err(e) => attributes_from(data@, at as int, n as nat) == Err::<
                (AttributesView, int),
                Seq<char>,
            >(e@),
        },
{
    let mut attributes: Vec<(String, String)> = Vec::new();
    let mut pos: usize = at;
    let mut left: u8 = n;
    proof {
        let r = attributes_from(data@, at as int, n as nat);
        if r is Ok {
            assert((attributes_view(attributes@) + (r->Ok_0).0) =~= (r->Ok_0).0);
        }
    }
    while left > 0
        invariant
            at <= pos <= data@.len(),
            left <= n,
            attributes_from(data@, at as int, n as nat) == prepended(
                attributes_view(attributes@),
                attributes_from(data@, pos as int, left as nat),
            ),
        decreases left,
    {
        let ghost before = attributes_view(attributes@);
        if data.len() - pos < 2 {
            return Err("Insufficient data for attribute");
        }
        let key_len: usize = data[pos] as usize;
        if data.len() - pos < key_len + 2 {
            return Err("Insufficient data for attribute value");
        }
        let key_end: usize = pos + 1 + key_len;
        let value_len: usize = data[key_end] as usize;
        if data.len() - key_end < value_len + 1 {
            return Err("Insufficient data for attribute value");
        }
        let end: usize = key_end + 1 + value_len;
        let key = match text_from_bytes(copy_range(data, pos + 1, key_end)) {
            Some(s) => s,
            None => {
                return Err("Invalid UTF-8 in attribute key");
            },
        };
        let value = match text_from_bytes(copy_range(data, key_end + 1, end)) {
            Some(s) => s,
            None => {
                return Err("Invalid UTF-8 in attribute value");
            },
        };
        proof {
            let one = seq![(key@, value@)];
            let rest = attributes_from(data@, end as int, (left - 1) as nat);
            assert(attributes_from(data@, pos as int, left as nat) == prepended(one, rest));
            if rest is Ok {
                let t = (rest->Ok_0).0;
                assert(before + (one + t) =~= (before + one) + t);
            }
            assert(prepended(before, prepended(one, rest)) == prepended(before + one, rest));
            assert(attributes_view(attributes@.push((key, value))) =~= before + one);
        }
        attributes.push((key, value));
        pos = end;
        left = left - 1;
    }
    assert(attributes_view(attributes@) + Seq::<(Seq<char>, Seq<char>)>::empty()
        =~= attributes_view(attributes@));
    Ok((attributes, pos))
}

fn array8(data: &[u8], at: usize) -> (r: [u8; 8])
    requires
        at + 8 <= data@.len(),
    ensures
        r@ == data@.subrange(at as int, at + 8),
{
    let mut out = [0u8; 8];
    assert(at + 8 <= data.len());
    crate::wire::write_at(&mut out, 0, vstd::slice::slice_subrange(data, at, at + 8));
    assert(out@ =~= data@.subrange(at as int, at + 8));
    out
}

impl Clone for CompactSpan {
    fn clone(&self) -> (r: Self)
        ensures
            r@ == self@,
    {
        let mut attributes: Vec<(String, String)> = Vec::new();
        let mut i: usize = 0;
        while i < self.attributes.len()
            invariant
                i <= self.attributes@.len(),
                attributes_view(attributes@) == attributes_view(
                    self.attributes@,
                ).subrange(0, i as int),
            decreases self.attributes@.len() - i,
        {
            let ghost before = attributes@;
            attributes.push((self.attributes[i].0.clone(), self.attributes[i].1.clone()));
            assert(attributes_view(attributes@) =~= attributes_view(before).push(
                attributes_view(self.attributes@)[i as int],
            ));
            assert(attributes_view(attributes@) =~= attributes_view(self.attributes@).subrange(
                0,
                i + 1,
            ));
            i = i + 1;
        }
        assert(attributes_view(attributes@) =~= attributes_view(self.attributes@));
        CompactSpan {
            trace_id: self.trace_id,
            span_id: self.span_id,
            parent_span_id: self.parent_span_id,
            name: self.name.clone(),
            start_time_unix_nano: self.start_time_unix_nano,
            end_time_unix_nano: self.end_time_unix_nano,
            t_event: self.t_event,
            t_system: self.t_system,
            sensor_id: self.sensor_id.clone(),
            attributes,
            status: self.status,
        }
    }
}

impl CompactSpan {
    /// A span that starts and ends now, without parent or attributes.
    pub fn new(trace_id: [u8; 16], span_id: [u8; 8], name: &str, sensor_id: &str) -> (r: Self)
        ensures
            r.trace_id == trace_id,
            r.span_id == span_id,
            r.parent_span_id@ == Seq::new(8, |i: int| 0u8),
            r.name@ == name@,
            r.start_time_unix_nano == r.end_time_unix_nano,
            r.t_event == r.t_system,
            r.sensor_id@ == sensor_id@,
            r.attributes@.len() == 0,
            r.status == SpanStatus::Success,
    {
        Self::new_at(trace_id, span_id, name, sensor_id, now_nanos(), crate::protocol::now_ms())
    }

    /// A span that starts and ends at the given time, which is given in nanoseconds and
    /// in milliseconds.
    pub fn new_at(
        trace_id: [u8; 16],
        span_id: [u8; 8],
        name: &str,
        sensor_id: &str,
        nanos: u64,
        millis: u64,
    ) -> (r: Self)
        ensures
            r.trace_id == trace_id,
            r.span_id == span_id,
            r.parent_span_id@ == Seq::new(8, |i: int| 0u8),
            r.name@ == name@,
            r.start_time_unix_nano == nanos,
            r.end_time_unix_nano == nanos,
            r.t_event == signed64(millis),
            r.t_system == signed64(millis),
            r.sensor_id@ == sensor_id@,
            r.attributes@.len() == 0,
            r.status == SpanStatus::Success,
    {
        let now_ms = to_signed64(millis);
        let r = CompactSpan {
            trace_id,
            span_id,
            parent_span_id: [0u8; 8],
            name: String::from_str(name),
            start_time_unix_nano: nanos,
            end_time_unix_nano: nanos,
            t_event: now_ms,
            t_system: now_ms,
            sensor_id: String::from_str(sensor_id),
            attributes: Vec::new(),
            status: SpanStatus::Success,
        };
        assert(r.parent_span_id@ =~= Seq::new(8, |i: int| 0u8));
        r
    }

    pub fn with_parent(self, parent_id: [u8; 8]) -> (r: Self)
        ensures
            r == (CompactSpan { parent_span_id: parent_id, ..self }),
    {
        let mut s = self;
        s.parent_span_id = parent_id;
        s
    }

    pub fn with_t_event(self, t_event: i64) -> (r: Self)
        ensures
            r == (CompactSpan { t_event, ..self }),
    {
        let mut s = self;
        s.t_event = t_event;
        s
    }

    pub fn with_t_system(self, t_system: i64) -> (r: Self)
        ensures
            r == (CompactSpan { t_system, ..self }),
    {
        let mut s = self;
        s.t_system = t_system;
        s
    }

    /// Adds an attribute after those that the span has.
    pub fn with_attribute(self, key: &str, value: &str) -> (r: Self)
        ensures
            r@ == (SpanView { attributes: self@.attributes.push((key@, value@)), ..self@ }),
    {
        let mut s = self;
        s.attributes.push((String::from_str(key), String::from_str(value)));
        assert(attributes_view(s.attributes@) =~= self@.attributes.push((key@, value@)));
        s
    }

    pub fn with_status(self, status: SpanStatus) -> (r: Self)
        ensures
            r == (CompactSpan { status, ..self }),
    {
        let mut s = self;
        s.status = status;
        s
    }

    /// Ends the span now.
    pub fn complete(&mut self)
        ensures
            *final(self) == (CompactSpan {
                end_time_unix_nano: final(self).end_time_unix_nano,
                ..*old(self)
            }),
    {
        self.complete_at(now_nanos());
    }

    /// Ends the span at the given time.
    pub fn complete_at(&mut self, now_unix_nano: u64)
        ensures
            *final(self) == (CompactSpan { end_time_unix_nano: now_unix_nano, ..*old(self) }),
    {
        self.end_time_unix_nano = now_unix_nano;
    }

    /// System time less event time: positive where the span was delayed,
    /// negative where it is from the future, zero in real time.
    pub fn spread_ms(&self) -> (r: i64)
        ensures
            r == wrapped64(self.t_system - self.t_event),
    {
        self.t_system.wrapping_sub(self.t_event)
    }

    /// The bytes of this span.
    pub fn encode(&self) -> (r: Bytes)
        ensures
            bytes_content(r) == span_frame(self@),
    {
        bytes_from_vec(self.encode_vec())
    }

    /// The bytes of this span, as a vector.
    pub fn encode_vec(&self) -> (r: Vec<u8>)
        ensures
            r@ == span_frame(self@),
    {
        let mut buf: Vec<u8> = Vec::new();
        push_bytes(&mut buf, self.trace_id.as_slice());
        push_bytes(&mut buf, self.span_id.as_slice());
        push_bytes(&mut buf, self.parent_span_id.as_slice());
        push_text(&mut buf, &self.name);
        push_be(&mut buf, self.start_time_unix_nano, 8);
        push_be(&mut buf, self.end_time_unix_nano, 8);
        push_be(&mut buf, to_unsigned64(self.t_event), 8);
        push_be(&mut buf, to_unsigned64(self.t_system), 8);
        push_text(&mut buf, &self.sensor_id);
        push_be(&mut buf, self.attributes.len() as u64, 1);
        let ghost head = buf@;
        let ghost attrs = attributes_view(self.attributes@);
        let mut i: usize = 0;
        assert(attrs.skip(0) =~= attrs);
        while i < self.attributes.len()
            invariant
                i <= self.attributes@.len(),
                attrs == attributes_view(self.attributes@),
                buf@ + attribute_bytes(attrs.skip(i as int)) == head + attribute_bytes(attrs),
            decreases self.attributes@.len() - i,
        {
            let ghost before = buf@;
            push_text(&mut buf, &self.attributes[i].0);
            push_text(&mut buf, &self.attributes[i].1);
            proof {
                let a = attrs.skip(i as int);
                assert(a.skip(1) =~= attrs.skip(i + 1));
                assert(buf@ + attribute_bytes(attrs.skip(i + 1)) =~= before + attribute_bytes(a));
            }
            i = i + 1;
        }
        assert(buf@ =~= head + attribute_bytes(attrs));
        let code: u8 = match self.status {
            SpanStatus::Success => 0,
            SpanStatus::Error => 1,
        };
        buf.push(code);
        assert(buf@ =~= span_frame(self@));
        buf
    }

    /// Reads the span at the start of `data`.
    pub fn decode(data: &[u8]) -> (r: Result<Self, &'static str>)
        ensures
            match r {
                Ok(s) => span_decoded(data@) == Ok::<SpanView, Seq<char>>(s@),
                Err(e) => span_decoded(data@) == Err::<SpanView, Seq<char>>(e@),
            },
    {
        reveal(span_decoded);
        if data.len() < 68 {
            return Err("Insufficient data for compact span");
        }
        let mut trace_id = [0u8; 16];
        crate::wire::write_at(&mut trace_id, 0, vstd::slice::slice_subrange(data, 0, 16));
        assert(trace_id@ =~= data@.subrange(0, 16));
        let span_id = array8(data, 16);
        let parent_span_id = array8(data, 24);
        let name_len: usize = data[32] as usize;
        if data.len() - 33 < name_len {
            return Err("Insufficient data for name");
        }
        let name_end: usize = 33 + name_len;
        let name = match text_from_bytes(copy_range(data, 33, name_end)) {
            Some(s) => s,
            None => {
                return Err("Invalid UTF-8 in name");
            },
        };
        if data.len() - name_end < 33 {
            return Err("Insufficient data for compact span");
        }
        let start_time_unix_nano = read_u64(data, name_end);
        let end_time_unix_nano = read_u64(data, name_end + 8);
        let t_event = to_signed64(read_u64(data, name_end + 16));
        let t_system = to_signed64(read_u64(data, name_end + 24));
        let sensor_len: usize = data[name_end + 32] as usize;
        let sensor: usize = name_end + 33;
        if data.len() - sensor < sensor_len {
            return Err("Insufficient data for sensor_id");
        }
        let sensor_end: usize = sensor + sensor_len;
        let sensor_id = match text_from_bytes(copy_range(data, sensor, sensor_end)) {
            Some(s) => s,
            None => {
                return Err("Invalid UTF-8 in sensor_id");
            },
        };
        if data.len() - sensor_end < 1 {
            return Err("Insufficient data for compact span");
        }
        let (attributes, end) = match decode_attributes(data, sensor_end + 1, data[sensor_end]) {
            Ok(p) => p,
            Err(e) => {
                return Err(e);
            },
        };
        if data.len() - end < 1 {
            return Err("Insufficient data for compact span");
        }
        let status = match data[end] {
            0 => SpanStatus::Success,
            1 => SpanStatus::Error,
            _ => {
                return Err("Invalid status byte");
            },
        };
        Ok(
            CompactSpan {
                trace_id,
                span_id,
                parent_span_id,
                name,
                start_time_unix_nano,
                end_time_unix_nano,
                t_event,
                t_system,
                sensor_id,
                attributes,
                status,
            },
        )
    }

    /// The number of bytes that `encode` gives.
    pub fn encoded_size(&self) -> (r: usize)
        requires
            span_frame(self@).len() <= usize::MAX,
        ensures
            r == span_frame(self@).len(),
    {
        let ghost attrs = attributes_view(self.attributes@);
        proof {
            lemma_span_len(self@);
        }
        let mut n: usize = 68 + self.name.as_str().len() + self.sensor_id.as_str().len();
        let ghost total = span_frame(self@).len();
        let mut i: usize = 0;
        assert(attrs.skip(0) =~= attrs);
        while i < self.attributes.len()
            invariant
                i <= self.attributes@.len(),
                attrs == attributes_view(self.attributes@),
                n + attribute_bytes(attrs.skip(i as int)).len() == total,
                total <= usize::MAX,
            decreases self.attributes@.len() - i,
        {
            proof {
                let a = attrs.skip(i as int);
                assert(a.skip(1) =~= attrs.skip(i + 1));
                lemma_be_bytes_len(encode_utf8(a[0].0).len(), 1);
                lemma_be_bytes_len(encode_utf8(a[0].1).len(), 1);
            }
            n = n + 1 + self.attributes[i].0.as_str().len() + 1 + self.attributes[i].1.as_str().len();
            i = i + 1;
        }
        n
    }
}

/// The length of a span's frame.
proof fn lemma_span_len(s: SpanView)
    requires
        s.trace_id.len() == 16,
        s.span_id.len() == 8,
        s.parent_span_id.len() == 8,
    ensures
        span_frame(s).len() == 68 + encode_utf8(s.name).len() + encode_utf8(s.sensor_id).len()
            + attribute_bytes(s.attributes).len(),
{
    lemma_be_bytes_len(encode_utf8(s.name).len(), 1);
    lemma_be_bytes_len(encode_utf8(s.sensor_id).len(), 1);
    lemma_be_bytes_len(s.start_time_unix_nano as nat, 8);
    lemma_be_bytes_len(s.end_time_unix_nano as nat, 8);
    lemma_be_bytes_len(unsigned64(s.t_event), 8);
    lemma_be_bytes_len(unsigned64(s.t_system), 8);
    lemma_be_bytes_len(s.attributes.len(), 1);
}

/// Whether the lengths of a span fit the bytes that hold them.
pub open spec fn span_encodes(s: SpanView) -> bool {
    &&& s.trace_id.len() == 16
    &&& s.span_id.len() == 8
    &&& s.parent_span_id.len() == 8
    &&& encode_utf8(s.name).len() <= 255
    &&& encode_utf8(s.sensor_id).len() <= 255
    &&& s.attributes.len() <= 255
    &&& attributes_encode(s.attributes)
}

/// Whether the lengths of all keys and values fit one byte.
pub open spec fn attributes_encode(a: AttributesView) -> bool {
    forall|i: int|
        0 <= i < a.len() ==> encode_utf8((#[trigger] a[i]).0).len() <= 255 && encode_utf8(
            a[i].1,
        ).len() <= 255
}

proof fn lemma_text_field(s: Seq<char>)
    requires
        encode_utf8(s).len() <= 255,
    ensures
        text_field(s).len() == 1 + encode_utf8(s).len(),
        text_field(s)[0] == encode_utf8(s).len(),
        text_field(s).skip(1) == encode_utf8(s),
        valid_utf8(encode_utf8(s)),
        decode_utf8(encode_utf8(s)) == s,
{
    let n = encode_utf8(s).len();
    lemma_be_bytes_len(n, 1);
    reveal_with_fuel(be_bytes, 2);
    assert(text_field(s).skip(1) =~= encode_utf8(s));
    encode_utf8_valid_utf8(s);
    encode_utf8_decode_utf8(s);
}

proof fn lemma_attributes_roundtrip(pre: Seq<u8>, a: AttributesView, post: Seq<u8>)
    requires
        attributes_encode(a),
    ensures
        attributes_from(pre + attribute_bytes(a) + post, pre.len() as int, a.len()) == Ok::<
            (AttributesView, int),
            Seq<char>,
        >((a, (pre.len() + attribute_bytes(a).len()) as int)),
    decreases a.len(),
{
    let d = pre + attribute_bytes(a) + post;
    if a.len() > 0 {
        let k = a[0].0;
        let v = a[0].1;
        let rest = a.skip(1);
        assert forall|i: int| 0 <= i < rest.len() implies encode_utf8((#[trigger] rest[i]).0).len()
            <= 255 && encode_utf8(rest[i].1).len() <= 255 by {
            assert(rest[i] == a[i + 1]);
        }
        lemma_text_field(k);
        lemma_text_field(v);
        let at = pre.len() as int;
        let pre2 = pre + text_field(k) + text_field(v);
        assert(d =~= pre2 + attribute_bytes(rest) + post);
        lemma_attributes_roundtrip(pre2, rest, post);
        let key_end = at + 1 + encode_utf8(k).len();
        let end = key_end + 1 + encode_utf8(v).len();
        assert(d[at] == text_field(k)[0]);
        assert(d[key_end] == text_field(v)[0]);
        assert(d.subrange(at + 1, key_end) =~= encode_utf8(k)) by {
            assert forall|i: int| 0 <= i < encode_utf8(k).len() implies d[at + 1 + i]
                == encode_utf8(k)[i] by {
                assert(text_field(k).skip(1)[i] == text_field(k)[i + 1]);
            }
        }
        assert(d.subrange(key_end + 1, end) =~= encode_utf8(v)) by {
            assert forall|i: int| 0 <= i < encode_utf8(v).len() implies d[key_end + 1 + i]
                == encode_utf8(v)[i] by {
                assert(text_field(v).skip(1)[i] == text_field(v)[i + 1]);
            }
        }
        assert(end == pre2.len());
        assert(seq![(k, v)] + rest =~= a);
    } else {
        assert(a =~= Seq::empty());
    }
}

/// Reading an encoded span gives it back, where its lengths fit the bytes that
/// hold them.
pub proof fn span_roundtrip(s: SpanView)
    requires
        span_encodes(s),
    ensures
        span_decoded(span_frame(s)) == Ok::<SpanView, Seq<char>>(s),
{
    span_is_read_from_the_start(s, Seq::empty());
    assert(span_frame(s) + Seq::<u8>::empty() =~= span_frame(s));
}

/// A span is read from the start of a byte string, whatever comes behind it.
#[verifier::spinoff_prover]
#[verifier::rlimit(40)]
pub proof fn span_is_read_from_the_start(s: SpanView, behind: Seq<u8>)
    requires
        span_encodes(s),
    ensures
        span_decoded(span_frame(s) + behind) == Ok::<SpanView, Seq<char>>(s),
{
    reveal(span_decoded);
    let d = span_frame(s) + behind;
    lemma_pow256();
    lemma_span_len(s);
    lemma_text_field(s.name);
    lemma_text_field(s.sensor_id);
    lemma_be_value_of_bytes(s.start_time_unix_nano as nat, 8);
    lemma_be_value_of_bytes(s.end_time_unix_nano as nat, 8);
    lemma_be_value_of_bytes(unsigned64(s.t_event), 8);
    lemma_be_value_of_bytes(unsigned64(s.t_system), 8);
    lemma_be_bytes_len(s.attributes.len(), 1);
    reveal_with_fuel(be_bytes, 2);
    let ids = s.trace_id + s.span_id + s.parent_span_id;
    let times = be_bytes(s.start_time_unix_nano as nat, 8) + be_bytes(
        s.end_time_unix_nano as nat,
        8,
    ) + be_bytes(unsigned64(s.t_event), 8) + be_bytes(unsigned64(s.t_system), 8);
    let name = text_field(s.name);
    let sensor_field = text_field(s.sensor_id);
    let count = be_bytes(s.attributes.len(), 1);
    let attrs = attribute_bytes(s.attributes);
    let tail = seq![status_code(s.status)] + behind;
    assert(d =~= ids + name + times + sensor_field + count + attrs + tail);
    let name_end = 33 + encode_utf8(s.name).len() as int;
    let sensor = name_end + 33;
    let sensor_end = sensor + encode_utf8(s.sensor_id).len() as int;
    assert(d[32] == name[0]);
    assert(d.subrange(33, name_end) =~= name.skip(1));
    assert(d.subrange(0, 16) =~= s.trace_id);
    assert(d.subrange(16, 24) =~= s.span_id);
    assert(d.subrange(24, 32) =~= s.parent_span_id);
    assert(d.subrange(name_end, name_end + 8) =~= be_bytes(s.start_time_unix_nano as nat, 8));
    assert(d.subrange(name_end + 8, name_end + 16) =~= be_bytes(s.end_time_unix_nano as nat, 8));
    assert(d.subrange(name_end + 16, name_end + 24) =~= be_bytes(unsigned64(s.t_event), 8));
    assert(d.subrange(name_end + 24, name_end + 32) =~= be_bytes(unsigned64(s.t_system), 8));
    assert(d[sensor - 1] == sensor_field[0]);
    assert(d.subrange(sensor, sensor_end) =~= sensor_field.skip(1));
    assert(d[sensor_end] == count[0]);
    let pre = ids + name + times + sensor_field + count;
    assert(pre.len() == sensor_end + 1);
    assert(d =~= pre + attrs + tail);
    lemma_attributes_roundtrip(pre, s.attributes, tail);
}

/// A span is its three ids, its name behind its length, the two times in nanoseconds, the
/// event and the system time, the sensor behind its length, the number of attributes,
/// these, and the status, each at its place and nothing between them.
pub proof fn frame_holds_its_fields(s: SpanView)
    requires
        span_encodes(s),
    ensures
        ({
            let f = span_frame(s);
            let n = encode_utf8(s.name).len() as int;
            let m = encode_utf8(s.sensor_id).len() as int;
            let k = attribute_bytes(s.attributes).len() as int;
            &&& f.len() == 68 + n + m + k
            &&& f.subrange(0, 16) == s.trace_id
            &&& f.subrange(16, 24) == s.span_id
            &&& f.subrange(24, 32) == s.parent_span_id
            &&& f[32] == n
            &&& f.subrange(33, 33 + n) == encode_utf8(s.name)
            &&& be_value(f.subrange(33 + n, 41 + n)) == s.start_time_unix_nano
            &&& be_value(f.subrange(41 + n, 49 + n)) == s.end_time_unix_nano
            &&& be_value(f.subrange(49 + n, 57 + n)) == unsigned64(s.t_event)
            &&& be_value(f.subrange(57 + n, 65 + n)) == unsigned64(s.t_system)
            &&& f[65 + n] == m
            &&& f.subrange(66 + n, 66 + n + m) == encode_utf8(s.sensor_id)
            &&& f[66 + n + m] == s.attributes.len()
            &&& f.subrange(67 + n + m, 67 + n + m + k) == attribute_bytes(s.attributes)
            &&& f[67 + n + m + k] == 0 <==> s.status == SpanStatus::Success
            &&& f[67 + n + m + k] == 1 <==> s.status == SpanStatus::Error
        }),
{
    let f = span_frame(s);
    lemma_pow256();
    lemma_span_len(s);
    lemma_text_field(s.name);
    lemma_text_field(s.sensor_id);
    lemma_be_value_of_bytes(s.start_time_unix_nano as nat, 8);
    lemma_be_value_of_bytes(s.end_time_unix_nano as nat, 8);
    lemma_be_value_of_bytes(unsigned64(s.t_event), 8);
    lemma_be_value_of_bytes(unsigned64(s.t_system), 8);
    lemma_be_bytes_len(s.attributes.len(), 1);
    reveal_with_fuel(be_bytes, 2);
    let name = text_field(s.name);
    let sensor = text_field(s.sensor_id);
    let n = encode_utf8(s.name).len() as int;
    let m = encode_utf8(s.sensor_id).len() as int;
    let k = attribute_bytes(s.attributes).len() as int;
    assert(f.subrange(0, 16) =~= s.trace_id);
    assert(f.subrange(16, 24) =~= s.span_id);
    assert(f.subrange(24, 32) =~= s.parent_span_id);
    assert(f[32] == name[0]);
    assert(f.subrange(33, 33 + n) =~= name.skip(1));
    assert(f.subrange(33 + n, 41 + n) =~= be_bytes(s.start_time_unix_nano as nat, 8));
    assert(f.subrange(41 + n, 49 + n) =~= be_bytes(s.end_time_unix_nano as nat, 8));
    assert(f.subrange(49 + n, 57 + n) =~= be_bytes(unsigned64(s.t_event), 8));
    assert(f.subrange(57 + n, 65 + n) =~= be_bytes(unsigned64(s.t_system), 8));
    assert(f[65 + n] == sensor[0]);
    assert(f.subrange(66 + n, 66 + n + m) =~= sensor.skip(1));
    assert(f[66 + n + m] == be_bytes(s.attributes.len(), 1)[0]);
    assert(f.subrange(67 + n + m, 67 + n + m + k) =~= attribute_bytes(s.attributes));
}

/// Each attribute is written behind those before it: its key and its value, each behind
/// its length.
pub proof fn attributes_are_written_in_turn(a: AttributesView, key: Seq<char>, value: Seq<char>)
    requires
        encode_utf8(key).len() <= 255,
        encode_utf8(value).len() <= 255,
    ensures
        attribute_bytes(Seq::empty()) == Seq::<u8>::empty(),
        attribute_bytes(a.push((key, value))) == attribute_bytes(a) + seq![
            encode_utf8(key).len() as u8,
        ] + encode_utf8(key) + seq![encode_utf8(value).len() as u8] + encode_utf8(value),
    decreases a.len(),
{
    let b = a.push((key, value));
    lemma_text_field(key);
    lemma_text_field(value);
    if a.len() == 0 {
        assert(b.skip(1) =~= Seq::empty());
        assert(attribute_bytes(b.skip(1)) =~= Seq::<u8>::empty());
        assert(text_field(key) =~= seq![encode_utf8(key).len() as u8] + text_field(key).skip(1));
        assert(text_field(value) =~= seq![encode_utf8(value).len() as u8] + text_field(value).skip(
            1,
        ));
        assert(attribute_bytes(b) =~= text_field(key) + text_field(value));
    } else {
        attributes_are_written_in_turn(a.skip(1), key, value);
        assert(b.skip(1) =~= a.skip(1).push((key, value)));
        assert(b[0] == a[0]);
    }
}

/// A byte string of less than 68 bytes is no span.
pub proof fn short_spans_are_refused(d: Seq<u8>)
    requires
        d.len() < 68,
    ensures
        span_decoded(d) is Err,
{
    reveal(span_decoded);
}

} // verus!
