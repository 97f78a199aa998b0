//! Conversion of compact spans to OTLP for data warehouse ingestion.
//!
//! The two times of a span travel as attributes, so that they can be read back
//! for reconciliation.

use bytes::Bytes;
use crate::otel_bundle::{CompressionType, TelemetryBundle};
use crate::otel_compact_span::{attributes_view, AttributesView, CompactSpan, SpanStatus, SpanView};
use crate::payload::{bytes_content, bytes_from_vec};
use crate::protocol::wrapped64;
use crate::text::{
    decimal_of,
    hex_decode,
    hex_decoded,
    hex_encode,
    hex_of,
    hex_roundtrip,
    parsed_i64,
    push_decimal,
    same_text,
    signed_decimal_of,
    signed_decimal_roundtrip,
    signed_text,
};
use crate::wire::{
    be_bytes,
    be_value,
    lemma_be_value_of_bytes,
    lemma_pow256,
    push_be,
    push_bytes,
};
use vstd::prelude::*;
use vstd::string::StringExecFns;
use vstd::utf8::encode_utf8;

verus! {

#[derive(Debug, Clone, Copy, PartialEq, Eq, Structural)]
pub enum OtlpStatus {
    Unset,
    Success,
    Error,
}

/// A span as OTLP exporters take it.
#[derive(Debug)]
pub struct OtlpSpan {
    /// Thirty-two hexadecimal digits.
    pub trace_id: String,
    /// Sixteen hexadecimal digits.
    pub span_id: String,
    /// Sixteen hexadecimal digits, where the span has a parent.
    pub parent_span_id: Option<String>,
    pub name: String,
    pub start_time_unix_nano: u64,
    pub end_time_unix_nano: u64,
    pub attributes: Vec<(String, String)>,
    pub status: OtlpStatus,
}

/// What an OTLP span says, apart from how its text is held.
#[verifier::ext_equal]
pub struct OtlpSpanView {
    pub trace_id: Seq<char>,
    pub span_id: Seq<char>,
    pub parent_span_id: Option<Seq<char>>,
    pub name: Seq<char>,
    pub start_time_unix_nano: u64,
    pub end_time_unix_nano: u64,
    pub attributes: AttributesView,
    pub status: OtlpStatus,
}

impl View for OtlpSpan {
    type V = OtlpSpanView;

    open spec fn view(&self) -> OtlpSpanView {
        OtlpSpanView {
            trace_id: self.trace_id@,
            span_id: self.span_id@,
            parent_span_id: match self.parent_span_id {
                Some(p) => Some(p@),
                None => None,
            },
            name: self.name@,
            start_time_unix_nano: self.start_time_unix_nano,
            end_time_unix_nano: self.end_time_unix_nano,
            attributes: attributes_view(self.attributes@),
            status: self.status,
        }
    }
}

/// Spans for one export, with attributes that apply to all of them.
#[derive(Debug)]
pub struct OtlpExportRequest {
    pub resource_attributes: Vec<(String, String)>,
    pub spans: Vec<OtlpSpan>,
}

/// What a list of OTLP spans says.
pub open spec fn otlp_views(s: Seq<OtlpSpan>) -> Seq<OtlpSpanView> {
    s.map_values(|o: OtlpSpan| o@)
}

/// A JSON document.
#[derive(Debug)]
pub enum JsonValue {
    Text(String),
    Number(u64),
    List(Vec<JsonValue>),
    /// Members with different names.
    Object(Vec<(String, JsonValue)>),
}

/// The attributes that carry the two times of a span.
pub open spec fn temporal_attributes(s: SpanView) -> AttributesView {
    seq![
        ("t_event"@, signed_decimal_of(s.t_event as int)),
        ("t_system"@, signed_decimal_of(s.t_system as int)),
        ("sensor_id"@, s.sensor_id),
        ("spread_ms"@, signed_decimal_of(wrapped64(s.t_system - s.t_event))),
    ]
}

/// The OTLP form of a compact span.
pub open spec fn otlp_of(s: SpanView) -> OtlpSpanView {
    OtlpSpanView {
        trace_id: hex_of(s.trace_id),
        span_id: hex_of(s.span_id),
        parent_span_id: if s.parent_span_id == Seq::new(8, |i: int| 0u8) {
            None
        } else {
            Some(hex_of(s.parent_span_id))
        },
        name: s.name,
        start_time_unix_nano: s.start_time_unix_nano,
        end_time_unix_nano: s.end_time_unix_nano,
        attributes: temporal_attributes(s) + s.attributes,
        status: match s.status {
            SpanStatus::Success => OtlpStatus::Success,
            SpanStatus::Error => OtlpStatus::Error,
        },
    }
}

/// The name under which a compression is printed.
pub open spec fn compression_name(c: CompressionType) -> Seq<char> {
    match c {
        CompressionType::Uncompressed => "None"@,
        CompressionType::Zstd => "Zstd"@,
        CompressionType::Gzip => "Gzip"@,
    }
}

pub open spec fn status_name(s: OtlpStatus) -> Seq<char> {
    match s {
        OtlpStatus::Unset => "STATUS_UNSET"@,
        OtlpStatus::Success => "STATUS_OK"@,
        OtlpStatus::Error => "STATUS_ERROR"@,
    }
}

/// A list of attributes as a map, in which a later value replaces an earlier
/// one of the same key.
pub open spec fn attribute_map(a: AttributesView) -> Map<Seq<char>, Seq<char>>
    decreases a.len(),
{
    if a.len() == 0 {
        Map::empty()
    } else {
        attribute_map(a.drop_last()).insert(a.last().0, a.last().1)
    }
}

/// Whether `j` is the text `s`.
pub open spec fn is_text(j: JsonValue, s: Seq<char>) -> bool {
    j matches JsonValue::Text(t) && t@ == s
}

/// Whether no two members have one name.
pub open spec fn names_differ(o: Seq<(String, JsonValue)>) -> bool {
    forall|i: int, k: int| 0 <= i < k < o.len() ==> (#[trigger] o[i]).0@ != (#[trigger] o[k]).0@
}

/// Whether members are the texts of a map, each once.
pub open spec fn members_are(o: Seq<(String, JsonValue)>, m: Map<Seq<char>, Seq<char>>) -> bool {
    &&& names_differ(o)
    &&& forall|i: int|
        0 <= i < o.len() ==> m.dom().contains((#[trigger] o[i]).0@) && is_text(o[i].1, m[o[i].0@])
    &&& forall|k: Seq<char>|
        m.dom().contains(k) ==> exists|i: int| 0 <= i < o.len() && (#[trigger] o[i]).0@ == k
}

/// Whether `j` is the object of a list of attributes.
pub open spec fn is_attribute_object(j: JsonValue, a: AttributesView) -> bool {
    j matches JsonValue::Object(o) && members_are(o@, attribute_map(a))
}

/// Whether `j` is the JSON form of a span.
pub open spec fn is_span_json(j: JsonValue, s: OtlpSpanView) -> bool {
    &&& j is Object
    &&& {
        let o = j->Object_0@;
        let k: int = if s.parent_span_id is Some {
            1
        } else {
            0
        };
        &&& o.len() == 7 + k
        &&& o[0].0@ == "traceId"@ && is_text(o[0].1, s.trace_id)
        &&& o[1].0@ == "spanId"@ && is_text(o[1].1, s.span_id)
        &&& s.parent_span_id matches Some(p) ==> o[2].0@ == "parentSpanId"@ && is_text(o[2].1, p)
        &&& o[2 + k].0@ == "name"@ && is_text(o[2 + k].1, s.name)
        &&& o[3 + k].0@ == "startTimeUnixNano"@ && o[3 + k].1 == JsonValue::Number(
            s.start_time_unix_nano,
        )
        &&& o[4 + k].0@ == "endTimeUnixNano"@ && o[4 + k].1 == JsonValue::Number(
            s.end_time_unix_nano,
        )
        &&& o[5 + k].0@ == "status"@ && is_text(o[5 + k].1, status_name(s.status))
        &&& o[6 + k].0@ == "attributes"@ && is_attribute_object(o[6 + k].1, s.attributes)
    }
}

/// Whether `j` is the list of the JSON forms of some spans.
pub open spec fn is_span_list(j: JsonValue, spans: Seq<OtlpSpanView>) -> bool {
    &&& j is List
    &&& j->List_0@.len() == spans.len()
    &&& forall|i: int| 0 <= i < spans.len() ==> is_span_json(#[trigger] j->List_0@[i], spans[i])
}

/// Whether `j` is an object with the one member `name`, a list of one element.
pub open spec fn is_single(j: JsonValue, name: Seq<char>) -> bool {
    &&& j is Object
    &&& j->Object_0@.len() == 1
    &&& j->Object_0@[0].0@ == name
}

/// Whether `j` is the JSON form of an export request.
pub open spec fn is_request_json(
    j: JsonValue,
    attributes: AttributesView,
    spans: Seq<OtlpSpanView>,
) -> bool {
    &&& j is Object
    &&& {
        let o = j->Object_0@;
        &&& o.len() == 2
        &&& o[0].0@ == "resource"@ && is_attribute_object(o[0].1, attributes)
        &&& o[1].0@ == "resourceSpans"@ && o[1].1 is List && o[1].1->List_0@.len() == 1
        &&& o[1].1->List_0@[0] is Object
        &&& {
            let r = o[1].1->List_0@[0]->Object_0@;
            &&& r.len() == 2
            &&& r[0].0@ == "resource"@ && is_attribute_object(r[0].1, attributes)
            &&& r[1].0@ == "scopeSpans"@ && r[1].1 is List && r[1].1->List_0@.len() == 1
            &&& is_single(r[1].1->List_0@[0], "spans"@)
            &&& is_span_list(r[1].1->List_0@[0]->Object_0@[0].1, spans)
        }
    }
}

/// A text with its length in four bytes.
pub open spec fn long_text_field(s: Seq<char>) -> Seq<u8> {
    be_bytes(encode_utf8(s).len(), 4) + encode_utf8(s)
}

/// A list of attributes, without its count.
pub open spec fn long_attribute_bytes(a: AttributesView) -> Seq<u8>
    decreases a.len(),
{
    if a.len() == 0 {
        Seq::empty()
    } else {
        long_attribute_bytes(a.drop_last()) + long_text_field(a.last().0) + long_text_field(
            a.last().1,
        )
    }
}

/// A list of attributes with its count in four bytes.
pub open spec fn counted_attributes(a: AttributesView) -> Seq<u8> {
    be_bytes(a.len(), 4) + long_attribute_bytes(a)
}

/// The bytes that an id stands for; none where it is not hexadecimal.
pub open spec fn binary_id(id: Seq<char>) -> Seq<u8> {
    match hex_decoded(id) {
        Some(b) => b,
        None => Seq::empty(),
    }
}

pub open spec fn otlp_status_code(s: OtlpStatus) -> u8 {
    match s {
        OtlpStatus::Unset => 0,
        OtlpStatus::Success => 1,
        OtlpStatus::Error => 2,
    }
}

/// The binary form of a span.
pub open spec fn otlp_span_bytes(s: OtlpSpanView) -> Seq<u8> {
    binary_id(s.trace_id) + binary_id(s.span_id) + (match s.parent_span_id {
        Some(p) => seq![1u8] + binary_id(p),
        None => seq![0u8],
    }) + long_text_field(s.name) + be_bytes(s.start_time_unix_nano as nat, 8) + be_bytes(
        s.end_time_unix_nano as nat,
        8,
    ) + seq![otlp_status_code(s.status)] + counted_attributes(s.attributes)
}

/// The binary form of a list of spans, without its count.
pub open spec fn otlp_spans_bytes(s: Seq<OtlpSpanView>) -> Seq<u8>
    decreases s.len(),
{
    if s.len() == 0 {
        Seq::empty()
    } else {
        otlp_spans_bytes(s.drop_last()) + otlp_span_bytes(s.last())
    }
}

fn copy_text(s: &str) -> (r: String)
    ensures
        r@ == s@,
{
    String::from_str(s)
}

fn is_zero8(id: &[u8; 8]) -> (r: bool)
    ensures
        r <==> id@ == Seq::new(8, |i: int| 0u8),
{
    let mut i: usize = 0;
    while i < 8
        invariant
            i <= 8,
            forall|k: int| 0 <= k < i ==> id@[k] == 0u8,
        decreases 8 - i,
    {
        if id[i] != 0 {
            assert(id@[i as int] != Seq::new(8, |i: int| 0u8)[i as int]);
            return false;
        }
        i = i + 1;
    }
    assert(id@ =~= Seq::new(8, |i: int| 0u8));
    true
}

/// The JSON object of a list of attributes.
fn attribute_object(a: &Vec<(String, String)>) -> (r: JsonValue)
    ensures
        is_attribute_object(r, attributes_view(a@)),
{
    let mut o: Vec<(String, JsonValue)> = Vec::new();
    let ghost all = attributes_view(a@);
    let mut i: usize = 0;
    assert(all.subrange(0, 0) =~= Seq::empty());
    while i < a.len()
        invariant
            i <= a@.len(),
            all == attributes_view(a@),
            members_are(o@, attribute_map(all.subrange(0, i as int))),
        decreases a@.len() - i,
    {
        let ghost m = attribute_map(all.subrange(0, i as int));
        let ghost m2 = attribute_map(all.subrange(0, i + 1));
        let ghost before = o@;
        proof {
            assert(all.subrange(0, i + 1).drop_last() =~= all.subrange(0, i as int));
            assert(m2 == m.insert(a@[i as int].0@, a@[i as int].1@));
        }
        let mut k: usize = 0;
        while k < o.len() && !same_text(o[k].0.as_str(), a[i].0.as_str())
            invariant
                k <= o@.len(),
                i < a@.len(),
                o@ == before,
                forall|x: int| 0 <= x < k ==> (#[trigger] o@[x]).0@ != a@[i as int].0@,
            decreases o@.len() - k,
        {
            k = k + 1;
        }
        let value = JsonValue::Text(a[i].1.clone());
        if k < o.len() {
            let name = a[i].0.clone();
            o[k] = (name, value);
            proof {
                assert forall|n: Seq<char>| m2.dom().contains(n) implies exists|x: int|
                    0 <= x < o@.len() && (#[trigger] o@[x]).0@ == n by {
                    if n == a@[i as int].0@ {
                        assert(o@[k as int].0@ == n);
                    } else {
                        let x = choose|x: int| 0 <= x < before.len() && (#[trigger] before[x]).0@ == n;
                        assert(o@[x].0@ == n);
                    }
                }
            }
        } else {
            o.push((a[i].0.clone(), value));
            proof {
                assert forall|n: Seq<char>| m2.dom().contains(n) implies exists|x: int|
                    0 <= x < o@.len() && (#[trigger] o@[x]).0@ == n by {
                    if n == a@[i as int].0@ {
                        assert(o@[before.len() as int].0@ == n);
                    } else {
                        let x = choose|x: int| 0 <= x < before.len() && (#[trigger] before[x]).0@ == n;
                        assert(o@[x].0@ == n);
                    }
                }
            }
        }
        i = i + 1;
    }
    assert(all.subrange(0, i as int) =~= all);
    JsonValue::Object(o)
}

fn push_long_text(out: &mut Vec<u8>, s: &str)
    ensures
        final(out)@ == old(out)@ + long_text_field(s@),
{
    let b = s.as_bytes();
    push_be(out, b.len() as u64, 4);
    push_bytes(out, b);
    assert(out@ =~= old(out)@ + long_text_field(s@));
}

fn push_counted_attributes(out: &mut Vec<u8>, a: &Vec<(String, String)>)
    ensures
        final(out)@ == old(out)@ + counted_attributes(attributes_view(a@)),
{
    let ghost all = attributes_view(a@);
    push_be(out, a.len() as u64, 4);
    let ghost head = out@;
    let mut i: usize = 0;
    assert(all.subrange(0, 0) =~= Seq::empty());
    assert(head + long_attribute_bytes(all.subrange(0, 0)) =~= head);
    while i < a.len()
        invariant
            i <= a@.len(),
            all == attributes_view(a@),
            out@ == head + long_attribute_bytes(all.subrange(0, i as int)),
        decreases a@.len() - i,
    {
        push_long_text(out, a[i].0.as_str());
        push_long_text(out, a[i].1.as_str());
        proof {
            let t = all.subrange(0, i + 1);
            assert(t.drop_last() =~= all.subrange(0, i as int));
            assert(out@ =~= head + long_attribute_bytes(t));
        }
        i = i + 1;
    }
    assert(all.subrange(0, i as int) =~= all);
    assert(out@ =~= old(out)@ + counted_attributes(all));
}

fn push_id(out: &mut Vec<u8>, id: &str)
    ensures
        final(out)@ == old(out)@ + binary_id(id@),
{
    match hex_decode(id) {
        Some(b) => push_bytes(out, b.as_slice()),
        None => {
            assert(out@ =~= old(out)@ + binary_id(id@));
        },
    }
}

/// A copy of a list of attributes.
pub(crate) fn clone_attributes(a: &Vec<(String, String)>) -> (r: Vec<(String, String)>)
    ensures
        attributes_view(r@) == attributes_view(a@),
{
    let mut r: Vec<(String, String)> = Vec::new();
    append_attributes(&mut r, a);
    assert(attributes_view(r@) =~= attributes_view(a@));
    r
}

fn append_attributes(out: &mut Vec<(String, String)>, a: &Vec<(String, String)>)
    ensures
        attributes_view(final(out)@) == attributes_view(old(out)@) + attributes_view(a@),
{
    let mut i: usize = 0;
    let ghost first = attributes_view(out@);
    assert(first + attributes_view(a@).subrange(0, 0) =~= first);
    while i < a.len()
        invariant
            i <= a@.len(),
            attributes_view(out@) == first + attributes_view(a@).subrange(0, i as int),
        decreases a@.len() - i,
    {
        let ghost before = out@;
        out.push((a[i].0.clone(), a[i].1.clone()));
        proof {
            assert(attributes_view(out@) =~= attributes_view(before).push(
                attributes_view(a@)[i as int],
            ));
            assert(attributes_view(out@) =~= first + attributes_view(a@).subrange(0, i + 1));
        }
        i = i + 1;
    }
    assert(attributes_view(a@).subrange(0, i as int) =~= attributes_view(a@));
}

impl JsonValue {
    /// The member of an object under a name, if there is one.
    pub fn get(&self, name: &str) -> (r: Option<&JsonValue>)
        ensures
            match r {
                Some(v) => self is Object && exists|i: int|
                    0 <= i < self->Object_0@.len() && (#[trigger] self->Object_0@[i]).0@ == name@
                        && self->Object_0@[i].1 == *v,
                None => self is Object ==> forall|i: int|
                    0 <= i < self->Object_0@.len() ==> (#[trigger] self->Object_0@[i]).0@ != name@,
            },
    {
        match self {
            JsonValue::Object(o) => {
                let mut i: usize = 0;
                while i < o.len()
                    invariant
                        i <= o@.len(),
                        *self == JsonValue::Object(*o),
                        forall|x: int| 0 <= x < i ==> (#[trigger] o@[x]).0@ != name@,
                    decreases o@.len() - i,
                {
                    if same_text(o[i].0.as_str(), name) {
                        assert(self->Object_0@[i as int].0@ == name@);
                        return Some(&o[i].1);
                    }
                    i = i + 1;
                }
                None
            },
            _ => None,
        }
    }
}

impl Clone for OtlpSpan {
    fn clone(&self) -> (r: Self)
        ensures
            r@ == self@,
    {
        let parent_span_id = match &self.parent_span_id {
            Some(p) => Some(p.clone()),
            None => None,
        };
        OtlpSpan {
            trace_id: self.trace_id.clone(),
            span_id: self.span_id.clone(),
            parent_span_id,
            name: self.name.clone(),
            start_time_unix_nano: self.start_time_unix_nano,
            end_time_unix_nano: self.end_time_unix_nano,
            attributes: clone_attributes(&self.attributes),
            status: self.status,
        }
    }
}

impl OtlpSpan {
    /// The OTLP form of a compact span.
    pub fn from_compact(span: &CompactSpan) -> (r: Self)
        ensures
            r@ == otlp_of(span@),
    {
        let trace_id = hex_encode(span.trace_id.as_slice());
        let span_id = hex_encode(span.span_id.as_slice());
        let parent_span_id = if is_zero8(&span.parent_span_id) {
            None
        } else {
            Some(hex_encode(span.parent_span_id.as_slice()))
        };
        let mut attributes: Vec<(String, String)> = Vec::new();
        attributes.push((copy_text("t_event"), signed_text(span.t_event)));
        attributes.push((copy_text("t_system"), signed_text(span.t_system)));
        attributes.push((copy_text("sensor_id"), span.sensor_id.clone()));
        attributes.push((copy_text("spread_ms"), signed_text(span.spread_ms())));
        assert(attributes_view(attributes@) =~= temporal_attributes(span@));
        append_attributes(&mut attributes, &span.attributes);
        let status = match span.status {
            SpanStatus::Success => OtlpStatus::Success,
            SpanStatus::Error => OtlpStatus::Error,
        };
        OtlpSpan {
            trace_id,
            span_id,
            parent_span_id,
            name: span.name.clone(),
            start_time_unix_nano: span.start_time_unix_nano,
            end_time_unix_nano: span.end_time_unix_nano,
            attributes,
            status,
        }
    }

    /// The JSON form of this span.
    pub fn to_json(&self) -> (r: JsonValue)
        ensures
            is_span_json(r, self@),
    {
        let mut o: Vec<(String, JsonValue)> = Vec::new();
        o.push((copy_text("traceId"), JsonValue::Text(self.trace_id.clone())));
        o.push((copy_text("spanId"), JsonValue::Text(self.span_id.clone())));
        match &self.parent_span_id {
            Some(p) => {
                o.push((copy_text("parentSpanId"), JsonValue::Text(p.clone())));
            },
            None => {},
        }
        o.push((copy_text("name"), JsonValue::Text(self.name.clone())));
        o.push((copy_text("startTimeUnixNano"), JsonValue::Number(self.start_time_unix_nano)));
        o.push((copy_text("endTimeUnixNano"), JsonValue::Number(self.end_time_unix_nano)));
        let status = match self.status {
            OtlpStatus::Unset => "STATUS_UNSET",
            OtlpStatus::Success => "STATUS_OK",
            OtlpStatus::Error => "STATUS_ERROR",
        };
        o.push((copy_text("status"), JsonValue::Text(copy_text(status))));
        o.push((copy_text("attributes"), attribute_object(&self.attributes)));
        JsonValue::Object(o)
    }

    #[verifier::spinoff_prover]
    #[verifier::rlimit(40)]
    fn push_binary(&self, out: &mut Vec<u8>)
        ensures
            final(out)@ == old(out)@ + otlp_span_bytes(self@),
    {
        push_id(out, self.trace_id.as_str());
        push_id(out, self.span_id.as_str());
        match &self.parent_span_id {
            Some(p) => {
                out.push(1);
                push_id(out, p.as_str());
            },
            None => {
                out.push(0);
            },
        }
        push_long_text(out, self.name.as_str());
        push_be(out, self.start_time_unix_nano, 8);
        push_be(out, self.end_time_unix_nano, 8);
        let code: u8 = match self.status {
            OtlpStatus::Unset => 0,
            OtlpStatus::Success => 1,
            OtlpStatus::Error => 2,
        };
        out.push(code);
        push_counted_attributes(out, &self.attributes);
        assert(out@ =~= old(out)@ + otlp_span_bytes(self@));
    }
}

impl OtlpExportRequest {
    /// An empty request.
    pub fn new() -> (r: Self)
        ensures
            r.resource_attributes@.len() == 0,
            r.spans@.len() == 0,
    {
        OtlpExportRequest { resource_attributes: Vec::new(), spans: Vec::new() }
    }

    /// Adds an attribute that applies to all spans.
    pub fn with_resource_attribute(self, key: &str, value: &str) -> (r: Self)
        ensures
            attributes_view(r.resource_attributes@) == attributes_view(
                self.resource_attributes@,
            ).push((key@, value@)),
            r.spans == self.spans,
    {
        let mut req = self;
        req.resource_attributes.push((copy_text(key), copy_text(value)));
        assert(attributes_view(req.resource_attributes@) =~= attributes_view(
            self.resource_attributes@,
        ).push((key@, value@)));
        req
    }

    pub fn with_span(self, span: OtlpSpan) -> (r: Self)
        ensures
            r.resource_attributes == self.resource_attributes,
            r.spans@ == self.spans@.push(span),
    {
        let mut req = self;
        req.spans.push(span);
        req
    }

    /// The export request of a bundle: what is said of the bundle applies to
    /// all spans, and each span is converted.
    pub fn from_bundle(bundle: &TelemetryBundle) -> (r: Self)
        ensures
            attributes_view(r.resource_attributes@) == seq![
                ("bundle.sequence_number"@, decimal_of(bundle.sequence_number as nat)),
                ("bundle.timestamp"@, signed_decimal_of(bundle.batch_timestamp as int)),
                ("bundle.compression"@, compression_name(bundle.compression_type)),
            ],
            otlp_views(r.spans@) == bundle@.spans.map_values(|s: SpanView| otlp_of(s)),
    {
        let mut sequence_number = String::new();
        push_decimal(&mut sequence_number, bundle.sequence_number);
        assert(sequence_number@ =~= decimal_of(bundle.sequence_number as nat));
        let timestamp = signed_text(bundle.batch_timestamp);
        let compression = match bundle.compression_type {
            CompressionType::Uncompressed => "None",
            CompressionType::Zstd => "Zstd",
            CompressionType::Gzip => "Gzip",
        };
        let mut request = Self::new().with_resource_attribute(
            "bundle.sequence_number",
            sequence_number.as_str(),
        ).with_resource_attribute("bundle.timestamp", timestamp.as_str()).with_resource_attribute(
            "bundle.compression",
            compression,
        );
        let ghost attrs = seq![
            ("bundle.sequence_number"@, decimal_of(bundle.sequence_number as nat)),
            ("bundle.timestamp"@, signed_decimal_of(bundle.batch_timestamp as int)),
            ("bundle.compression"@, compression_name(bundle.compression_type)),
        ];
        assert(attributes_view(request.resource_attributes@) =~= attrs);
        let ghost all = bundle@.spans.map_values(|s: SpanView| otlp_of(s));
        let mut i: usize = 0;
        while i < bundle.spans.len()
            invariant
                i <= bundle.spans@.len(),
                all == bundle@.spans.map_values(|s: SpanView| otlp_of(s)),
                attributes_view(request.resource_attributes@) == attrs,
                otlp_views(request.spans@) == all.subrange(0, i as int),
            decreases bundle.spans@.len() - i,
        {
            let ghost before = request.spans@;
            request = request.with_span(OtlpSpan::from_compact(&bundle.spans[i]));
            proof {
                assert(otlp_views(request.spans@) =~= otlp_views(before).push(
                    otlp_of(bundle.spans@[i as int]@),
                ));
                assert(all[i as int] == otlp_of(bundle.spans@[i as int]@));
                assert(otlp_views(request.spans@) =~= all.subrange(0, i + 1));
            }
            i = i + 1;
        }
        assert(all.subrange(0, i as int) =~= all);
        request
    }

    /// The JSON form of this request.
    pub fn to_json(&self) -> (r: JsonValue)
        ensures
            is_request_json(
                r,
                attributes_view(self.resource_attributes@),
                otlp_views(self.spans@),
            ),
    {
        let mut list: Vec<JsonValue> = Vec::new();
        let ghost all = otlp_views(self.spans@);
        let mut i: usize = 0;
        while i < self.spans.len()
            invariant
                i <= self.spans@.len(),
                all == otlp_views(self.spans@),
                list@.len() == i,
                forall|x: int| 0 <= x < i ==> is_span_json(#[trigger] list@[x], all[x]),
            decreases self.spans@.len() - i,
        {
            list.push(self.spans[i].to_json());
            i = i + 1;
        }
        let spans = JsonValue::List(list);
        assert(is_span_list(spans, all));
        let mut scope: Vec<(String, JsonValue)> = Vec::new();
        scope.push((copy_text("spans"), spans));
        let mut scopes: Vec<JsonValue> = Vec::new();
        scopes.push(JsonValue::Object(scope));
        let mut resource: Vec<(String, JsonValue)> = Vec::new();
        resource.push((copy_text("resource"), attribute_object(&self.resource_attributes)));
        resource.push((copy_text("scopeSpans"), JsonValue::List(scopes)));
        let mut resources: Vec<JsonValue> = Vec::new();
        resources.push(JsonValue::Object(resource));
        let mut o: Vec<(String, JsonValue)> = Vec::new();
        o.push((copy_text("resource"), attribute_object(&self.resource_attributes)));
        o.push((copy_text("resourceSpans"), JsonValue::List(resources)));
        JsonValue::Object(o)
    }

    /// The binary form of this request.
    pub fn to_binary(&self) -> (r: Bytes)
        ensures
            bytes_content(r) == counted_attributes(attributes_view(self.resource_attributes@))
                + be_bytes(self.spans@.len(), 4) + otlp_spans_bytes(otlp_views(self.spans@)),
    {
        let mut buf: Vec<u8> = Vec::new();
        push_counted_attributes(&mut buf, &self.resource_attributes);
        push_be(&mut buf, self.spans.len() as u64, 4);
        let ghost head = buf@;
        let ghost all = otlp_views(self.spans@);
        let mut i: usize = 0;
        assert(all.subrange(0, 0) =~= Seq::empty());
        assert(head + otlp_spans_bytes(all.subrange(0, 0)) =~= head);
        while i < self.spans.len()
            invariant
                i <= self.spans@.len(),
                all == otlp_views(self.spans@),
                buf@ == head + otlp_spans_bytes(all.subrange(0, i as int)),
            decreases self.spans@.len() - i,
        {
            self.spans[i].push_binary(&mut buf);
            proof {
                let t = all.subrange(0, i + 1);
                assert(t.drop_last() =~= all.subrange(0, i as int));
                assert(t.last() == self.spans@[i as int]@);
                assert(buf@ =~= head + otlp_spans_bytes(t));
            }
            i = i + 1;
        }
        assert(all.subrange(0, i as int) =~= all);
        assert(head =~= counted_attributes(attributes_view(self.resource_attributes@)) + be_bytes(
            self.spans@.len(),
            4,
        ));
        bytes_from_vec(buf)
    }
}

impl Default for OtlpExportRequest {
    fn default() -> (r: Self)
        ensures
            r.resource_attributes@.len() == 0,
            r.spans@.len() == 0,
    {
        Self::new()
    }
}

/// The conversion of a span keeps its ids, in hexadecimal, its name, both of its points
/// in time and its own attributes in their order, behind those that carry its two times,
/// its sensor and its spread. It started and ended when the compact span did.
pub proof fn conversion_keeps_the_span(s: SpanView)
    ensures
        ({
            let o = otlp_of(s);
            &&& hex_decoded(o.trace_id) == Some(s.trace_id)
            &&& hex_decoded(o.span_id) == Some(s.span_id)
            &&& o.trace_id.len() == 2 * s.trace_id.len()
            &&& o.span_id.len() == 2 * s.span_id.len()
            &&& o.parent_span_id is None <==> s.parent_span_id == Seq::new(8, |i: int| 0u8)
            &&& o.parent_span_id matches Some(p) ==> hex_decoded(p) == Some(s.parent_span_id)
            &&& o.name == s.name
            &&& o.start_time_unix_nano == s.start_time_unix_nano
            &&& o.end_time_unix_nano == s.end_time_unix_nano
            &&& o.end_time_unix_nano - o.start_time_unix_nano == s.end_time_unix_nano
                - s.start_time_unix_nano
            &&& o.attributes.len() == 4 + s.attributes.len()
            &&& o.attributes.skip(4) == s.attributes
            &&& o.attributes[0].0 == "t_event"@ && parsed_i64(o.attributes[0].1) == Some(
                s.t_event as int,
            )
            &&& o.attributes[1].0 == "t_system"@ && parsed_i64(o.attributes[1].1) == Some(
                s.t_system as int,
            )
            &&& o.attributes[2] == ("sensor_id"@, s.sensor_id)
            &&& o.attributes[3].0 == "spread_ms"@
            &&& i64::MIN <= s.t_system - s.t_event <= i64::MAX ==> parsed_i64(o.attributes[3].1)
                == Some(s.t_system - s.t_event)
            &&& o.status == OtlpStatus::Success <==> s.status == SpanStatus::Success
            &&& o.status == OtlpStatus::Error <==> s.status == SpanStatus::Error
        }),
{
    hex_roundtrip(s.trace_id);
    hex_roundtrip(s.span_id);
    hex_roundtrip(s.parent_span_id);
    signed_decimal_roundtrip(s.t_event);
    signed_decimal_roundtrip(s.t_system);
    if i64::MIN <= s.t_system - s.t_event <= i64::MAX {
        signed_decimal_roundtrip((s.t_system - s.t_event) as i64);
    }
    assert(otlp_of(s).attributes.skip(4) =~= s.attributes);
}

/// The conversion loses nothing: two spans with the same OTLP form are the same.
pub proof fn conversion_loses_nothing(a: SpanView, b: SpanView)
    requires
        otlp_of(a) == otlp_of(b),
    ensures
        a.trace_id == b.trace_id,
        a.span_id == b.span_id,
        a.parent_span_id == b.parent_span_id,
        a.name == b.name,
        a.start_time_unix_nano == b.start_time_unix_nano,
        a.end_time_unix_nano == b.end_time_unix_nano,
        a.t_event == b.t_event,
        a.t_system == b.t_system,
        a.sensor_id == b.sensor_id,
        a.attributes == b.attributes,
        a.status == b.status,
{
    conversion_keeps_the_span(a);
    conversion_keeps_the_span(b);
}

/// Whether an object has a member of a name with a value.
pub open spec fn has_member(j: JsonValue, name: Seq<char>, v: JsonValue) -> bool {
    j is Object && exists|i: int|
        0 <= i < j->Object_0@.len() && (#[trigger] j->Object_0@[i]).0@ == name
            && j->Object_0@[i].1 == v
}

/// Whether an object has a member of a name that is a text.
pub open spec fn has_text(j: JsonValue, name: Seq<char>, s: Seq<char>) -> bool {
    j is Object && exists|i: int|
        0 <= i < j->Object_0@.len() && (#[trigger] j->Object_0@[i]).0@ == name && is_text(
            j->Object_0@[i].1,
            s,
        )
}

/// The JSON form of a converted span says under their names what the compact span says:
/// its ids, its name, when it started and ended, and how it ended.
pub proof fn json_says_what_the_span_says(s: SpanView, j: JsonValue)
    requires
        is_span_json(j, otlp_of(s)),
    ensures
        has_text(j, "traceId"@, hex_of(s.trace_id)),
        has_text(j, "spanId"@, hex_of(s.span_id)),
        s.parent_span_id != Seq::new(8, |i: int| 0u8) ==> has_text(
            j,
            "parentSpanId"@,
            hex_of(s.parent_span_id),
        ),
        has_text(j, "name"@, s.name),
        has_member(j, "startTimeUnixNano"@, JsonValue::Number(s.start_time_unix_nano)),
        has_member(j, "endTimeUnixNano"@, JsonValue::Number(s.end_time_unix_nano)),
        s.status == SpanStatus::Success ==> has_text(j, "status"@, "STATUS_OK"@),
        s.status == SpanStatus::Error ==> has_text(j, "status"@, "STATUS_ERROR"@),
        j->Object_0@.len() == if s.parent_span_id == Seq::new(8, |i: int| 0u8) {
            7int
        } else {
            8int
        },
{
    let o = j->Object_0@;
    let k: int = if otlp_of(s).parent_span_id is Some {
        1
    } else {
        0
    };
    assert(o[0].0@ == "traceId"@);
    assert(o[1].0@ == "spanId"@);
    assert(k == 1 ==> o[2].0@ == "parentSpanId"@);
    assert(o[2 + k].0@ == "name"@);
    assert(o[3 + k].0@ == "startTimeUnixNano"@);
    assert(o[4 + k].0@ == "endTimeUnixNano"@);
    assert(o[5 + k].0@ == "status"@);
}

/// In the JSON form of a list of attributes every key of the list has its last value, and
/// there is nothing else.
pub proof fn json_attributes_are_the_last(a: AttributesView, j: JsonValue, i: int)
    requires
        is_attribute_object(j, a),
        0 <= i < a.len(),
        forall|k: int| i < k < a.len() ==> (#[trigger] a[k]).0 != a[i].0,
    ensures
        has_text(j, a[i].0, a[i].1),
        forall|k: int|
            0 <= k < j->Object_0@.len() ==> exists|n: int|
                0 <= n < a.len() && (#[trigger] a[n]).0 == (#[trigger] j->Object_0@[k]).0@,
{
    let o = j->Object_0@;
    let m = attribute_map(a);
    lemma_last_value(a, i);
    let x = choose|x: int| 0 <= x < o.len() && (#[trigger] o[x]).0@ == a[i].0;
    assert(is_text(o[x].1, m[o[x].0@]));
    assert forall|k: int| 0 <= k < o.len() implies exists|n: int|
        0 <= n < a.len() && (#[trigger] a[n]).0 == (#[trigger] o[k]).0@ by {
        lemma_key_is_listed(a, o[k].0@);
    }
}

proof fn lemma_last_value(a: AttributesView, i: int)
    requires
        0 <= i < a.len(),
        forall|k: int| i < k < a.len() ==> (#[trigger] a[k]).0 != a[i].0,
    ensures
        attribute_map(a).contains_key(a[i].0),
        attribute_map(a)[a[i].0] == a[i].1,
    decreases a.len(),
{
    if i < a.len() - 1 {
        let b = a.drop_last();
        assert forall|k: int| i < k < b.len() implies (#[trigger] b[k]).0 != b[i].0 by {
            assert(b[k] == a[k]);
        }
        lemma_last_value(b, i);
        assert(a[a.len() - 1].0 != a[i].0);
    }
}

proof fn lemma_key_is_listed(a: AttributesView, key: Seq<char>)
    requires
        attribute_map(a).contains_key(key),
    ensures
        exists|n: int| 0 <= n < a.len() && (#[trigger] a[n]).0 == key,
    decreases a.len(),
{
    if a.len() > 0 {
        if a.last().0 == key {
            assert(a[a.len() - 1].0 == key);
        } else {
            lemma_key_is_listed(a.drop_last(), key);
            let n = choose|n: int|
                0 <= n < a.drop_last().len() && (#[trigger] a.drop_last()[n]).0 == key;
            assert(a[n].0 == key);
        }
    }
}

/// The binary form of a converted span holds, one after the other, its 16 bytes of trace
/// id, its 8 bytes of span id, a 1 and the parent's id or a 0, the name behind its length,
/// the start and the end in 8 bytes each, a 1 or a 2 for how it ended, and all attributes
/// behind their number.
pub proof fn binary_holds_the_span(s: SpanView)
    requires
        s.trace_id.len() == 16,
        s.span_id.len() == 8,
        s.parent_span_id.len() == 8,
        encode_utf8(s.name).len() <= u32::MAX,
        s.attributes.len() + 4 <= u32::MAX,
    ensures
        ({
            let b = otlp_span_bytes(otlp_of(s));
            let p: int = if s.parent_span_id == Seq::new(8, |i: int| 0u8) {
                25
            } else {
                33
            };
            let n = encode_utf8(s.name).len() as int;
            &&& b.subrange(0, 16) == s.trace_id
            &&& b.subrange(16, 24) == s.span_id
            &&& b[24] == if p == 33 {
                1u8
            } else {
                0u8
            }
            &&& p == 33 ==> b.subrange(25, 33) == s.parent_span_id
            &&& be_value(b.subrange(p, p + 4)) == n
            &&& b.subrange(p + 4, p + 4 + n) == encode_utf8(s.name)
            &&& be_value(b.subrange(p + 4 + n, p + 12 + n)) == s.start_time_unix_nano
            &&& be_value(b.subrange(p + 12 + n, p + 20 + n)) == s.end_time_unix_nano
            &&& b[p + 20 + n] == if s.status == SpanStatus::Success {
                1u8
            } else {
                2u8
            }
            &&& be_value(b.subrange(p + 21 + n, p + 25 + n)) == 4 + s.attributes.len()
            &&& b.skip(p + 25 + n) == long_attribute_bytes(otlp_of(s).attributes)
        }),
{
    let o = otlp_of(s);
    let b = otlp_span_bytes(o);
    let p: int = if s.parent_span_id == Seq::new(8, |i: int| 0u8) {
        25
    } else {
        33
    };
    let name = encode_utf8(s.name);
    let n = name.len() as int;
    hex_roundtrip(s.trace_id);
    hex_roundtrip(s.span_id);
    hex_roundtrip(s.parent_span_id);
    lemma_pow256();
    lemma_be_value_of_bytes(name.len(), 4);
    lemma_be_value_of_bytes(s.start_time_unix_nano as nat, 8);
    lemma_be_value_of_bytes(s.end_time_unix_nano as nat, 8);
    lemma_be_value_of_bytes(o.attributes.len(), 4);
    assert(b.subrange(0, 16) =~= s.trace_id);
    assert(b.subrange(16, 24) =~= s.span_id);
    if p == 33 {
        assert(b.subrange(25, 33) =~= s.parent_span_id);
    }
    assert(b.subrange(p, p + 4) =~= be_bytes(name.len(), 4));
    assert(b.subrange(p + 4, p + 4 + n) =~= name);
    assert(b.subrange(p + 4 + n, p + 12 + n) =~= be_bytes(s.start_time_unix_nano as nat, 8));
    assert(b.subrange(p + 12 + n, p + 20 + n) =~= be_bytes(s.end_time_unix_nano as nat, 8));
    assert(b.subrange(p + 21 + n, p + 25 + n) =~= be_bytes(o.attributes.len(), 4));
    assert(b.skip(p + 25 + n) =~= long_attribute_bytes(o.attributes));
}

/// Attributes stand in the binary form one after the other, each as its key and its
/// value, each of them behind its length in four bytes.
pub proof fn binary_holds_every_attribute(a: AttributesView, key: Seq<char>, value: Seq<char>)
    requires
        encode_utf8(key).len() <= u32::MAX,
        encode_utf8(value).len() <= u32::MAX,
    ensures
        long_attribute_bytes(Seq::empty()) == Seq::<u8>::empty(),
        ({
            let before = long_attribute_bytes(a);
            let b = long_attribute_bytes(a.push((key, value)));
            let i = before.len() as int;
            let k = encode_utf8(key).len() as int;
            let v = encode_utf8(value).len() as int;
            &&& b.len() == i + 8 + k + v
            &&& b.subrange(0, i) == before
            &&& be_value(b.subrange(i, i + 4)) == k
            &&& b.subrange(i + 4, i + 4 + k) == encode_utf8(key)
            &&& be_value(b.subrange(i + 4 + k, i + 8 + k)) == v
            &&& b.subrange(i + 8 + k, i + 8 + k + v) == encode_utf8(value)
        }),
{
    let c = a.push((key, value));
    assert(c.drop_last() =~= a);
    let before = long_attribute_bytes(a);
    let b = long_attribute_bytes(c);
    let i = before.len() as int;
    let k = encode_utf8(key).len() as int;
    let v = encode_utf8(value).len() as int;
    lemma_pow256();
    lemma_be_value_of_bytes(k as nat, 4);
    lemma_be_value_of_bytes(v as nat, 4);
    assert(b.subrange(0, i) =~= before);
    assert(b.subrange(i, i + 4) =~= be_bytes(k as nat, 4));
    assert(b.subrange(i + 4, i + 4 + k) =~= encode_utf8(key));
    assert(b.subrange(i + 4 + k, i + 8 + k) =~= be_bytes(v as nat, 4));
    assert(b.subrange(i + 8 + k, i + 8 + k + v) =~= encode_utf8(value));
}

/// The spans of a request stand in its binary form one after the other, each whole.
pub proof fn binary_holds_every_span(s: Seq<OtlpSpanView>, x: OtlpSpanView)
    ensures
        otlp_spans_bytes(Seq::empty()) == Seq::<u8>::empty(),
        otlp_spans_bytes(s.push(x)) == otlp_spans_bytes(s) + otlp_span_bytes(x),
{
    assert(s.push(x).drop_last() =~= s);
}

/// The JSON form of an export request lists the JSON form of every span, in their order,
/// and gives the attributes of the resource.
pub proof fn requests_list_every_span(
    j: JsonValue,
    attributes: AttributesView,
    spans: Seq<OtlpSpanView>,
)
    requires
        is_request_json(j, attributes, spans),
    ensures
        ({
            let listed = j->Object_0@[1].1->List_0@[0]->Object_0@[1].1->List_0@[0]->Object_0@[0].1;
            &&& j->Object_0@[0].0@ == "resource"@
            &&& j->Object_0@[1].0@ == "resourceSpans"@
            &&& is_attribute_object(j->Object_0@[0].1, attributes)
            &&& listed->List_0@.len() == spans.len()
            &&& forall|i: int|
                0 <= i < spans.len() ==> is_span_json(#[trigger] listed->List_0@[i], spans[i])
        }),
{
}

} // verus!
