use float_protocols::otel_bundle::{decode_spans, CompressionType, TelemetryBundle};
use float_protocols::otel_compact_span::{CompactSpan, SpanStatus};
use float_protocols::otel_converter::{JsonValue, OtlpExportRequest, OtlpSpan, OtlpStatus};
use float_protocols::otel_reconciler::BitemporalReconciler;

#[test]
fn test_spread_calculation() {
    let span = CompactSpan::new([1u8; 16], [2u8; 8], "sensor.read", "sensor-001")
        .with_t_event(1000)
        .with_t_system(1500);

    assert_eq!(span.spread_ms(), 500);
}

#[test]
fn test_encode_decode_roundtrip() {
    let span = CompactSpan::new([1u8; 16], [2u8; 8], "sensor.read", "sensor-001")
        .with_t_event(1000)
        .with_t_system(1500)
        .with_attribute("temperature", "25.5")
        .with_status(SpanStatus::Success);

    let encoded = span.encode();
    let decoded = CompactSpan::decode(&encoded).unwrap();

    assert_eq!(decoded.trace_id, span.trace_id);
    assert_eq!(decoded.span_id, span.span_id);
    assert_eq!(decoded.name, span.name);
    assert_eq!(decoded.t_event, span.t_event);
    assert_eq!(decoded.t_system, span.t_system);
    assert_eq!(decoded.sensor_id, span.sensor_id);
    assert_eq!(decoded.attributes, span.attributes);
    assert_eq!(decoded.status, span.status);
}

#[test]
fn spans_report_their_size_and_end() {
    let mut span = CompactSpan::new([1u8; 16], [2u8; 8], "a", "b")
        .with_parent([3u8; 8])
        .with_attribute("key", "value")
        .with_status(SpanStatus::Error);
    assert_eq!(span.encoded_size(), span.encode().len());
    span.complete_at(77);
    assert_eq!(span.end_time_unix_nano, 77);
    let decoded = CompactSpan::decode(&span.encode_vec()).unwrap();
    assert_eq!(decoded.parent_span_id, [3u8; 8]);
    assert_eq!(decoded.status, SpanStatus::Error);
}

#[test]
fn short_spans_are_refused() {
    let full = CompactSpan::new([1u8; 16], [2u8; 8], "name", "sensor").encode_vec();
    for n in 0..full.len() {
        assert!(CompactSpan::decode(&full[..n]).is_err());
    }
    assert_eq!(
        CompactSpan::decode(&full[..10]).unwrap_err(),
        "Insufficient data for compact span"
    );
}

#[test]
fn test_bundle_encode_decode() {
    let mut bundle = TelemetryBundle::new(1);

    let span1 = CompactSpan::new([1u8; 16], [2u8; 8], "sensor.read", "sensor-001");
    let span2 = CompactSpan::new([3u8; 16], [4u8; 8], "sensor.read", "sensor-002");

    bundle.add_span(span1);
    bundle.add_span(span2);

    let encoded = bundle.encode();
    let decoded = TelemetryBundle::decode(&encoded).unwrap();

    assert_eq!(decoded.sequence_number, bundle.sequence_number);
    assert_eq!(decoded.span_count(), 2);
}

#[test]
fn test_bundle_zstd_compression() {
    let mut bundle = TelemetryBundle::new(1).with_compression(CompressionType::Zstd);

    for i in 0..10 {
        let span = CompactSpan::new([i as u8; 16], [i as u8; 8], "sensor.read", "sensor-001")
            .with_attribute("temperature", &format!("{}", i * 10));
        bundle.add_span(span);
    }

    bundle.compress(3).unwrap();

    let encoded = bundle.encode();
    let decoded = TelemetryBundle::decode(&encoded).unwrap();

    assert_eq!(decoded.span_count(), 10);
    assert!(decoded.compressed_data.is_some());
}

#[test]
fn gzip_bundles_are_read_back() {
    let mut bundle = TelemetryBundle::new(9).with_compression(CompressionType::Gzip);
    for i in 0..20u8 {
        bundle.add_span(CompactSpan::new([i; 16], [i; 8], "sensor.read", "sensor-001"));
    }
    bundle.compress(6).unwrap();
    let stream = bundle.compressed_data.clone().unwrap();
    assert_eq!(&stream[..2], &[0x1f, 0x8b]);
    let decoded = TelemetryBundle::decode(&bundle.encode()).unwrap();
    assert_eq!(decoded.span_count(), 20);
    assert_eq!(decoded.spans[7].trace_id, [7u8; 16]);
}

#[test]
fn zstd_shrinks_what_repeats() {
    let mut bundle = TelemetryBundle::new(9).with_compression(CompressionType::Zstd);
    for _ in 0..50 {
        bundle.add_span(CompactSpan::new([1; 16], [1; 8], "sensor.read", "sensor-001"));
    }
    let before = bundle.encoded_size();
    bundle.compress(3).unwrap();
    assert!(bundle.encoded_size() < before);
    let packed = bundle.compressed_data.clone().unwrap();
    assert_eq!(&packed[..4], &[0x28, 0xb5, 0x2f, 0xfd]);
}

#[test]
fn spans_and_bundles_are_made_at_a_time() {
    let span = CompactSpan::new_at([1; 16], [2; 8], "a", "b", 5_000_000, 5);
    assert_eq!((span.start_time_unix_nano, span.end_time_unix_nano), (5_000_000, 5_000_000));
    assert_eq!((span.t_event, span.t_system), (5, 5));
    assert_eq!((span.name.as_str(), span.sensor_id.as_str()), ("a", "b"));
    assert_eq!(span.parent_span_id, [0; 8]);
    let bundle = TelemetryBundle::new_at(3, 5);
    assert_eq!((bundle.sequence_number, bundle.batch_timestamp), (3, 5));
    assert_eq!(bundle.compression_type, CompressionType::Uncompressed);
    assert!(bundle.spans.is_empty() && bundle.compressed_data.is_none());
}

#[test]
fn uncompressed_bundles_have_no_compressed_form() {
    let mut bytes = vec![0, 0, 0, 0, 0, 0, 0, 7, 0, 0, 0, 0, 0, 0, 0, 9, 0, 1, 0, 0, 0, 0];
    bytes.extend([0xFF; 4]);
    let decoded = TelemetryBundle::decode(&bytes).unwrap();
    assert_eq!(decoded.sequence_number, 7);
    assert_eq!(decoded.span_count(), 0);
    assert!(decoded.compressed_data.is_none());
}

#[test]
fn bad_bundles_are_refused() {
    assert!(TelemetryBundle::decode(&[]).is_err());
    let mut bundle = TelemetryBundle::new(1).with_compression(CompressionType::Zstd);
    bundle.add_span(CompactSpan::new([1; 16], [1; 8], "a", "b"));
    bundle.compress(3).unwrap();
    let mut bytes = bundle.encode().to_vec();
    let last = bytes.len() - 1;
    bytes.truncate(last);
    assert!(TelemetryBundle::decode(&bytes).is_err());
    assert!(decode_spans(&[0, 0, 0, 9, 1]).is_err());
}

#[test]
fn test_compact_to_otlp_conversion() {
    let compact = CompactSpan::new([1u8; 16], [2u8; 8], "sensor.read", "sensor-001")
        .with_t_event(1000)
        .with_t_system(1500)
        .with_attribute("temperature", "25.5");

    let otlp = OtlpSpan::from_compact(&compact);

    assert_eq!(otlp.trace_id, hex::encode([1u8; 16]));
    assert_eq!(otlp.span_id, hex::encode([2u8; 8]));
    assert_eq!(otlp.name, "sensor.read");

    // Check bi-temporal attributes
    let attrs: std::collections::HashMap<_, _> = otlp.attributes.iter().cloned().collect();
    assert_eq!(attrs.get("t_event"), Some(&"1000".to_string()));
    assert_eq!(attrs.get("t_system"), Some(&"1500".to_string()));
    assert_eq!(attrs.get("spread_ms"), Some(&"500".to_string()));
}

#[test]
fn test_bundle_to_export_request() {
    let mut bundle = TelemetryBundle::new(1);
    bundle.add_span(CompactSpan::new([1u8; 16], [2u8; 8], "sensor.read", "sensor-001"));

    let request = OtlpExportRequest::from_bundle(&bundle);

    assert_eq!(request.spans.len(), 1);
    assert!(request
        .resource_attributes
        .iter()
        .any(|(k, _)| k == "bundle.sequence_number"));
}

#[test]
fn test_otlp_json_serialization() {
    let compact = CompactSpan::new([1u8; 16], [2u8; 8], "sensor.read", "sensor-001");
    let otlp = OtlpSpan::from_compact(&compact);

    let json = otlp.to_json();
    assert!(matches!(json, JsonValue::Object(_)));
    assert!(matches!(json.get("name"), Some(JsonValue::Text(s)) if s == "sensor.read"));
}

#[test]
fn spans_without_a_parent_name_none() {
    let root = OtlpSpan::from_compact(&CompactSpan::new([1; 16], [2; 8], "a", "b"));
    assert_eq!(root.parent_span_id, None);
    let child = OtlpSpan::from_compact(
        &CompactSpan::new([1; 16], [2; 8], "a", "b")
            .with_parent([0xAB; 8])
            .with_status(SpanStatus::Error),
    );
    assert_eq!(child.parent_span_id.as_deref(), Some("abababababababab"));
    assert!(matches!(child.status, OtlpStatus::Error));
}

#[test]
fn export_requests_have_a_binary_form() {
    let empty = OtlpExportRequest::new().to_binary();
    let one = OtlpExportRequest::new()
        .with_resource_attribute("k", "v")
        .with_span(OtlpSpan::from_compact(&CompactSpan::new(
            [1; 16], [2; 8], "a", "b",
        )))
        .to_binary();
    assert!(one.len() > empty.len());
    assert!(matches!(
        OtlpExportRequest::new().to_json(),
        JsonValue::Object(_)
    ));
}

#[test]
fn test_ingest_and_query() {
    let mut reconciler = BitemporalReconciler::new();

    let compact = CompactSpan::new([1u8; 16], [2u8; 8], "sensor.read", "sensor-001")
        .with_t_event(1000)
        .with_t_system(1500);

    let otlp = OtlpSpan::from_compact(&compact);
    reconciler.ingest(otlp);

    assert_eq!(reconciler.record_count(), 1);

    let results = reconciler.query_valid_time(500, 2000);
    assert_eq!(results.len(), 1);
}

#[test]
fn test_spread_stats() {
    let mut reconciler = BitemporalReconciler::new();

    for i in 0..10i64 {
        let compact = CompactSpan::new([i as u8; 16], [i as u8; 8], "sensor.read", "sensor-001")
            .with_t_event(i * 100)
            .with_t_system(i * 100 + 500);

        let otlp = OtlpSpan::from_compact(&compact);
        reconciler.ingest(otlp);
    }

    let stats = reconciler.spread_stats(0, 10000);
    assert_eq!(stats.total_records, 10);
    assert_eq!(stats.positive_spread, 10);
    assert_eq!(stats.sum_spread_ms as f64 / stats.total_records as f64, 500.0);
}

#[test]
fn test_system_belief_at() {
    let mut reconciler = BitemporalReconciler::new();

    let compact1 = CompactSpan::new([1u8; 16], [2u8; 8], "sensor.read", "sensor-001")
        .with_t_event(1000)
        .with_t_system(1500);

    let compact2 = CompactSpan::new([1u8; 16], [2u8; 8], "sensor.read", "sensor-001")
        .with_t_event(1000) // Same event
        .with_t_system(2000); // Later correction

    let otlp1 = OtlpSpan::from_compact(&compact1);
    let otlp2 = OtlpSpan::from_compact(&compact2);

    reconciler.ingest(otlp1);
    reconciler.ingest(otlp2);

    // At time 1800, we should believe the first version
    let belief = reconciler.system_belief_at(1800);
    assert_eq!(belief.len(), 1);
}

#[test]
fn histories_hold_all_that_was_added() {
    let mut reconciler = BitemporalReconciler::new();
    let span = |id: u8, t: i64| {
        OtlpSpan::from_compact(
            &CompactSpan::new([1; 16], [id; 8], "sensor.read", "sensor-001")
                .with_t_event(t)
                .with_t_system(t),
        )
    };
    let trace = hex::encode([1u8; 16]);
    let times = |r: &BitemporalReconciler, id: u8| -> Vec<i64> {
        r.entity_history(&trace, &hex::encode([id; 8])).iter().map(|x| x.t_event).collect()
    };
    reconciler.ingest(span(2, 5));
    reconciler.clear();
    reconciler.ingest(span(2, 30));
    reconciler.ingest(span(3, 40));
    reconciler.retroactive_correction(span(2, 50), 10);
    reconciler.ingest(span(2, 20));
    assert_eq!(times(&reconciler, 2), vec![30, 10, 20]);
    assert_eq!(times(&reconciler, 3), vec![40]);
    assert_eq!(times(&reconciler, 4), vec![]);
    assert_eq!(reconciler.record_count(), 4);
}

#[test]
fn corrections_keep_the_history() {
    let mut reconciler = BitemporalReconciler::new();
    let span = |t: i64| {
        OtlpSpan::from_compact(
            &CompactSpan::new([1; 16], [2; 8], "sensor.read", "sensor-001")
                .with_t_event(1000)
                .with_t_system(t),
        )
    };
    reconciler.ingest(span(1500));
    reconciler.retroactive_correction(span(2500), 900);
    let trace = hex::encode([1u8; 16]);
    let id = hex::encode([2u8; 8]);
    assert_eq!(reconciler.entity_history(&trace, &id).len(), 2);
    assert_eq!(reconciler.query_transaction_time(0, 2000).len(), 1);
    reconciler.clear();
    assert_eq!(reconciler.record_count(), 0);
}
