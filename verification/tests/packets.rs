use bytes::Bytes;
use float_protocols::asts_protobuf::{ASTSProtobufMessage, ZeroCopyTranslator};
use float_protocols::hfvhf::{HFVHFMessage, ModulationType};
use float_protocols::inmarsat_c::{InmarsatCMessage, ParseError, MAGIC_NUMBER};
use float_protocols::iridium_sbd::{crc16_ccitt, IridiumSBDMessage};
use float_protocols::nidd::{CoverageEnhancement, DelayClass, NIDDMessage, PduType, QosPriority, ReliabilityClass};
use float_protocols::samsara::SamsaraMessage;
use float_protocols::vsat::VSATMessage;

#[test]
fn test_zero_copy_translation() {
    let iridium_data: Vec<u8> = vec![
        0x01, // protocol
        0x00, 0x05, // length = 5
        0x48, 0x65, 0x6c, 0x6c, 0x6f, // "Hello"
        0x00, 0x00, // checksum
    ];

    let iridium_msg = IridiumSBDMessage::parse(&iridium_data).unwrap();
    let mut translator = ZeroCopyTranslator::new();
    let mut output_buffer = [0u8; 2048];

    let size = translator.translate(&iridium_msg, &mut output_buffer).unwrap();
    assert!(size > 0);
    assert_eq!(output_buffer[0], 0x01); // message type
}

#[test]
fn test_payload_too_large() {
    let mut asts_msg = ASTSProtobufMessage::new(0x01, 0);
    let large_payload = vec![0u8; 1025]; // Too large
    assert!(!asts_msg.set_payload(&large_payload));
}

#[test]
fn asts_frame_is_exact() {
    let mut msg = ASTSProtobufMessage::new(0x07, 0x01020304);
    assert!(msg.set_payload(&[9, 8, 7]));
    assert_eq!(msg.payload_slice(), &[9, 8, 7]);
    assert_eq!(msg.total_size(), 10);
    let mut buffer = [0xAAu8; 12];
    assert_eq!(msg.encode_to_buffer(&mut buffer), Some(10));
    assert_eq!(buffer, [0x07, 1, 2, 3, 4, 0, 3, 9, 8, 7, 0xAA, 0xAA]);
    let mut short = [0u8; 9];
    assert_eq!(msg.encode_to_buffer(&mut short), None);
    assert_eq!(short, [0u8; 9]);
}

#[test]
fn sequence_moves_on_with_every_translation() {
    let msg = IridiumSBDMessage::parse(&[5, 0, 1, 42]).unwrap();
    let mut translator = ZeroCopyTranslator::default();
    let mut short = [0u8; 3];
    assert_eq!(translator.translate(&msg, &mut short), None);
    let mut buffer = [0u8; 8];
    assert_eq!(translator.translate_with_type(&msg, 9, &mut buffer), Some(8));
    assert_eq!(buffer, [9, 0, 0, 0, 1, 0, 1, 42]);
    for k in 2..300u32 {
        assert_eq!(translator.translate(&msg, &mut buffer), Some(8));
        assert_eq!(buffer[1..5], k.to_be_bytes());
    }
}

#[test]
fn test_parse_iridium_sbd() {
    let data: Vec<u8> = vec![
        0x01, // protocol
        0x00, 0x05, // length = 5
        0x48, 0x65, 0x6c, 0x6c, 0x6f, // "Hello"
        0x00, 0x00, // checksum
    ];

    let msg = IridiumSBDMessage::parse(&data).unwrap();
    assert_eq!(msg.header.protocol, 0x01);
    assert_eq!(msg.header.length, 5);
    assert_eq!(msg.payload_len, 5);
    assert_eq!(msg.payload_slice(), b"Hello");
}

#[test]
fn iridium_sbd_test_parse_invalid() {
    let data: Vec<u8> = vec![0x01]; // Too short
    assert!(IridiumSBDMessage::parse(&data).is_none());
}

#[test]
fn iridium_limits() {
    let mut data = vec![1, 0x01, 0x55];
    data.extend(vec![0u8; 341]);
    assert!(IridiumSBDMessage::parse(&data).is_none()); // announces 341
    let mut data = vec![1, 0x01, 0x54];
    data.extend(vec![7u8; 340]);
    let msg = IridiumSBDMessage::parse(&data).unwrap();
    assert_eq!(msg.payload_slice().len(), 340);
    assert_eq!(msg.checksum, 0);
    assert!(!msg.validate_checksum());
    assert_eq!(msg.total_size(), 345);
    data.push(0x12);
    data.push(0x34);
    assert!(IridiumSBDMessage::parse(&data).is_none()); // wrong checksum
    data.truncate(343);
    let crc = crc16_ccitt(&data);
    data.extend(crc.to_be_bytes());
    let msg = IridiumSBDMessage::parse(&data).unwrap();
    assert_eq!(msg.checksum, crc);
    assert!(msg.validate_checksum());
    assert!(IridiumSBDMessage::parse(&[1, 0, 2, 9]).is_none());
}

#[test]
fn crc_covers_header_and_payload() {
    assert_eq!(crc16_ccitt(b"123456789"), 0x29b1);
    assert_eq!(crc16_ccitt(&[]), 0xFFFF);
    let msg = IridiumSBDMessage::parse(&[1, 0, 2, 0x48, 0x69]).unwrap();
    assert_eq!(msg.compute_crc(), crc16_ccitt(&[1, 0, 2, 0x48, 0x69]));
}

#[test]
fn test_parse_nidd() {
    let data: Vec<u8> = vec![
        0x01, // PDU type
        0x01, // QoS priority (Normal)
        0x01, // Reliability (Reliable)
        0x00, // Delay class (DelayInsensitive)
        0x00, // Coverage enhancement (None)
        0x00, 0x05, // length = 5
        0x00, 0x01, // sequence number = 1
        0x48, 0x65, 0x6c, 0x6c, 0x6f, // "Hello"
    ];

    let msg = NIDDMessage::parse(&data).unwrap();
    assert_eq!(msg.header.pdu_type, 0x01);
    assert_eq!(msg.header.qos_priority, 0x01);
    assert_eq!(msg.header.reliability, 0x01);
    assert_eq!(msg.header.delay_class, 0x00);
    assert_eq!(msg.header.coverage_enhancement, 0x00);
    assert_eq!(msg.header.length, 5);
    assert_eq!(msg.header.sequence_number, 1);
    assert_eq!(msg.payload_len, 5);
    assert_eq!(msg.payload_slice(), b"Hello");
}

#[test]
fn nidd_test_parse_invalid() {
    let data: Vec<u8> = vec![0x01]; // Too short
    assert!(NIDDMessage::parse(&data).is_none());
}

#[test]
fn test_max_payload_size() {
    let mut data = vec![0x01, 0x00, 0x00, 0x00, 0x00, 0x06, 0x41, 0x00, 0x01]; // header with length = 1601
    data.extend(vec![0u8; 1601]); // Exceeds max

    assert!(NIDDMessage::parse(&data).is_none());
}

#[test]
fn test_control_plane_bit() {
    let data: Vec<u8> = vec![
        0x81, // PDU type with control plane bit set
        0x01, // QoS priority
        0x01, // Reliability
        0x00, // Delay class
        0x00, // Coverage enhancement
        0x00, 0x05, // length = 5
        0x00, 0x01, // sequence number = 1
        0x48, 0x65, 0x6c, 0x6c, 0x6f, // "Hello"
    ];

    let msg = NIDDMessage::parse(&data).unwrap();
    assert!(msg.is_control_plane());
    assert_eq!(msg.pdu_type(), PduType::ControlPlane);
}

#[test]
fn test_qos_priority() {
    let data: Vec<u8> = vec![
        0x01, // PDU type
        0x03, // QoS priority (Emergency)
        0x01, // Reliability
        0x00, // Delay class
        0x00, // Coverage enhancement
        0x00, 0x05, // length = 5
        0x00, 0x01, // sequence number = 1
        0x48, 0x65, 0x6c, 0x6c, 0x6f, // "Hello"
    ];

    let msg = NIDDMessage::parse(&data).unwrap();
    assert_eq!(msg.qos_priority(), QosPriority::Emergency);
}

#[test]
fn test_coverage_enhancement() {
    let data: Vec<u8> = vec![
        0x01, // PDU type
        0x01, // QoS priority
        0x01, // Reliability
        0x00, // Delay class
        0x02, // Coverage enhancement (Level2)
        0x00, 0x05, // length = 5
        0x00, 0x01, // sequence number = 1
        0x48, 0x65, 0x6c, 0x6c, 0x6f, // "Hello"
    ];

    let msg = NIDDMessage::parse(&data).unwrap();
    assert_eq!(msg.coverage_enhancement(), CoverageEnhancement::Level2);
}

#[test]
fn nidd_unknown_header_values_have_defaults() {
    let msg = NIDDMessage::parse(&[0x7f, 9, 9, 9, 9, 0, 0, 0, 2]).unwrap();
    assert_eq!(msg.pdu_type(), PduType::UserData);
    assert_eq!(msg.qos_priority(), QosPriority::Normal);
    assert_eq!(msg.reliability(), ReliabilityClass::Unreliable);
    assert_eq!(msg.delay_class(), DelayClass::DelayInsensitive);
    assert_eq!(msg.coverage_enhancement(), CoverageEnhancement::NoEnhancement);
    assert_eq!(msg.total_size(), 9);
    assert!(NIDDMessage::parse(&[0, 0, 0, 0, 0, 0, 0, 0]).is_none());
}

#[test]
fn test_hfvhf_parse() {
    let mut data = vec![0u8; 20];
    data[0..4].copy_from_slice(&145800u32.to_be_bytes()); // 145.8 MHz
    data[4] = 1; // FM
    data[5..7].copy_from_slice(&1000i16.to_le_bytes());
    data[7..9].copy_from_slice(&2000i16.to_le_bytes());

    let msg = HFVHFMessage::parse(&data);
    assert!(msg.is_some());
    let msg = msg.unwrap();
    assert_eq!(msg.frequency_khz, 145800);
    assert_eq!(msg.modulation, ModulationType::FM);
    assert_eq!(msg.audio_samples, vec![1000, 2000, 0, 0, 0, 0, 0]);
}

#[test]
fn test_hfvhf_parse_too_short() {
    let data = b"short";
    let msg = HFVHFMessage::parse(data);
    assert!(msg.is_none());
}

#[test]
fn test_hfvhf_encode() {
    let msg = HFVHFMessage {
        frequency_khz: 145800,
        modulation: ModulationType::FM,
        audio_samples: vec![1000, 2000, 3000],
    };

    let encoded = msg.encode();
    assert!(encoded.len() >= 5);
    assert_eq!(encoded[4], 1); // FM modulation
}

#[test]
fn test_hfvhf_codec_translate() {
    let msg = HFVHFMessage {
        frequency_khz: 145800,
        modulation: ModulationType::FM,
        audio_samples: vec![1000, 2000, 3000],
    };

    let digital = msg.codec_translate_to_digital();
    assert!(digital.len() >= 5);
}

#[test]
fn test_hfvhf_resample() {
    let msg = HFVHFMessage {
        frequency_khz: 145800,
        modulation: ModulationType::FM,
        audio_samples: vec![1000, 2000, 3000, 4000, 5000],
    };

    let resampled = msg.resample(16000, 8000);
    assert_eq!(resampled.audio_samples.len(), 10); // 2x sample rate
    assert_eq!(
        resampled.audio_samples,
        vec![1000, 1000, 2000, 2000, 3000, 3000, 4000, 4000, 5000, 5000]
    );
    assert_eq!(msg.resample(4000, 8000).audio_samples, vec![1000, 3000]);
    assert_eq!(msg.resample(0, 0).audio_samples.len(), 0);
}

#[test]
fn resampling_rounds_as_doubles_do() {
    let recording = |n: usize| HFVHFMessage {
        frequency_khz: 1,
        modulation: ModulationType::AM,
        audio_samples: (0..n).map(|k| (k % 30000) as i16).collect(),
    };
    let in_doubles = |samples: &[i16], target: u32, original: u32| -> Vec<i16> {
        let ratio = target as f64 / original as f64;
        let new_len = (samples.len() as f64 * ratio) as usize;
        (0..new_len)
            .map(|i| (i as f64 / ratio) as usize)
            .filter(|k| *k < samples.len())
            .map(|k| samples[k])
            .collect()
    };
    // the product is just below 1
    assert_eq!(recording(49).resample(1, 49).audio_samples.len(), 0);
    assert_eq!(recording(48).resample(1, 48).audio_samples.len(), 1);
    for n in [0usize, 1, 2, 7, 49, 100, 441] {
        let msg = recording(n);
        for original in [1u32, 3, 7, 10, 41, 47, 48, 49, 55, 98, 8000, 44100, u32::MAX] {
            for target in [0u32, 1, 3, 7, 10, 47, 49, 61, 103, 1000] {
                assert_eq!(
                    msg.resample(target, original).audio_samples,
                    in_doubles(&msg.audio_samples, target, original),
                );
            }
        }
    }
    let msg = recording(3);
    assert_eq!(
        msg.resample(48000, 44100).audio_samples,
        in_doubles(&msg.audio_samples, 48000, 44100),
    );
}

#[test]
fn hfvhf_reads_back_what_it_wrote() {
    let msg = HFVHFMessage {
        frequency_khz: 7,
        modulation: ModulationType::CW,
        audio_samples: vec![-1, -32768, 32767],
    };
    let bytes = msg.encode();
    assert_eq!(bytes, vec![0, 0, 0, 7, 3, 0xff, 0xff, 0x00, 0x80, 0xff, 0x7f]);
    let back = HFVHFMessage::parse(&bytes).unwrap();
    assert_eq!(back.audio_samples, vec![-1, -32768, 32767]);
    assert_eq!(back.modulation, ModulationType::CW);
    let mut odd = bytes.clone();
    odd.push(9);
    assert_eq!(HFVHFMessage::parse(&odd).unwrap().audio_samples.len(), 3);
    let mut unknown = bytes;
    unknown[4] = 4;
    assert!(HFVHFMessage::parse(&unknown).is_none());
}

#[test]
fn test_inmarsat_c_parse() {
    let mut data = vec![0u8; 21];
    data[0..4].copy_from_slice(&MAGIC_NUMBER.to_be_bytes());
    data[4..6].copy_from_slice(&1234u16.to_be_bytes());
    data[6..10].copy_from_slice(&[0x01, 0x02, 0x03, 0x04]);
    data[10..14].copy_from_slice(&[0x05, 0x06, 0x07, 0x08]);
    data[14] = b'H';
    data[15] = b'e';
    data[16] = b'l';
    data[17] = b'l';
    data[18] = b'o';

    let checksum = crc::Crc::<u16>::new(&crc::CRC_16_IBM_3740).checksum(&data[..19]);
    data[19..21].copy_from_slice(&checksum.to_be_bytes());

    let msg = InmarsatCMessage::parse(&data);
    assert!(msg.is_ok());
    assert_eq!(msg.unwrap().message_number, 1234);
}

#[test]
fn test_inmarsat_c_parse_invalid_magic() {
    let mut data = vec![0u8; 20];
    data[0..4].copy_from_slice(&0xDEADBEEFu32.to_be_bytes());
    data[4..6].copy_from_slice(&1234u16.to_be_bytes());
    data[6..10].copy_from_slice(&[0x01, 0x02, 0x03, 0x04]);
    data[10..14].copy_from_slice(&[0x05, 0x06, 0x07, 0x08]);

    let msg = InmarsatCMessage::parse(&data);
    assert!(msg.is_err());
    let err = msg.unwrap_err();
    assert!(matches!(err, ParseError::InvalidMagicNumber { .. }));
    assert_eq!(err.message(), "Invalid magic number: found 0xdeadbeef, expected 0x494e4d01");
}

#[test]
fn test_inmarsat_c_parse_too_short() {
    let data = b"short";
    let msg = InmarsatCMessage::parse(data);
    assert!(msg.is_err());
    let err = msg.unwrap_err();
    assert!(matches!(err, ParseError::InvalidLength { .. }));
    assert_eq!(err.message(), "Invalid length: minimum 16, found 5");
}

#[test]
fn test_inmarsat_c_encode() {
    let msg = InmarsatCMessage {
        message_number: 1234,
        destination_id: "01020304".to_string(),
        source_id: "05060708".to_string(),
        payload: Bytes::from("Hello"),
    };

    let encoded = msg.encode();
    assert!(encoded.len() >= 16);
    assert_eq!(
        u32::from_be_bytes([encoded[0], encoded[1], encoded[2], encoded[3]]),
        MAGIC_NUMBER
    );
    assert_eq!(u16::from_be_bytes([encoded[4], encoded[5]]), 1234);
}

#[test]
fn test_roundtrip() {
    let original = InmarsatCMessage {
        message_number: 1234,
        destination_id: "01020304".to_string(),
        source_id: "05060708".to_string(),
        payload: Bytes::from("Hello"),
    };

    let encoded = original.encode();
    let decoded = InmarsatCMessage::parse(&encoded).unwrap();

    assert_eq!(decoded.message_number, original.message_number);
    assert_eq!(decoded.destination_id, original.destination_id);
    assert_eq!(decoded.source_id, original.source_id);
    assert_eq!(decoded.payload, original.payload);
}

#[test]
fn inmarsat_errors_and_limits() {
    let msg = InmarsatCMessage {
        message_number: 1,
        destination_id: "no hex".to_string(),
        source_id: "AABBCCDDEE".to_string(),
        payload: Bytes::from(vec![1u8; 200]),
    };
    let mut encoded = msg.encode();
    assert_eq!(encoded.len(), 14 + 112 + 2);
    assert_eq!(&encoded[6..14], &[0, 0, 0, 0, 0xaa, 0xbb, 0xcc, 0xdd]);
    let stored = u16::from_be_bytes([encoded[126], encoded[127]]);
    assert_eq!(stored, crc16_ccitt(&encoded[..126]));
    encoded[20] ^= 1;
    let wrong = crc16_ccitt(&encoded[..126]);
    match InmarsatCMessage::parse(&encoded) {
        Err(ParseError::ChecksumMismatch { expected, found }) => {
            assert_eq!(expected, wrong);
            assert_eq!(found, stored);
        }
        _ => panic!("checksum should not match"),
    }
    assert_eq!(
        ParseError::ChecksumMismatch { expected: 0x12, found: 0xabcd }.message(),
        "Checksum mismatch: expected 0x0012, found 0xabcd"
    );
    assert_eq!(
        ParseError::InvalidDestinationId { value: "x".to_string() }.message(),
        "Invalid destination ID: x"
    );
    assert_eq!(
        ParseError::InvalidSourceId { value: "y".to_string() }.message(),
        "Invalid source ID: y"
    );
}

#[test]
fn test_vsat_parse() {
    let mut data = vec![0u8; 20];
    data[0..4].copy_from_slice(&12345678u32.to_be_bytes());
    data[4..8].copy_from_slice(&[192, 168, 1, 1]);
    data[8..12].copy_from_slice(&[192, 168, 1, 2]);
    data[12] = b'H';
    data[13] = b'e';
    data[14] = b'l';
    data[15] = b'l';
    data[16] = b'o';

    let msg = VSATMessage::parse(&data);
    assert!(msg.is_some());
    assert_eq!(msg.unwrap().packet_id, 12345678);
}

#[test]
fn test_vsat_parse_too_short() {
    let data = b"short";
    let msg = VSATMessage::parse(data);
    assert!(msg.is_none());
}

#[test]
fn test_vsat_encode() {
    let msg = VSATMessage {
        packet_id: 12345678,
        source_ip: [192, 168, 1, 1],
        dest_ip: [192, 168, 1, 2],
        payload: Bytes::from("Hello"),
    };

    let encoded = msg.encode();
    assert!(encoded.len() >= 12);
}

#[test]
fn test_vsat_compress_decompress() {
    let msg = VSATMessage {
        packet_id: 12345678,
        source_ip: [192, 168, 1, 1],
        dest_ip: [192, 168, 1, 2],
        payload: Bytes::from("Hello VSAT"),
    };

    let compressed = msg.encode();
    let decompressed = VSATMessage::decompress(&compressed);
    assert!(decompressed.is_some());
    let raw = decompressed.unwrap();
    assert_ne!(raw, compressed);
    let back = VSATMessage::parse(&raw).unwrap();
    assert_eq!(back.packet_id, 12345678);
    assert_eq!(back.source_ip, [192, 168, 1, 1]);
    assert_eq!(back.dest_ip, [192, 168, 1, 2]);
    assert_eq!(back.payload, msg.payload);
    assert!(VSATMessage::decompress(b"not a frame").is_none());
}

#[test]
fn test_samsara_parse() {
    let device_id = "device-12345";
    let timestamp = 1234567890u64;
    let latitude = 37.7749_f64;
    let longitude = -122.4194_f64;
    let payload = b"test payload data";

    let mut buffer = Vec::new();
    buffer.push(1); // version
    buffer.extend_from_slice(&(device_id.len() as u16).to_be_bytes());
    buffer.extend_from_slice(device_id.as_bytes());
    buffer.extend_from_slice(&timestamp.to_be_bytes());
    buffer.extend_from_slice(&latitude.to_be_bytes());
    buffer.extend_from_slice(&longitude.to_be_bytes());
    buffer.extend_from_slice(&(payload.len() as u32).to_be_bytes());
    buffer.extend_from_slice(payload);

    let msg = SamsaraMessage::parse(&buffer).unwrap();
    assert_eq!(msg.device_id, device_id);
    assert_eq!(msg.timestamp, timestamp);
    assert_eq!(f64::from_bits(msg.latitude_bits), latitude);
    assert_eq!(f64::from_bits(msg.longitude_bits), longitude);
    assert_eq!(msg.payload, Bytes::from(&payload[..]));
}

#[test]
fn test_samsara_parse_too_short() {
    let data = b"short";
    let msg = SamsaraMessage::parse(data);
    assert!(msg.is_none());
}

#[test]
fn test_samsara_roundtrip() {
    let original = SamsaraMessage {
        device_id: "device-67890".to_string(),
        timestamp: 9876543210u64,
        latitude_bits: 40.7128_f64.to_bits(),
        longitude_bits: (-74.0060_f64).to_bits(),
        payload: Bytes::from(&b"roundtrip test data"[..]),
    };

    let encoded = original.encode();
    let decoded = SamsaraMessage::parse(&encoded).unwrap();

    assert_eq!(decoded.device_id, original.device_id);
    assert_eq!(decoded.timestamp, original.timestamp);
    assert_eq!(f64::from_bits(decoded.latitude_bits), 40.7128_f64);
    assert_eq!(f64::from_bits(decoded.longitude_bits), -74.0060_f64);
    assert_eq!(decoded.payload, original.payload);
}

#[test]
fn test_samsara_encode() {
    let msg = SamsaraMessage {
        device_id: "test-device".to_string(),
        timestamp: 1234567890u64,
        latitude_bits: 37.7749_f64.to_bits(),
        longitude_bits: (-122.4194_f64).to_bits(),
        payload: Bytes::from(&b"test payload"[..]),
    };

    let encoded = msg.encode();
    assert!(encoded.len() > 31); // Minimum header size
    assert_eq!(encoded[0], 1); // Version
}

#[test]
fn samsara_refuses_bad_messages() {
    let msg = SamsaraMessage {
        device_id: "ab".to_string(),
        timestamp: 1,
        latitude_bits: 2,
        longitude_bits: 3,
        payload: Bytes::from(vec![4u8, 5]),
    };
    let good = msg.encode();
    assert!(SamsaraMessage::parse(&good).is_some());
    let mut version = good.clone();
    version[0] = 2;
    assert!(SamsaraMessage::parse(&version).is_none());
    let mut text = good.clone();
    text[3] = 0xff;
    assert!(SamsaraMessage::parse(&text).is_none());
    for cut in 0..good.len() {
        assert!(SamsaraMessage::parse(&good[..cut]).is_none());
    }
}
