use bytes::Bytes;
use float_protocols::inmarsat_c::InmarsatCMessage;
use float_protocols::protocol::{spread_from, Message, Priority, Protocol};
use float_protocols::samsara::SamsaraMessage;
use float_protocols::scan::{
    chars_of, contains_text, field_text, find_from, labelled_number, parse_u8, trim_text,
};
use float_protocols::text::{
    push_decimal, push_signed_decimal, same_bytes, same_text, signed_text, text2, text_from_bytes,
};
use float_protocols::translator::{translate_iridium_to_asts_sync, TranslateError, Translator};
use float_protocols::vsat::VSATMessage;

fn message(protocol: Protocol, data: Vec<u8>) -> Message {
    Message::new_with_temporal(protocol, Bytes::from(data), Priority::SafetyCritical, 5, 9)
}

fn translated(protocol: Protocol, data: Vec<u8>) -> Result<Message, TranslateError> {
    Translator::translate_at(message(protocol, data), 77)
}

#[test]
fn iridium_keeps_protocol_and_payload() {
    let packet = vec![4, 0, 2, 0xAB, 0xCD, 0, 0];
    let out = translated(Protocol::IridiumSBD, packet.clone()).unwrap();
    assert_eq!(&out.data[..], &[4, 0xAB, 0xCD]);
    assert_eq!(out.protocol, Protocol::ASTSpaceMobile);
    assert_eq!(out.priority, Priority::SafetyCritical);
    assert_eq!((out.timestamp, out.t_event, out.t_system), (77, 77, 77));
    let rock = translated(Protocol::RockBLOCK, packet.clone()).unwrap();
    assert_eq!(rock.data, out.data);
    assert_eq!(
        translated(Protocol::IridiumSBD, packet[..6].to_vec()).unwrap_err(),
        TranslateError::InvalidProtocol
    );
    // the checksum is not looked at
    let wrong = translated(Protocol::IridiumSBD, vec![4, 0, 2, 0xAB, 0xCD, 1, 2]).unwrap();
    assert_eq!(wrong.data, out.data);
}

#[test]
fn long_device_ids_are_not_translated() {
    let bytes = |n: usize| {
        let m = SamsaraMessage {
            device_id: "x".repeat(n),
            timestamp: 3,
            latitude_bits: 1,
            longitude_bits: 2,
            payload: Bytes::from(vec![9]),
        };
        m.encode().to_vec()
    };
    let out = translated(Protocol::Samsara, bytes(1024)).unwrap();
    assert_eq!(out.data.len(), 1 + 1024 + 24 + 1);
    assert_eq!(
        translated(Protocol::Samsara, bytes(1025)).unwrap_err(),
        TranslateError::InvalidProtocol
    );
}

#[test]
fn each_protocol_has_its_translation() {
    // Inmarsat C
    let inmarsat = InmarsatCMessage {
        message_number: 7,
        destination_id: "01020304".to_string(),
        source_id: "0a0b0c0d".to_string(),
        payload: Bytes::from(vec![1, 2]),
    }
    .encode();
    let out = translated(Protocol::InmarsatC, inmarsat.to_vec()).unwrap();
    assert_eq!(&out.data[..], &inmarsat[..]);
    // VSAT
    let packet = vec![7u8; 400];
    let out = translated(Protocol::VSAT, packet.clone()).unwrap();
    assert!(out.data.len() < 100);
    assert_eq!(
        VSATMessage::decompress(&out.data).unwrap(),
        packet
    );
    assert!(translated(Protocol::VSAT, vec![0; 15]).is_err());
    // HF/VHF: an odd last byte is lost
    let frame = vec![0, 0, 0x1F, 0x40, 0, 1, 2, 3];
    let out = translated(Protocol::HFVHF, frame.clone()).unwrap();
    assert_eq!(&out.data[..], &frame[..7]);
    // Samsara
    let m = SamsaraMessage {
        device_id: "ab".to_string(),
        timestamp: 3,
        latitude_bits: 1,
        longitude_bits: 2,
        payload: Bytes::from(vec![9]),
    };
    let out = translated(Protocol::Samsara, m.encode().to_vec()).unwrap();
    let mut expected = vec![7, b'a', b'b'];
    for n in [3u64, 1, 2] {
        expected.extend(n.to_be_bytes());
    }
    expected.push(9);
    assert_eq!(&out.data[..], &expected[..]);
    // what is cellular stays as it is
    let out = translated(Protocol::ASTSpaceMobile, vec![1]).unwrap();
    assert_eq!((out.t_event, out.t_system), (5, 9));
    assert!(translated(Protocol::NIDD, vec![0; 20]).is_err());
    assert!(translated(Protocol::LoRaMesh, vec![0; 20]).is_err());
}

#[test]
fn the_hot_path_writes_a_frame() {
    let packet = [4, 0, 2, 0xAB, 0xCD, 0, 0];
    let mut out = [0u8; 16];
    let size = translate_iridium_to_asts_sync(&packet, &mut out).unwrap();
    assert_eq!(size, 9);
    assert_eq!(&out[5..9], &[0, 2, 0xAB, 0xCD]);
    let mut short = [0u8; 8];
    assert!(translate_iridium_to_asts_sync(&packet, &mut short).is_err());
    assert!(translate_iridium_to_asts_sync(&[1], &mut out).is_err());
    let translator = Translator::new(12);
    assert_eq!(translator.buffer_size(), 12);
    assert!(translator.translate_sync(message(Protocol::IridiumSBD, packet.to_vec())).is_ok());
}

#[test]
fn translation_errors_are_told_in_words() {
    assert_eq!(TranslateError::InvalidProtocol.message(), "Invalid protocol");
    assert_eq!(
        TranslateError::DataTooLarge.message(),
        "Data exceeds protocol maximum size"
    );
    assert_eq!(TranslateError::CodecError.message(), "Codec translation error");
    assert_eq!(TranslateError::CompressionError.message(), "Compression error");
}

#[test]
fn protocols_have_their_limits() {
    assert_eq!(Protocol::IridiumSBD.max_message_size(), 340);
    assert_eq!(Protocol::LoRaMesh.max_message_size(), 255);
    assert!(Protocol::VSAT.requires_compression());
    assert!(!Protocol::Samsara.requires_compression());
    assert_eq!(Protocol::IridiumSBD.spread_burst_threshold_ms(), 120_000);
    assert_eq!(Protocol::VSAT.spread_burst_threshold_ms(), 30_000);
    assert_eq!(Protocol::NIDD.name(), "NIDD");
}

#[test]
fn messages_know_their_spread() {
    let m = message(Protocol::VSAT, vec![1, 2, 3]);
    assert_eq!((m.spread_ms(), m.size()), (4, 3));
    assert!(m.is_delayed() && !m.is_future() && !m.is_emergency());
    let early = Message::new_with_temporal(m.protocol, m.data.clone(), m.priority, 9, 5);
    assert!(early.is_future() && !early.is_delayed());
    assert_eq!(spread_from(9, 5), -4);
    assert_eq!(spread_from(0, u64::MAX), -1);
    let now = Message::new(Protocol::VSAT, Bytes::from(vec![1]), Priority::Emergency);
    assert!(now.is_emergency());
    assert!(now.t_system > 1_600_000_000_000);
    assert_eq!(now.t_event, now.t_system);
}

#[test]
fn texts_are_searched() {
    assert!(contains_text("abcd", "bc"));
    assert!(contains_text("", ""));
    assert!(!contains_text("ab", "abc"));
    assert_eq!(find_from(&chars_of("aXbX"), &chars_of("X"), 2), Some(3));
    assert_eq!(find_from(&chars_of("aX"), &chars_of("X"), 2), None);
    assert_eq!(trim_text(" \t a b\r\n"), "a b");
    assert_eq!(field_text("a,,c", 1), Some(String::new()));
    assert_eq!(field_text("a,,c", 3), None);
    assert_eq!(labelled_number("k: 5, -7", "k", 1), Some(-7));
    assert_eq!(labelled_number("k 5", "k", 0), None);
    assert_eq!(parse_u8("255"), Some(255));
    assert_eq!(parse_u8("256"), None);
    assert_eq!(parse_u8(""), None);
}

#[test]
fn numbers_and_texts_are_written() {
    let mut out = String::new();
    push_decimal(&mut out, u64::MAX);
    assert_eq!(out, "18446744073709551615");
    push_signed_decimal(&mut out, i64::MIN);
    assert_eq!(out, "18446744073709551615-9223372036854775808");
    assert_eq!(signed_text(0), "0");
    assert_eq!(text2("a", "b"), "ab");
    assert!(same_bytes(&[1, 2], &[1, 2]));
    assert!(!same_bytes(&[1, 2], &[1]));
    assert!(same_text("a", "a"));
    assert!(!same_text("a", "b"));
    assert_eq!(text_from_bytes(b"\xC3\xA4".to_vec()), Some("\u{E4}".to_string()));
    assert_eq!(text_from_bytes(vec![0xFF]), None);
}
