use float_protocols::gnss::gnss::{FixStep, GnssError, GnssService};
use float_protocols::gnss::rtc::{RtcError, RtcSync};
use float_protocols::hardware::atecc608b::{
    crc8, random_command, random_from, read_serial_command, serial_from, sign_command,
    signature_from, verified, verify_command, AteccError,
};
use float_protocols::hardware::bg95::{
    check_prompt, check_sent, command_line, esim_status, gnss_fields, open_tcp_command,
    parse_at_int, reply, send_tcp_command, signal_quality, timed_out, BG95Modem, Bg95Error,
    ModemState, NetworkType, Reply,
};
use float_protocols::hardware::config_button::{ButtonError, ButtonEvent, ConfigButton};
use float_protocols::hardware::led::{levels, LedController, LedError, LedPattern, LedState};
use float_protocols::hardware::sx1262::{
    buffer_from, clear_irq_command, config_for, frame_from, init_commands, irq_raised,
    irq_status_command, irq_status_from, read_buffer_command, read_register_command,
    register_from, rx_command, tx_command, write_buffer_command, Bandwidth, CodingRate, CrcMode,
    HeaderType, IqMode, Irq, LoRaConfig, SpreadingFactor, Sx1262Error,
};
use float_protocols::hardware::watchdog::{kick, KickStep, WatchdogError};
use float_protocols::lora::mesh::{
    ack_frame, decode_sensor_frame, decode_with_tag, mic_matches, verify_mic, MeshError,
};
use float_protocols::lora::node_registry::{LoRaNode, NodeRegistry};
use float_protocols::protocol::{Message, Priority, Protocol};
use float_protocols::provisioning::lora_provisioning;
use float_protocols::provisioning::lora_provisioning::{
    build_join_accept, parse_join_request, LoRaProvisioningMode,
};
use float_protocols::provisioning::provision::{
    is_provisioned, ProvisioningError, ProvisioningService, ProvisioningStatus,
};
use float_protocols::sensor::can::{parse_canopen, parse_j1939, parse_raw, CanError};
use float_protocols::sensor::rs232::{
    parse_carrier_micro_link, parse_frame, parse_thermo_king, Rs232Error,
};
use float_protocols::sensor::rs485::{
    compute_modbus_crc, modbus_request, parse_modbus_rtu, Rs485Error,
};

fn text() -> String {
    "x".to_string()
}

#[test]
fn test_crc8() {
    let data = [0x01, 0x02, 0x03];
    let crc = crc8(&data);
    // Expected CRC-8 for this data
    assert_eq!(crc, 0x5B);
}

#[test]
fn chip_commands_are_sealed() {
    let serial = read_serial_command();
    assert_eq!(&serial[..6], &[0x02, 0, 0, 0, 0, 9]);
    assert_eq!(serial[6], crc8(&serial[..6]));
    let sign = sign_command(&[7; 32]).unwrap();
    assert_eq!((sign.len(), &sign[..4]), (36, &[0x41, 0x80, 0, 7][..]));
    assert_eq!(sign[35], crc8(&sign[..35]));
    let verify = verify_command(&[7; 32], &[8; 64]).unwrap();
    assert_eq!((verify.len(), verify[4], verify[36]), (101, 7, 8));
    assert_eq!(verify[100], crc8(&verify[..100]));
    assert_eq!(random_command(), [0x1B, 0, 0x20]);
    assert!(matches!(sign_command(&[7; 31]), Err(AteccError::InvalidDigestLength)));
    assert!(matches!(
        verify_command(&[7; 33], &[8; 63]),
        Err(AteccError::InvalidDigestLength)
    ));
    assert!(matches!(
        verify_command(&[7; 32], &[8; 63]),
        Err(AteccError::InvalidSignatureLength)
    ));
}

#[test]
fn chip_answers_are_read() {
    let mut answer = vec![1u8];
    answer.extend(1..=66u8);
    assert_eq!(serial_from(&answer).unwrap(), (1..=9u8).collect::<Vec<_>>());
    assert_eq!(random_from(&answer).unwrap(), (1..=32u8).collect::<Vec<_>>());
    assert_eq!(signature_from(&answer).unwrap(), (1..=64u8).collect::<Vec<_>>());
    answer[0] = 0x0F;
    assert!(matches!(serial_from(&answer), Err(AteccError::InvalidResponse(0x0F))));
    assert!(verified(&[0]));
    assert!(!verified(&[1]));
    assert_eq!(
        AteccError::InvalidResponse(0x0F).message(),
        "Invalid response byte: 0x0F"
    );
    assert_eq!(AteccError::I2cInit(text()).message(), "I2C init failed: x");
    assert_eq!(AteccError::I2cWrite(text()).message(), "I2C write failed: x");
    assert_eq!(AteccError::I2cRead(text()).message(), "I2C read failed: x");
    assert_eq!(AteccError::InvalidDigestLength.message(), "Digest must be 32 bytes");
    assert_eq!(
        AteccError::InvalidSignatureLength.message(),
        "Signature must be 64 bytes"
    );
    assert_eq!(AteccError::LockFailed.message(), "Lock operation failed");
}

#[test]
fn modem_answers_are_read() {
    assert_eq!(parse_at_int("+CSQ: 18,99\r\n", "CSQ", 0), Some(18));
    assert_eq!(parse_at_int("+CSQ: 18,99\r\nOK", "CSQ", 2), None);
    assert_eq!(parse_at_int("nothing", "CSQ", 0), None);
    assert_eq!(command_line("AT"), "AT\r\n");
    assert_eq!(reply("\r\nOK\r\n"), Reply::Done);
    assert_eq!(reply("+CME ERROR: 4"), Reply::Failed);
    assert_eq!(reply("+CSQ"), Reply::Pending);
    assert!(!timed_out(5000));
    assert!(timed_out(5001));
    let quality = signal_quality("+CSQ: 18,2", "rsrp: -97 rsrq");
    assert_eq!((quality.rssi, quality.ber), (18, 2));
    let none = signal_quality("", "");
    assert_eq!((none.rssi, none.ber), (99, 99));
    assert_eq!((none.rsrp, none.rsrq, none.sinr), (-140, -20, -20));
    let cell = signal_quality("", "rsrp: -97");
    assert_eq!(cell.rsrp, -97);
    assert_eq!(esim_status("\r\n 001010123456789\r\n"), "001010123456789");
}

#[test]
fn the_modem_keeps_its_state() {
    let mut modem = BG95Modem::new();
    assert_eq!((modem.state(), modem.network_type()), (ModemState::Off, NetworkType::Unknown));
    modem.reset();
    assert_eq!(modem.state(), ModemState::Booting);
    assert!(BG95Modem::check_registration_time(60000).is_ok());
    assert!(matches!(
        BG95Modem::check_registration_time(60001),
        Err(Bg95Error::RegistrationTimeout)
    ));
    assert!(!modem.on_registration("+CREG: 1,2"));
    assert_eq!(modem.state(), ModemState::Booting);
    assert!(modem.on_registration("+CREG: 1,5"));
    assert_eq!(modem.state(), ModemState::Registered);
    modem.on_network_info("+QNWINFO: \"NB-IoT\"");
    assert_eq!(modem.network_type(), NetworkType::NB_IoT);
    modem.on_network_info("+QNWINFO: \"GSM\"");
    assert_eq!(modem.network_type(), NetworkType::NB_IoT);
    assert_eq!(open_tcp_command("h", 80), "AT+QIOPEN=1,0,\"TCP\",\"h\",80,0,1");
    assert!(matches!(
        modem.on_tcp_open("ERROR".to_string()),
        Err(Bg95Error::ConnectionFailed(_))
    ));
    assert_eq!(modem.state(), ModemState::Registered);
    assert!(matches!(modem.on_tcp_open("OK".to_string()), Ok(0)));
    assert_eq!(modem.state(), ModemState::Connected);
    assert_eq!(send_tcp_command(12), "AT+QISEND=0,12");
    assert!(check_prompt("> ".to_string()).is_ok());
    assert!(matches!(check_prompt(text()), Err(Bg95Error::SendFailed(_))));
    assert!(check_sent("SEND OK".to_string()).is_ok());
    assert!(check_sent("SEND FAIL".to_string()).is_err());
}

#[test]
fn position_reports_are_split() {
    let report = "+QGPSLOC: 101010.0,47.5,8.25,430.0,1.5,90.0,2,a,b,c,d,9";
    let fields = gnss_fields(report.to_string()).unwrap();
    assert_eq!((fields.latitude.as_str(), fields.longitude.as_str()), ("47.5", "8.25"));
    assert_eq!((fields.altitude.as_str(), fields.speed.as_str()), ("430.0", "1.5"));
    assert_eq!(fields.heading, "90.0");
    assert_eq!((fields.fix_quality, fields.satellites), (2, 9));
    assert!(matches!(
        gnss_fields("1,2,3".to_string()),
        Err(Bg95Error::InvalidGnssResponse(_))
    ));
}

#[test]
fn modem_errors_are_told_in_words() {
    assert_eq!(Bg95Error::SerialInit(text()).message(), "Serial init failed: x");
    assert_eq!(Bg95Error::SerialWrite(text()).message(), "Serial write failed: x");
    assert_eq!(Bg95Error::SerialRead(text()).message(), "Serial read failed: x");
    assert_eq!(Bg95Error::Timeout(text()).message(), "AT command timeout: x");
    assert_eq!(Bg95Error::AtError(text()).message(), "AT command error: x");
    assert_eq!(
        Bg95Error::RegistrationTimeout.message(),
        "Network registration timeout"
    );
    assert_eq!(Bg95Error::ConnectionFailed(text()).message(), "Connection failed: x");
    assert_eq!(Bg95Error::SendFailed(text()).message(), "Send failed: x");
    assert_eq!(
        Bg95Error::InvalidGnssResponse(text()).message(),
        "Invalid GNSS response: x"
    );
}

#[test]
fn the_button_tells_holds_apart() {
    let mut button = ConfigButton::new(false);
    assert!(button.changed(true));
    assert!(button.sample(true, false, 0).is_empty());
    assert_eq!(button.sample(true, true, 1000), vec![ButtonEvent::Pressed]);
    assert!(button.is_pressed());
    assert_eq!(button.press_duration(1500), Some(500));
    assert_eq!(button.check_hold(3999), None);
    assert_eq!(button.check_hold(4000), Some(ButtonEvent::ProvisioningMode));
    assert_eq!(
        button.sample(false, false, 4500),
        vec![ButtonEvent::ProvisioningMode, ButtonEvent::Released]
    );
    assert_eq!(button.press_duration(9000), None);
    button.sample(true, true, 10_000);
    assert_eq!(button.check_hold(20_000), Some(ButtonEvent::FactoryReset));
    assert_eq!(button.check_hold(30_000), None);
    assert_eq!(button.sample(false, false, 31_000), vec![ButtonEvent::Released]);
    assert_eq!(ButtonError::GpioInit(text()).message(), "GPIO init failed: x");
}

#[test]
fn the_light_shows_its_state_once() {
    let mut light = LedController::new();
    assert_eq!(light.tick(), None);
    light.set_state(LedState::Fault);
    assert_eq!(light.tick(), Some(LedPattern::Solid { color: levels(true, false, false) }));
    assert_eq!(light.tick(), None);
    light.set_state(LedState::NoUplink);
    assert_eq!(
        light.tick(),
        Some(LedPattern::Pulse {
            color: levels(false, true, false),
            times: 5,
            half_period_ms: 500
        })
    );
    light.set_state(LedState::BurstInProgress);
    light.stop();
    assert_eq!(light.tick(), None);
    assert!(!levels(true, false, false).red_high);
    assert!(levels(true, false, false).green_high);
    assert_eq!(LedError::GpioInit(text()).message(), "GPIO init failed: x");
}

#[test]
fn the_watchdog_is_kicked_with_a_pulse() {
    assert_eq!(
        kick(),
        vec![
            KickStep { high: false, hold_ms: 10 },
            KickStep { high: true, hold_ms: 10 },
            KickStep { high: false, hold_ms: 0 },
        ]
    );
    assert_eq!(WatchdogError::KickFailed.message(), "Watchdog kick failed");
    assert_eq!(WatchdogError::GpioInit(text()).message(), "GPIO init failed: x");
}

#[test]
fn radio_commands_are_exact() {
    let config = config_for(915);
    assert_eq!(config.frequency, 915_000_000);
    let commands = init_commands(&config);
    assert_eq!(commands.len(), 8);
    assert_eq!(commands[0], vec![0x80, 0x01]);
    assert_eq!(commands[1], vec![0x8A, 0x01]);
    assert_eq!(commands[2], vec![0x86, 0x39, 0x30, 0x00, 0x00]);
    assert_eq!(commands[3][0], 0x8D);
    assert_eq!(commands[3].len(), 8);
    assert_eq!(commands[7], clear_irq_command());
    let custom = LoRaConfig {
        frequency: 868_000_000,
        bandwidth: Bandwidth::BW250,
        spreading_factor: SpreadingFactor::SF9,
        coding_rate: CodingRate::CR4_7,
        header_type: HeaderType::Implicit,
        crc: CrcMode::Disabled,
        iq_mode: IqMode::Inverted,
        preamble_length: 0x0102,
        tx_power: -3,
    };
    let commands = init_commands(&custom);
    assert_eq!(
        commands[3],
        vec![
            0x8D,
            SpreadingFactor::SF9.byte(),
            Bandwidth::BW250.byte(),
            CodingRate::CR4_7.byte(),
            1,
            HeaderType::Implicit.byte(),
            CrcMode::Disabled.byte(),
            IqMode::Inverted.byte()
        ]
    );
    assert_eq!(commands[4], vec![0x8C, 1, 2, 0, CrcMode::Disabled.byte(), 0]);
    assert_eq!(commands[5], vec![0x8E, 0xFD, 0x04]);
    assert_eq!(tx_command(), vec![0x83, 0]);
    assert_eq!(rx_command(), vec![0x82, 0]);
    assert_eq!(write_buffer_command(&[5, 6]), vec![0x0E, 0, 5, 6]);
    assert_eq!(read_buffer_command(2), vec![0x1E, 0, 0, 0]);
    assert_eq!(read_register_command(0x19), vec![0x1D, 0x19, 0]);
    assert_eq!(irq_status_command(), vec![0x12, 0, 0]);
}

#[test]
fn radio_answers_are_read() {
    assert_eq!(buffer_from(&[0, 0, 5, 6]), vec![5, 6]);
    assert_eq!(register_from(&[0, 9, 0]), 9);
    assert_eq!(irq_status_from(&[0, 1, 2]), 0x0102);
    assert!(irq_raised(0x0001, Irq::TxDone));
    assert!(!irq_raised(0x0001, Irq::RxDone));
    assert!(irq_raised(0x0102, Irq::RxDone));
    let frame = frame_from(vec![1], 37, 0xFB);
    assert_eq!((frame.data, frame.rssi, frame.snr), (vec![1], -100, -5));
    assert_eq!(frame.frequency_error, 0);
    assert_eq!(Sx1262Error::SpiInit(text()).message(), "SPI init failed: x");
    assert_eq!(Sx1262Error::SpiWrite(text()).message(), "SPI write failed: x");
    assert_eq!(Sx1262Error::SpiRead(text()).message(), "SPI read failed: x");
    assert_eq!(Sx1262Error::GpioInit(text()).message(), "GPIO init failed: x");
    assert_eq!(Sx1262Error::Timeout.message(), "Operation timeout");
    assert_eq!(
        Sx1262Error::InvalidResponse.message(),
        "Invalid response from SX1262"
    );
}

#[test]
fn modbus_frames_are_checked() {
    assert_eq!(compute_modbus_crc(b"123456789"), 0x4B37);
    let request = modbus_request(1, 3, &[0, 0, 0, 0x0A]);
    assert_eq!(request, vec![1, 3, 0, 0, 0, 0x0A, 0xC5, 0xCD]);
    let message = parse_modbus_rtu(&request).unwrap();
    assert_eq!(&message.data[..], &request[..6]);
    assert_eq!(message.protocol, Protocol::IridiumSBD);
    let mut bad = request;
    bad[2] = 1;
    assert!(matches!(parse_modbus_rtu(&bad), Err(Rs485Error::CrcMismatch)));
    assert!(matches!(parse_modbus_rtu(&[1, 2, 3]), Err(Rs485Error::InvalidFrame)));
    assert_eq!(Rs485Error::SerialInit(text()).message(), "Serial init failed: x");
    assert_eq!(Rs485Error::SerialRead(text()).message(), "Serial read failed: x");
    assert_eq!(Rs485Error::SerialWrite(text()).message(), "Serial write failed: x");
    assert_eq!(Rs485Error::GpioInit(text()).message(), "GPIO init failed: x");
    assert_eq!(Rs485Error::InvalidFrame.message(), "Invalid frame format");
    assert_eq!(Rs485Error::CrcMismatch.message(), "CRC mismatch");
}

#[test]
fn serial_frames_are_told_apart() {
    let carrier = b"CM\x00\x03\x10abc\x7d\xe1rest".to_vec();
    let message = parse_carrier_micro_link(&carrier).unwrap();
    assert_eq!(&message.data[..], b"\x10abc");
    assert_eq!(&parse_frame(&carrier).unwrap().data[..], b"\x10abc");
    let mut bad = carrier.clone();
    bad[4] = 0x11;
    assert!(matches!(parse_carrier_micro_link(&bad), Err(Rs232Error::CrcMismatch)));
    assert!(matches!(
        parse_carrier_micro_link(&carrier[..9]),
        Err(Rs232Error::InvalidFrame)
    ));
    let king = [2, 0x10, 0x21, 0x42, 3, 0x10 ^ 0x21 ^ 0x42 ^ 3];
    assert_eq!(&parse_thermo_king(&king).unwrap().data[..], &king[1..4]);
    assert_eq!(&parse_frame(&king).unwrap().data[..], &king[1..4]);
    let bad = [2, 0x10, 0x21, 0x42, 3, 0];
    assert!(matches!(parse_thermo_king(&bad), Err(Rs232Error::CrcMismatch)));
    assert!(matches!(parse_thermo_king(&[1, 0, 0, 3, 3]), Err(Rs232Error::InvalidFrame)));
    let modbus = modbus_request(9, 3, &[1]);
    assert_eq!(&parse_frame(&modbus).unwrap().data[..], &[9, 3, 1]);
    assert!(parse_frame(&[1, 2, 3, 4, 5]).is_none());
    assert_eq!(Rs232Error::SerialInit(text()).message(), "Serial init failed: x");
    assert_eq!(Rs232Error::SerialRead(text()).message(), "Serial read failed: x");
    assert_eq!(Rs232Error::InvalidFrame.message(), "Invalid frame format");
    assert_eq!(Rs232Error::CrcMismatch.message(), "CRC mismatch");
}

#[test]
fn bus_frames_carry_their_identifier() {
    let m: Message = parse_j1939(0x18FE_F126, &[1, 2]);
    assert_eq!(&m.data[..], &[0, 0, 0, 6, 0, 0, 0xFE, 0xF1, 0x26, 1, 2]);
    assert_eq!(&parse_canopen(0x185, &[7]).data[..], &[3, 5, 7]);
    assert_eq!(&parse_raw(0x123, &[9]).data[..], &[0, 0, 1, 0x23, 9]);
    assert_eq!(m.priority, Priority::Operational);
    assert_eq!(CanError::SocketOpen(text()).message(), "Socket open failed: x");
    assert_eq!(CanError::SocketConfig(text()).message(), "Socket config failed: x");
    assert_eq!(CanError::SocketRead(text()).message(), "Socket read failed: x");
    assert_eq!(CanError::SocketWrite(text()).message(), "Socket write failed: x");
    assert_eq!(CanError::FrameBuild(text()).message(), "Frame build failed: x");
}

fn node(node_id: u32, last_seen: u64) -> LoRaNode {
    let mut session_key = [0u8; 16];
    for i in 0..16 {
        session_key[i] = i as u8;
    }
    LoRaNode {
        node_id,
        session_key,
        last_seen,
        sensor_type: "temp".to_string(),
    }
}

#[test]
fn nodes_go_stale_after_an_hour() {
    let mut nodes = NodeRegistry::new();
    nodes.register(node(1, 0));
    nodes.register(node(2, 5));
    assert_eq!(nodes.count(), 2);
    assert_eq!(nodes.get_stale(3_600_000).len(), 0);
    let stale = nodes.get_stale(3_600_001);
    assert_eq!((stale.len(), stale[0].node_id), (1, 1));
    nodes.update_last_seen(1, 100);
    assert!(nodes.get_stale(3_600_001).is_empty());
    nodes.update_last_seen(9, 100);
    assert!(nodes.get_node(9).is_none());
    nodes.remove(2);
    assert_eq!(nodes.get_all().len(), 1);
    assert_eq!(nodes.get_node(1).unwrap().last_seen, 100);
}

#[test]
fn only_sealed_frames_are_taken() {
    let body = [0, 0, 0, 7, 0, 1, 2, 0xAA, 0xBB];
    let mic = [0x1c, 0x0b, 0xf2, 0x9b];
    assert!(verify_mic(&body, &mic, &node(7, 0).session_key));
    assert!(!verify_mic(&body, &mic[..3], &node(7, 0).session_key));
    assert!(mic_matches(&[1, 2, 3, 4, 5], &[1, 2, 3, 4]));
    let mut frame = body.to_vec();
    frame.extend(mic);
    let mut nodes = NodeRegistry::new();
    assert_eq!(
        decode_sensor_frame(&frame, &mut nodes, 50).unwrap_err(),
        MeshError::UnknownNode
    );
    nodes.register(node(7, 0));
    let message = decode_sensor_frame(&frame, &mut nodes, 50).unwrap();
    assert_eq!(&message.data[..], &body);
    assert_eq!(message.protocol, Protocol::LoRaMesh);
    assert_eq!(nodes.get_node(7).unwrap().last_seen, 50);
    frame[12] ^= 1;
    assert_eq!(
        decode_sensor_frame(&frame, &mut nodes, 60).unwrap_err(),
        MeshError::MicMismatch
    );
    assert_eq!(nodes.get_node(7).unwrap().last_seen, 50);
    assert_eq!(
        decode_sensor_frame(&frame[..11], &mut nodes, 60).unwrap_err(),
        MeshError::InvalidFrame
    );
    let tag = frame[9..].to_vec();
    assert!(decode_with_tag(&frame, &tag, &mut nodes, 70).is_ok());
    assert_eq!(ack_frame(7, 1), vec![0, 0, 0, 7, 0, 1]);
    assert_eq!(MeshError::InvalidFrame.message(), "Invalid LoRa frame");
    assert_eq!(MeshError::UnknownNode.message(), "Unknown LoRa node");
    assert_eq!(MeshError::MicMismatch.message(), "MIC verification failed");
}

#[test]
fn nodes_join_while_somebody_listens() {
    let mut join = vec![0, 0, 0, 9, 4];
    join.extend(b"door");
    let request = parse_join_request(&join).unwrap();
    assert_eq!((request.node_id, request.sensor_type.as_str()), (9, "door"));
    assert_eq!(
        parse_join_request(&join[..8]).unwrap_err().message(),
        "Invalid LoRa frame"
    );
    assert_eq!(
        parse_join_request(&[0; 7]).unwrap_err(),
        lora_provisioning::ProvisioningError::InvalidFrame
    );
    // bytes that are no text are replaced
    let mut odd = join.clone();
    odd[5] = 0xFF;
    assert_eq!(parse_join_request(&odd).unwrap().sensor_type, "\u{FFFD}oor");

    let mut mode = LoRaProvisioningMode::new();
    assert!(!mode.is_active());
    assert!(mode.on_frame(&join, 5).is_none());
    mode.start();
    let accept = mode.on_frame(&join, 5).unwrap();
    assert_eq!((accept.len(), &accept[..4]), (20, &[0, 0, 0, 9][..]));
    let nodes = mode.get_nodes();
    assert_eq!((nodes.len(), nodes[0].last_seen), (1, 5));
    assert_eq!(&nodes[0].session_key[..], &accept[4..]);
    assert_eq!(build_join_accept(&nodes[0]), accept);
    // every session has a key of its own
    assert_ne!(mode.on_frame(&join, 6).unwrap(), accept);
    let given = mode.enroll(&join, [3; 16], 7).unwrap();
    assert_eq!(&given[4..], &[3; 16]);
    mode.remove_node(9);
    assert!(mode.get_nodes().is_empty());
    mode.stop();
    assert!(mode.enroll(&join, [3; 16], 7).is_none());
}

#[test]
fn gateways_ask_for_a_certificate() {
    let mut service = ProvisioningService::new(&[0x01, 0x23, 0xAB], true, false);
    assert_eq!(service.gateway_id(), "0123ab");
    assert_eq!(service.config().site_id, "SITE-001");
    assert!(matches!(service.status(), ProvisioningStatus::NotProvisioned));
    let subject = service.subject();
    assert_eq!(
        (subject.common_name, subject.organization, subject.unit),
        ("0123ab", "Float Gateway", "IoT Gateway")
    );
    let request = service.generate_csr().unwrap();
    assert!(request.starts_with("-----BEGIN CERTIFICATE REQUEST-----"));
    assert!(request.trim_end().ends_with("-----END CERTIFICATE REQUEST-----"));
    assert!(request.lines().count() > 2);
    assert_ne!(service.generate_csr().unwrap(), request);
    service.begin();
    assert!(matches!(service.status(), ProvisioningStatus::Provisioning));
    service.complete();
    assert!(matches!(service.status(), ProvisioningStatus::Provisioned));
    assert!(is_provisioned(true, true));
    assert!(!is_provisioned(false, true));
    assert_eq!(
        ProvisioningError::AteccError(text()).message(),
        "ATECC608B error: x"
    );
    assert_eq!(ProvisioningError::CaRequest(text()).message(), "CA request error: x");
    assert_eq!(ProvisioningError::CaResponse(text()).message(), "CA response error: x");
    assert_eq!(ProvisioningError::FileDelete(text()).message(), "File delete error: x");
    assert_eq!(
        ProvisioningError::ConfigNotMounted.message(),
        "Config partition not mounted"
    );
    assert_eq!(ProvisioningError::NotProvisioned.message(), "Gateway not provisioned");
}

#[test]
fn fixes_are_awaited() {
    let mut service = GnssService::new();
    assert!(matches!(service.get_fix(), Err(GnssError::NotEnabled)));
    service.enable();
    assert!(service.is_enabled());
    assert!(service.get_fix().is_ok());
    assert!(GnssService::check_time(30, 30).is_ok());
    assert!(matches!(GnssService::check_time(31, 30), Err(GnssError::Timeout)));
    assert_eq!(GnssService::wait_for_fix(0), FixStep::Wait);
    assert_eq!(GnssService::wait_for_fix(1), FixStep::Accept);
    assert_eq!(GnssError::NotEnabled.message(), "GNSS not enabled");
    assert_eq!(GnssError::Timeout.message(), "GNSS fix timeout");
    assert_eq!(GnssError::ModemError(text()).message(), "Modem error: x");
    assert_eq!(RtcSync::date_argument(1_700_000_000_999), "@1700000000");
    assert_eq!(RtcError::Hwclock(text()).message(), "hwclock error: x");
}
