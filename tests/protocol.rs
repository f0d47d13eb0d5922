use pigg::codec::{decode, decode_pin_function, encode, encode_config_message, encode_description, encode_pin_function};
use pigg::handshake::{decode_description, decode_hardware_description, decode_hardware_details};
use pigg::codec::{decode_config, encode_hardware_description, encode_hardware_details};
use pigg::discovery::WiFiDetails;
use pigg::ssid::{decode_wifi_details, encode_wifi_details};
use pigg::usb::{control_in_reply, ControlRequest, InReply, Recipient, RequestType, GET_CONFIG_VALUE, GET_CONFIG_MESSAGE_VALUE, GET_HARDWARE_DESCRIPTION_VALUE, HW_CONFIG_MESSAGE_VALUE, SET_SSID_VALUE, RESET_SSID_VALUE, control_out_reply, OutReply, GET_HARDWARE_DETAILS_VALUE, GET_WIFI_VALUE, PIGGUI_REQUEST};
use pigg::discovery::SsidSpec;
use pigg::ssid::{decode_ssid_spec, encode_ssid_spec};
use pigg::config::GPIOConfig;
use pigg::message::{HardwareConfigMessage, LevelChange, Uptime};
use pigg::persist::{store_ops, StoreOp};
use pigg::pins::{hardware_description, HardwareDetails, InputPull, PinFunction};

fn config_of(entries: &[(u8, PinFunction)]) -> GPIOConfig {
    let mut c = GPIOConfig::new();
    for (b, f) in entries {
        c.insert(*b, *f);
    }
    c
}

fn same(a: &HardwareConfigMessage, b: &HardwareConfigMessage) -> bool {
    match (a, b) {
        (HardwareConfigMessage::NewConfig(x), HardwareConfigMessage::NewConfig(y)) => x.configured_pins == y.configured_pins,
        (HardwareConfigMessage::NewPinConfig(p, f), HardwareConfigMessage::NewPinConfig(q, g)) => p == q && f == g,
        (HardwareConfigMessage::IOLevelChanged(p, l), HardwareConfigMessage::IOLevelChanged(q, k)) => p == q && l == k,
        (HardwareConfigMessage::GetConfig, HardwareConfigMessage::GetConfig) => true,
        (HardwareConfigMessage::Disconnect, HardwareConfigMessage::Disconnect) => true,
        _ => false,
    }
}

fn all_messages() -> Vec<HardwareConfigMessage> {
    vec![
        HardwareConfigMessage::NewConfig(GPIOConfig::new()),
        HardwareConfigMessage::NewConfig(config_of(&[
            (3, PinFunction::Output(Some(true))),
            (17, PinFunction::Input(Some(InputPull::PullDown))),
            (200, PinFunction::Ground),
        ])),
        HardwareConfigMessage::NewPinConfig(3, None),
        HardwareConfigMessage::NewPinConfig(4, Some(PinFunction::Input(Some(InputPull::NoPull)))),
        HardwareConfigMessage::NewPinConfig(255, Some(PinFunction::Output(None))),
        HardwareConfigMessage::IOLevelChanged(
            5,
            LevelChange::new(true, Uptime { secs: u64::MAX, nanos: u32::MAX }),
        ),
        HardwareConfigMessage::IOLevelChanged(6, LevelChange::new(false, Uptime { secs: 0, nanos: 999_999_999 })),
        HardwareConfigMessage::GetConfig,
        HardwareConfigMessage::Disconnect,
    ]
}

#[test]
fn every_variant_round_trips() {
    for m in all_messages() {
        let bytes = encode(&m);
        let back = decode(&bytes).expect("decodes");
        assert!(same(&m, &back), "{m:?} came back as {back:?}");
    }
}

#[test]
fn exact_encodings() {
    assert_eq!(encode(&HardwareConfigMessage::GetConfig), vec![3]);
    assert_eq!(encode(&HardwareConfigMessage::Disconnect), vec![4]);
    assert_eq!(
        encode(&HardwareConfigMessage::NewPinConfig(3, Some(PinFunction::Output(Some(true))))),
        vec![1, 3, 1, 5, 1, 1]
    );
    assert_eq!(
        encode(&HardwareConfigMessage::NewConfig(config_of(&[(3, PinFunction::Output(Some(true)))]))),
        vec![0, 1, 3, 5, 1, 1]
    );
    assert_eq!(
        encode(&HardwareConfigMessage::IOLevelChanged(2, LevelChange::new(true, Uptime { secs: 300, nanos: 1 }))),
        vec![2, 2, 1, 0xAC, 0x02, 1]
    );
    let c = config_of(&[(7, PinFunction::Input(Some(InputPull::PullUp)))]);
    assert_eq!(encode_config_message(&c), vec![0, 1, 7, 4, 1, 0]);
}

#[test]
fn malformed_buffers_are_refused() {
    assert!(decode(&[]).is_err());
    assert!(decode(&[9]).is_err());
    assert!(decode(&[3, 0]).is_err());
    assert!(decode(&[1, 3]).is_err());
    assert!(decode(&[1, 3, 1, 5, 1]).is_err());
    assert!(decode(&[1, 3, 1, 5, 1, 2]).is_err());
    // entries out of order
    assert!(decode(&[0, 2, 5, 0, 3, 0]).is_err());
    // two entries for one pin
    assert!(decode(&[0, 2, 5, 0, 5, 0]).is_err());
    // overlong varint for a zero
    assert!(decode(&[2, 2, 1, 0x80, 0x00, 0]).is_err());
    // nanoseconds beyond 32 bits
    assert!(decode(&[2, 2, 1, 0, 0x80, 0x80, 0x80, 0x80, 0x10]).is_err());
    // truncated level change
    assert!(decode(&[2, 2, 1, 0x80]).is_err());
}

#[test]
fn truncations_of_valid_messages_are_refused() {
    for m in all_messages() {
        let bytes = encode(&m);
        for n in 0..bytes.len() {
            assert!(decode(&bytes[..n]).is_err(), "prefix {n} of {m:?}");
        }
    }
}

#[test]
fn store_ops_follow_the_change() {
    let c = config_of(&[(4, PinFunction::Input(None)), (9, PinFunction::Output(None))]);
    assert_eq!(
        store_ops(&HardwareConfigMessage::NewConfig(c)),
        vec![
            StoreOp::ClearPins,
            StoreOp::Write(4, PinFunction::Input(None)),
            StoreOp::Write(9, PinFunction::Output(None))
        ]
    );
    assert_eq!(store_ops(&HardwareConfigMessage::NewPinConfig(4, None)), vec![StoreOp::Delete(4)]);
    assert_eq!(
        store_ops(&HardwareConfigMessage::IOLevelChanged(9, LevelChange::new(true, Uptime { secs: 1, nanos: 0 }))),
        vec![StoreOp::Write(9, PinFunction::Output(Some(true)))]
    );
    assert!(store_ops(&HardwareConfigMessage::GetConfig).is_empty());
}

#[test]
fn stored_function_records_round_trip() {
    for f in [
        PinFunction::Unassigned,
        PinFunction::Ground,
        PinFunction::Input(Some(InputPull::PullDown)),
        PinFunction::Output(Some(false)),
        PinFunction::I2C_EEPROM_ID_SC,
    ] {
        assert_eq!(decode_pin_function(&encode_pin_function(f)), Some(f));
    }
    assert_eq!(decode_pin_function(&[5, 1, 1, 0]), None);
    assert_eq!(decode_pin_function(&[8]), None);
}

#[test]
fn handshake_starts_with_details() {
    let details = HardwareDetails {
        hardware: "ab".to_string(),
        revision: String::new(),
        serial: "s".to_string(),
        model: "m".to_string(),
        wifi: false,
        app_name: "x".to_string(),
        app_version: "1".to_string(),
    };
    let desc = hardware_description(details);
    let config = config_of(&[(3, PinFunction::Output(Some(true)))]);
    let bytes = encode_description(&desc, &config);
    assert_eq!(&bytes[..12], &[2, b'a', b'b', 0, 1, b's', 1, b'm', 0, 1, b'x', 1]);
    assert_eq!(bytes[12], b'1');
    assert_eq!(bytes[13], 40);
    // first pin: board 1, no BCM number, "3V3", one option: Power3V3
    assert_eq!(&bytes[14..22], &[1, 0, 3, b'3', b'V', b'3', 1, 2]);
    assert_eq!(&bytes[bytes.len() - 5..], &[1, 3, 5, 1, 1]);
}

#[test]
fn handshake_round_trips() {
    let details = HardwareDetails {
        hardware: "BCM2711".to_string(),
        revision: "c03111".to_string(),
        serial: "10000000abcdef01".to_string(),
        model: "Raspberry Pi 4 Model B Rev 1.1 — ünïcode".to_string(),
        wifi: true,
        app_name: "piglet".to_string(),
        app_version: "0.6.0".to_string(),
    };
    let desc = hardware_description(details);
    let config = config_of(&[(4, PinFunction::Input(Some(InputPull::PullUp))), (17, PinFunction::Output(Some(true)))]);
    let bytes = encode_description(&desc, &config);
    let (d, c) = decode_description(&bytes).expect("decodes");
    assert_eq!(d.details.model, desc.details.model);
    assert_eq!(d.details.serial, desc.details.serial);
    assert!(d.details.wifi);
    assert_eq!(d.pins.pins().len(), 40);
    assert_eq!(d.pins.pins()[2].name, "GPIO2");
    assert_eq!(d.pins.bcm_to_board(17), Some(11));
    assert_eq!(c.configured_pins, config.configured_pins);
    // the same bytes again give the same encoding
    assert_eq!(encode_description(&d, &c), bytes);
    // truncated, extended or corrupted handshakes are refused
    assert!(decode_description(&bytes[..bytes.len() - 1]).is_none());
    let mut longer = bytes.clone();
    longer.push(0);
    assert!(decode_description(&longer).is_none());
    let mut bad_utf8 = bytes.clone();
    bad_utf8[1] = 0xff;
    assert!(decode_description(&bad_utf8).is_none());
    assert!(decode_description(&[]).is_none());
}

#[test]
fn ssid_credentials_round_trip() {
    use_ssid();
}

fn use_ssid() {
    let spec = SsidSpec { ssid_name: "home".into(), ssid_pass: "letmein".into(), ssid_security: "wpa2".into() };
    let bytes = encode_ssid_spec(&spec);
    assert_eq!(&bytes[..5], &[4, b'h', b'o', b'm', b'e']);
    let back = decode_ssid_spec(&bytes).expect("decodes");
    assert_eq!(back.ssid_name, "home");
    assert_eq!(back.ssid_pass, spec.ssid_pass);
    assert_eq!(back.ssid_security, "wpa2");
    assert!(decode_ssid_spec(&bytes[..bytes.len() - 1]).is_none());
    assert!(decode_ssid_spec(&[1, b'a', 0]).is_none());
}

fn sample_details() -> HardwareDetails {
    HardwareDetails {
        hardware: "RP2040".to_string(),
        revision: String::new(),
        serial: "e6614c".to_string(),
        model: "Pi Pico W".to_string(),
        wifi: true,
        app_name: "porky".to_string(),
        app_version: "0.1".to_string(),
    }
}

fn sample_wifi() -> WiFiDetails {
    WiFiDetails {
        ssid_spec: Some(SsidSpec { ssid_name: "net".into(), ssid_pass: "letmein".into(), ssid_security: "wpa3".into() }),
        tcp: Some(([192, 168, 1, 9], 1234)),
    }
}

#[test]
fn usb_replies_decode_to_what_the_device_has() {
    let desc = hardware_description(sample_details());
    let wifi = sample_wifi();
    let req = ControlRequest {
        request_type: RequestType::Vendor,
        recipient: Recipient::Interface,
        request: PIGGUI_REQUEST,
        value: GET_HARDWARE_DESCRIPTION_VALUE,
        index: 0,
    };
    match control_in_reply(&req, 0, &desc, &wifi, &config_of(&[]), &None) {
        InReply::Accepted(bytes) => {
            let d = decode_hardware_description(&bytes).expect("decodes");
            assert_eq!(d.details.serial, "e6614c");
            assert_eq!(d.pins.pins().len(), 40);
            assert_eq!(bytes, encode_hardware_description(&desc));
        }
        _ => panic!("description refused"),
    }
    match control_in_reply(&ControlRequest { value: GET_HARDWARE_DETAILS_VALUE, ..req }, 0, &desc, &wifi, &config_of(&[]), &None) {
        InReply::Accepted(bytes) => {
            let d = decode_hardware_details(&bytes).expect("decodes");
            assert_eq!(d.model, "Pi Pico W");
            assert_eq!(bytes, encode_hardware_details(&desc.details));
        }
        _ => panic!("details refused"),
    }
    match control_in_reply(&ControlRequest { value: GET_WIFI_VALUE, ..req }, 0, &desc, &wifi, &config_of(&[]), &None) {
        InReply::Accepted(bytes) => {
            let w = decode_wifi_details(&bytes).expect("decodes");
            assert_eq!(w.tcp, Some(([192, 168, 1, 9], 1234)));
            assert_eq!(w.ssid_spec.map(|s| s.ssid_security), Some("wpa3".to_string()));
        }
        _ => panic!("wifi refused"),
    }
    let config = config_of(&[(7, PinFunction::Output(None))]);
    match control_in_reply(&ControlRequest { value: GET_CONFIG_VALUE, ..req }, 0, &desc, &wifi, &config, &None) {
        InReply::Accepted(bytes) => {
            assert_eq!(bytes, vec![1, 7, 5, 0]);
            assert_eq!(decode_config(&bytes).expect("decodes").configured_pins, config.configured_pins);
        }
        _ => panic!("config refused"),
    }
    let waiting = Some(HardwareConfigMessage::Disconnect);
    match control_in_reply(&ControlRequest { value: GET_CONFIG_MESSAGE_VALUE, ..req }, 0, &desc, &wifi, &config, &waiting) {
        InReply::Accepted(bytes) => assert_eq!(bytes, vec![4]),
        _ => panic!("message refused"),
    }
    assert!(matches!(
        control_in_reply(&ControlRequest { value: GET_CONFIG_MESSAGE_VALUE, ..req }, 0, &desc, &wifi, &config, &None),
        InReply::Rejected
    ));
    assert!(decode_config(&[1, 7, 5]).is_none());
    assert!(matches!(control_in_reply(&ControlRequest { value: 77, ..req }, 0, &desc, &wifi, &config_of(&[]), &None), InReply::Rejected));
    assert!(matches!(control_in_reply(&req, 1, &desc, &wifi, &config_of(&[]), &None), InReply::Ignored));
}

#[test]
fn wifi_details_encodings() {
    let none = WiFiDetails { ssid_spec: None, tcp: None };
    assert_eq!(encode_wifi_details(&none), vec![0, 0]);
    let tcp_only = WiFiDetails { ssid_spec: None, tcp: Some(([10, 0, 0, 1], 300)) };
    assert_eq!(encode_wifi_details(&tcp_only), vec![0, 1, 10, 0, 0, 1, 0xAC, 0x02]);
    let back = decode_wifi_details(&encode_wifi_details(&sample_wifi())).expect("decodes");
    assert_eq!(back.ssid_spec.map(|s| s.ssid_name), Some("net".to_string()));
    assert!(decode_wifi_details(&[0, 0, 0]).is_none());
    assert!(decode_wifi_details(&[0, 1, 10, 0]).is_none());
    assert!(decode_wifi_details(&[2, 0]).is_none());
    assert!(decode_hardware_details(&[]).is_none());
    assert!(decode_hardware_description(&encode_hardware_details(&sample_details())).is_none());
}

#[test]
fn usb_out_requests_accept_only_decodable_data() {
    let req = ControlRequest {
        request_type: RequestType::Vendor,
        recipient: Recipient::Interface,
        request: PIGGUI_REQUEST,
        value: HW_CONFIG_MESSAGE_VALUE,
        index: 0,
    };
    assert!(matches!(control_out_reply(&req, 0, &[3]), OutReply::Message(HardwareConfigMessage::GetConfig)));
    assert!(matches!(control_out_reply(&req, 0, &[3, 3]), OutReply::Rejected));
    assert!(matches!(control_out_reply(&req, 2, &[3]), OutReply::Ignored));
    let ssid = ControlRequest { value: SET_SSID_VALUE, ..req };
    let spec = SsidSpec { ssid_name: "n".into(), ssid_pass: "p".into(), ssid_security: "open".into() };
    match control_out_reply(&ssid, 0, &encode_ssid_spec(&spec)) {
        OutReply::SetSsid(s) => assert_eq!(s.ssid_security, "open"),
        _ => panic!("credentials refused"),
    }
    assert!(matches!(control_out_reply(&ssid, 0, &[9]), OutReply::Rejected));
    assert!(matches!(control_out_reply(&ControlRequest { value: RESET_SSID_VALUE, ..req }, 0, &[]), OutReply::ResetSsid));
    assert!(matches!(control_out_reply(&ControlRequest { value: GET_CONFIG_VALUE, ..req }, 0, &[]), OutReply::Rejected));
}
