use pigg::controller::{ConnectionTarget, IpAddress};
use pigg::discovery::{
    mdns_removed_key, device_key, mdns_device, usb_device, DiscoveryEvent, DiscoveryMethod, DiscoveryTracker, SsidSpec, WiFiDetails,
};
use pigg::pins::HardwareDetails;
use pigg::serial::serial_number;
use pigg::status::MessageMessage::{Error, Info, Warning};
use pigg::status::{MessageQueue, MessageRow, MessageRowMessage, StatusMessage, StatusMessageQueue};
use pigg::piggui::{Message as PigguiMessage, Piggui};
use pigg::config::GPIOConfig;
use pigg::pins::{gpio_pin_descriptions, PinDescriptionSet, PinFunction};
use pigg::ui::{Gpio, Layout, Message};
use pigg::usb::{
        alternate_setting_disconnects, dispatch, ControlRequest, Dispatch, PorkyRequest, Recipient, RequestType,
        GET_CONFIG_VALUE, HW_CONFIG_MESSAGE_VALUE, PIGGUI_REQUEST,
    };
use pigg::wifi::{join_auth, JoinAuth};

#[test]
fn errors_first() {
    let mut queue: MessageQueue = Default::default();

    queue.add_message(Info("shown".into()));
    assert!(queue.showing_info_message());
    assert_eq!(queue.current_message, Some(Info("shown".into())));

    // Add three more messages that should be queued up
    queue.add_message(Info("last".into()));
    queue.add_message(Error("first".into(), "Details".into()));
    queue.add_message(Warning("middle".into()));
    assert_eq!(queue.queue.len(), 3);

    // clear the current message, it should be replaced by highest priority message in the queue
    queue.clear_message();
    assert_eq!(queue.current_message, Some(Error("first".into(), "Details".into())));
    assert_eq!(queue.queue.len(), 2);

    queue.clear_message();
    assert_eq!(queue.current_message, Some(Warning("middle".into())));
    assert_eq!(queue.queue.len(), 1);

    queue.clear_message();
    assert_eq!(queue.current_message, Some(Info("last".into())));
    assert_eq!(queue.queue.len(), 0);
}

#[test]
fn equal_priority_follows_text_order() {
    let mut row = MessageRow::new();
    row.add_message(Info("shown".into()));
    row.add_message(Warning("alpha".into()));
    row.add_message(Warning("beta".into()));
    row.update(MessageRowMessage::ClearStatusMessage);
    assert_eq!(row.message_queue.current_message, Some(Warning("beta".into())));
    row.update(MessageRowMessage::ClearStatusMessage);
    assert_eq!(row.message_queue.current_message, Some(Warning("alpha".into())));
    row.update(MessageRowMessage::ClearStatusMessage);
    assert_eq!(row.message_queue.current_message, None);
}

#[test]
fn status_queue_shows_latest() {
    let mut q = StatusMessageQueue::default();
    assert!(q.peek().is_none());
    q.add(StatusMessage::Warning("w".into()));
    q.add(StatusMessage::Error("e".into(), "details".into(), true));
    assert_eq!(q.peek().map(|m| m.text()), Some("e".to_string()));
}

fn details(serial: &str, wifi: bool) -> HardwareDetails {
    HardwareDetails {
        hardware: "RP2040".to_string(),
        revision: String::new(),
        serial: serial.to_string(),
        model: "Pi Pico W".to_string(),
        wifi,
        app_name: "porky".to_string(),
        app_version: "0.1".to_string(),
    }
}

#[test]
fn keys_are_serial_and_method() {
    assert_eq!(device_key("e66", DiscoveryMethod::USBRaw), "e66/USB");
    assert_eq!(device_key("e66", DiscoveryMethod::Mdns), "e66/TCP");
    assert_eq!(device_key("e66", DiscoveryMethod::IrohLocalSwarm), "e66/Iroh network");
}

#[test]
fn same_device_scanned_twice_is_found_once() {
    let mut tracker = DiscoveryTracker::new();
    let first = tracker.scan(vec![usb_device(details("abc", false), None)]);
    assert_eq!(first.len(), 1);
    assert!(matches!(&first[0], DiscoveryEvent::DeviceFound(k, _) if k == "abc/USB"));
    let second = tracker.scan(vec![usb_device(details("abc", false), None)]);
    assert!(second.is_empty());
    let third = tracker.scan(vec![
        mdns_device("abc".into(), "m".into(), "a".into(), "v".into(), [192, 168, 1, 2], 1234),
        mdns_device("abc".into(), "m".into(), "a".into(), "v".into(), [192, 168, 1, 2], 1234),
    ]);
    assert_eq!(third.len(), 2);
    assert!(matches!(&third[0], DiscoveryEvent::DeviceFound(k, _) if k == "abc/TCP"));
    assert!(matches!(&third[1], DiscoveryEvent::DeviceLost(k) if k == "abc/USB"));
}

#[test]
fn usb_device_targets() {
    let wifi = WiFiDetails {
        ssid_spec: Some(SsidSpec { ssid_name: "n".into(), ssid_pass: "p".into(), ssid_security: "wpa2".into() }),
        tcp: Some(([10, 0, 0, 5], 1234)),
    };
    let (key, device) = usb_device(details("s1", true), Some(wifi));
    assert_eq!(key, "s1/USB");
    assert_eq!(device.hardware_connections.len(), 2);
    assert!(matches!(device.hardware_connections[0], ConnectionTarget::Tcp(IpAddress::V4([10, 0, 0, 5]), 1234)));
    assert!(matches!(&device.hardware_connections[1], ConnectionTarget::Usb(s) if s == "s1"));
    assert_eq!(device.ssid_spec.map(|s| s.ssid_name), Some("n".to_string()));
    let (_, plain) = usb_device(details("s2", false), None);
    assert_eq!(plain.hardware_connections.len(), 1);
}

#[test]
fn serial_number_is_little_endian_hex() {
    assert_eq!(serial_number(0x0123_4567_89ab_cdef), "efcdab8967452301");
    assert_eq!(serial_number(0), "0000000000000000");
    assert_eq!(serial_number(0xff), "ff00000000000000");
}

#[test]
fn piggui_follows_connections_and_devices() {
    let mut app = Piggui::new(Some("board.pigg".to_string()), ConnectionTarget::Local);
    assert_eq!(app.title(), "board.pigg");
    app.unsaved_changes = true;
    app.connect(ConnectionTarget::Usb("abc".into()));
    assert_eq!(app.title(), "piggui");
    assert!(!app.unsaved_changes);
    let (key, device) = usb_device(details("abc", false), None);
    app.device_event(DiscoveryEvent::DeviceFound(key.clone(), device.clone()));
    app.device_event(DiscoveryEvent::DeviceFound(key.clone(), device));
    assert_eq!(app.discovered_devices.len(), 1);
    app.device_event(DiscoveryEvent::DeviceLost(key));
    assert!(app.discovered_devices.is_empty());
    app.disconnected();
    assert!(matches!(app.hardware_connection, ConnectionTarget::NoConnection));
    assert_eq!(
        app.info_row.message_row.message_queue.current_message,
        Some(Info("Device Found".into()))
    );
    app.device_event(DiscoveryEvent::Error("boom".into()));
    assert_eq!(app.info_row.message_row.message_queue.queue.len(), 4);
}

#[test]
fn layout_window_records_choices() {
    let mut gpio = Gpio::new(None, PinDescriptionSet::new(gpio_pin_descriptions()), GPIOConfig::new());
    assert_eq!(gpio.pin_function_selected.len(), 40);
    assert_eq!(gpio.title(), "Piggui");
    gpio.update(Message::PinFunctionSelected(3, PinFunction::Output(None)));
    gpio.update(Message::LayoutChanged(Layout::Logical));
    gpio.update(Message::Activate);
    assert_eq!(gpio.pin_function_selected[3], Some(PinFunction::Output(None)));
    assert_eq!(gpio.chosen_layout, Layout::Logical);
    assert!(gpio.clicked);
}

#[test]
fn usb_requests_are_dispatched_by_interface_and_value() {
    let req = ControlRequest {
        request_type: RequestType::Vendor,
        recipient: Recipient::Interface,
        request: PIGGUI_REQUEST,
        value: HW_CONFIG_MESSAGE_VALUE,
        index: 0,
    };
    assert_eq!(dispatch(&req, 0, true), Dispatch::Request(PorkyRequest::SendHardwareConfigMessage));
    assert_eq!(dispatch(&req, 0, false), Dispatch::Unknown);
    assert_eq!(dispatch(&req, 1, true), Dispatch::NotOurs);
    let get = ControlRequest { value: GET_CONFIG_VALUE, ..req };
    assert_eq!(dispatch(&get, 0, false), Dispatch::Request(PorkyRequest::GetConfig));
    let class = ControlRequest { request_type: RequestType::Class, ..req };
    assert_eq!(dispatch(&class, 0, true), Dispatch::NotOurs);
    let unknown = ControlRequest { value: 999, ..req };
    assert_eq!(dispatch(&unknown, 0, true), Dispatch::Unknown);
    assert!(alternate_setting_disconnects(0, 0));
    assert!(!alternate_setting_disconnects(0, 1));
}

#[test]
fn wifi_security_names() {
    assert_eq!(join_auth(&"open".to_string()), Some(JoinAuth::Open));
    assert_eq!(join_auth(&"wpa".to_string()), Some(JoinAuth::Wpa));
    assert_eq!(join_auth(&"wpa2".to_string()), Some(JoinAuth::Wpa2));
    assert_eq!(join_auth(&"wpa3".to_string()), Some(JoinAuth::Wpa3));
    assert_eq!(join_auth(&"wep".to_string()), None);
}

#[test]
fn piggui_updates() {
    let mut app = Piggui::new(None, ConnectionTarget::NoConnection);
    assert_eq!(app.title(), "piggui");
    app.update(PigguiMessage::ConfigLoaded("a.pigg".to_string(), GPIOConfig::new()));
    assert_eq!(app.title(), "a.pigg");
    app.update(PigguiMessage::ConfigChangesMade);
    assert!(app.unsaved_changes);
    app.update(PigguiMessage::ConfigSaved);
    assert!(!app.unsaved_changes);
    assert_eq!(
        app.info_row.message_row.message_queue.current_message,
        Some(Info("File saved successfully".into()))
    );
    app.update(PigguiMessage::ConnectRequest(ConnectionTarget::Tcp(IpAddress::V4([1, 2, 3, 4]), 80)));
    assert!(matches!(app.hardware_connection, ConnectionTarget::Tcp(_, 80)));
    assert_eq!(app.config_filename, None);
    app.update(PigguiMessage::ConnectionError("refused".to_string()));
    app.update(PigguiMessage::InfoRow(MessageRowMessage::ClearStatusMessage));
    assert_eq!(
        app.info_row.message_row.message_queue.current_message,
        Some(Error("Connection Error".into(), "refused".into()))
    );
    app.update(PigguiMessage::Disconnected);
    assert!(matches!(app.hardware_connection, ConnectionTarget::NoConnection));
}

#[test]
fn removed_service_gives_lost_key() {
    assert_eq!(mdns_removed_key("e6614c._pigg._tcp.local."), Some("e6614c/TCP".to_string()));
    assert_eq!(mdns_removed_key("abc._pigg._tcp.local."), Some("abc/TCP".to_string()));
    assert_eq!(mdns_removed_key(".x"), Some("/TCP".to_string()));
    assert_eq!(mdns_removed_key("nodot"), None);
}

#[test]
fn disconnected_tells_the_user() {
    let mut app = Piggui::new(None, ConnectionTarget::Local);
    app.disconnected();
    assert_eq!(
        app.info_row.message_row.message_queue.current_message,
        Some(Info("Disconnected from hardware".into()))
    );
}

#[test]
fn repeated_mdns_resolution_is_found_once() {
    let mut tracker = DiscoveryTracker::new();
    let (k, d) = mdns_device("s9".into(), "m".into(), "a".into(), "v".into(), [10, 0, 0, 2], 80);
    let first = tracker.resolved(k.clone(), d);
    assert!(matches!(&first, Some(DiscoveryEvent::DeviceFound(key, _)) if key == "s9/TCP"));
    let (k2, d2) = mdns_device("s9".into(), "m".into(), "a".into(), "v".into(), [10, 0, 0, 2], 80);
    assert!(tracker.resolved(k2, d2).is_none());
    let lost_key = mdns_removed_key("s9._pigg._tcp.local.").expect("has a dot");
    assert!(matches!(tracker.removed(&lost_key), Some(DiscoveryEvent::DeviceLost(key)) if key == "s9/TCP"));
    assert!(tracker.removed(&lost_key).is_none());
}

#[test]
fn loaded_config_is_kept() {
    let mut app = Piggui::new(None, ConnectionTarget::Local);
    let mut c = GPIOConfig::new();
    c.insert(9, PinFunction::Output(Some(false)));
    app.update(PigguiMessage::ConfigLoaded("b.pigg".into(), c));
    assert_eq!(
        app.hardware_config.map(|c| c.configured_pins),
        Some(vec![(9, PinFunction::Output(Some(false)))])
    );
}
