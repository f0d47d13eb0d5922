use pigg::codec::encode;
use pigg::config::GPIOConfig;
use pigg::controller::{
    ConnectionState, ConnectionTarget, Controller, ControllerAction, ControllerErrorKind, ControllerEvent,
    IpAddress, SubscriberMessage,
};
use pigg::device::{DeviceAction, DeviceSession, SessionState};
use pigg::message::{HardwareConfigMessage, LevelChange, Uptime};
use pigg::persist::StoreOp;
use pigg::pins::{PinDescription, gpio_pin_descriptions, hardware_description, HardwareDescription, HardwareDetails, InputPull, PinDescriptionSet, PinFunction};
use pigg::retry::{run_attempts, RetryDecision, RetryPolicy};

fn config_of(entries: &[(u8, PinFunction)]) -> GPIOConfig {
    let mut c = GPIOConfig::new();
    for (b, f) in entries {
        c.insert(*b, *f);
    }
    c
}

fn connected_device(config: GPIOConfig) -> DeviceSession {
    let mut d = DeviceSession::new(PinDescriptionSet::new(gpio_pin_descriptions()), config);
    let actions = d.accept();
    assert!(matches!(actions[..], [DeviceAction::SendDescription]));
    assert_eq!(d.session_state(), SessionState::Connected);
    d
}

fn sent(actions: &[DeviceAction]) -> Vec<Vec<u8>> {
    actions
        .iter()
        .filter_map(|a| match a {
            DeviceAction::Send(b) => Some(b.clone()),
            _ => None,
        })
        .collect()
}

fn stores(actions: &[DeviceAction]) -> Vec<StoreOp> {
    actions
        .iter()
        .filter_map(|a| match a {
            DeviceAction::Store(op) => Some(*op),
            _ => None,
        })
        .collect()
}

#[test]
fn scenario_new_config_then_get_config() {
    let mut d = connected_device(GPIOConfig::new());
    let wanted = config_of(&[(3, PinFunction::Output(Some(true)))]);
    let bytes = encode(&HardwareConfigMessage::NewConfig(wanted.clone()));
    let actions = d.receive(&bytes);
    assert!(matches!(actions[0], DeviceAction::ApplyPin(3, Some(PinFunction::Output(Some(true))))));
    let reply = d.receive(&encode(&HardwareConfigMessage::GetConfig));
    assert_eq!(sent(&reply), vec![encode(&HardwareConfigMessage::NewConfig(wanted))]);
}

#[test]
fn scenario_disconnect_then_accept_again() {
    let mut d = connected_device(GPIOConfig::new());
    let actions = d.receive(&encode(&HardwareConfigMessage::Disconnect));
    assert!(actions.is_empty());
    assert_eq!(d.session_state(), SessionState::Listening);
    let actions = d.accept();
    assert!(matches!(actions[..], [DeviceAction::SendDescription]));
    assert_eq!(d.session_state(), SessionState::Connected);
}

#[test]
fn scenario_malformed_buffer_keeps_session() {
    let mut d = connected_device(config_of(&[(4, PinFunction::Input(None))]));
    let actions = d.receive(&[0xff, 0x01, 0x02]);
    assert!(actions.is_empty());
    assert_eq!(d.session_state(), SessionState::Connected);
    assert_eq!(d.config().configured_pins, vec![(4, PinFunction::Input(None))]);
    let actions = d.receive(&encode(&HardwareConfigMessage::NewPinConfig(4, None)));
    assert!(matches!(actions[..], [DeviceAction::ApplyPin(4, None), DeviceAction::Store(StoreOp::Delete(4))]));
    assert!(d.config().configured_pins.is_empty());
}

#[test]
fn empty_read_ends_session() {
    let mut d = connected_device(GPIOConfig::new());
    assert!(d.receive(&[]).is_empty());
    assert_eq!(d.session_state(), SessionState::Listening);
}

#[test]
fn same_new_config_twice_is_idempotent() {
    let mut d = connected_device(GPIOConfig::new());
    let c = config_of(&[(5, PinFunction::Input(Some(InputPull::PullUp))), (6, PinFunction::Output(None))]);
    let first = d.handle(&HardwareConfigMessage::NewConfig(c.clone()));
    let after_once = d.config().configured_pins.clone();
    let second = d.handle(&HardwareConfigMessage::NewConfig(c));
    assert_eq!(d.config().configured_pins, after_once);
    assert_eq!(stores(&first), stores(&second));
    assert_eq!(
        stores(&first),
        vec![
            StoreOp::ClearPins,
            StoreOp::Write(5, PinFunction::Input(Some(InputPull::PullUp))),
            StoreOp::Write(6, PinFunction::Output(None))
        ]
    );
    // the input is reported back
    assert!(matches!(first.last(), Some(DeviceAction::ReportInputLevel(5))));
}

#[test]
fn fixed_purpose_pins_are_never_configured() {
    let mut d = connected_device(GPIOConfig::new());
    let c = config_of(&[
        (0, PinFunction::Output(None)),
        (1, PinFunction::Input(None)),
        (2, PinFunction::Ground),
        (17, PinFunction::Output(Some(false))),
        (40, PinFunction::Output(None)),
    ]);
    let actions = d.handle(&HardwareConfigMessage::NewConfig(c));
    assert!(matches!(actions[0], DeviceAction::Reject(0)));
    assert!(matches!(actions[1], DeviceAction::Reject(1)));
    assert!(matches!(actions[2], DeviceAction::Reject(2)));
    assert!(matches!(actions[3], DeviceAction::ApplyPin(17, _)));
    assert!(matches!(actions[4], DeviceAction::Reject(40)));
    assert_eq!(d.config().configured_pins, vec![(17, PinFunction::Output(Some(false)))]);
    let actions = d.handle(&HardwareConfigMessage::NewPinConfig(0, Some(PinFunction::Output(None))));
    assert!(matches!(actions[..], [DeviceAction::Reject(0)]));
    let level = LevelChange::new(true, Uptime { secs: 1, nanos: 2 });
    let actions = d.handle(&HardwareConfigMessage::IOLevelChanged(1, level));
    assert!(matches!(actions[..], [DeviceAction::Reject(1)]));
    assert_eq!(d.config().len(), 1);
}

#[test]
fn boot_config_keeps_only_configurable_pins() {
    let d = DeviceSession::new(
        PinDescriptionSet::new(gpio_pin_descriptions()),
        config_of(&[(1, PinFunction::Output(None)), (26, PinFunction::Input(Some(InputPull::PullUp)))]),
    );
    assert_eq!(d.session_state(), SessionState::Listening);
    assert_eq!(d.config().configured_pins, vec![(26, PinFunction::Input(Some(InputPull::PullUp)))]);
    let actions = d.apply_current();
    assert!(matches!(actions[..], [DeviceAction::ApplyPin(26, Some(PinFunction::Input(Some(InputPull::PullUp))))]));
}

#[test]
fn output_level_is_written_and_remembered() {
    let mut d = connected_device(GPIOConfig::new());
    let level = LevelChange::new(true, Uptime { secs: 1, nanos: 2 });
    let actions = d.handle(&HardwareConfigMessage::IOLevelChanged(17, level));
    assert!(matches!(
        actions[..],
        [DeviceAction::SetOutputLevel(17, true), DeviceAction::Store(StoreOp::Write(17, PinFunction::Output(Some(true))))]
    ));
    assert_eq!(d.config().get(17), Some(PinFunction::Output(Some(true))));
    let actions = d.handle(&HardwareConfigMessage::NewPinConfig(22, Some(PinFunction::Input(None))));
    assert!(matches!(actions[..], [DeviceAction::ApplyPin(22, _), DeviceAction::Store(_), DeviceAction::ReportInputLevel(22)]));
}

#[test]
fn input_events_reach_only_a_connected_peer() {
    let mut d = connected_device(GPIOConfig::new());
    let level = LevelChange::new(false, Uptime { secs: 3, nanos: 0 });
    assert_eq!(
        d.input_changed(4, level),
        Some(encode(&HardwareConfigMessage::IOLevelChanged(4, level)))
    );
    d.connection_lost();
    assert_eq!(d.input_changed(4, level), None);
}

fn tcp_target() -> ConnectionTarget {
    ConnectionTarget::Tcp(IpAddress::V4([10, 0, 0, 1]), 9001)
}

#[test]
fn controller_closes_before_connecting_elsewhere() {
    let mut c = Controller::new();
    assert_eq!(c.connection_state(), ConnectionState::Disconnected);
    let a = c.step(ControllerEvent::Request(SubscriberMessage::NewConnection(tcp_target())));
    assert!(matches!(a[..], [ControllerAction::Connect]));
    assert_eq!(c.connection_state(), ConnectionState::Connecting);
    let (desc, config) = connected_pair();
    let a = c.step(ControllerEvent::ConnectSucceeded(desc, config));
    match &a[..] {
        [ControllerAction::PublishConnected(d, c)] => {
            assert_eq!(d.details.serial, "s1");
            assert_eq!(c.configured_pins, vec![(3, PinFunction::Output(Some(true)))]);
        }
        _ => panic!("expected one connected event"),
    }
    assert_eq!(c.connection_state(), ConnectionState::Connected);
    let a = c.step(ControllerEvent::Request(SubscriberMessage::NewConnection(ConnectionTarget::Usb("abc".to_string()))));
    assert!(matches!(a[..], [ControllerAction::Disconnect, ControllerAction::Connect]));
    assert_eq!(c.connection_state(), ConnectionState::Connecting);
    assert!(matches!(c.current_target(), ConnectionTarget::Usb(s) if s == "abc"));
}

#[test]
fn controller_does_not_retry_a_failed_connect() {
    let mut c = Controller::new();
    c.step(ControllerEvent::Request(SubscriberMessage::NewConnection(ConnectionTarget::Local)));
    let a = c.step(ControllerEvent::ConnectFailed("refused".to_string()));
    assert!(matches!(&a[..], [ControllerAction::ReportError(ControllerErrorKind::ConnectFailed, s)] if s == "refused"));
    assert_eq!(c.connection_state(), ConnectionState::Disconnected);
    assert!(matches!(c.current_target(), ConnectionTarget::NoConnection));
}

#[test]
fn controller_forwards_commands_and_events() {
    let mut c = Controller::new();
    c.step(ControllerEvent::Request(SubscriberMessage::NewConnection(tcp_target())));
    let (desc, config) = connected_pair();
    c.step(ControllerEvent::ConnectSucceeded(desc, config));
    let a = c.step(ControllerEvent::Request(SubscriberMessage::Hardware(HardwareConfigMessage::GetConfig)));
    assert!(matches!(&a[..], [ControllerAction::Send(b)] if *b == vec![3u8]));
    let level = LevelChange::new(true, Uptime { secs: 9, nanos: 9 });
    let a = c.step(ControllerEvent::Received(encode(&HardwareConfigMessage::IOLevelChanged(7, level))));
    assert!(matches!(&a[..], [ControllerAction::PublishInputChange(7, l)] if *l == level));
    let a = c.step(ControllerEvent::Received(encode(&HardwareConfigMessage::GetConfig)));
    assert!(matches!(a[..], [ControllerAction::ReportError(ControllerErrorKind::HardwareEvent, _)]));
    assert_eq!(c.connection_state(), ConnectionState::Connected);
    let a = c.step(ControllerEvent::Received(vec![0xee]));
    assert!(a.is_empty());
    let a = c.step(ControllerEvent::TransportLost("closed".to_string()));
    assert!(matches!(a[..], [ControllerAction::ReportError(ControllerErrorKind::TransportLost, _)]));
    assert_eq!(c.connection_state(), ConnectionState::Disconnected);
    assert!(matches!(c.current_target(), ConnectionTarget::NoConnection));
}

#[test]
fn scenario_bind_succeeds_on_fourth_attempt() {
    assert_eq!(run_attempts(RetryPolicy::tcp_bind(), &vec![false, false, false, true]), Some(3));
    assert_eq!(run_attempts(RetryPolicy::tcp_bind(), &vec![false, false, false, false, true]), None);
    assert_eq!(run_attempts(RetryPolicy::wifi_join(), &vec![false, false, false, true]), None);
}

#[test]
fn retry_decisions() {
    let mut p = RetryPolicy::tcp_bind();
    assert_eq!(p.failed(), RetryDecision::RetryAfter(10));
    assert_eq!(p.failed(), RetryDecision::RetryAfter(10));
    assert_eq!(p.failed(), RetryDecision::RetryAfter(10));
    assert!(p.may_attempt());
    assert_eq!(p.failed(), RetryDecision::GiveUp);
    assert!(!p.may_attempt());
}

#[test]
fn controller_treats_empty_read_as_stream_end() {
    let mut c = Controller::new();
    c.step(ControllerEvent::Request(SubscriberMessage::NewConnection(tcp_target())));
    let (desc, config) = connected_pair();
    c.step(ControllerEvent::ConnectSucceeded(desc, config));
    let a = c.step(ControllerEvent::Received(vec![]));
    assert!(matches!(a[..], [ControllerAction::ReportError(ControllerErrorKind::TransportLost, _)]));
    assert_eq!(c.connection_state(), ConnectionState::Disconnected);
    assert!(matches!(c.current_target(), ConnectionTarget::NoConnection));
}

fn connected_pair() -> (HardwareDescription, GPIOConfig) {
    let details = HardwareDetails {
        hardware: "h".into(),
        revision: "r".into(),
        serial: "s1".into(),
        model: "m".into(),
        wifi: false,
        app_name: "a".into(),
        app_version: "v".into(),
    };
    (hardware_description(details), config_of(&[(3, PinFunction::Output(Some(true)))]))
}

#[test]
fn refused_pin_is_left_out() {
    let mut d = connected_device(GPIOConfig::new());
    let c = config_of(&[(4, PinFunction::Input(None)), (5, PinFunction::Output(None))]);
    let actions = d.handle(&HardwareConfigMessage::NewConfig(c));
    assert!(stores(&actions).contains(&StoreOp::Write(5, PinFunction::Output(None))));
    // the hardware refused pin 5
    let more = d.pin_apply_failed(5);
    assert!(matches!(more[..], [DeviceAction::Store(StoreOp::Delete(5))]));
    assert_eq!(d.config().configured_pins, vec![(4, PinFunction::Input(None))]);
    assert_eq!(d.session_state(), SessionState::Connected);
}

#[test]
fn refused_pin_gets_its_earlier_setting_back() {
    let mut d = connected_device(config_of(&[(4, PinFunction::Input(None))]));
    let actions = d.handle(&HardwareConfigMessage::NewPinConfig(4, Some(PinFunction::Output(Some(true)))));
    assert!(matches!(actions[0], DeviceAction::ApplyPin(4, Some(PinFunction::Output(Some(true))))));
    assert_eq!(d.config().get(4), Some(PinFunction::Output(Some(true))));
    // the hardware refused the output
    let more = d.pin_apply_failed(4);
    assert!(matches!(more[..], [DeviceAction::Store(StoreOp::Write(4, PinFunction::Input(None)))]));
    assert_eq!(d.config().configured_pins, vec![(4, PinFunction::Input(None))]);
}

#[test]
fn controller_hands_back_requests_while_connecting() {
    let mut c = Controller::new();
    c.step(ControllerEvent::Request(SubscriberMessage::NewConnection(tcp_target())));
    let a = c.step(ControllerEvent::Request(SubscriberMessage::Hardware(HardwareConfigMessage::GetConfig)));
    assert!(matches!(&a[..], [ControllerAction::Deferred(SubscriberMessage::Hardware(HardwareConfigMessage::GetConfig))]));
    let a = c.step(ControllerEvent::Request(SubscriberMessage::NewConnection(ConnectionTarget::Local)));
    assert!(matches!(&a[..], [ControllerAction::Deferred(SubscriberMessage::NewConnection(ConnectionTarget::Local))]));
    assert_eq!(c.connection_state(), ConnectionState::Connecting);
    assert!(matches!(c.current_target(), ConnectionTarget::Tcp(_, 9001)));
}

#[test]
fn single_option_pins_are_fixed_purpose() {
    let pins = vec![
        PinDescription { board_pin_number: 1, bcm_pin_number: Some(5), name: "only out".into(), options: vec![PinFunction::Output(None)] },
        PinDescription { board_pin_number: 2, bcm_pin_number: Some(6), name: "io".into(), options: vec![PinFunction::Input(None), PinFunction::Output(None)] },
    ];
    let set = PinDescriptionSet::new(pins);
    assert!(!set.is_configurable(5));
    assert!(set.is_configurable(6));
}
