//! The USB vendor requests of a device: which control transfers it answers, and the signal
//! that the host went away.

use vstd::prelude::*;
use crate::codec::{encode_hardware_description, encode_hardware_details, encode_hw_description, encode_details};
use crate::discovery::WiFiDetails;
use crate::pins::HardwareDescription;
use crate::ssid::{decode_ssid_spec, encode_wifi, encode_wifi_details, ssid_bytes};
use crate::codec::{decode, decoded, encode, encode_config, encode_config_entries, encode_message};
use crate::config::GPIOConfig;
use crate::discovery::SsidSpec;
use crate::message::HardwareConfigMessage;

verus! {

/// The `request` field of every vendor request of the protocol.
pub const PIGGUI_REQUEST: u8 = 0xB0;

/// The `value` field of each vendor request.
pub const GET_HARDWARE_DESCRIPTION_VALUE: u16 = 1;
pub const GET_HARDWARE_DETAILS_VALUE: u16 = 2;
pub const GET_WIFI_VALUE: u16 = 3;
pub const GET_CONFIG_VALUE: u16 = 4;
pub const GET_CONFIG_MESSAGE_VALUE: u16 = 5;
pub const SET_SSID_VALUE: u16 = 6;
pub const RESET_SSID_VALUE: u16 = 7;
pub const HW_CONFIG_MESSAGE_VALUE: u16 = 8;

/// The type of a control request.
#[derive(Clone, Copy, Debug, PartialEq, Eq, Structural)]
pub enum RequestType {
    Standard,
    Class,
    Vendor,
    Reserved,
}

/// The recipient of a control request.
#[derive(Clone, Copy, Debug, PartialEq, Eq, Structural)]
pub enum Recipient {
    Device,
    Interface,
    Endpoint,
    Other,
    Reserved,
}

/// The setup fields of a control transfer that the device looks at.
#[derive(Clone, Copy, Debug, PartialEq, Eq, Structural)]
pub struct ControlRequest {
    pub request_type: RequestType,
    pub recipient: Recipient,
    pub request: u8,
    pub value: u16,
    pub index: u16,
}

/// A request of the protocol, by meaning.
#[derive(Clone, Copy, Debug, PartialEq, Eq, Structural)]
pub enum PorkyRequest {
    GetHardwareDescription,
    GetHardwareDetails,
    GetWifiDetails,
    GetConfig,
    GetConfigMessage,
    SetSsid,
    ResetSsid,
    SendHardwareConfigMessage,
}

/// How the device treats a control request.
#[derive(Clone, Copy, Debug, PartialEq, Eq, Structural)]
pub enum Dispatch {
    /// Not a vendor request to this interface: left to the USB stack.
    NotOurs,
    /// A vendor request to this interface that the protocol does not define: rejected.
    Unknown,
    /// A request of the protocol.
    Request(PorkyRequest),
}

pub open spec fn request_of_value(value: u16) -> Option<PorkyRequest> {
    if value == GET_HARDWARE_DESCRIPTION_VALUE {
        Some(PorkyRequest::GetHardwareDescription)
    } else if value == GET_HARDWARE_DETAILS_VALUE {
        Some(PorkyRequest::GetHardwareDetails)
    } else if value == GET_WIFI_VALUE {
        Some(PorkyRequest::GetWifiDetails)
    } else if value == GET_CONFIG_VALUE {
        Some(PorkyRequest::GetConfig)
    } else if value == GET_CONFIG_MESSAGE_VALUE {
        Some(PorkyRequest::GetConfigMessage)
    } else if value == SET_SSID_VALUE {
        Some(PorkyRequest::SetSsid)
    } else if value == RESET_SSID_VALUE {
        Some(PorkyRequest::ResetSsid)
    } else if value == HW_CONFIG_MESSAGE_VALUE {
        Some(PorkyRequest::SendHardwareConfigMessage)
    } else {
        None
    }
}

/// Requests that carry data from the host to the device.
pub open spec fn is_out_request(r: PorkyRequest) -> bool {
    r is SetSsid || r is ResetSsid || r is SendHardwareConfigMessage
}

/// How a control request addressed to interface `interface` is treated, for the direction
/// given by `host_to_device`: only vendor requests to this interface are ours, and of those
/// only the protocol's request with a value defined for that direction is known.
pub open spec fn dispatch_spec(req: ControlRequest, interface: u8, host_to_device: bool) -> Dispatch {
    if req.request_type != RequestType::Vendor || req.recipient != Recipient::Interface
        || req.index != interface as u16 {
        Dispatch::NotOurs
    } else if req.request != PIGGUI_REQUEST {
        Dispatch::Unknown
    } else {
        match request_of_value(req.value) {
            Some(p) => if is_out_request(p) == host_to_device {
                Dispatch::Request(p)
            } else {
                Dispatch::Unknown
            },
            None => Dispatch::Unknown,
        }
    }
}

/// How a control request is treated.
pub fn dispatch(req: &ControlRequest, interface: u8, host_to_device: bool) -> (r: Dispatch)
    ensures
        r == dispatch_spec(*req, interface, host_to_device),
{
    if req.request_type != RequestType::Vendor || req.recipient != Recipient::Interface
        || req.index != interface as u16 {
        return Dispatch::NotOurs;
    }
    if req.request != PIGGUI_REQUEST {
        return Dispatch::Unknown;
    }
    let p = if req.value == GET_HARDWARE_DESCRIPTION_VALUE {
        PorkyRequest::GetHardwareDescription
    } else if req.value == GET_HARDWARE_DETAILS_VALUE {
        PorkyRequest::GetHardwareDetails
    } else if req.value == GET_WIFI_VALUE {
        PorkyRequest::GetWifiDetails
    } else if req.value == GET_CONFIG_VALUE {
        PorkyRequest::GetConfig
    } else if req.value == GET_CONFIG_MESSAGE_VALUE {
        PorkyRequest::GetConfigMessage
    } else if req.value == SET_SSID_VALUE {
        PorkyRequest::SetSsid
    } else if req.value == RESET_SSID_VALUE {
        PorkyRequest::ResetSsid
    } else if req.value == HW_CONFIG_MESSAGE_VALUE {
        PorkyRequest::SendHardwareConfigMessage
    } else {
        return Dispatch::Unknown;
    };
    let out = match p {
        PorkyRequest::SetSsid | PorkyRequest::ResetSsid | PorkyRequest::SendHardwareConfigMessage => true,
        _ => false,
    };
    if out == host_to_device {
        Dispatch::Request(p)
    } else {
        Dispatch::Unknown
    }
}

/// The host reset interface 0 to its default alternate setting: it went away, which ends the
/// session as a `Disconnect` would.
pub fn alternate_setting_disconnects(interface: u8, alternate_setting: u8) -> (r: bool)
    ensures
        r == (interface == 0 && alternate_setting == 0),
{
    interface == 0 && alternate_setting == 0
}

/// The device's answer to a control request from the host.
pub enum InReply {
    /// Not a vendor request to this interface: left to the USB stack.
    Ignored,
    /// Refused.
    Rejected,
    /// Accepted, with these bytes.
    Accepted(Vec<u8>),
}

/// Answer a device-to-host control request: the description, the details or the Wi-Fi
/// report of the device, its current configuration, or the event waiting to be sent, if
/// any; any other request to this interface is refused.
pub fn control_in_reply(
    req: &ControlRequest,
    interface: u8,
    desc: &HardwareDescription,
    wifi: &WiFiDetails,
    config: &GPIOConfig,
    pending: &Option<HardwareConfigMessage>,
) -> (r: InReply)
    ensures
        match dispatch_spec(*req, interface, false) {
            Dispatch::NotOurs => r is Ignored,
            Dispatch::Request(PorkyRequest::GetHardwareDescription) => r is Accepted
                && r->Accepted_0@ == encode_hw_description(*desc),
            Dispatch::Request(PorkyRequest::GetHardwareDetails) => r is Accepted
                && r->Accepted_0@ == encode_details(desc.details),
            Dispatch::Request(PorkyRequest::GetWifiDetails) => r is Accepted
                && r->Accepted_0@ == encode_wifi(*wifi),
            Dispatch::Request(PorkyRequest::GetConfig) => r is Accepted
                && r->Accepted_0@ == encode_config(config.entries()),
            Dispatch::Request(PorkyRequest::GetConfigMessage) => match pending {
                Some(m) => r is Accepted && r->Accepted_0@ == encode_message(m@),
                None => r is Rejected,
            },
            _ => r is Rejected,
        },
{
    match dispatch(req, interface, false) {
        Dispatch::NotOurs => InReply::Ignored,
        Dispatch::Request(PorkyRequest::GetHardwareDescription) => InReply::Accepted(
            encode_hardware_description(desc),
        ),
        Dispatch::Request(PorkyRequest::GetHardwareDetails) => InReply::Accepted(
            encode_hardware_details(&desc.details),
        ),
        Dispatch::Request(PorkyRequest::GetWifiDetails) => InReply::Accepted(encode_wifi_details(wifi)),
        Dispatch::Request(PorkyRequest::GetConfig) => InReply::Accepted(encode_config_entries(config)),
        Dispatch::Request(PorkyRequest::GetConfigMessage) => match pending {
            Some(m) => InReply::Accepted(encode(m)),
            None => InReply::Rejected,
        },
        _ => InReply::Rejected,
    }
}

/// What the device does with a host-to-device control request.
pub enum OutReply {
    /// Not a vendor request to this interface: left to the USB stack.
    Ignored,
    /// Refused.
    Rejected,
    /// Store these network credentials, then restart.
    SetSsid(SsidSpec),
    /// Delete the stored network credentials, then restart.
    ResetSsid,
    /// Queue this message for the session loop.
    Message(HardwareConfigMessage),
}

/// Take a host-to-device control request with its data: credentials and configuration
/// messages are accepted only when the data decodes exactly; other requests to this
/// interface are refused.
pub fn control_out_reply(req: &ControlRequest, interface: u8, data: &[u8]) -> (r: OutReply)
    ensures
        match dispatch_spec(*req, interface, true) {
            Dispatch::NotOurs => r is Ignored,
            Dispatch::Request(PorkyRequest::SetSsid) => match r {
                OutReply::SetSsid(s) => ssid_bytes(s.ssid_name@, s.ssid_pass@, s.ssid_security@) == data@,
                OutReply::Rejected => forall|x: Seq<char>, y: Seq<char>, z: Seq<char>| #[trigger] ssid_bytes(x, y, z) != data@,
                _ => false,
            },
            Dispatch::Request(PorkyRequest::ResetSsid) => r is ResetSsid,
            Dispatch::Request(PorkyRequest::SendHardwareConfigMessage) => match r {
                OutReply::Message(m) => decoded(data@) == Some(m@),
                OutReply::Rejected => decoded(data@) is None,
                _ => false,
            },
            _ => r is Rejected,
        },
{
    match dispatch(req, interface, true) {
        Dispatch::NotOurs => OutReply::Ignored,
        Dispatch::Request(PorkyRequest::SetSsid) => match decode_ssid_spec(data) {
            Some(s) => OutReply::SetSsid(s),
            None => OutReply::Rejected,
        },
        Dispatch::Request(PorkyRequest::ResetSsid) => OutReply::ResetSsid,
        Dispatch::Request(PorkyRequest::SendHardwareConfigMessage) => match decode(data) {
            Ok(m) => OutReply::Message(m),
            Err(_) => OutReply::Rejected,
        },
        _ => OutReply::Rejected,
    }
}

} // verus!
