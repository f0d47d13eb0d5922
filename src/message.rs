//! The messages of the control protocol.

use vstd::prelude::*;
use crate::config::{sorted_keys, HardwareConfig};
use crate::pins::{BCMPinNumber, PinFunction, PinLevel};

verus! {

/// Time elapsed since the device booted. It is not wall-clock time and is only comparable
/// between events of the same device.
#[derive(Clone, Copy, Debug, PartialEq, Eq, Structural)]
pub struct Uptime {
    pub secs: u64,
    pub nanos: u32,
}

/// A change of the level of a pin, stamped with the device's uptime.
#[derive(Clone, Copy, Debug, PartialEq, Eq, Structural)]
pub struct LevelChange {
    pub new_level: PinLevel,
    pub timestamp: Uptime,
}

impl LevelChange {
    /// A level change to `new_level` at uptime `timestamp`.
    pub fn new(new_level: PinLevel, timestamp: Uptime) -> (r: LevelChange)
        ensures
            r.new_level == new_level,
            r.timestamp == timestamp,
    {
        LevelChange { new_level, timestamp }
    }
}

/// The commands and events exchanged once a connection is established.
#[derive(Clone, Debug)]
pub enum HardwareConfigMessage {
    /// Replace the whole configuration.
    NewConfig(HardwareConfig),
    /// Configure one pin; `None` removes its configuration.
    NewPinConfig(BCMPinNumber, Option<PinFunction>),
    /// The level of a pin changed (an input read, or an output written).
    IOLevelChanged(BCMPinNumber, LevelChange),
    /// Ask for the current configuration.
    GetConfig,
    /// End the session.
    Disconnect,
}

/// A message as a mathematical value; a configuration is its list of entries.
pub enum MessageView {
    NewConfig(Seq<(BCMPinNumber, PinFunction)>),
    NewPinConfig(BCMPinNumber, Option<PinFunction>),
    IOLevelChanged(BCMPinNumber, LevelChange),
    GetConfig,
    Disconnect,
}

impl MessageView {
    /// A configuration inside the message has at most one entry per pin, in increasing order.
    pub open spec fn wf(self) -> bool {
        match self {
            MessageView::NewConfig(s) => sorted_keys(s),
            _ => true,
        }
    }
}

impl View for HardwareConfigMessage {
    type V = MessageView;

    open spec fn view(&self) -> MessageView {
        match self {
            HardwareConfigMessage::NewConfig(c) => MessageView::NewConfig(c.entries()),
            HardwareConfigMessage::NewPinConfig(p, f) => MessageView::NewPinConfig(*p, *f),
            HardwareConfigMessage::IOLevelChanged(p, l) => MessageView::IOLevelChanged(*p, *l),
            HardwareConfigMessage::GetConfig => MessageView::GetConfig,
            HardwareConfigMessage::Disconnect => MessageView::Disconnect,
        }
    }
}

impl HardwareConfigMessage {
    pub open spec fn wf(&self) -> bool {
        self@.wf()
    }
}

} // verus!
