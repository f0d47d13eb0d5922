//! Transport-agnostic GPIO control: the protocol model, its wire encoding, the device and
//! controller state machines, persistence of pin configurations and device discovery.

pub mod pins;
pub mod config;
pub mod message;
pub mod codec;
pub mod handshake;
pub mod persist;
pub mod device;
pub mod controller;
pub mod discovery;
pub mod retry;
pub mod serial;
pub mod ssid;
pub mod status;
pub mod piggui;
pub mod ui;
pub mod usb;
pub mod wifi;
