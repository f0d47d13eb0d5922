//! The state of the controller's application window that follows connections, discovery and
//! configuration files.

use vstd::prelude::*;
use crate::config::GPIOConfig;
use crate::controller::ConnectionTarget;
use crate::discovery::{DiscoveredDevice, DiscoveryEvent};
use crate::status::{info_added, shows_or_queues, InfoRow, MessageMessage, MessageRowMessage};

verus! {

/// The keys of a list of discovered devices.
pub open spec fn device_keys(s: Seq<(String, DiscoveredDevice)>) -> Seq<Seq<char>> {
    s.map_values(|p: (String, DiscoveredDevice)| p.0@)
}

/// The entries of `s` whose key is not `k`, in order.
pub open spec fn without_key(s: Seq<(String, DiscoveredDevice)>, k: Seq<char>) -> Seq<(String, DiscoveredDevice)>
    decreases s.len(),
{
    if s.len() == 0 {
        Seq::empty()
    } else if s.last().0@ == k {
        without_key(s.drop_last(), k)
    } else {
        without_key(s.drop_last(), k).push(s.last())
    }
}

/// The application state of the controller's window.
pub struct Piggui {
    pub config_filename: Option<String>,
    pub unsaved_changes: bool,
    pub info_row: InfoRow,
    pub hardware_connection: ConnectionTarget,
    pub discovered_devices: Vec<(String, DiscoveredDevice)>,
    /// The configuration shown for the hardware, once one is loaded.
    pub hardware_config: Option<GPIOConfig>,
}

impl Piggui {
    pub open spec fn wf(&self) -> bool {
        self.info_row.message_row.message_queue.wf()
    }

    /// The state at start: the configuration file and target given on the command line.
    pub fn new(config_filename: Option<String>, target: ConnectionTarget) -> (r: Piggui)
        ensures
            r.wf(),
            r.config_filename == config_filename,
            !r.unsaved_changes,
            r.hardware_connection == target,
            r.discovered_devices@.len() == 0,
            r.hardware_config is None,
    {
        Piggui {
            config_filename,
            unsaved_changes: false,
            info_row: InfoRow::new(),
            hardware_connection: target,
            discovered_devices: Vec::new(),
            hardware_config: None,
        }
    }

    /// The connection to the hardware ended.
    pub fn disconnected(&mut self)
        requires
            old(self).wf(),
        ensures
            final(self).wf(),
            final(self).config_filename is None,
            !final(self).unsaved_changes,
            final(self).hardware_connection is NoConnection,
            final(self).discovered_devices@ == old(self).discovered_devices@,
            info_added(
                old(self).info_row.message_row.message_queue,
                final(self).info_row.message_row.message_queue,
                "Disconnected from hardware"@,
            ),
    {
        let m = MessageMessage::Info("Disconnected from hardware".to_string());
        let ghost gm = m;
        self.info_row.add_info_message(m);
        assert(shows_or_queues(old(self).info_row.message_row.message_queue, self.info_row.message_row.message_queue, gm));
        self.config_filename = None;
        self.unsaved_changes = false;
        self.hardware_connection = ConnectionTarget::NoConnection;
    }

    /// Connect to a new target, dropping the loaded file and its unsaved changes.
    pub fn connect(&mut self, new_target: ConnectionTarget)
        requires
            old(self).wf(),
        ensures
            final(self).wf(),
            final(self).config_filename is None,
            !final(self).unsaved_changes,
            final(self).hardware_connection == new_target,
            final(self).discovered_devices@ == old(self).discovered_devices@,
    {
        self.config_filename = None;
        self.unsaved_changes = false;
        self.hardware_connection = new_target;
    }

    /// The window title: the configuration file's name, or the application's.
    pub fn title(&self) -> (r: String)
        ensures
            r@ == match self.config_filename {
                Some(f) => f@,
                None => "piggui"@,
            },
    {
        match &self.config_filename {
            Some(f) => f.clone(),
            None => "piggui".to_string(),
        }
    }

    /// A device was found or lost, or discovery failed.
    pub fn device_event(&mut self, event: DiscoveryEvent)
        requires
            old(self).wf(),
        ensures
            final(self).wf(),
            final(self).config_filename == old(self).config_filename,
            final(self).unsaved_changes == old(self).unsaved_changes,
            final(self).hardware_connection == old(self).hardware_connection,
            match event {
                DiscoveryEvent::DeviceFound(k, d) => {
                    &&& device_keys(final(self).discovered_devices@) == if device_keys(
                        old(self).discovered_devices@,
                    ).contains(k@) {
                        device_keys(old(self).discovered_devices@)
                    } else {
                        device_keys(old(self).discovered_devices@).push(k@)
                    }
                    &&& exists|i: int|
                        0 <= i < final(self).discovered_devices@.len()
                            && final(self).discovered_devices@[i].0@ == k@
                            && final(self).discovered_devices@[i].1 == d
                },
                DiscoveryEvent::DeviceLost(k) => final(self).discovered_devices@ == without_key(
                    old(self).discovered_devices@,
                    k@,
                ),
                DiscoveryEvent::Error(_) => final(self).discovered_devices@ == old(self).discovered_devices@,
            },
    {
        let ghost ev = event;
        match event {
            DiscoveryEvent::DeviceFound(key, device) => {
                self.info_row.add_info_message(MessageMessage::Info("Device Found".to_string()));
                let ghost old_devices = self.discovered_devices@;
                let mut i: usize = 0;
                while i < self.discovered_devices.len() && self.discovered_devices[i].0 != key
                    invariant
                        self.discovered_devices@ == old_devices,
                        i <= old_devices.len(),
                        forall|j: int| 0 <= j < i ==> old_devices[j].0@ != key@,
                    decreases old_devices.len() - i,
                {
                    i = i + 1;
                }
                if i < self.discovered_devices.len() {
                    let ghost kv = key@;
                    self.discovered_devices.set(i, (key, device));
                    proof {
                        assert(device_keys(self.discovered_devices@) =~= device_keys(old_devices));
                        assert(device_keys(old_devices)[i as int] == kv);
                        assert(self.discovered_devices@[i as int].1 == ev->DeviceFound_1);
                    }
                } else {
                    let ghost kv = key@;
                    self.discovered_devices.push((key, device));
                    proof {
                        assert(device_keys(self.discovered_devices@) =~= device_keys(old_devices).push(kv));
                        assert forall|j: int| 0 <= j < device_keys(old_devices).len() implies device_keys(old_devices)[j] != kv by {
                            assert(old_devices[j].0@ != kv);
                        }
                        let n = old_devices.len() as int;
                        assert(self.discovered_devices@[n].1 == ev->DeviceFound_1);
                    }
                }
            },
            DiscoveryEvent::DeviceLost(key) => {
                self.info_row.add_info_message(MessageMessage::Info("Device Lost".to_string()));
                let ghost old_devices = self.discovered_devices@;
                let mut kept: Vec<(String, DiscoveredDevice)> = Vec::new();
                let mut devices: Vec<(String, DiscoveredDevice)> = Vec::new();
                std::mem::swap(&mut devices, &mut self.discovered_devices);
                let ghost mut i: int = 0;
                while devices.len() > 0
                    invariant
                        0 <= i <= old_devices.len(),
                        devices@ == old_devices.skip(i),
                        kept@ == without_key(old_devices.take(i), key@),
                    decreases devices@.len(),
                {
                    let entry = devices.remove(0);
                    proof {
                        assert(old_devices[i] == entry);
                        assert(old_devices.take(i + 1).drop_last() =~= old_devices.take(i));
                    }
                    if entry.0 != key {
                        kept.push(entry);
                    }
                    proof {
                        i = i + 1;
                        assert(devices@ =~= old_devices.skip(i));
                    }
                }
                proof {
                    assert(old_devices.take(i) =~= old_devices);
                }
                self.discovered_devices = kept;
            },
            DiscoveryEvent::Error(e) => {
                self.info_row.add_info_message(MessageMessage::Error("Connection Error".to_string(), e));
            },
        }
    }
}

/// What the application window reacts to, besides drawing.
pub enum Message {
    /// A configuration file was loaded: its name and the configuration it holds.
    ConfigLoaded(String, GPIOConfig),
    /// The configuration was saved.
    ConfigSaved,
    /// The user changed the configuration.
    ConfigChangesMade,
    /// The user asked to connect to a target.
    ConnectRequest(ConnectionTarget),
    /// The connection to the hardware is up.
    Connected,
    /// The connection to the hardware ended.
    Disconnected,
    /// Connecting failed, with details.
    ConnectionError(String),
    /// A message for the information row.
    InfoRow(MessageRowMessage),
    /// A discovery event.
    Device(DiscoveryEvent),
}

impl Piggui {
    /// React to a message.
    pub fn update(&mut self, message: Message)
        requires
            old(self).wf(),
        ensures
            final(self).wf(),
            match message {
                Message::ConfigLoaded(_, _) => final(self).config_filename == Some(message->ConfigLoaded_0)
                    && final(self).hardware_config == Some(message->ConfigLoaded_1)
                    && !final(self).unsaved_changes
                    && final(self).hardware_connection == old(self).hardware_connection,
                Message::ConfigSaved => !final(self).unsaved_changes
                    && final(self).hardware_connection == old(self).hardware_connection
                    && final(self).config_filename == old(self).config_filename
                    && info_added(
                    old(self).info_row.message_row.message_queue,
                    final(self).info_row.message_row.message_queue,
                    "File saved successfully"@,
                ),
                Message::ConfigChangesMade => final(self).unsaved_changes
                    && final(self).hardware_connection == old(self).hardware_connection
                    && final(self).config_filename == old(self).config_filename,
                Message::ConnectRequest(t) => final(self).hardware_connection == t && !final(self).unsaved_changes
                    && final(self).config_filename is None,
                Message::Disconnected => final(self).hardware_connection is NoConnection
                    && !final(self).unsaved_changes && final(self).config_filename is None,
                _ => final(self).unsaved_changes == old(self).unsaved_changes
                    && final(self).config_filename == old(self).config_filename,
            },
    {
        match message {
            Message::ConfigLoaded(filename, config) => {
                self.hardware_config = Some(config);
                self.config_filename = Some(filename);
                self.unsaved_changes = false;
            },
            Message::ConfigSaved => {
                self.unsaved_changes = false;
                let m = MessageMessage::Info("File saved successfully".to_string());
                let ghost gm = m;
                self.info_row.add_info_message(m);
                assert(shows_or_queues(
                    old(self).info_row.message_row.message_queue,
                    self.info_row.message_row.message_queue,
                    gm,
                ));
            },
            Message::ConfigChangesMade => {
                self.unsaved_changes = true;
            },
            Message::ConnectRequest(target) => self.connect(target),
            Message::Connected => {
                self.info_row.add_info_message(MessageMessage::Info("Connected to hardware".to_string()));
            },
            Message::Disconnected => self.disconnected(),
            Message::ConnectionError(details) => {
                self.info_row.add_info_message(
                    MessageMessage::Error("Connection Error".to_string(), details),
                );
            },
            Message::InfoRow(msg) => self.info_row.update(msg),
            Message::Device(event) => self.device_event(event),
        }
    }
}

} // verus!
