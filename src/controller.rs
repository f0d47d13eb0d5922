//! The connection state machine of a controller: it owns the current target, opens and closes
//! the connection to it, forwards commands, and turns what the device sends into events.

use vstd::prelude::*;
use crate::codec::{decode, decoded, encode, encode_message};
use crate::config::GPIOConfig;
use crate::message::{HardwareConfigMessage, LevelChange, MessageView};
use crate::pins::HardwareDescription;
use crate::pins::BCMPinNumber;

verus! {

/// An IP address, as the octets of a version 4 or version 6 address.
#[derive(Clone, Copy, Debug, PartialEq, Eq)]
pub enum IpAddress {
    V4([u8; 4]),
    V6([u8; 16]),
}

/// Where a controller should connect.
#[derive(Clone, Debug)]
pub enum ConnectionTarget {
    /// No target: wait for one.
    NoConnection,
    /// The pins of the machine the controller runs on.
    Local,
    /// A device attached by USB, by serial number.
    Usb(String),
    /// A device listening on TCP.
    Tcp(IpAddress, u16),
    /// A peer-to-peer endpoint, by node id, with the relay it advertised, if any.
    P2P(String, Option<String>),
}

/// A request from the user interface.
pub enum SubscriberMessage {
    /// Drop the current connection, if any, and connect to a new target.
    NewConnection(ConnectionTarget),
    /// Send a message to the connected device.
    Hardware(HardwareConfigMessage),
}

/// What happens to the controller.
pub enum ControllerEvent {
    /// A request from the user interface.
    Request(SubscriberMessage),
    /// The connection to the target was established, with the description and the
    /// configuration the device sent first.
    ConnectSucceeded(HardwareDescription, GPIOConfig),
    /// The connection to the target could not be established.
    ConnectFailed(String),
    /// Bytes arrived from the device; none means the device closed the connection.
    Received(Vec<u8>),
    /// The transport failed or the device closed the connection.
    TransportLost(String),
}

/// The kind of an error reported to the user interface.
#[derive(Clone, Copy, Debug, PartialEq, Eq, Structural)]
pub enum ControllerErrorKind {
    ConnectFailed,
    TransportLost,
    HardwareEvent,
}

/// What the controller must do, in order.
pub enum ControllerAction {
    /// Connect to the current target.
    Connect,
    /// Close the current connection.
    Disconnect,
    /// Send these bytes to the device.
    Send(Vec<u8>),
    /// Tell the user interface the connection is up, with the description and configuration
    /// that came with it.
    PublishConnected(HardwareDescription, GPIOConfig),
    /// Tell the user interface an input changed level.
    PublishInputChange(BCMPinNumber, LevelChange),
    /// Tell the user interface something failed.
    ReportError(ControllerErrorKind, String),
    /// A request that came while connecting: deliver it again once the attempt is over.
    Deferred(SubscriberMessage),
}

/// A controller action as a mathematical value.
pub enum ControllerActionView {
    Connect,
    Disconnect,
    Send(Seq<u8>),
    PublishConnected(HardwareDescription, GPIOConfig),
    PublishInputChange(BCMPinNumber, LevelChange),
    ReportError(ControllerErrorKind, Seq<char>),
    Deferred(SubscriberMessage),
}

impl View for ControllerAction {
    type V = ControllerActionView;

    open spec fn view(&self) -> ControllerActionView {
        match self {
            ControllerAction::Connect => ControllerActionView::Connect,
            ControllerAction::Disconnect => ControllerActionView::Disconnect,
            ControllerAction::Send(b) => ControllerActionView::Send(b@),
            ControllerAction::PublishConnected(d, c) => ControllerActionView::PublishConnected(*d, *c),
            ControllerAction::PublishInputChange(p, l) => ControllerActionView::PublishInputChange(*p, *l),
            ControllerAction::ReportError(k, s) => ControllerActionView::ReportError(*k, s@),
            ControllerAction::Deferred(m) => ControllerActionView::Deferred(*m),
        }
    }
}

pub open spec fn action_views(a: Seq<ControllerAction>) -> Seq<ControllerActionView> {
    a.map_values(|x: ControllerAction| x@)
}

/// The phase of the connection to the current target.
#[derive(Clone, Copy, Debug, PartialEq, Eq, Structural)]
pub enum ConnectionState {
    Disconnected,
    Connecting,
    Connected,
}

/// The phase after `e` in phase `s`.
pub open spec fn next_state(s: ConnectionState, e: ControllerEvent) -> ConnectionState {
    match (s, e) {
        (ConnectionState::Disconnected, ControllerEvent::Request(SubscriberMessage::NewConnection(t)))
        | (ConnectionState::Connected, ControllerEvent::Request(SubscriberMessage::NewConnection(t))) => {
            if t is NoConnection {
                ConnectionState::Disconnected
            } else {
                ConnectionState::Connecting
            }
        },
        (ConnectionState::Connecting, ControllerEvent::ConnectSucceeded(_, _)) => ConnectionState::Connected,
        (ConnectionState::Connecting, ControllerEvent::ConnectFailed(_)) => ConnectionState::Disconnected,
        (ConnectionState::Connected, ControllerEvent::TransportLost(_)) => ConnectionState::Disconnected,
        (ConnectionState::Connected, ControllerEvent::Received(bytes)) => if bytes@.len() == 0 {
            ConnectionState::Disconnected
        } else {
            s
        },
        _ => s,
    }
}

/// The actions for `e` in phase `s`.
pub open spec fn step_actions(s: ConnectionState, e: ControllerEvent) -> Seq<ControllerActionView> {
    match (s, e) {
        (ConnectionState::Disconnected, ControllerEvent::Request(SubscriberMessage::NewConnection(t))) => {
            if t is NoConnection {
                Seq::empty()
            } else {
                seq![ControllerActionView::Connect]
            }
        },
        (ConnectionState::Connected, ControllerEvent::Request(SubscriberMessage::NewConnection(t))) => {
            if t is NoConnection {
                seq![ControllerActionView::Disconnect]
            } else {
                seq![ControllerActionView::Disconnect, ControllerActionView::Connect]
            }
        },
        (ConnectionState::Connected, ControllerEvent::Request(SubscriberMessage::Hardware(m))) => seq![
            ControllerActionView::Send(encode_message(m@)),
        ],
        (ConnectionState::Connecting, ControllerEvent::ConnectSucceeded(d, c)) => seq![
            ControllerActionView::PublishConnected(d, c),
        ],
        (ConnectionState::Connecting, ControllerEvent::ConnectFailed(err)) => seq![
            ControllerActionView::ReportError(ControllerErrorKind::ConnectFailed, err@),
        ],
        (ConnectionState::Connected, ControllerEvent::TransportLost(err)) => seq![
            ControllerActionView::ReportError(ControllerErrorKind::TransportLost, err@),
        ],
        (ConnectionState::Connected, ControllerEvent::Received(bytes)) => if bytes@.len() == 0 {
            seq![
                ControllerActionView::ReportError(
                    ControllerErrorKind::TransportLost,
                    "End of message stream"@,
                ),
            ]
        } else {
            match decoded(bytes@) {
                Some(MessageView::IOLevelChanged(p, l)) => seq![
                    ControllerActionView::PublishInputChange(p, l),
                ],
                Some(_) => seq![
                    ControllerActionView::ReportError(
                        ControllerErrorKind::HardwareEvent,
                        "Hardware event error"@,
                    ),
                ],
                None => Seq::empty(),
            }
        },
        (ConnectionState::Connecting, ControllerEvent::Request(m)) => seq![
            ControllerActionView::Deferred(m),
        ],
        _ => Seq::empty(),
    }
}

/// The number of open connections a phase stands for.
pub open spec fn open_connections(s: ConnectionState) -> nat {
    if s is Connected {
        1
    } else {
        0
    }
}

/// A connection is opened by a successful connect and closed by `Disconnect` or by its loss.
pub open spec fn opened_by(s: ConnectionState, e: ControllerEvent) -> nat {
    if s is Connecting && e is ConnectSucceeded {
        1
    } else {
        0
    }
}

pub open spec fn closed_by(s: ConnectionState, e: ControllerEvent) -> nat {
    if step_actions(s, e).contains(ControllerActionView::Disconnect) || (s is Connected
        && next_state(s, e) is Disconnected && !(e is Request)) {
        1
    } else {
        0
    }
}

/// Each step keeps the count of open connections equal to what the phase stands for, so a
/// controller never holds more than one: a new connection is only attempted once the current
/// one is closed, and only a connect in progress can succeed.
pub proof fn lemma_at_most_one_connection(s: ConnectionState, e: ControllerEvent)
    ensures
        open_connections(next_state(s, e)) + closed_by(s, e) == open_connections(s) + opened_by(s, e),
        open_connections(next_state(s, e)) <= 1,
        step_actions(s, e).contains(ControllerActionView::Connect) ==> (s is Connected ==> step_actions(
            s,
            e,
        )[0] == ControllerActionView::Disconnect) && next_state(s, e) is Connecting,
{
    let acts = step_actions(s, e);
    match (s, e) {
        (ConnectionState::Connected, ControllerEvent::Request(SubscriberMessage::NewConnection(t))) => {
            assert(acts[0] == ControllerActionView::Disconnect);
        },
        (ConnectionState::Connected, ControllerEvent::Received(bytes)) => {
            if acts.contains(ControllerActionView::Disconnect) {
                let i = choose|i: int| 0 <= i < acts.len() && acts[i] == ControllerActionView::Disconnect;
                assert(acts[i] != ControllerActionView::Disconnect);
            }
            if acts.contains(ControllerActionView::Connect) {
                let i = choose|i: int| 0 <= i < acts.len() && acts[i] == ControllerActionView::Connect;
                assert(acts[i] != ControllerActionView::Connect);
            }
        },
        _ => {
            if acts.contains(ControllerActionView::Disconnect) {
                let i = choose|i: int| 0 <= i < acts.len() && acts[i] == ControllerActionView::Disconnect;
            }
            if acts.contains(ControllerActionView::Connect) {
                let i = choose|i: int| 0 <= i < acts.len() && acts[i] == ControllerActionView::Connect;
            }
        },
    }
}

/// The controller: its current target and the phase of the connection to it.
pub struct Controller {
    state: ConnectionState,
    target: ConnectionTarget,
}

impl Controller {
    pub closed spec fn state(&self) -> ConnectionState {
        self.state
    }

    pub closed spec fn target(&self) -> ConnectionTarget {
        self.target
    }

    /// A controller with no target: it waits for a request.
    pub fn new() -> (r: Controller)
        ensures
            r.state() == ConnectionState::Disconnected,
            r.target() is NoConnection,
    {
        Controller { state: ConnectionState::Disconnected, target: ConnectionTarget::NoConnection }
    }

    /// The phase of the connection.
    pub fn connection_state(&self) -> (r: ConnectionState)
        ensures
            r == self.state(),
    {
        self.state
    }

    /// The current target.
    pub fn current_target(&self) -> (r: &ConnectionTarget)
        ensures
            *r == self.target(),
    {
        &self.target
    }

    /// Take one event and say what to do. A connect attempt is not retried: on failure the
    /// controller drops the target and waits for a new request. A request that comes while
    /// connecting is handed back to be delivered again; a command with no connection is
    /// dropped.
    pub fn step(&mut self, e: ControllerEvent) -> (r: Vec<ControllerAction>)
        ensures
            final(self).state() == next_state(old(self).state(), e),
            action_views(r@) == step_actions(old(self).state(), e),
            match e {
                ControllerEvent::Request(SubscriberMessage::NewConnection(t)) => if old(self).state()
                    is Connecting {
                    final(self).target() == old(self).target()
                } else {
                    final(self).target() == t
                },
                ControllerEvent::ConnectFailed(_) => if old(self).state() is Connecting {
                    final(self).target() is NoConnection
                } else {
                    final(self).target() == old(self).target()
                },
                ControllerEvent::TransportLost(_) => if old(self).state() is Connected {
                    final(self).target() is NoConnection
                } else {
                    final(self).target() == old(self).target()
                },
                ControllerEvent::Received(bytes) => if old(self).state() is Connected && bytes@.len() == 0 {
                    final(self).target() is NoConnection
                } else {
                    final(self).target() == old(self).target()
                },
                _ => final(self).target() == old(self).target(),
            },
    {
        let ghost s0 = self.state;
        let ghost e0 = e;
        let mut r: Vec<ControllerAction> = Vec::new();
        match e {
            ControllerEvent::Request(SubscriberMessage::NewConnection(t)) => {
                match self.state {
                    ConnectionState::Connecting => {
                        r.push(ControllerAction::Deferred(SubscriberMessage::NewConnection(t)));
                    },
                    _ => {
                        if let ConnectionState::Connected = self.state {
                            r.push(ControllerAction::Disconnect);
                        }
                        let none = matches!(t, ConnectionTarget::NoConnection);
                        self.target = t;
                        if none {
                            self.state = ConnectionState::Disconnected;
                        } else {
                            r.push(ControllerAction::Connect);
                            self.state = ConnectionState::Connecting;
                        }
                    },
                }
            },
            ControllerEvent::Request(SubscriberMessage::Hardware(m)) => {
                match self.state {
                    ConnectionState::Connected => r.push(ControllerAction::Send(encode(&m))),
                    ConnectionState::Connecting => r.push(
                        ControllerAction::Deferred(SubscriberMessage::Hardware(m)),
                    ),
                    ConnectionState::Disconnected => {},
                }
            },
            ControllerEvent::ConnectSucceeded(desc, config) => {
                if let ConnectionState::Connecting = self.state {
                    self.state = ConnectionState::Connected;
                    r.push(ControllerAction::PublishConnected(desc, config));
                }
            },
            ControllerEvent::ConnectFailed(err) => {
                if let ConnectionState::Connecting = self.state {
                    self.state = ConnectionState::Disconnected;
                    self.target = ConnectionTarget::NoConnection;
                    r.push(ControllerAction::ReportError(ControllerErrorKind::ConnectFailed, err));
                }
            },
            ControllerEvent::Received(bytes) => {
                if let ConnectionState::Connected = self.state {
                    if bytes.len() == 0 {
                        self.state = ConnectionState::Disconnected;
                        self.target = ConnectionTarget::NoConnection;
                        r.push(
                            ControllerAction::ReportError(
                                ControllerErrorKind::TransportLost,
                                "End of message stream".to_string(),
                            ),
                        );
                    } else {
                        match decode(bytes.as_slice()) {
                            Ok(HardwareConfigMessage::IOLevelChanged(p, l)) => {
                                r.push(ControllerAction::PublishInputChange(p, l));
                            },
                            Ok(_) => {
                                r.push(
                                    ControllerAction::ReportError(
                                        ControllerErrorKind::HardwareEvent,
                                        "Hardware event error".to_string(),
                                    ),
                                );
                            },
                            Err(_) => {},
                        }
                    }
                }
            },
            ControllerEvent::TransportLost(err) => {
                if let ConnectionState::Connected = self.state {
                    self.state = ConnectionState::Disconnected;
                    self.target = ConnectionTarget::NoConnection;
                    r.push(ControllerAction::ReportError(ControllerErrorKind::TransportLost, err));
                }
            },
        }
        assert(action_views(r@) =~= step_actions(s0, e0));
        r
    }
}

} // verus!
