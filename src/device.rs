//! The session loop of a device: it applies the messages of one connected controller at a time
//! to the pins, keeps the configuration, and says what to store and what to send back.

use vstd::prelude::*;
use crate::codec::{decode, decoded, encode, encode_config_message, encode_message};
use crate::config::{map_of, sorted_keys, GPIOConfig, HardwareConfig};
use crate::message::{HardwareConfigMessage, LevelChange, MessageView};
use crate::persist::{apply_store_ops, lemma_store_new_config_idempotent, store_ops_for, StoreOp};
use crate::pins::{configurable, offers_io, BCMPinNumber, PinDescription, PinDescriptionSet, PinFunction, PinLevel};

verus! {

/// Whether a controller is connected.
#[derive(Clone, Copy, Debug, PartialEq, Eq, Structural)]
pub enum SessionState {
    Listening,
    Connected,
}

/// What the device must do for the session, in order.
#[derive(Clone, Debug)]
pub enum DeviceAction {
    /// Send the hardware description and the current configuration to the new peer.
    SendDescription,
    /// Give a pin a function, or release it (`None`).
    ApplyPin(BCMPinNumber, Option<PinFunction>),
    /// A requested pin configuration was refused: the pin is fixed-purpose or absent, or the
    /// function is not one a configuration may give.
    Reject(BCMPinNumber),
    /// Drive an output pin to a level.
    SetOutputLevel(BCMPinNumber, PinLevel),
    /// Read an input pin and send its level to the peer.
    ReportInputLevel(BCMPinNumber),
    /// Change the stored configuration.
    Store(StoreOp),
    /// Send these bytes to the peer.
    Send(Vec<u8>),
}

/// A device action as a mathematical value.
pub enum ActionView {
    SendDescription,
    ApplyPin(BCMPinNumber, Option<PinFunction>),
    Reject(BCMPinNumber),
    SetOutputLevel(BCMPinNumber, PinLevel),
    ReportInputLevel(BCMPinNumber),
    Store(StoreOp),
    Send(Seq<u8>),
}

impl View for DeviceAction {
    type V = ActionView;

    open spec fn view(&self) -> ActionView {
        match self {
            DeviceAction::SendDescription => ActionView::SendDescription,
            DeviceAction::ApplyPin(b, f) => ActionView::ApplyPin(*b, *f),
            DeviceAction::Reject(b) => ActionView::Reject(*b),
            DeviceAction::SetOutputLevel(b, l) => ActionView::SetOutputLevel(*b, *l),
            DeviceAction::ReportInputLevel(b) => ActionView::ReportInputLevel(*b),
            DeviceAction::Store(op) => ActionView::Store(*op),
            DeviceAction::Send(v) => ActionView::Send(v@),
        }
    }
}

pub open spec fn views(actions: Seq<DeviceAction>) -> Seq<ActionView> {
    actions.map_values(|a: DeviceAction| a@)
}

proof fn lemma_views_push(s: Seq<DeviceAction>, a: DeviceAction)
    ensures
        views(s.push(a)) == views(s).push(a@),
{
    assert(views(s.push(a)) =~= views(s).push(a@));
}

/// A configuration entry the device takes: a configurable pin given input or output.
pub open spec fn accepted(pins: Seq<PinDescription>, e: (BCMPinNumber, PinFunction)) -> bool {
    configurable(pins, e.0) && e.1.is_configurable()
}

/// The entries of `s` that the device takes, in order.
pub open spec fn accepted_entries(
    pins: Seq<PinDescription>,
    s: Seq<(BCMPinNumber, PinFunction)>,
) -> Seq<(BCMPinNumber, PinFunction)>
    decreases s.len(),
{
    if s.len() == 0 {
        Seq::empty()
    } else if accepted(pins, s.last()) {
        accepted_entries(pins, s.drop_last()).push(s.last())
    } else {
        accepted_entries(pins, s.drop_last())
    }
}

/// The pins of `s` configured as inputs, in order.
pub open spec fn input_pins(s: Seq<(BCMPinNumber, PinFunction)>) -> Seq<BCMPinNumber>
    decreases s.len(),
{
    if s.len() == 0 {
        Seq::empty()
    } else if s.last().1 is Input {
        input_pins(s.drop_last()).push(s.last().0)
    } else {
        input_pins(s.drop_last())
    }
}

pub open spec fn apply_outcome(pins: Seq<PinDescription>, e: (BCMPinNumber, PinFunction)) -> ActionView {
    if accepted(pins, e) {
        ActionView::ApplyPin(e.0, Some(e.1))
    } else {
        ActionView::Reject(e.0)
    }
}

pub open spec fn store_actions(ops: Seq<StoreOp>) -> Seq<ActionView> {
    ops.map_values(|op: StoreOp| ActionView::Store(op))
}

pub open spec fn report_actions(pins: Seq<BCMPinNumber>) -> Seq<ActionView> {
    pins.map_values(|b: BCMPinNumber| ActionView::ReportInputLevel(b))
}

/// The output function that an output level written to pin `b` stands for.
pub open spec fn output_entry(b: BCMPinNumber, l: LevelChange) -> (BCMPinNumber, PinFunction) {
    (b, PinFunction::Output(Some(l.new_level)))
}

/// The actions for message `m`, received with configuration `cur`.
pub open spec fn message_actions(
    pins: Seq<PinDescription>,
    cur: Seq<(BCMPinNumber, PinFunction)>,
    m: MessageView,
) -> Seq<ActionView> {
    match m {
        MessageView::NewConfig(s) => s.map_values(
            |e: (BCMPinNumber, PinFunction)| apply_outcome(pins, e),
        ) + store_actions(store_ops_for(MessageView::NewConfig(accepted_entries(pins, s))))
            + report_actions(input_pins(accepted_entries(pins, s))),
        MessageView::NewPinConfig(b, None) => seq![
            ActionView::ApplyPin(b, None),
            ActionView::Store(StoreOp::Delete(b)),
        ],
        MessageView::NewPinConfig(b, Some(f)) => if accepted(pins, (b, f)) {
            seq![ActionView::ApplyPin(b, Some(f)), ActionView::Store(StoreOp::Write(b, f))] + if f is Input {
                seq![ActionView::ReportInputLevel(b)]
            } else {
                Seq::empty()
            }
        } else {
            seq![ActionView::Reject(b)]
        },
        MessageView::IOLevelChanged(b, l) => if accepted(pins, output_entry(b, l)) {
            seq![
                ActionView::SetOutputLevel(b, l.new_level),
                ActionView::Store(StoreOp::Write(b, PinFunction::Output(Some(l.new_level)))),
            ]
        } else {
            seq![ActionView::Reject(b)]
        },
        MessageView::GetConfig => seq![
            ActionView::Send(encode_message(MessageView::NewConfig(cur))),
        ],
        MessageView::Disconnect => Seq::empty(),
    }
}

/// The configuration after message `m`.
pub open spec fn config_after(
    pins: Seq<PinDescription>,
    cur: Map<BCMPinNumber, PinFunction>,
    m: MessageView,
) -> Map<BCMPinNumber, PinFunction> {
    match m {
        MessageView::NewConfig(s) => map_of(accepted_entries(pins, s)),
        MessageView::NewPinConfig(b, None) => cur.remove(b),
        MessageView::NewPinConfig(b, Some(f)) => if accepted(pins, (b, f)) {
            cur.insert(b, f)
        } else {
            cur
        },
        MessageView::IOLevelChanged(b, l) => if accepted(pins, output_entry(b, l)) {
            cur.insert(b, PinFunction::Output(Some(l.new_level)))
        } else {
            cur
        },
        _ => cur,
    }
}

/// Every configured pin can be configured on this board.
pub open spec fn only_configurable(pins: Seq<PinDescription>, cfg: Map<BCMPinNumber, PinFunction>) -> bool {
    forall|k: BCMPinNumber| #[trigger] cfg.contains_key(k) ==> configurable(pins, k)
}

/// The state of a device: its pins, its configuration, and whether a controller is connected.
pub struct DeviceSession {
    state: SessionState,
    config: HardwareConfig,
    prior: HardwareConfig,
    pins: PinDescriptionSet,
}

impl DeviceSession {
    pub closed spec fn state(&self) -> SessionState {
        self.state
    }

    /// The configuration, as its ordered entries.
    pub closed spec fn entries(&self) -> Seq<(BCMPinNumber, PinFunction)> {
        self.config.entries()
    }

    /// The board's pin catalogue.
    pub closed spec fn catalogue(&self) -> Seq<PinDescription> {
        self.pins@
    }

    pub open spec fn config_map(&self) -> Map<BCMPinNumber, PinFunction> {
        map_of(self.entries())
    }

    /// The configuration as it was before the last message was handled.
    pub closed spec fn prior_entries(&self) -> Seq<(BCMPinNumber, PinFunction)> {
        self.prior.entries()
    }

    pub open spec fn prior_map(&self) -> Map<BCMPinNumber, PinFunction> {
        map_of(self.prior_entries())
    }

    /// The configuration, and the one before the last message, are well formed and configure
    /// no fixed-purpose pin.
    pub open spec fn inv(&self) -> bool {
        &&& sorted_keys(self.entries())
        &&& only_configurable(self.catalogue(), self.config_map())
        &&& sorted_keys(self.prior_entries())
        &&& only_configurable(self.catalogue(), self.prior_map())
    }
}


/// The entries a device takes from `s` come from `s`, are taken, and keep its order.
pub proof fn lemma_accepted_entries(pins: Seq<PinDescription>, s: Seq<(BCMPinNumber, PinFunction)>)
    ensures
        forall|j: int|
            0 <= j < accepted_entries(pins, s).len() ==> accepted(
                pins,
                #[trigger] accepted_entries(pins, s)[j],
            ) && s.contains(accepted_entries(pins, s)[j]),
        sorted_keys(s) ==> sorted_keys(accepted_entries(pins, s)),
    decreases s.len(),
{
    if s.len() > 0 {
        let t = s.drop_last();
        lemma_accepted_entries(pins, t);
        let a = accepted_entries(pins, t);
        assert forall|j: int| 0 <= j < a.len() implies s.contains(#[trigger] a[j]) by {
            assert(t.contains(a[j]));
            let i = choose|i: int| 0 <= i < t.len() && t[i] == a[j];
            assert(s[i] == a[j]);
        }
        if accepted(pins, s.last()) {
            let b = a.push(s.last());
            assert(s[s.len() - 1] == s.last());
            assert forall|j: int| 0 <= j < b.len() implies accepted(pins, #[trigger] b[j]) && s.contains(b[j]) by {
                if j < a.len() {
                    assert(b[j] == a[j]);
                }
            }
            if sorted_keys(s) {
                assert forall|x: int, y: int| 0 <= x < y < b.len() implies b[x].0 < b[y].0 by {
                    if y == a.len() {
                        assert(t.contains(a[x]));
                        let i = choose|i: int| 0 <= i < t.len() && t[i] == a[x];
                        assert(s[i].0 < s[s.len() - 1].0);
                    } else {
                        assert(sorted_keys(t));
                    }
                }
            }
        } else {
            assert(sorted_keys(s) ==> sorted_keys(t));
        }
    }
}

/// A configuration message never gives an entry to a fixed-purpose or absent pin.
pub proof fn lemma_config_after_only_configurable(
    pins: Seq<PinDescription>,
    cur: Map<BCMPinNumber, PinFunction>,
    m: MessageView,
)
    requires
        only_configurable(pins, cur),
    ensures
        only_configurable(pins, config_after(pins, cur, m)),
{
    if let MessageView::NewConfig(s) = m {
        let a = accepted_entries(pins, s);
        lemma_accepted_entries(pins, s);
        assert forall|k: BCMPinNumber| #[trigger] map_of(a).contains_key(k) implies configurable(pins, k) by {
            let j = choose|j: int| 0 <= j < a.len() && a[j].0 == k;
            assert(accepted(pins, a[j]));
        }
    }
}

/// No pin of the catalogue with BCM number `bcm` has more than one option: it is a
/// fixed-purpose pin (power, ground, a single-function pin) or absent.
pub open spec fn fixed_purpose(pins: Seq<PinDescription>, bcm: BCMPinNumber) -> bool {
    forall|i: int| 0 <= i < pins.len() && (#[trigger] pins[i]).bcm_pin_number == Some(bcm) ==> pins[i].options@.len() <= 1
}

/// A configuration that configures no fixed-purpose pin never comes to configure one,
/// whatever message is handled.
pub proof fn lemma_fixed_purpose_never_configured(
    pins: Seq<PinDescription>,
    cur: Map<BCMPinNumber, PinFunction>,
    m: MessageView,
    bcm: BCMPinNumber,
)
    requires
        only_configurable(pins, cur),
        fixed_purpose(pins, bcm),
    ensures
        !config_after(pins, cur, m).contains_key(bcm),
{
    lemma_config_after_only_configurable(pins, cur, m);
    if config_after(pins, cur, m).contains_key(bcm) {
        assert(configurable(pins, bcm));
        let i = choose|i: int|
            0 <= i < pins.len() && (#[trigger] pins[i]).bcm_pin_number == Some(bcm) && pins[i].options@.len() > 1
                && offers_io(pins[i].options@);
        assert(pins[i].options@.len() <= 1);
    }
}

/// Handling the same new configuration twice in a row leaves the configuration, and the
/// records stored for it, as handling it once does.
pub proof fn lemma_new_config_idempotent(
    pins: Seq<PinDescription>,
    cur: Map<BCMPinNumber, PinFunction>,
    stored: Map<BCMPinNumber, PinFunction>,
    s: Seq<(BCMPinNumber, PinFunction)>,
)
    requires
        sorted_keys(s),
    ensures
        config_after(pins, config_after(pins, cur, MessageView::NewConfig(s)), MessageView::NewConfig(s))
            == config_after(pins, cur, MessageView::NewConfig(s)),
        ({
            let ops = store_ops_for(MessageView::NewConfig(accepted_entries(pins, s)));
            apply_store_ops(apply_store_ops(stored, ops), ops) == apply_store_ops(stored, ops)
        }),
{
    lemma_accepted_entries(pins, s);
    lemma_store_new_config_idempotent(stored, accepted_entries(pins, s));
}

/// `cur` with pin `bcm` given back the entry it has in `prior`, or none.
pub open spec fn restored(
    cur: Map<BCMPinNumber, PinFunction>,
    prior: Map<BCMPinNumber, PinFunction>,
    bcm: BCMPinNumber,
) -> Map<BCMPinNumber, PinFunction> {
    if prior.contains_key(bcm) {
        cur.insert(bcm, prior[bcm])
    } else {
        cur.remove(bcm)
    }
}

/// The record change that gives pin `bcm` back its entry in `prior`.
pub open spec fn restore_op(prior: Map<BCMPinNumber, PinFunction>, bcm: BCMPinNumber) -> StoreOp {
    if prior.contains_key(bcm) {
        StoreOp::Write(bcm, prior[bcm])
    } else {
        StoreOp::Delete(bcm)
    }
}

/// Whatever records the actions of a message stored, the restore that follows a refused pin
/// leaves that pin's record as it was in `prior`, and the other records as they were.
pub proof fn lemma_refused_pin_restored(
    stored: Map<BCMPinNumber, PinFunction>,
    ops: Seq<StoreOp>,
    prior: Map<BCMPinNumber, PinFunction>,
    bcm: BCMPinNumber,
)
    ensures
        apply_store_ops(stored, ops.push(restore_op(prior, bcm))) == restored(
            apply_store_ops(stored, ops),
            prior,
            bcm,
        ),
        apply_store_ops(stored, ops.push(restore_op(prior, bcm))).contains_key(bcm) == prior.contains_key(bcm),
        prior.contains_key(bcm) ==> apply_store_ops(stored, ops.push(restore_op(prior, bcm)))[bcm] == prior[bcm],
{
    assert(ops.push(restore_op(prior, bcm)).drop_last() =~= ops);
}

/// Handling a message, then restoring a pin the hardware refused, leaves that pin as it was
/// before the message.
pub proof fn lemma_refused_pin_keeps_setting(
    pins: Seq<PinDescription>,
    cur: Map<BCMPinNumber, PinFunction>,
    m: MessageView,
    bcm: BCMPinNumber,
)
    ensures
        restored(config_after(pins, cur, m), cur, bcm).contains_key(bcm) == cur.contains_key(bcm),
        cur.contains_key(bcm) ==> restored(config_after(pins, cur, m), cur, bcm)[bcm] == cur[bcm],
{
}

/// The entries of `c` that the device takes.
fn accepted_config(pins: &PinDescriptionSet, c: &GPIOConfig) -> (r: GPIOConfig)
    requires
        c.wf(),
    ensures
        r.entries() == accepted_entries(pins@, c.entries()),
        r.wf(),
        only_configurable(pins@, r@),
{
    let mut v: Vec<(BCMPinNumber, PinFunction)> = Vec::new();
    let mut i: usize = 0;
    while i < c.configured_pins.len()
        invariant
            i <= c.entries().len(),
            v@ == accepted_entries(pins@, c.entries().take(i as int)),
        decreases c.entries().len() - i,
    {
        let e = c.configured_pins[i];
        proof {
            assert(c.entries().take(i + 1).drop_last() =~= c.entries().take(i as int));
        }
        let io = match e.1 {
            PinFunction::Input(_) | PinFunction::Output(_) => true,
            _ => false,
        };
        if io && pins.is_configurable(e.0) {
            v.push(e);
        }
        i = i + 1;
    }
    assert(c.entries().take(i as int) =~= c.entries());
    let r = GPIOConfig { configured_pins: v };
    proof {
        lemma_accepted_entries(pins@, c.entries());
        lemma_config_after_only_configurable(pins@, Map::empty(), MessageView::NewConfig(c.entries()));
    }
    r
}


impl DeviceSession {
    /// A device with catalogue `pins` and the configuration loaded at boot, of which it keeps
    /// the entries it takes. No controller is connected yet.
    pub fn new(pins: PinDescriptionSet, config: HardwareConfig) -> (r: DeviceSession)
        requires
            config.wf(),
        ensures
            r.inv(),
            r.state() == SessionState::Listening,
            r.catalogue() == pins@,
            r.entries() == accepted_entries(pins@, config.entries()),
            r.prior_entries() == r.entries(),
    {
        let config = accepted_config(&pins, &config);
        let prior = config.duplicate();
        DeviceSession { state: SessionState::Listening, config, prior, pins }
    }

    /// Whether a controller is connected.
    pub fn session_state(&self) -> (r: SessionState)
        ensures
            r == self.state(),
    {
        self.state
    }

    /// The current configuration.
    pub fn config(&self) -> (r: &HardwareConfig)
        ensures
            r.entries() == self.entries(),
    {
        &self.config
    }

    /// The board's pin catalogue.
    pub fn pins(&self) -> (r: &PinDescriptionSet)
        ensures
            r@ == self.catalogue(),
    {
        &self.pins
    }

    /// Apply the whole current configuration to the pins, as at boot.
    pub fn apply_current(&self) -> (r: Vec<DeviceAction>)
        ensures
            views(r@) == self.entries().map_values(
                |e: (BCMPinNumber, PinFunction)| ActionView::ApplyPin(e.0, Some(e.1)),
            ),
    {
        let mut r: Vec<DeviceAction> = Vec::new();
        let mut i: usize = 0;
        while i < self.config.configured_pins.len()
            invariant
                i <= self.entries().len(),
                views(r@) == self.entries().take(i as int).map_values(
                    |e: (BCMPinNumber, PinFunction)| ActionView::ApplyPin(e.0, Some(e.1)),
                ),
            decreases self.entries().len() - i,
        {
            let e = self.config.configured_pins[i];
            let ghost prev = r@;
            r.push(DeviceAction::ApplyPin(e.0, Some(e.1)));
            proof {
                lemma_views_push(prev, DeviceAction::ApplyPin(e.0, Some(e.1)));
            }
            assert(views(r@) =~= self.entries().take(i + 1).map_values(
                |e: (BCMPinNumber, PinFunction)| ActionView::ApplyPin(e.0, Some(e.1)),
            ));
            i = i + 1;
        }
        assert(self.entries().take(i as int) =~= self.entries());
        r
    }

    /// A controller connected: send it the description and the configuration.
    pub fn accept(&mut self) -> (r: Vec<DeviceAction>)
        requires
            old(self).state() == SessionState::Listening,
        ensures
            final(self).state() == SessionState::Connected,
            final(self).entries() == old(self).entries(),
            final(self).prior_entries() == old(self).prior_entries(),
            final(self).catalogue() == old(self).catalogue(),
            views(r@) == seq![ActionView::SendDescription],
    {
        self.state = SessionState::Connected;
        let r = vec![DeviceAction::SendDescription];
        assert(views(r@) =~= seq![ActionView::SendDescription]);
        r
    }

    /// The connection failed or the peer closed it: back to listening.
    pub fn connection_lost(&mut self)
        ensures
            final(self).state() == SessionState::Listening,
            final(self).entries() == old(self).entries(),
            final(self).prior_entries() == old(self).prior_entries(),
            final(self).catalogue() == old(self).catalogue(),
    {
        self.state = SessionState::Listening;
    }

    /// The hardware refused the `ApplyPin` or `SetOutputLevel` action for pin `bcm`. Called
    /// once the actions of the message are carried out, it gives the pin back the entry it had
    /// before the message, or none if it had none, and restores its stored record the same
    /// way: only applied changes are kept.
    pub fn pin_apply_failed(&mut self, bcm: BCMPinNumber) -> (r: Vec<DeviceAction>)
        requires
            old(self).inv(),
        ensures
            final(self).inv(),
            final(self).state() == old(self).state(),
            final(self).catalogue() == old(self).catalogue(),
            final(self).prior_entries() == old(self).prior_entries(),
            final(self).config_map() == restored(old(self).config_map(), old(self).prior_map(), bcm),
            views(r@) == seq![ActionView::Store(restore_op(old(self).prior_map(), bcm))],
    {
        let r = match self.prior.get(bcm) {
            Some(f) => {
                self.config.insert(bcm, f);
                vec![DeviceAction::Store(StoreOp::Write(bcm, f))]
            },
            None => {
                self.config.remove(bcm);
                vec![DeviceAction::Store(StoreOp::Delete(bcm))]
            },
        };
        proof {
            assert(views(r@) =~= seq![ActionView::Store(restore_op(old(self).prior_map(), bcm))]);
        }
        r
    }

    /// An input changed level: the message to forward to the connected peer, if there is one.
    pub fn input_changed(&self, bcm: BCMPinNumber, change: LevelChange) -> (r: Option<Vec<u8>>)
        ensures
            match r {
                Some(bytes) => self.state() == SessionState::Connected && bytes@ == encode_message(
                    MessageView::IOLevelChanged(bcm, change),
                ),
                None => self.state() == SessionState::Listening,
            },
    {
        match self.state {
            SessionState::Connected => Some(encode(&HardwareConfigMessage::IOLevelChanged(bcm, change))),
            SessionState::Listening => None,
        }
    }

    /// One read from the connection. An empty read means the peer closed it; a buffer that
    /// does not decode is dropped and the session goes on; a message is handled.
    pub fn receive(&mut self, bytes: &[u8]) -> (r: Vec<DeviceAction>)
        requires
            old(self).inv(),
            old(self).state() == SessionState::Connected,
        ensures
            final(self).inv(),
            final(self).catalogue() == old(self).catalogue(),
            bytes@.len() == 0 ==> final(self).state() == SessionState::Listening && r@.len() == 0
                && final(self).entries() == old(self).entries()
                && final(self).prior_entries() == old(self).prior_entries(),
            bytes@.len() > 0 && decoded(bytes@) is None ==> final(self).state()
                == SessionState::Connected && r@.len() == 0 && final(self).entries() == old(self).entries()
                && final(self).prior_entries() == old(self).prior_entries(),
            bytes@.len() > 0 && decoded(bytes@) is Some ==> {
                let m = decoded(bytes@)->Some_0;
                &&& final(self).config_map() == config_after(old(self).catalogue(), old(self).config_map(), m)
                &&& final(self).prior_entries() == old(self).entries()
                &&& views(r@) == message_actions(old(self).catalogue(), old(self).entries(), m)
                &&& final(self).state() == if m is Disconnect {
                    SessionState::Listening
                } else {
                    SessionState::Connected
                }
            },
    {
        if bytes.len() == 0 {
            self.state = SessionState::Listening;
            return Vec::new();
        }
        match decode(bytes) {
            Ok(m) => self.handle(&m),
            Err(_) => Vec::new(),
        }
    }

    /// Handle one message from the connected controller.
    pub fn handle(&mut self, m: &HardwareConfigMessage) -> (r: Vec<DeviceAction>)
        requires
            old(self).inv(),
            old(self).state() == SessionState::Connected,
            m.wf(),
        ensures
            final(self).inv(),
            final(self).catalogue() == old(self).catalogue(),
            final(self).config_map() == config_after(old(self).catalogue(), old(self).config_map(), m@),
            final(self).prior_entries() == old(self).entries(),
            m@ is NewConfig ==> final(self).entries() == accepted_entries(
                old(self).catalogue(),
                m@->NewConfig_0,
            ),
            views(r@) == message_actions(old(self).catalogue(), old(self).entries(), m@),
            final(self).state() == if m@ is Disconnect {
                SessionState::Listening
            } else {
                SessionState::Connected
            },
    {
        let ghost pins = self.pins@;
        let ghost cur = self.config@;
        proof {
            lemma_config_after_only_configurable(pins, cur, m@);
        }
        self.prior = self.config.duplicate();
        let mut r: Vec<DeviceAction> = Vec::new();
        match m {
            HardwareConfigMessage::NewConfig(c) => {
                let mut i: usize = 0;
                while i < c.configured_pins.len()
                    invariant
                        i <= c.entries().len(),
                        pins == self.pins@,
                        views(r@) == c.entries().take(i as int).map_values(
                            |e: (BCMPinNumber, PinFunction)| apply_outcome(pins, e),
                        ),
                    decreases c.entries().len() - i,
                {
                    let e = c.configured_pins[i];
                    let io = match e.1 {
                        PinFunction::Input(_) | PinFunction::Output(_) => true,
                        _ => false,
                    };
                    let ghost prev = r@;
                    let a = if io && self.pins.is_configurable(e.0) {
                        DeviceAction::ApplyPin(e.0, Some(e.1))
                    } else {
                        DeviceAction::Reject(e.0)
                    };
                    proof {
                        lemma_views_push(prev, a);
                        assert(a@ == apply_outcome(pins, e));
                    }
                    r.push(a);
                    assert(views(r@) =~= c.entries().take(i + 1).map_values(
                        |e: (BCMPinNumber, PinFunction)| apply_outcome(pins, e),
                    ));
                    i = i + 1;
                }
                assert(c.entries().take(i as int) =~= c.entries());
                let ghost applied = views(r@);
                let acc = accepted_config(&self.pins, c);
                r.push(DeviceAction::Store(StoreOp::ClearPins));
                let mut j: usize = 0;
                while j < acc.configured_pins.len()
                    invariant
                        j <= acc.entries().len(),
                        views(r@) == applied + store_actions(
                            seq![StoreOp::ClearPins] + crate::persist::write_ops(acc.entries().take(j as int)),
                        ),
                    decreases acc.entries().len() - j,
                {
                    let e = acc.configured_pins[j];
                    let ghost prev = r@;
                    r.push(DeviceAction::Store(StoreOp::Write(e.0, e.1)));
                    proof {
                        lemma_views_push(prev, DeviceAction::Store(StoreOp::Write(e.0, e.1)));
                    }
                    assert(views(r@) =~= applied + store_actions(
                        seq![StoreOp::ClearPins] + crate::persist::write_ops(acc.entries().take(j + 1)),
                    ));
                    j = j + 1;
                }
                assert(acc.entries().take(j as int) =~= acc.entries());
                let ghost stored = views(r@);
                let mut k: usize = 0;
                while k < acc.configured_pins.len()
                    invariant
                        k <= acc.entries().len(),
                        views(r@) == stored + report_actions(input_pins(acc.entries().take(k as int))),
                    decreases acc.entries().len() - k,
                {
                    let e = acc.configured_pins[k];
                    proof {
                        assert(acc.entries().take(k + 1).drop_last() =~= acc.entries().take(k as int));
                    }
                    let ghost prev = r@;
                    if let PinFunction::Input(_) = e.1 {
                        r.push(DeviceAction::ReportInputLevel(e.0));
                        proof {
                            lemma_views_push(prev, DeviceAction::ReportInputLevel(e.0));
                        }
                    }
                    assert(views(r@) =~= stored + report_actions(input_pins(acc.entries().take(k + 1))));
                    k = k + 1;
                }
                assert(acc.entries().take(k as int) =~= acc.entries());
                self.config = acc;
            },
            HardwareConfigMessage::NewPinConfig(b, None) => {
                r.push(DeviceAction::ApplyPin(*b, None));
                r.push(DeviceAction::Store(StoreOp::Delete(*b)));
                self.config.remove(*b);
            },
            HardwareConfigMessage::NewPinConfig(b, Some(f)) => {
                let io = match f {
                    PinFunction::Input(_) | PinFunction::Output(_) => true,
                    _ => false,
                };
                if io && self.pins.is_configurable(*b) {
                    r.push(DeviceAction::ApplyPin(*b, Some(*f)));
                    r.push(DeviceAction::Store(StoreOp::Write(*b, *f)));
                    if let PinFunction::Input(_) = f {
                        r.push(DeviceAction::ReportInputLevel(*b));
                    }
                    self.config.insert(*b, *f);
                } else {
                    r.push(DeviceAction::Reject(*b));
                }
            },
            HardwareConfigMessage::IOLevelChanged(b, l) => {
                if self.pins.is_configurable(*b) {
                    let f = PinFunction::Output(Some(l.new_level));
                    r.push(DeviceAction::SetOutputLevel(*b, l.new_level));
                    r.push(DeviceAction::Store(StoreOp::Write(*b, f)));
                    self.config.insert(*b, f);
                } else {
                    r.push(DeviceAction::Reject(*b));
                }
            },
            HardwareConfigMessage::GetConfig => {
                r.push(DeviceAction::Send(encode_config_message(&self.config)));
            },
            HardwareConfigMessage::Disconnect => {
                self.state = SessionState::Listening;
            },
        }
        assert(views(r@) =~= message_actions(pins, old(self).entries(), m@));
        r
    }
}

} // verus!
