//! Pins, the functions they can take, and the catalogue of a board's header.

use vstd::prelude::*;
use vstd::multiset::Multiset;
use vstd::std_specs::iter::IteratorSpec;

verus! {

/// A GPIO pin named by its Broadcom chip channel number.
pub type BCMPinNumber = u8;

/// A pin named by its position on the board's header.
pub type BoardPinNumber = u8;

/// The logical level of a pin: high (`true`) or low (`false`).
pub type PinLevel = bool;

/// The optional pull resistor of an input.
#[derive(Clone, Copy, Debug, PartialEq, Eq, Structural)]
pub enum InputPull {
    PullUp,
    PullDown,
    NoPull,
}

/// A function that a pin can take. `Input` and `Output` are the configurable ones; the others
/// describe fixed-purpose pins (power, ground, the ID EEPROM bus).
#[allow(non_camel_case_types)]
#[derive(Clone, Copy, Debug, PartialEq, Eq, Structural)]
pub enum PinFunction {
    Unassigned,
    Ground,
    Power3V3,
    Power5V,
    Input(Option<InputPull>),
    Output(Option<PinLevel>),
    I2C_EEPROM_ID_SD,
    I2C_EEPROM_ID_SC,
}

impl PinFunction {
    /// Input and output are the functions that a configuration may give a pin.
    pub open spec fn is_configurable(self) -> bool {
        self is Input || self is Output
    }

    /// The name shown for the function, without its settings.
    pub fn name(&self) -> (r: String)
        ensures
            r@ == match self {
                PinFunction::Unassigned => "None"@,
                PinFunction::Ground => "Ground"@,
                PinFunction::Power3V3 => "Power3V3"@,
                PinFunction::Power5V => "Power5V"@,
                PinFunction::Input(_) => "Input"@,
                PinFunction::Output(_) => "Output"@,
                PinFunction::I2C_EEPROM_ID_SD => "I2C_EEPROM_ID_SD"@,
                PinFunction::I2C_EEPROM_ID_SC => "I2C_EEPROM_ID_SC"@,
            },
    {
        match self {
            PinFunction::Unassigned => "None".to_string(),
            PinFunction::Ground => "Ground".to_string(),
            PinFunction::Power3V3 => "Power3V3".to_string(),
            PinFunction::Power5V => "Power5V".to_string(),
            PinFunction::Input(_) => "Input".to_string(),
            PinFunction::Output(_) => "Output".to_string(),
            PinFunction::I2C_EEPROM_ID_SD => "I2C_EEPROM_ID_SD".to_string(),
            PinFunction::I2C_EEPROM_ID_SC => "I2C_EEPROM_ID_SC".to_string(),
        }
    }
}

/// Descriptive details of a board and of the application that drives it.
#[derive(Clone, Debug)]
pub struct HardwareDetails {
    pub hardware: String,
    pub revision: String,
    pub serial: String,
    pub model: String,
    pub wifi: bool,
    pub app_name: String,
    pub app_version: String,
}

/// One position of a board's header: its board number, its BCM number if it has one, its name,
/// and the functions it may take.
#[derive(Clone, Debug)]
pub struct PinDescription {
    pub board_pin_number: BoardPinNumber,
    pub bcm_pin_number: Option<BCMPinNumber>,
    pub name: String,
    pub options: Vec<PinFunction>,
}

/// Some option of the pin is a configurable function.
pub open spec fn offers_io(options: Seq<PinFunction>) -> bool {
    exists|j: int| 0 <= j < options.len() && (#[trigger] options[j]).is_configurable()
}

/// Some pin of the catalogue has BCM number `bcm`, more than one option, and input or output
/// among them; the other BCM numbers are fixed-purpose or absent from the board.
pub open spec fn configurable(pins: Seq<PinDescription>, bcm: BCMPinNumber) -> bool {
    exists|i: int|
        0 <= i < pins.len() && (#[trigger] pins[i]).bcm_pin_number == Some(bcm) && pins[i].options@.len()
            > 1 && offers_io(pins[i].options@)
}

/// The pins that a list of references points to.
pub open spec fn deref_all(s: Seq<&PinDescription>) -> Seq<PinDescription> {
    s.map_values(|p: &PinDescription| *p)
}

/// A pin listed among the BCM pins: it has a BCM number and more than one option.
pub open spec fn is_bcm_pin(p: PinDescription) -> bool {
    p.options@.len() > 1 && p.bcm_pin_number is Some
}

/// The BCM pins of `s`, in catalogue order.
pub open spec fn bcm_pins_of(s: Seq<PinDescription>) -> Seq<PinDescription>
    decreases s.len(),
{
    if s.len() == 0 {
        Seq::empty()
    } else if is_bcm_pin(s.last()) {
        bcm_pins_of(s.drop_last()).push(s.last())
    } else {
        bcm_pins_of(s.drop_last())
    }
}

/// The BCM pins of `s` whose BCM number is `n`, in catalogue order.
pub open spec fn bcm_pins_numbered(s: Seq<PinDescription>, n: BCMPinNumber) -> Seq<PinDescription>
    decreases s.len(),
{
    if s.len() == 0 {
        Seq::empty()
    } else if is_bcm_pin(s.last()) && s.last().bcm_pin_number == Some(n) {
        bcm_pins_numbered(s.drop_last(), n).push(s.last())
    } else {
        bcm_pins_numbered(s.drop_last(), n)
    }
}

/// The BCM pins of `s` with BCM number below `n`, by increasing BCM number and, for equal
/// numbers, in catalogue order: the result of a stable sort by BCM number, cut at `n`.
pub open spec fn bcm_pins_sorted_below(s: Seq<PinDescription>, n: nat) -> Seq<PinDescription>
    decreases n,
{
    if n == 0 {
        Seq::empty()
    } else {
        bcm_pins_sorted_below(s, (n - 1) as nat) + bcm_pins_numbered(s, (n - 1) as u8)
    }
}

/// The BCM number of a pin listed among the BCM pins.
pub open spec fn bcm_of(p: PinDescription) -> nat {
    p.bcm_pin_number->Some_0 as nat
}

/// The BCM pins of `s` with BCM number below `n`, in catalogue order.
pub open spec fn bcm_pins_below(s: Seq<PinDescription>, n: nat) -> Seq<PinDescription>
    decreases s.len(),
{
    if s.len() == 0 {
        Seq::empty()
    } else if is_bcm_pin(s.last()) && bcm_of(s.last()) < n {
        bcm_pins_below(s.drop_last(), n).push(s.last())
    } else {
        bcm_pins_below(s.drop_last(), n)
    }
}

/// Every pin of `r` is a BCM pin and their BCM numbers never decrease.
pub open spec fn sorted_by_bcm(r: Seq<PinDescription>) -> bool {
    &&& forall|i: int| 0 <= i < r.len() ==> is_bcm_pin(#[trigger] r[i])
    &&& forall|i: int, j: int| 0 <= i < j < r.len() ==> bcm_of(#[trigger] r[i]) <= bcm_of(#[trigger] r[j])
}

proof fn lemma_numbered_members(s: Seq<PinDescription>, n: u8)
    ensures
        forall|i: int| 0 <= i < bcm_pins_numbered(s, n).len() ==> is_bcm_pin(#[trigger] bcm_pins_numbered(s, n)[i])
            && bcm_of(bcm_pins_numbered(s, n)[i]) == n,
    decreases s.len(),
{
    if s.len() > 0 {
        lemma_numbered_members(s.drop_last(), n);
        let t = bcm_pins_numbered(s.drop_last(), n);
        let r = bcm_pins_numbered(s, n);
        assert forall|i: int| 0 <= i < r.len() implies is_bcm_pin(#[trigger] r[i]) && bcm_of(r[i]) == n by {
            if i < t.len() {
                assert(r[i] == t[i]);
            }
        }
    }
}

proof fn lemma_below_step(s: Seq<PinDescription>, n: nat)
    requires
        n < 256,
    ensures
        bcm_pins_below(s, n + 1).to_multiset() == bcm_pins_below(s, n).to_multiset().add(
            bcm_pins_numbered(s, n as u8).to_multiset(),
        ),
    decreases s.len(),
{
    broadcast use vstd::seq_lib::to_multiset_build, vstd::seq_lib::group_to_multiset_ensures;
    if s.len() == 0 {
        assert(bcm_pins_below(s, n).to_multiset() =~= Multiset::empty());
        assert(bcm_pins_numbered(s, n as u8).to_multiset() =~= Multiset::empty());
        assert(bcm_pins_below(s, n + 1).to_multiset() =~= Multiset::empty());
    } else {
        lemma_below_step(s.drop_last(), n);
        let l = s.last();
        if is_bcm_pin(l) && bcm_of(l) == n {
            assert(l.bcm_pin_number == Some(n as u8));
        }
        if is_bcm_pin(l) && l.bcm_pin_number == Some(n as u8) {
            assert(bcm_of(l) == n);
        }
        assert(bcm_pins_below(s, n + 1).to_multiset() =~= bcm_pins_below(s, n).to_multiset().add(
            bcm_pins_numbered(s, n as u8).to_multiset(),
        ));
    }
}

proof fn lemma_below_zero(s: Seq<PinDescription>)
    ensures
        bcm_pins_below(s, 0) == Seq::<PinDescription>::empty(),
    decreases s.len(),
{
    if s.len() > 0 {
        lemma_below_zero(s.drop_last());
    }
}

proof fn lemma_below_all(s: Seq<PinDescription>)
    ensures
        bcm_pins_below(s, 256) == bcm_pins_of(s),
    decreases s.len(),
{
    if s.len() > 0 {
        lemma_below_all(s.drop_last());
    }
}

proof fn lemma_sorted_below(s: Seq<PinDescription>, n: nat)
    requires
        n <= 256,
    ensures
        bcm_pins_sorted_below(s, n).to_multiset() == bcm_pins_below(s, n).to_multiset(),
        sorted_by_bcm(bcm_pins_sorted_below(s, n)),
        forall|i: int| 0 <= i < bcm_pins_sorted_below(s, n).len() ==> bcm_of(#[trigger] bcm_pins_sorted_below(s, n)[i]) < n,
    decreases n,
{
    broadcast use vstd::seq_lib::lemma_multiset_commutative, vstd::seq_lib::group_to_multiset_ensures;
    if n == 0 {
        lemma_below_zero(s);
        assert(bcm_pins_sorted_below(s, 0).to_multiset() =~= Multiset::empty());
        assert(Seq::<PinDescription>::empty().to_multiset() =~= Multiset::empty());
    } else {
        let k = (n - 1) as nat;
        lemma_sorted_below(s, k);
        lemma_below_step(s, k);
        lemma_numbered_members(s, k as u8);
        let a = bcm_pins_sorted_below(s, k);
        let b = bcm_pins_numbered(s, k as u8);
        let r = bcm_pins_sorted_below(s, n);
        assert(r == a + b);
        assert forall|i: int| 0 <= i < r.len() implies is_bcm_pin(#[trigger] r[i]) && bcm_of(r[i]) < n by {
            if i >= a.len() {
                assert(r[i] == b[i - a.len()]);
            } else {
                assert(r[i] == a[i]);
            }
        }
        assert forall|i: int, j: int| 0 <= i < j < r.len() implies bcm_of(#[trigger] r[i]) <= bcm_of(#[trigger] r[j]) by {
            if j < a.len() {
                assert(r[i] == a[i] && r[j] == a[j]);
            } else if i < a.len() {
                assert(r[i] == a[i] && r[j] == b[j - a.len()]);
            } else {
                assert(r[i] == b[i - a.len()] && r[j] == b[j - a.len()]);
            }
        }
    }
}

/// The sorted BCM pins are the BCM pins, reordered by increasing BCM number.
pub proof fn lemma_bcm_pins_sorted(s: Seq<PinDescription>)
    ensures
        sorted_by_bcm(bcm_pins_sorted_below(s, 256)),
        bcm_pins_sorted_below(s, 256).to_multiset() == bcm_pins_of(s).to_multiset(),
{
    lemma_sorted_below(s, 256);
    lemma_below_all(s);
}

/// The catalogue of the pins of a board's header, fixed for the board.
#[derive(Clone, Debug)]
pub struct PinDescriptionSet {
    pins: Vec<PinDescription>,
}

impl View for PinDescriptionSet {
    type V = Seq<PinDescription>;

    closed spec fn view(&self) -> Seq<PinDescription> {
        self.pins@
    }
}

impl PinDescriptionSet {
    /// A catalogue of the given pins, in header order.
    pub fn new(pins: Vec<PinDescription>) -> (r: PinDescriptionSet)
        ensures
            r@ == pins@,
    {
        PinDescriptionSet { pins }
    }

    /// An iterator over the pins, in header order.
    pub fn iter(&self) -> (r: std::slice::Iter<'_, PinDescription>)
        ensures
            deref_all(r.remaining()) == self@,
    {
        let r = self.pins.as_slice().iter();
        assert(deref_all(r.remaining()) =~= self@);
        r
    }

    /// All the pins, in header order.
    pub fn pins(&self) -> (r: &[PinDescription])
        ensures
            r@ == self@,
    {
        self.pins.as_slice()
    }

    /// The board pin number of the first pin whose BCM number is `bcm_pin_number`.
    pub fn bcm_to_board(&self, bcm_pin_number: BCMPinNumber) -> (r: Option<BoardPinNumber>)
        ensures
            match r {
                Some(b) => exists|i: int|
                    0 <= i < self@.len() && self@[i].bcm_pin_number == Some(bcm_pin_number)
                        && self@[i].board_pin_number == b && forall|j: int|
                        0 <= j < i ==> self@[j].bcm_pin_number != Some(bcm_pin_number),
                None => forall|i: int|
                    0 <= i < self@.len() ==> self@[i].bcm_pin_number != Some(bcm_pin_number),
            },
    {
        let mut i: usize = 0;
        while i < self.pins.len()
            invariant
                i <= self@.len(),
                forall|j: int| 0 <= j < i ==> self@[j].bcm_pin_number != Some(bcm_pin_number),
            decreases self@.len() - i,
        {
            if self.pins[i].bcm_pin_number == Some(bcm_pin_number) {
                return Some(self.pins[i].board_pin_number);
            }
            i = i + 1;
        }
        None
    }

    /// Can pin `bcm` be given a configurable function on this board?
    pub fn is_configurable(&self, bcm: BCMPinNumber) -> (r: bool)
        ensures
            r == configurable(self@, bcm),
    {
        let mut i: usize = 0;
        while i < self.pins.len()
            invariant
                i <= self@.len(),
                forall|j: int|
                    0 <= j < i ==> !(#[trigger] self@[j].bcm_pin_number == Some(bcm) && self@[j].options@.len()
                        > 1 && offers_io(self@[j].options@)),
            decreases self@.len() - i,
        {
            let pin = &self.pins[i];
            if pin.bcm_pin_number == Some(bcm) && pin.options.len() > 1 {
                let mut k: usize = 0;
                while k < pin.options.len()
                    invariant
                        i < self@.len(),
                        *pin == self@[i as int],
                        pin.bcm_pin_number == Some(bcm),
                        pin.options@.len() > 1,
                        k <= pin.options@.len(),
                        forall|j: int| 0 <= j < k ==> !(#[trigger] pin.options@[j]).is_configurable(),
                    decreases pin.options@.len() - k,
                {
                    match pin.options[k] {
                        PinFunction::Input(_) | PinFunction::Output(_) => {
                            assert(pin.options@[k as int].is_configurable());
                            assert(offers_io(self@[i as int].options@));
                            assert(self@[i as int].bcm_pin_number == Some(bcm));
                            return true;
                        },
                        _ => {},
                    }
                    k = k + 1;
                }
            }
            assert(!(self@[i as int].bcm_pin_number == Some(bcm) && self@[i as int].options@.len() > 1
                && offers_io(self@[i as int].options@)));
            i = i + 1;
        }
        false
    }

    /// The pins that have a BCM number and more than one option, in header order.
    pub fn bcm_pins(&self) -> (r: Vec<&PinDescription>)
        ensures
            deref_all(r@) == bcm_pins_of(self@),
    {
        let mut r: Vec<&PinDescription> = Vec::new();
        let mut i: usize = 0;
        while i < self.pins.len()
            invariant
                i <= self@.len(),
                deref_all(r@) == bcm_pins_of(self@.take(i as int)),
            decreases self@.len() - i,
        {
            let pin = &self.pins[i];
            proof {
                assert(self@.take(i + 1).drop_last() =~= self@.take(i as int));
            }
            let ghost before = r@;
            if pin.options.len() > 1 && pin.bcm_pin_number.is_some() {
                r.push(pin);
                assert(deref_all(r@) =~= deref_all(before).push(*pin));
            }
            i = i + 1;
        }
        assert(self@.take(i as int) =~= self@);
        r
    }

    /// The pins of [`Self::bcm_pins`] sorted by increasing BCM number, keeping header order
    /// between pins of equal number.
    pub fn bcm_pins_sorted(&self) -> (r: Vec<&PinDescription>)
        ensures
            sorted_by_bcm(deref_all(r@)),
            deref_all(r@).to_multiset() == bcm_pins_of(self@).to_multiset(),
            deref_all(r@) == bcm_pins_sorted_below(self@, 256),
    {
        proof {
            lemma_bcm_pins_sorted(self@);
        }
        let mut r: Vec<&PinDescription> = Vec::new();
        let mut n: u32 = 0;
        while n < 256
            invariant
                n <= 256,
                deref_all(r@) == bcm_pins_sorted_below(self@, n as nat),
            decreases 256 - n,
        {
            let ghost before = deref_all(r@);
            let mut i: usize = 0;
            while i < self.pins.len()
                invariant
                    n < 256,
                    i <= self@.len(),
                    deref_all(r@) == before + bcm_pins_numbered(self@.take(i as int), n as u8),
                decreases self@.len() - i,
            {
                let pin = &self.pins[i];
                proof {
                    assert(self@.take(i + 1).drop_last() =~= self@.take(i as int));
                }
                if pin.options.len() > 1 && pin.bcm_pin_number == Some(n as u8) {
                    let ghost prev = deref_all(r@);
                    r.push(pin);
                    assert(deref_all(r@) =~= prev.push(*pin));
                }
                i = i + 1;
            }
            assert(self@.take(i as int) =~= self@);
            n = n + 1;
        }
        r
    }
}

/// What a board tells a controller about itself when a connection is accepted.
#[derive(Clone, Debug)]
pub struct HardwareDescription {
    pub details: HardwareDetails,
    pub pins: PinDescriptionSet,
}


/// The BCM number of each pin of the 40-pin header, in board order.
pub open spec fn header_bcm_numbers() -> Seq<Option<BCMPinNumber>> {
    seq![None::<u8>, None::<u8>, Some(2u8), None::<u8>, Some(3u8), None::<u8>, Some(4u8), Some(14u8), None::<u8>, Some(15u8), Some(17u8), Some(18u8), Some(27u8), None::<u8>, Some(22u8), Some(23u8), None::<u8>, Some(24u8), Some(10u8), None::<u8>, Some(9u8), Some(25u8), Some(11u8), Some(8u8), None::<u8>, Some(7u8), Some(0u8), Some(1u8), Some(5u8), None::<u8>, Some(6u8), Some(12u8), Some(13u8), None::<u8>, Some(19u8), Some(16u8), Some(26u8), Some(20u8), None::<u8>, Some(21u8)]
}

/// The name of each pin of the 40-pin header, in board order.
pub open spec fn header_names() -> Seq<Seq<char>> {
    seq![
        "3V3"@,
        "5V"@,
        "GPIO2"@,
        "5V"@,
        "GPIO3"@,
        "Ground"@,
        "GPIO4"@,
        "GPIO14"@,
        "Ground"@,
        "GPIO15"@,
        "GPIO17"@,
        "GPIO18"@,
        "GPIO27"@,
        "Ground"@,
        "GPIO22"@,
        "GPIO23"@,
        "3V3"@,
        "GPIO24"@,
        "GPIO10"@,
        "Ground"@,
        "GPIO9"@,
        "GPIO25"@,
        "GPIO11"@,
        "GPIO8"@,
        "Ground"@,
        "GPIO7"@,
        "ID_SD"@,
        "ID_SC"@,
        "GPIO5"@,
        "Ground"@,
        "GPIO6"@,
        "GPIO12"@,
        "GPIO13"@,
        "Ground"@,
        "GPIO19"@,
        "GPIO16"@,
        "GPIO26"@,
        "GPIO20"@,
        "Ground"@,
        "GPIO21"@,
    ]
}

/// The options of each pin of the 40-pin header, in board order.
pub open spec fn header_options() -> Seq<Seq<PinFunction>> {
    seq![
        seq![PinFunction::Power3V3],
        seq![PinFunction::Power5V],
        seq![PinFunction::Input(None), PinFunction::Output(None)],
        seq![PinFunction::Power5V],
        seq![PinFunction::Input(None), PinFunction::Output(None)],
        seq![PinFunction::Ground],
        seq![PinFunction::Input(None), PinFunction::Output(None)],
        seq![PinFunction::Input(None), PinFunction::Output(None)],
        seq![PinFunction::Ground],
        seq![PinFunction::Input(None), PinFunction::Output(None)],
        seq![PinFunction::Input(None), PinFunction::Output(None)],
        seq![PinFunction::Input(None), PinFunction::Output(None)],
        seq![PinFunction::Input(None), PinFunction::Output(None)],
        seq![PinFunction::Ground],
        seq![PinFunction::Input(None), PinFunction::Output(None)],
        seq![PinFunction::Input(None), PinFunction::Output(None)],
        seq![PinFunction::Power3V3],
        seq![PinFunction::Input(None), PinFunction::Output(None)],
        seq![PinFunction::Input(None), PinFunction::Output(None)],
        seq![PinFunction::Ground],
        seq![PinFunction::Input(None), PinFunction::Output(None)],
        seq![PinFunction::Input(None), PinFunction::Output(None)],
        seq![PinFunction::Input(None), PinFunction::Output(None)],
        seq![PinFunction::Input(None), PinFunction::Output(None)],
        seq![PinFunction::Ground],
        seq![PinFunction::Input(None), PinFunction::Output(None)],
        seq![PinFunction::I2C_EEPROM_ID_SD],
        seq![PinFunction::I2C_EEPROM_ID_SC],
        seq![PinFunction::Input(None), PinFunction::Output(None)],
        seq![PinFunction::Ground],
        seq![PinFunction::Input(None), PinFunction::Output(None)],
        seq![PinFunction::Input(None), PinFunction::Output(None)],
        seq![PinFunction::Input(None), PinFunction::Output(None)],
        seq![PinFunction::Ground],
        seq![PinFunction::Input(None), PinFunction::Output(None)],
        seq![PinFunction::Input(None), PinFunction::Output(None)],
        seq![PinFunction::Input(None), PinFunction::Output(None)],
        seq![PinFunction::Input(None), PinFunction::Output(None)],
        seq![PinFunction::Ground],
        seq![PinFunction::Input(None), PinFunction::Output(None)],
    ]
}

fn pin(
    board_pin_number: BoardPinNumber,
    bcm_pin_number: Option<BCMPinNumber>,
    name: &str,
    options: Vec<PinFunction>,
) -> (r: PinDescription)
    ensures
        r.board_pin_number == board_pin_number,
        r.bcm_pin_number == bcm_pin_number,
        r.name@ == name@,
        r.options@ == options@,
{
    PinDescription { board_pin_number, bcm_pin_number, name: name.to_string(), options }
}

/// The 40 pins of the GPIO header, in board order: power, ground, the ID EEPROM bus on BCM 0
/// and 1, and BCM 2 to 27 as general purpose inputs and outputs.
pub fn gpio_pin_descriptions() -> (r: Vec<PinDescription>)
    ensures
        r@.len() == 40,
        forall|i: int| 0 <= i < 40 ==> (#[trigger] r@[i]).board_pin_number == i + 1,
        forall|i: int| 0 <= i < 40 ==> (#[trigger] r@[i]).bcm_pin_number == header_bcm_numbers()[i],
        forall|i: int| 0 <= i < 40 ==> (#[trigger] r@[i]).name@ == header_names()[i],
        forall|i: int| 0 <= i < 40 ==> (#[trigger] r@[i]).options@ == header_options()[i],
        forall|i: int| 0 <= i < 40 ==> (offers_io((#[trigger] r@[i]).options@) <==> r@[i].options@.len() > 1),
        forall|i: int|
            0 <= i < 40 ==> (offers_io((#[trigger] r@[i]).options@) <==> match header_bcm_numbers()[i] {
                Some(n) => n >= 2,
                None => false,
            }),
{
    let mut pins: Vec<PinDescription> = Vec::new();
    pins.push(pin(1, None, "3V3", vec![PinFunction::Power3V3]));
    pins.push(pin(2, None, "5V", vec![PinFunction::Power5V]));
    pins.push(pin(3, Some(2), "GPIO2", vec![PinFunction::Input(None), PinFunction::Output(None)]));
    pins.push(pin(4, None, "5V", vec![PinFunction::Power5V]));
    pins.push(pin(5, Some(3), "GPIO3", vec![PinFunction::Input(None), PinFunction::Output(None)]));
    pins.push(pin(6, None, "Ground", vec![PinFunction::Ground]));
    pins.push(pin(7, Some(4), "GPIO4", vec![PinFunction::Input(None), PinFunction::Output(None)]));
    pins.push(pin(8, Some(14), "GPIO14", vec![PinFunction::Input(None), PinFunction::Output(None)]));
    pins.push(pin(9, None, "Ground", vec![PinFunction::Ground]));
    pins.push(pin(10, Some(15), "GPIO15", vec![PinFunction::Input(None), PinFunction::Output(None)]));
    pins.push(pin(11, Some(17), "GPIO17", vec![PinFunction::Input(None), PinFunction::Output(None)]));
    pins.push(pin(12, Some(18), "GPIO18", vec![PinFunction::Input(None), PinFunction::Output(None)]));
    pins.push(pin(13, Some(27), "GPIO27", vec![PinFunction::Input(None), PinFunction::Output(None)]));
    pins.push(pin(14, None, "Ground", vec![PinFunction::Ground]));
    pins.push(pin(15, Some(22), "GPIO22", vec![PinFunction::Input(None), PinFunction::Output(None)]));
    pins.push(pin(16, Some(23), "GPIO23", vec![PinFunction::Input(None), PinFunction::Output(None)]));
    pins.push(pin(17, None, "3V3", vec![PinFunction::Power3V3]));
    pins.push(pin(18, Some(24), "GPIO24", vec![PinFunction::Input(None), PinFunction::Output(None)]));
    pins.push(pin(19, Some(10), "GPIO10", vec![PinFunction::Input(None), PinFunction::Output(None)]));
    pins.push(pin(20, None, "Ground", vec![PinFunction::Ground]));
    pins.push(pin(21, Some(9), "GPIO9", vec![PinFunction::Input(None), PinFunction::Output(None)]));
    pins.push(pin(22, Some(25), "GPIO25", vec![PinFunction::Input(None), PinFunction::Output(None)]));
    pins.push(pin(23, Some(11), "GPIO11", vec![PinFunction::Input(None), PinFunction::Output(None)]));
    pins.push(pin(24, Some(8), "GPIO8", vec![PinFunction::Input(None), PinFunction::Output(None)]));
    pins.push(pin(25, None, "Ground", vec![PinFunction::Ground]));
    pins.push(pin(26, Some(7), "GPIO7", vec![PinFunction::Input(None), PinFunction::Output(None)]));
    pins.push(pin(27, Some(0), "ID_SD", vec![PinFunction::I2C_EEPROM_ID_SD]));
    pins.push(pin(28, Some(1), "ID_SC", vec![PinFunction::I2C_EEPROM_ID_SC]));
    pins.push(pin(29, Some(5), "GPIO5", vec![PinFunction::Input(None), PinFunction::Output(None)]));
    pins.push(pin(30, None, "Ground", vec![PinFunction::Ground]));
    pins.push(pin(31, Some(6), "GPIO6", vec![PinFunction::Input(None), PinFunction::Output(None)]));
    pins.push(pin(32, Some(12), "GPIO12", vec![PinFunction::Input(None), PinFunction::Output(None)]));
    pins.push(pin(33, Some(13), "GPIO13", vec![PinFunction::Input(None), PinFunction::Output(None)]));
    pins.push(pin(34, None, "Ground", vec![PinFunction::Ground]));
    pins.push(pin(35, Some(19), "GPIO19", vec![PinFunction::Input(None), PinFunction::Output(None)]));
    pins.push(pin(36, Some(16), "GPIO16", vec![PinFunction::Input(None), PinFunction::Output(None)]));
    pins.push(pin(37, Some(26), "GPIO26", vec![PinFunction::Input(None), PinFunction::Output(None)]));
    pins.push(pin(38, Some(20), "GPIO20", vec![PinFunction::Input(None), PinFunction::Output(None)]));
    pins.push(pin(39, None, "Ground", vec![PinFunction::Ground]));
    pins.push(pin(40, Some(21), "GPIO21", vec![PinFunction::Input(None), PinFunction::Output(None)]));
    pins
}

/// The description of a board with the 40-pin GPIO header.
pub fn hardware_description(details: HardwareDetails) -> (r: HardwareDescription)
    ensures
        r.details == details,
        r.pins@.len() == 40,
        forall|i: int| 0 <= i < 40 ==> (#[trigger] r.pins@[i]).board_pin_number == i + 1,
        forall|i: int| 0 <= i < 40 ==> (#[trigger] r.pins@[i]).bcm_pin_number == header_bcm_numbers()[i],
        forall|i: int| 0 <= i < 40 ==> (#[trigger] r.pins@[i]).name@ == header_names()[i],
        forall|i: int| 0 <= i < 40 ==> (#[trigger] r.pins@[i]).options@ == header_options()[i],
        forall|i: int|
            0 <= i < 40 ==> (offers_io((#[trigger] r.pins@[i]).options@) <==> r.pins@[i].options@.len() > 1),
{
    HardwareDescription { details, pins: PinDescriptionSet::new(gpio_pin_descriptions()) }
}

} // verus!
