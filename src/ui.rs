//! The pin layout window of the controller's user interface.

use vstd::prelude::*;
use crate::config::GPIOConfig;
use crate::pins::{PinDescriptionSet, PinFunction};

verus! {

/// How the pins are laid out on screen.
#[derive(Clone, Copy, Debug, PartialEq, Eq, Structural)]
pub enum Layout {
    /// As on the board's header.
    Physical,
    /// By BCM number.
    Logical,
}

/// What the pin layout window reacts to.
pub enum Message {
    Activate,
    PinFunctionSelected(usize, PinFunction),
    LayoutChanged(Layout),
}

/// The pin layout window: the board's pins, the configuration loaded, and the function the
/// user picked for each pin.
pub struct Gpio {
    pub config_filename: Option<String>,
    pub gpio_description: PinDescriptionSet,
    pub gpio_config: GPIOConfig,
    pub pin_function_selected: Vec<Option<PinFunction>>,
    pub clicked: bool,
    pub chosen_layout: Layout,
}

impl Gpio {
    /// The window for `pins` with configuration `config`, loaded from `config_filename` if
    /// given: no function picked yet, physical layout.
    pub fn new(config_filename: Option<String>, pins: PinDescriptionSet, config: GPIOConfig) -> (r: Gpio)
        ensures
            r.config_filename == config_filename,
            r.gpio_description@ == pins@,
            r.gpio_config == config,
            r.pin_function_selected@ == Seq::new(pins@.len(), |i: int| None::<PinFunction>),
            !r.clicked,
            r.chosen_layout == Layout::Physical,
    {
        let n = pins.pins().len();
        let mut selected: Vec<Option<PinFunction>> = Vec::new();
        let mut i: usize = 0;
        while i < n
            invariant
                i <= n,
                n == pins@.len(),
                selected@ == Seq::new(i as nat, |j: int| None::<PinFunction>),
            decreases n - i,
        {
            selected.push(None);
            assert(selected@ =~= Seq::new((i + 1) as nat, |j: int| None::<PinFunction>));
            i = i + 1;
        }
        Gpio {
            config_filename,
            gpio_description: pins,
            gpio_config: config,
            pin_function_selected: selected,
            clicked: false,
            chosen_layout: Layout::Physical,
        }
    }

    /// The window title.
    pub fn title(&self) -> (r: String)
        ensures
            r@ == "Piggui"@,
    {
        "Piggui".to_string()
    }

    /// React to a user action. A function picked for a pin is recorded against the pin's
    /// index in the layout.
    pub fn update(&mut self, message: Message)
        requires
            message matches Message::PinFunctionSelected(i, _) ==> i < old(self).pin_function_selected@.len(),
        ensures
            match message {
                Message::Activate => final(self).clicked && final(self).pin_function_selected@ == old(self).pin_function_selected@ && final(self).chosen_layout == old(self).chosen_layout,
                Message::PinFunctionSelected(i, f) => final(self).pin_function_selected@ == old(self).pin_function_selected@.update(i as int, Some(f)) && final(self).clicked == old(self).clicked && final(self).chosen_layout == old(self).chosen_layout,
                Message::LayoutChanged(l) => final(self).chosen_layout == l && final(self).clicked
                    == old(self).clicked && final(self).pin_function_selected@ == old(self).pin_function_selected@,
            },
    {
        match message {
            Message::Activate => self.clicked = true,
            Message::PinFunctionSelected(pin_index, pin_function) => {
                self.pin_function_selected.set(pin_index, Some(pin_function));
            },
            Message::LayoutChanged(layout) => self.chosen_layout = layout,
        }
    }
}

} // verus!
