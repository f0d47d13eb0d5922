use pigg::config::GPIOConfig;
use pigg::pins::{
    gpio_pin_descriptions, hardware_description, HardwareDescription, HardwareDetails, InputPull,
    PinDescription, PinDescriptionSet, PinFunction,
};

fn details() -> HardwareDetails {
    HardwareDetails {
        hardware: "NotAPi".to_string(),
        revision: "Unknown".to_string(),
        serial: "Unknown".to_string(),
        model: "Fake Hardware".to_string(),
        wifi: true,
        app_name: "Test".to_string(),
        app_version: "0.1.0".to_string(),
    }
}

fn description() -> HardwareDescription {
    hardware_description(details())
}

#[test]
fn create_a_config() {
    let config = GPIOConfig::default();
    assert!(config.configured_pins.is_empty());
}

#[test]
fn display_pin_function() {
    let functions = vec![
        PinFunction::Ground,
        PinFunction::Unassigned,
        PinFunction::Power3V3,
        PinFunction::Output(None),
        PinFunction::Output(Some(true)),
        PinFunction::Output(Some(false)),
        PinFunction::Input(None),
        PinFunction::Input(Some(InputPull::PullUp)),
        PinFunction::Input(Some(InputPull::PullDown)),
        PinFunction::I2C_EEPROM_ID_SC,
        PinFunction::I2C_EEPROM_ID_SD,
        PinFunction::Power3V3,
        PinFunction::Power5V,
    ];

    for function in functions {
        println!("{}", function.name());
    }
}

#[test]
fn function_names_drop_settings() {
    assert_eq!(PinFunction::Output(Some(true)).name(), "Output");
    assert_eq!(PinFunction::Input(Some(InputPull::PullUp)).name(), "Input");
    assert_eq!(PinFunction::Unassigned.name(), "None");
}

#[test]
fn lib_get_hardware() {
    let description = description();
    let pins = description.pins.pins();
    assert_eq!(pins.len(), 40);
    assert_eq!(pins[0].name, "3V3")
}

#[test]
fn driver_get_hardware() {
    let description = description();
    let pins = description.pins.pins();
    assert_eq!(pins.len(), 40);
    assert_eq!(pins[0].name, "3V3")
}

#[test]
fn pi_hw_get_hardware() {
    let description = description();
    let pins = description.pins.pins();
    assert_eq!(pins.len(), 40);
    assert_eq!(pins[0].name, "3V3")
}

#[test]
fn lib_hw_can_be_got() {
    let _description = description();
}

#[test]
fn driver_hw_can_be_got() {
    println!("HW Description: {:?}", description());
}

#[test]
fn mod_hw_can_be_got() {
    let description = description();
    assert_eq!(description.pins.pins().len(), 40);
    println!("{:?}", description);
}

#[test]
fn lib_forty_board_pins() {
    assert_eq!(description().pins.pins().len(), 40);
}

#[test]
fn driver_forty_board_pins() {
    let pin_set = description().pins;
    assert_eq!(pin_set.pins().len(), 40);
}

#[test]
fn mod_forty_board_pins() {
    let pin_set = description().pins;
    assert_eq!(pin_set.pins().len(), 40);
}

#[test]
fn twenty_seven_bcm_pins() {
    // 0-27, not counting the gpio0 and gpio1 pins with no options
    let pin_set = description().pins;
    assert_eq!(pin_set.bcm_pins().len(), 26);
}

fn check_sorted(pin_set: &PinDescriptionSet) {
    let sorted_bcm_pins = pin_set.bcm_pins_sorted();
    assert_eq!(pin_set.bcm_pins_sorted().len(), 26);
    let mut previous = 1; // we start at GPIO2
    for pin in sorted_bcm_pins {
        assert_eq!(pin.bcm_pin_number.expect("Could not get BCM pin number"), previous + 1);
        previous = pin.bcm_pin_number.expect("Could not get BCM pin number");
    }
}

#[test]
fn lib_bcm_pins_sort_in_order() {
    check_sorted(&description().pins);
}

#[test]
fn driver_bcm_pins_sort_in_order() {
    check_sorted(&description().pins);
}

#[test]
fn mod_bcm_pins_sort_in_order() {
    check_sorted(&description().pins);
}

#[test]
fn bcp_pin_2() {
    let pin_set = description().pins;
    assert_eq!(pin_set.bcm_to_board(2), Some(3));
}

#[test]
fn bcp_pin_unknown() {
    let pin_set = description().pins;
    assert_eq!(pin_set.bcm_to_board(100), None);
}

fn fake_pin(board: u8, bcm: u8, options: Vec<PinFunction>) -> PinDescription {
    PinDescription {
        board_pin_number: board,
        bcm_pin_number: Some(bcm),
        name: "Fake Pin".to_string(),
        options,
    }
}

#[test]
fn lib_display_pin_description() {
    let pin = fake_pin(7, 11, vec![]);
    println!("Pin: {pin:?}");
}

#[test]
fn driver_display_pin_description() {
    let pin = fake_pin(7, 11, vec![]);
    println!("Pin: {:?}", pin);
}

fn check_sort_bcm() {
    let pin7 = fake_pin(7, 11, vec![PinFunction::Input(None), PinFunction::Output(None)]);
    let pin8 = fake_pin(8, 1, vec![PinFunction::Input(None), PinFunction::Output(None)]);
    let mut pins = vec![pin7.clone(), pin8];
    while pins.len() < 40 {
        pins.push(pin7.clone());
    }
    let pin_set = PinDescriptionSet::new(pins);
    assert_eq!(
        pin_set.pins().first().expect("Could not get pin").bcm_pin_number.expect("Could not get BCM Pin Number"),
        11
    );
    assert_eq!(
        pin_set.pins().get(1).expect("Could not get pin").bcm_pin_number.expect("Could not get BCM Pin Number"),
        1
    );
    assert_eq!(
        pin_set.bcm_pins_sorted().first().expect("Could not get pin").bcm_pin_number.expect("Could not get BCM Pin Number"),
        1
    );
    assert_eq!(
        pin_set.bcm_pins_sorted().get(1).expect("Could not get pin").bcm_pin_number.expect("Could not get BCM Pin Number"),
        11
    );
}

#[test]
fn lib_sort_bcm() {
    check_sort_bcm();
}

#[test]
fn driver_sort_bcm() {
    check_sort_bcm();
}

#[test]
fn header_catalogue_facts() {
    let pins = gpio_pin_descriptions();
    let set = PinDescriptionSet::new(pins);
    assert!(set.is_configurable(2));
    assert!(set.is_configurable(27));
    assert!(!set.is_configurable(0));
    assert!(!set.is_configurable(1));
    assert!(!set.is_configurable(28));
    assert_eq!(set.bcm_to_board(0), Some(27));
    assert_eq!(set.iter().count(), 40);
    let sorted = set.bcm_pins_sorted();
    assert_eq!(sorted[0].board_pin_number, 3);
    assert_eq!(sorted[25].bcm_pin_number, Some(27));
}

#[test]
fn config_insert_get_remove() {
    let mut config = GPIOConfig::new();
    assert!(config.is_empty());
    config.insert(17, PinFunction::Output(Some(true)));
    config.insert(4, PinFunction::Input(None));
    config.insert(17, PinFunction::Output(Some(false)));
    assert_eq!(config.len(), 2);
    assert_eq!(config.configured_pins, vec![(4, PinFunction::Input(None)), (17, PinFunction::Output(Some(false)))]);
    assert_eq!(config.get(17), Some(PinFunction::Output(Some(false))));
    assert_eq!(config.get(5), None);
    config.remove(4);
    config.remove(99);
    assert_eq!(config.len(), 1);
    let mut other = GPIOConfig::new();
    other.insert(17, PinFunction::Output(Some(false)));
    assert!(config.is_equal(&other));
    other.insert(18, PinFunction::Output(None));
    assert!(!config.is_equal(&other));
}
