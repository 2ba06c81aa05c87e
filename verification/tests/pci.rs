use toyos::pci::{
    config_address, is_present, probe, DeviceClass, DeviceInfo, Target, CONFIG_CLASS,
    CONFIG_HEADER, CONFIG_ID, NO_DEVICE,
};

#[test]
fn the_address_packs_bus_slot_function_and_offset() {
    assert_eq!(0x8000_0000, config_address(0, 0, 0, 0));
    assert_eq!(0x8001_0000, config_address(1, 0, 0, 0));
    assert_eq!(0x80FF_0000, config_address(255, 0, 0, 0));
    assert_eq!(0x8000_0800, config_address(0, 1, 0, 0));
    assert_eq!(0x8000_F800, config_address(0, 31, 0, 0));
    assert_eq!(0x8000_0100, config_address(0, 0, 1, 0));
    assert_eq!(0x8000_0700, config_address(0, 0, 7, 0));
    assert_eq!(0x8000_0008, config_address(0, 0, 0, CONFIG_CLASS));
    assert_eq!(0x8000_000C, config_address(0, 0, 0, CONFIG_HEADER));
    assert_eq!(0x8000_0000, config_address(0, 0, 0, CONFIG_ID));
    assert_eq!(0x8012_A30C, config_address(0x12, 0x14, 3, 0x0C));
}

#[test]
fn the_low_bits_of_the_offset_are_dropped() {
    assert_eq!(0x8000_0000, config_address(0, 0, 0, 3));
    assert_eq!(0x8000_0004, config_address(0, 0, 0, 7));
    assert_eq!(0x8000_00FC, config_address(0, 0, 0, 0xFF));
}

#[test]
fn fields_that_are_too_wide_run_into_their_neighbours() {
    assert_eq!(0x8001_0000, config_address(0, 32, 0, 0));
    assert_eq!(0x8000_0800, config_address(0, 0, 8, 0));
}

#[test]
fn class_codes_map_to_classes() {
    assert_eq!(DeviceClass::Legacy, DeviceClass::from_u8(0x00));
    assert_eq!(DeviceClass::MassStorage, DeviceClass::from_u8(0x01));
    assert_eq!(DeviceClass::Network, DeviceClass::from_u8(0x02));
    assert_eq!(DeviceClass::Display, DeviceClass::from_u8(0x03));
    assert_eq!(DeviceClass::Multimedia, DeviceClass::from_u8(0x04));
    assert_eq!(DeviceClass::Memory, DeviceClass::from_u8(0x05));
    assert_eq!(DeviceClass::BridgeDevice, DeviceClass::from_u8(0x06));
    assert_eq!(DeviceClass::SimpleCommunication, DeviceClass::from_u8(0x07));
    assert_eq!(DeviceClass::BaseSystemPeripheral, DeviceClass::from_u8(0x08));
    assert_eq!(DeviceClass::InputDevice, DeviceClass::from_u8(0x09));
    assert_eq!(DeviceClass::DockingStation, DeviceClass::from_u8(0x0A));
    assert_eq!(DeviceClass::Processor, DeviceClass::from_u8(0x0B));
    assert_eq!(DeviceClass::SerialBus, DeviceClass::from_u8(0x0C));
    assert_eq!(DeviceClass::Wireless, DeviceClass::from_u8(0x0D));
    assert_eq!(DeviceClass::IntelligentIO, DeviceClass::from_u8(0x0E));
    assert_eq!(DeviceClass::SatelliteCommunication, DeviceClass::from_u8(0x0F));
    assert_eq!(DeviceClass::EncryptionDecryption, DeviceClass::from_u8(0x10));
    assert_eq!(DeviceClass::DataAndSignalProcessing, DeviceClass::from_u8(0x11));
    assert_eq!(DeviceClass::Unknown, DeviceClass::from_u8(0x12));
    assert_eq!(DeviceClass::Unknown, DeviceClass::from_u8(0xFF));
}

#[test]
fn all_ones_mean_no_device() {
    assert_eq!(0xFFFF_FFFF, NO_DEVICE);
    assert!(!is_present(NO_DEVICE));
    assert!(is_present(0));
    assert!(is_present(0xFFFF_FFFE));
    assert_eq!(None, probe(NO_DEVICE, 0, 0));
    assert_eq!(None, probe(NO_DEVICE, 0x0200_0003, 0x0080_0000));
}

#[test]
fn the_registers_are_taken_apart() {
    let info = probe(0x1237_8086, 0x0600_0002, 0x0000_0000).unwrap();
    assert_eq!(
        DeviceInfo {
            vendor_id: 0x8086,
            device_id: 0x1237,
            revision_id: 0x02,
            subclass: 0x00,
            class_code: DeviceClass::BridgeDevice,
            multifunction: false,
        },
        info
    );
    let info = probe(0x100E_8086, 0x0200_0003, 0x0080_0000).unwrap();
    assert_eq!(0x8086, info.vendor_id);
    assert_eq!(0x100E, info.device_id);
    assert_eq!(0x03, info.revision_id);
    assert_eq!(0x00, info.subclass);
    assert_eq!(DeviceClass::Network, info.class_code);
    assert!(info.multifunction);
    let info = probe(0x00B8_1013, 0x4280_AB5C, 0xFF7F_FFFF).unwrap();
    assert_eq!(0x1013, info.vendor_id);
    assert_eq!(0x00B8, info.device_id);
    assert_eq!(0x5C, info.revision_id);
    assert_eq!(0x80, info.subclass);
    assert_eq!(DeviceClass::Unknown, info.class_code);
    assert!(!info.multifunction);
}

fn device(multifunction: bool) -> Option<DeviceInfo> {
    Some(DeviceInfo {
        vendor_id: 0x8086,
        device_id: 0x7000,
        revision_id: 0,
        subclass: 1,
        class_code: DeviceClass::BridgeDevice,
        multifunction,
    })
}

#[test]
fn a_scan_begins_at_the_first_slot() {
    assert_eq!(Target { bus: 0, slot: 0, function: 0 }, Target::first());
}

#[test]
fn a_scan_goes_on_to_the_next_slot_after_a_plain_device() {
    let target = Target { bus: 3, slot: 4, function: 0 };
    assert_eq!(Some(Target { bus: 3, slot: 5, function: 0 }), target.next(None));
    assert_eq!(Some(Target { bus: 3, slot: 5, function: 0 }), target.next(device(false)));
    assert_eq!(Some(Target { bus: 3, slot: 5, function: 0 }), target.next_slot());
}

#[test]
fn a_scan_visits_the_functions_of_a_device_that_has_several() {
    let mut target = Target { bus: 0, slot: 1, function: 0 };
    target = target.next(device(true)).unwrap();
    assert_eq!(Target { bus: 0, slot: 1, function: 1 }, target);
    for function in 2..8 {
        // What the other functions hold does not matter.
        target = target.next(if function % 2 == 0 { None } else { device(true) }).unwrap();
        assert_eq!(Target { bus: 0, slot: 1, function }, target);
    }
    assert_eq!(Some(Target { bus: 0, slot: 2, function: 0 }), target.next(None));
    assert_eq!(Some(Target { bus: 0, slot: 2, function: 0 }), target.next(device(true)));
}

#[test]
fn a_scan_goes_from_the_last_slot_of_a_bus_to_the_next_bus() {
    let target = Target { bus: 7, slot: 31, function: 0 };
    assert_eq!(Some(Target { bus: 8, slot: 0, function: 0 }), target.next(None));
    let target = Target { bus: 7, slot: 31, function: 7 };
    assert_eq!(Some(Target { bus: 8, slot: 0, function: 0 }), target.next(device(false)));
}

#[test]
fn a_scan_ends_after_the_last_slot_of_the_last_bus() {
    assert_eq!(None, Target { bus: 255, slot: 31, function: 0 }.next(None));
    assert_eq!(None, Target { bus: 255, slot: 31, function: 7 }.next(None));
    assert_eq!(
        Some(Target { bus: 255, slot: 31, function: 1 }),
        Target { bus: 255, slot: 31, function: 0 }.next(device(true))
    );
}

#[test]
fn a_scan_of_empty_buses_probes_every_slot_once() {
    let mut count = 0;
    let mut next = Some(Target::first());
    while let Some(target) = next {
        assert_eq!(0, target.function);
        assert_eq!(count % 32, target.slot as usize);
        assert_eq!(count / 32, target.bus as usize);
        count += 1;
        next = target.next(None);
    }
    assert_eq!(256 * 32, count);
}
