//! The logic of a PCI bus scan: the address to write for a configuration
//! register, and what the registers read back say about a device.

use vstd::prelude::*;

verus! {

/// The configuration register that holds the vendor and the device.
pub const CONFIG_ID: u8 = 0x0;

/// The configuration register that holds the revision and the class.
pub const CONFIG_CLASS: u8 = 0x8;

/// The configuration register that holds the header type.
pub const CONFIG_HEADER: u8 = 0xC;

/// What a configuration register reads where there is no device.
pub const NO_DEVICE: u32 = 0xFFFF_FFFF;

/// The word that selects a configuration register: the enable bit, then
/// bus, slot and function in their fields, then the offset of the register
/// with its low two bits cleared.
pub open spec fn spec_config_address(bus: u8, slot: u8, function: u8, offset: u8) -> u32 {
    0x8000_0000u32 | ((bus as u32) << 16u32) | ((slot as u32) << 11u32) | ((function as u32)
        << 8u32) | ((offset & 0xFC) as u32)
}

/// The word to write to the address port before the 32-bit configuration
/// register at `offset` of a function is read from the data port.
#[verifier::when_used_as_spec(spec_config_address)]
pub fn config_address(bus: u8, slot: u8, function: u8, offset: u8) -> (r: u32)
    ensures
        r == spec_config_address(bus, slot, function, offset),
        slot < 32 && function < 8 ==> r == 0x8000_0000 + bus * 0x1_0000 + slot * 0x800 + function
            * 0x100 + (offset - offset % 4),
{
    assert(slot < 32 && function < 8 ==> (0x8000_0000u32 | ((bus as u32) << 16u32) | ((slot as u32)
        << 11u32) | ((function as u32) << 8u32) | ((offset & 0xFC) as u32)) == 0x8000_0000
        + bus * 0x1_0000 + slot * 0x800 + function * 0x100 + (offset - offset % 4))
        by (bit_vector);
    0x8000_0000u32 | (bus as u32) << 16 | (slot as u32) << 11 | (function as u32) << 8 | (offset
        & 0xFC) as u32
}

/// The class of a PCI device.
#[derive(Clone, Copy, Debug, PartialEq, Eq, Structural)]
pub enum DeviceClass {
    Legacy,
    MassStorage,
    Network,
    Display,
    Multimedia,
    Memory,
    BridgeDevice,
    SimpleCommunication,
    BaseSystemPeripheral,
    InputDevice,
    DockingStation,
    Processor,
    SerialBus,
    Wireless,
    IntelligentIO,
    SatelliteCommunication,
    EncryptionDecryption,
    DataAndSignalProcessing,
    Unknown,
}

impl DeviceClass {
    /// The class with the class code `c`; `Unknown` for a code beyond the
    /// last that has a class.
    pub open spec fn spec_from_u8(c: u8) -> DeviceClass {
        if c == 0x00 {
            DeviceClass::Legacy
        } else if c == 0x01 {
            DeviceClass::MassStorage
        } else if c == 0x02 {
            DeviceClass::Network
        } else if c == 0x03 {
            DeviceClass::Display
        } else if c == 0x04 {
            DeviceClass::Multimedia
        } else if c == 0x05 {
            DeviceClass::Memory
        } else if c == 0x06 {
            DeviceClass::BridgeDevice
        } else if c == 0x07 {
            DeviceClass::SimpleCommunication
        } else if c == 0x08 {
            DeviceClass::BaseSystemPeripheral
        } else if c == 0x09 {
            DeviceClass::InputDevice
        } else if c == 0x0A {
            DeviceClass::DockingStation
        } else if c == 0x0B {
            DeviceClass::Processor
        } else if c == 0x0C {
            DeviceClass::SerialBus
        } else if c == 0x0D {
            DeviceClass::Wireless
        } else if c == 0x0E {
            DeviceClass::IntelligentIO
        } else if c == 0x0F {
            DeviceClass::SatelliteCommunication
        } else if c == 0x10 {
            DeviceClass::EncryptionDecryption
        } else if c == 0x11 {
            DeviceClass::DataAndSignalProcessing
        } else {
            DeviceClass::Unknown
        }
    }

    /// The class with the class code `c`.
    #[verifier::when_used_as_spec(spec_from_u8)]
    pub fn from_u8(c: u8) -> (r: DeviceClass)
        ensures
            r == DeviceClass::spec_from_u8(c),
            r == DeviceClass::Unknown <==> c > 0x11,
    {
        match c {
            0x00 => DeviceClass::Legacy,
            0x01 => DeviceClass::MassStorage,
            0x02 => DeviceClass::Network,
            0x03 => DeviceClass::Display,
            0x04 => DeviceClass::Multimedia,
            0x05 => DeviceClass::Memory,
            0x06 => DeviceClass::BridgeDevice,
            0x07 => DeviceClass::SimpleCommunication,
            0x08 => DeviceClass::BaseSystemPeripheral,
            0x09 => DeviceClass::InputDevice,
            0x0A => DeviceClass::DockingStation,
            0x0B => DeviceClass::Processor,
            0x0C => DeviceClass::SerialBus,
            0x0D => DeviceClass::Wireless,
            0x0E => DeviceClass::IntelligentIO,
            0x0F => DeviceClass::SatelliteCommunication,
            0x10 => DeviceClass::EncryptionDecryption,
            0x11 => DeviceClass::DataAndSignalProcessing,
            _ => DeviceClass::Unknown,
        }
    }
}

/// What the configuration registers say about a function of a device.
#[derive(Clone, Copy, Debug, PartialEq, Eq, Structural)]
pub struct DeviceInfo {
    pub vendor_id: u16,
    pub device_id: u16,
    pub revision_id: u8,
    pub subclass: u8,
    pub class_code: DeviceClass,
    pub multifunction: bool,
}

/// What the registers `CONFIG_ID`, `CONFIG_CLASS` and `CONFIG_HEADER` say:
/// nothing where the first reads all ones.  Else the vendor is the low half
/// of the first and the device its high half; the revision is the lowest
/// byte of the second, the subclass its third and the class code its
/// highest; and bit 23 of the third tells a device with several functions.
pub open spec fn spec_probe(config_0: u32, config_4: u32, config_c: u32) -> Option<DeviceInfo> {
    if config_0 == NO_DEVICE {
        None
    } else {
        Some(
            DeviceInfo {
                vendor_id: (config_0 % 0x1_0000) as u16,
                device_id: (config_0 / 0x1_0000) as u16,
                revision_id: (config_4 % 0x100) as u8,
                subclass: (config_4 / 0x1_0000 % 0x100) as u8,
                class_code: DeviceClass::from_u8((config_4 / 0x100_0000) as u8),
                multifunction: config_c / 0x80_0000 % 2 == 1,
            },
        )
    }
}

/// Whether a device answered: `config_0` is what `CONFIG_ID` read.
pub fn is_present(config_0: u32) -> (r: bool)
    ensures
        r == (config_0 != NO_DEVICE),
{
    config_0 != NO_DEVICE
}

/// What is known of a function from its registers `CONFIG_ID`,
/// `CONFIG_CLASS` and `CONFIG_HEADER`, if a device answered.
#[verifier::when_used_as_spec(spec_probe)]
pub fn probe(config_0: u32, config_4: u32, config_c: u32) -> (r: Option<DeviceInfo>)
    ensures
        r == spec_probe(config_0, config_4, config_c),
{
    // All ones come back where no device is present.
    if config_0 == NO_DEVICE {
        return None;
    }
    assert(config_0 & 0xFFFF == config_0 % 0x1_0000) by (bit_vector);
    assert(config_0 >> 16u32 == config_0 / 0x1_0000) by (bit_vector);
    assert(config_4 & 0xFF == config_4 % 0x100) by (bit_vector);
    assert((config_4 >> 16u32) & 0xFF == config_4 / 0x1_0000 % 0x100) by (bit_vector);
    assert(config_4 >> 24u32 == config_4 / 0x100_0000) by (bit_vector);
    assert((config_c & 0x80_0000 != 0) == (config_c / 0x80_0000 % 2 == 1)) by (bit_vector);
    Some(
        DeviceInfo {
            vendor_id: (config_0 & 0xFFFF) as u16,
            device_id: (config_0 >> 16) as u16,
            revision_id: (config_4 & 0xFF) as u8,
            subclass: ((config_4 >> 16) & 0xFF) as u8,
            class_code: DeviceClass::from_u8((config_4 >> 24) as u8),
            multifunction: config_c & 0x80_0000 != 0,
        },
    )
}

/// A function of a device on a bus: what a probe is aimed at.
#[derive(Clone, Copy, Debug, PartialEq, Eq, Structural)]
pub struct Target {
    pub bus: u8,
    pub slot: u8,
    pub function: u8,
}

/// The number of slots on a bus.
pub const SLOTS: u8 = 32;

/// The number of functions that a device can have.
pub const FUNCTIONS: u8 = 8;

impl Target {
    /// Where a scan of all buses begins: the first function of the first
    /// slot of the first bus.
    pub fn first() -> (r: Target)
        ensures
            r == (Target { bus: 0, slot: 0, function: 0 }),
    {
        Target { bus: 0, slot: 0, function: 0 }
    }

    /// The first function of the slot after this one, on the next bus after
    /// the last slot of a bus; nothing after the last slot of the last bus.
    pub open spec fn spec_next_slot(self) -> Option<Target> {
        if self.slot + 1 < SLOTS {
            Some(Target { bus: self.bus, slot: (self.slot + 1) as u8, function: 0 })
        } else if self.bus < 255 {
            Some(Target { bus: (self.bus + 1) as u8, slot: 0, function: 0 })
        } else {
            None
        }
    }

    /// The first function of the next slot to probe, if one is left.
    #[verifier::when_used_as_spec(spec_next_slot)]
    pub fn next_slot(self) -> (r: Option<Target>)
        ensures
            r == self.spec_next_slot(),
    {
        if self.slot < SLOTS - 1 {
            Some(Target { bus: self.bus, slot: self.slot + 1, function: 0 })
        } else if self.bus < 255 {
            Some(Target { bus: self.bus + 1, slot: 0, function: 0 })
        } else {
            None
        }
    }

    /// What a scan probes after this target, `found` being what the probe of
    /// this target gave.  After the first function of a device comes its
    /// second if the device is there and has several functions, else the
    /// next slot.  After any other function comes the next one of the
    /// device, whatever was found, and after the last the next slot.
    pub open spec fn spec_next(self, found: Option<DeviceInfo>) -> Option<Target> {
        if self.function == 0 {
            if found is Some && found->0.multifunction {
                Some(Target { function: 1, ..self })
            } else {
                self.next_slot()
            }
        } else if self.function + 1 < FUNCTIONS {
            Some(Target { function: (self.function + 1) as u8, ..self })
        } else {
            self.next_slot()
        }
    }

    /// What a scan probes after this target, if anything is left.
    #[verifier::when_used_as_spec(spec_next)]
    pub fn next(self, found: Option<DeviceInfo>) -> (r: Option<Target>)
        ensures
            r == self.spec_next(found),
    {
        if self.function == 0 {
            match found {
                Some(info) => {
                    if info.multifunction {
                        return Some(Target { bus: self.bus, slot: self.slot, function: 1 });
                    }
                },
                None => {},
            }
            self.next_slot()
        } else if self.function < FUNCTIONS - 1 {
            Some(Target { bus: self.bus, slot: self.slot, function: self.function + 1 })
        } else {
            self.next_slot()
        }
    }
}

} // verus!
