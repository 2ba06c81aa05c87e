//! The logic of a pair of chained 8259 interrupt controllers: which
//! interrupts each handles, and what is written to which port to set them
//! up and to acknowledge an interrupt.

use vstd::prelude::*;

verus! {

/// The command that starts the three-byte initialization sequence.
pub const CMD_INIT: u8 = 0x11;

/// The command that acknowledges an interrupt.
pub const CMD_END_OF_INTERRUPT: u8 = 0x20;

/// The mode in which the controllers run.
pub const MODE_8086: u8 = 0x01;

/// A byte to write to an I/O port.
#[derive(Clone, Copy, Debug, PartialEq, Eq, Structural)]
pub struct PortWrite {
    pub port: u16,
    pub value: u8,
}

/// The writes that acknowledge an interrupt, in the order in which they
/// are made: the one to the second controller, where it is owed, comes
/// before the one to the first.
#[derive(Clone, Copy, Debug)]
pub struct Acknowledgement {
    pub second: Option<PortWrite>,
    pub first: PortWrite,
}

/// One interrupt controller.
#[derive(Clone, Copy, Debug, PartialEq, Eq, Structural)]
pub struct Pic {
    /// The base offset to which the controller's interrupts are mapped.
    pub offset: u8,
    /// The I/O port for commands.
    pub command: u16,
    /// The I/O port for data.
    pub data: u16,
}

impl Pic {
    /// A controller handles the eight interrupts from its offset on.
    pub open spec fn spec_handles_interrupt(&self, interrupt_id: u8) -> bool {
        self.offset <= interrupt_id < self.offset + 8
    }

    /// Whether this controller is in charge of the interrupt.
    #[verifier::when_used_as_spec(spec_handles_interrupt)]
    pub fn handles_interrupt(&self, interrupt_id: u8) -> (r: bool)
        ensures
            r == self.spec_handles_interrupt(interrupt_id),
    {
        self.offset <= interrupt_id && interrupt_id - self.offset < 8
    }

    /// What tells this controller that an interrupt has been handled.
    pub fn end_of_interrupt(&self, interrupt_id: u8) -> (r: PortWrite)
        ensures
            r == (PortWrite { port: self.command, value: CMD_END_OF_INTERRUPT }),
    {
        PortWrite { port: self.command, value: CMD_END_OF_INTERRUPT }
    }
}

/// A pair of chained controllers, the standard setup on x86.
#[derive(Clone, Copy, Debug, PartialEq, Eq, Structural)]
pub struct Pics {
    pub first: Pic,
    pub second: Pic,
}

impl Pics {
    /// The two controllers at their standard ports, with the first mapped
    /// to the interrupts from `0x20` and the second to those from `0x28`,
    /// clear of the interrupts that the processor reserves.
    pub fn new() -> (r: Pics)
        ensures
            r.first == (Pic { offset: 0x20, command: 0x20, data: 0x21 }),
            r.second == (Pic { offset: 0x28, command: 0xA0, data: 0xA1 }),
    {
        Pics {
            first: Pic { offset: 0x20, command: 0x20, data: 0x21 },
            second: Pic { offset: 0x28, command: 0xA0, data: 0xA1 },
        }
    }

    /// What sets up both controllers, the masks read from their data ports
    /// beforehand given: the command to initialize, then each controller's
    /// offset, how the two are chained, and the mode, and at last the
    /// masks again.
    pub open spec fn spec_initialize(&self, saved_mask1: u8, saved_mask2: u8) -> Seq<PortWrite> {
        seq![
            PortWrite { port: self.first.command, value: CMD_INIT },
            PortWrite { port: self.second.command, value: CMD_INIT },
            PortWrite { port: self.first.data, value: self.first.offset },
            PortWrite { port: self.second.data, value: self.second.offset },
            PortWrite { port: self.first.data, value: 4 },
            PortWrite { port: self.second.data, value: 2 },
            PortWrite { port: self.first.data, value: MODE_8086 },
            PortWrite { port: self.second.data, value: MODE_8086 },
            PortWrite { port: self.first.data, value: saved_mask1 },
            PortWrite { port: self.second.data, value: saved_mask2 },
        ]
    }

    /// The writes that initialize both controllers, in order.  The masks
    /// are what the two data ports read before the first write.
    pub fn initialize(&self, saved_mask1: u8, saved_mask2: u8) -> (r: [PortWrite; 10])
        ensures
            r@ == self.spec_initialize(saved_mask1, saved_mask2),
    {
        let writes: [PortWrite; 10] = [
            // Each controller is told that three bytes follow on its data
            // port.
            PortWrite { port: self.first.command, value: CMD_INIT },
            PortWrite { port: self.second.command, value: CMD_INIT },
            // Byte 1: the base offsets.
            PortWrite { port: self.first.data, value: self.first.offset },
            PortWrite { port: self.second.data, value: self.second.offset },
            // Byte 2: the chaining between the two.
            PortWrite { port: self.first.data, value: 4 },
            PortWrite { port: self.second.data, value: 2 },
            // Byte 3: the mode.
            PortWrite { port: self.first.data, value: MODE_8086 },
            PortWrite { port: self.second.data, value: MODE_8086 },
            // The masks go back.
            PortWrite { port: self.first.data, value: saved_mask1 },
            PortWrite { port: self.second.data, value: saved_mask2 },
        ];
        assert(writes@ =~= self.spec_initialize(saved_mask1, saved_mask2));
        writes
    }

    /// One of the two controllers handles the interrupt.
    pub open spec fn spec_handles_interrupt(&self, interrupt_id: u8) -> bool {
        self.first.handles_interrupt(interrupt_id) || self.second.handles_interrupt(interrupt_id)
    }

    /// Whether one of the two controllers is in charge of the interrupt.
    #[verifier::when_used_as_spec(spec_handles_interrupt)]
    pub fn handles_interrupt(&self, interrupt_id: u8) -> (r: bool)
        ensures
            r == self.spec_handles_interrupt(interrupt_id),
    {
        self.first.handles_interrupt(interrupt_id) || self.second.handles_interrupt(interrupt_id)
    }

    /// What acknowledges an interrupt: the second controller hears of its
    /// own interrupts, and the first of all, since the second is chained
    /// through it.
    pub open spec fn spec_end_of_interrupt(&self, interrupt_id: u8) -> Acknowledgement {
        Acknowledgement {
            second: if self.second.handles_interrupt(interrupt_id) {
                Some(PortWrite { port: self.second.command, value: CMD_END_OF_INTERRUPT })
            } else {
                None
            },
            first: PortWrite { port: self.first.command, value: CMD_END_OF_INTERRUPT },
        }
    }

    /// The writes that acknowledge an interrupt.
    #[verifier::when_used_as_spec(spec_end_of_interrupt)]
    pub fn end_of_interrupt(&self, interrupt_id: u8) -> (r: Acknowledgement)
        ensures
            r == self.spec_end_of_interrupt(interrupt_id),
    {
        let second = if self.second.handles_interrupt(interrupt_id) {
            Some(self.second.end_of_interrupt(interrupt_id))
        } else {
            None
        };
        Acknowledgement { second, first: self.first.end_of_interrupt(interrupt_id) }
    }
}

/// The writes that acknowledge an interrupt once it has been handled, so
/// that more can come: those of `Pics::end_of_interrupt` for an interrupt
/// of the controllers, and none for any other.
pub fn finish_interrupt_if_pic(pics: &Pics, interrupt_id: u8) -> (r: Option<Acknowledgement>)
    ensures
        r == if pics.handles_interrupt(interrupt_id) {
            Some(pics.end_of_interrupt(interrupt_id))
        } else {
            None
        },
{
    if pics.handles_interrupt(interrupt_id) {
        Some(pics.end_of_interrupt(interrupt_id))
    } else {
        None
    }
}

} // verus!
