//! The logic of interrupt handling: the entries of a 64-bit interrupt
//! descriptor table, and what an interrupt asks for.

use vstd::prelude::*;

verus! {

/// The number of entries of an interrupt descriptor table.
pub const IDT_ENTRY_COUNT: usize = 256;

/// The number of bytes that an entry takes in the table.
pub const IDT_ENTRY_SIZE: usize = 16;

/// The flags of an entry that is not present: an interrupt gate.
pub const FLAGS_ABSENT: u16 = 0x0E00;

/// The flags of an entry that is present: an interrupt gate.
pub const FLAGS_PRESENT: u16 = 0x8E00;

/// What lies on the stack when an interrupt is handled.
#[derive(Clone, Copy, Debug, PartialEq, Eq, Structural)]
pub struct InterruptContext {
    pub rsi: u64,
    pub rdi: u64,
    pub r11: u64,
    pub r10: u64,
    pub r9: u64,
    pub r8: u64,
    pub rdx: u64,
    pub rcx: u64,
    pub rax: u64,
    pub int_id: u32,
    pub error_code: u32,
}

/// What an interrupt asks for.
#[derive(Clone, Copy, Debug, PartialEq, Eq, Structural)]
pub enum Interrupt {
    /// The timer ticked: nothing is to be done.
    Timer,
    /// The keyboard has a scancode to read.
    Keyboard,
    /// A program asked for a system call.
    SystemCall,
    /// An interrupt that nothing handles.
    Unknown,
}

impl InterruptContext {
    /// What the interrupt of this context asks for: `0x20` is the timer,
    /// `0x21` the keyboard, `0x80` a system call.
    pub open spec fn spec_classify(&self) -> Interrupt {
        if self.int_id == 0x20 {
            Interrupt::Timer
        } else if self.int_id == 0x21 {
            Interrupt::Keyboard
        } else if self.int_id == 0x80 {
            Interrupt::SystemCall
        } else {
            Interrupt::Unknown
        }
    }

    /// What the interrupt of this context asks for.
    #[verifier::when_used_as_spec(spec_classify)]
    pub fn classify(&self) -> (r: Interrupt)
        ensures
            r == self.spec_classify(),
    {
        match self.int_id {
            0x20 => Interrupt::Timer,
            0x21 => Interrupt::Keyboard,
            0x80 => Interrupt::SystemCall,
            _ => Interrupt::Unknown,
        }
    }

    /// The number by which the interrupt controllers know the interrupt:
    /// the low byte of its number.
    pub fn controller_id(&self) -> (r: u8)
        ensures
            r == self.int_id % 0x100,
    {
        let id: u32 = self.int_id;
        assert(id & 0xFF == id % 0x100) by (bit_vector);
        (id & 0xFF) as u8
    }
}

/// The character that the console shows for a character from the keyboard:
/// a line feed for a carriage return, else the character itself.
pub fn echo(input: char) -> (r: char)
    ensures
        r == if input == '\r' {
            '\n'
        } else {
            input
        },
{
    if input == '\r' {
        '\n'
    } else {
        input
    }
}

/// An entry in a 64-bit interrupt descriptor table.
#[derive(Clone, Copy, Debug, PartialEq, Eq, Structural)]
pub struct IdtEntry {
    pub offset_low: u16,
    pub segment: u16,
    pub flags: u16,
    pub offset_mid: u16,
    pub offset_high: u32,
    pub reserved: u32,
}

impl IdtEntry {
    /// The address of the handler that the entry points at.
    pub open spec fn handler(&self) -> int {
        self.offset_low + self.offset_mid * 0x1_0000 + self.offset_high * 0x1_0000_0000
    }

    /// The entry that marks an interrupt as absent.
    pub open spec fn spec_absent() -> IdtEntry {
        IdtEntry {
            offset_low: 0,
            segment: 0,
            flags: FLAGS_ABSENT,
            offset_mid: 0,
            offset_high: 0,
            reserved: 0,
        }
    }

    /// An entry marked as absent.
    #[verifier::when_used_as_spec(spec_absent)]
    pub fn absent() -> (r: IdtEntry)
        ensures
            r == IdtEntry::spec_absent(),
    {
        IdtEntry {
            offset_low: 0,
            segment: 0,
            flags: FLAGS_ABSENT,
            offset_mid: 0,
            offset_high: 0,
            reserved: 0,
        }
    }

    /// The entry that sends an interrupt to the handler at `handler`, in
    /// the code segment at `segment`.
    pub open spec fn spec_new(handler: u64, segment: u16) -> IdtEntry {
        IdtEntry {
            offset_low: (handler % 0x1_0000) as u16,
            segment,
            flags: FLAGS_PRESENT,
            offset_mid: (handler / 0x1_0000 % 0x1_0000) as u16,
            offset_high: (handler / 0x1_0000_0000) as u32,
            reserved: 0,
        }
    }

    /// A present entry pointing at `handler`.
    #[verifier::when_used_as_spec(spec_new)]
    pub fn new(handler: u64, segment: u16) -> (r: IdtEntry)
        ensures
            r == IdtEntry::spec_new(handler, segment),
            r.handler() == handler,
    {
        assert(handler & 0xFFFF == handler % 0x1_0000) by (bit_vector);
        assert((handler & 0xFFFF_0000) >> 16u64 == handler / 0x1_0000 % 0x1_0000) by (bit_vector);
        assert((handler & 0xFFFF_FFFF_0000_0000) >> 32u64 == handler / 0x1_0000_0000)
            by (bit_vector);
        assert(handler == handler % 0x1_0000 + (handler / 0x1_0000 % 0x1_0000) * 0x1_0000 + (handler
            / 0x1_0000_0000) * 0x1_0000_0000) by (bit_vector);
        IdtEntry {
            offset_low: (handler & 0xFFFF) as u16,
            segment,
            flags: FLAGS_PRESENT,
            offset_mid: ((handler & 0xFFFF_0000) >> 16) as u16,
            offset_high: ((handler & 0xFFFF_FFFF_0000_0000) >> 32) as u32,
            reserved: 0,
        }
    }
}

/// Where an interrupt descriptor table lies and how large it is: the
/// argument of the instruction that loads it.
#[derive(Clone, Copy, Debug, PartialEq, Eq, Structural)]
pub struct IdtInfo {
    pub limit: u16,
    pub base: u64,
}

/// An interrupt descriptor table, which says how to respond to each
/// interrupt.
pub struct Idt {
    pub table: [IdtEntry; IDT_ENTRY_COUNT],
}

impl Idt {
    /// A table of absent entries.
    pub fn new() -> (r: Idt)
        ensures
            forall|i: int| 0 <= i < IDT_ENTRY_COUNT ==> r.table@[i] == IdtEntry::spec_absent(),
    {
        let absent = IdtEntry::absent();
        let table: [IdtEntry; IDT_ENTRY_COUNT] = [absent; IDT_ENTRY_COUNT];
        Idt { table }
    }

    /// Points each entry for which `handlers` holds an address at that
    /// handler, in the code segment at `segment`, and leaves the others.
    pub fn install(&mut self, handlers: &[Option<u64>; IDT_ENTRY_COUNT], segment: u16)
        ensures
            forall|i: int|
                0 <= i < IDT_ENTRY_COUNT ==> #[trigger] final(self).table@[i] == match handlers@[i] {
                    Some(handler) => IdtEntry::spec_new(handler, segment),
                    None => old(self).table@[i],
                },
    {
        let mut index: usize = 0;
        while index < IDT_ENTRY_COUNT
            invariant
                index <= IDT_ENTRY_COUNT,
                forall|i: int|
                    0 <= i < index ==> #[trigger] self.table@[i] == match handlers@[i] {
                        Some(handler) => IdtEntry::spec_new(handler, segment),
                        None => old(self).table@[i],
                    },
                forall|i: int|
                    index <= i < IDT_ENTRY_COUNT ==> #[trigger] self.table@[i] == old(
                        self,
                    ).table@[i],
            decreases IDT_ENTRY_COUNT - index,
        {
            if let Some(handler) = handlers[index] {
                self.table.set(index, IdtEntry::new(handler, segment));
            }
            index = index + 1;
        }
    }

    /// The size of the table in bytes.
    pub fn limit(&self) -> (r: u16)
        ensures
            r == IDT_ENTRY_SIZE * IDT_ENTRY_COUNT,
    {
        (IDT_ENTRY_SIZE * IDT_ENTRY_COUNT) as u16
    }

    /// The location and size of the table, which lies at `base`.
    pub fn info(&self, base: u64) -> (r: IdtInfo)
        ensures
            r == (IdtInfo { limit: (IDT_ENTRY_SIZE * IDT_ENTRY_COUNT) as u16, base }),
    {
        IdtInfo { limit: self.limit(), base }
    }
}

} // verus!
