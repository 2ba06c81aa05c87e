use toyos::interrupts::{
    echo, Idt, IdtEntry, IdtInfo, Interrupt, InterruptContext, FLAGS_ABSENT, FLAGS_PRESENT,
    IDT_ENTRY_COUNT,
};

fn context(int_id: u32) -> InterruptContext {
    InterruptContext {
        rsi: 0,
        rdi: 0,
        r11: 0,
        r10: 0,
        r9: 0,
        r8: 0,
        rdx: 0,
        rcx: 0,
        rax: 0,
        int_id,
        error_code: 0,
    }
}

#[test]
fn interrupts_are_told_apart_by_their_number() {
    assert_eq!(Interrupt::Timer, context(0x20).classify());
    assert_eq!(Interrupt::Keyboard, context(0x21).classify());
    assert_eq!(Interrupt::SystemCall, context(0x80).classify());
    assert_eq!(Interrupt::Unknown, context(0).classify());
    assert_eq!(Interrupt::Unknown, context(0x22).classify());
    assert_eq!(Interrupt::Unknown, context(0x120).classify());
    assert_eq!(Interrupt::Unknown, context(u32::MAX).classify());
}

#[test]
fn the_controllers_know_an_interrupt_by_its_low_byte() {
    assert_eq!(0x21, context(0x21).controller_id());
    assert_eq!(0x20, context(0x120).controller_id());
    assert_eq!(0xFF, context(u32::MAX).controller_id());
    assert_eq!(0, context(0x100).controller_id());
}

#[test]
fn a_carriage_return_is_shown_as_a_new_line() {
    assert_eq!('\n', echo('\r'));
    assert_eq!('a', echo('a'));
    assert_eq!('\n', echo('\n'));
    assert_eq!(' ', echo(' '));
}

#[test]
fn an_absent_entry() {
    assert_eq!(0b000_01110_000_00000, FLAGS_ABSENT);
    let entry = IdtEntry::absent();
    assert_eq!(
        IdtEntry {
            offset_low: 0,
            segment: 0,
            flags: 0x0E00,
            offset_mid: 0,
            offset_high: 0,
            reserved: 0
        },
        entry
    );
}

#[test]
fn a_present_entry_holds_the_handler_in_three_parts() {
    assert_eq!(0b100_01110_000_00000, FLAGS_PRESENT);
    let entry = IdtEntry::new(0x1122_3344_5566_7788, 8);
    assert_eq!(0x7788, entry.offset_low);
    assert_eq!(0x5566, entry.offset_mid);
    assert_eq!(0x1122_3344, entry.offset_high);
    assert_eq!(8, entry.segment);
    assert_eq!(0x8E00, entry.flags);
    assert_eq!(0, entry.reserved);
    let entry = IdtEntry::new(0x10_0000, 0x10);
    assert_eq!(0, entry.offset_low);
    assert_eq!(0x10, entry.offset_mid);
    assert_eq!(0, entry.offset_high);
    let entry = IdtEntry::new(u64::MAX, 0xFFFF);
    assert_eq!(0xFFFF, entry.offset_low);
    assert_eq!(0xFFFF, entry.offset_mid);
    assert_eq!(0xFFFF_FFFF, entry.offset_high);
}

#[test]
fn a_new_table_is_absent_throughout() {
    let idt = Idt::new();
    assert_eq!(IDT_ENTRY_COUNT, idt.table.len());
    for entry in idt.table.iter() {
        assert_eq!(IdtEntry::absent(), *entry);
    }
}

#[test]
fn install_fills_the_entries_that_have_a_handler() {
    let mut idt = Idt::new();
    let mut handlers: [Option<u64>; 256] = [None; 256];
    handlers[0x20] = Some(0x1_0000_2000);
    handlers[0x21] = Some(0x2100);
    handlers[0xFF] = Some(0xFFFF_0001);
    idt.install(&handlers, 8);
    for (i, entry) in idt.table.iter().enumerate() {
        match handlers[i] {
            Some(h) => assert_eq!(IdtEntry::new(h, 8), *entry),
            None => assert_eq!(IdtEntry::absent(), *entry),
        }
    }
    // Entries without a handler are left as they were.
    let mut again: [Option<u64>; 256] = [None; 256];
    again[0x21] = Some(0x4242);
    idt.install(&again, 16);
    assert_eq!(IdtEntry::new(0x1_0000_2000, 8), idt.table[0x20]);
    assert_eq!(IdtEntry::new(0x4242, 16), idt.table[0x21]);
    assert_eq!(IdtEntry::new(0xFFFF_0001, 8), idt.table[0xFF]);
    assert_eq!(IdtEntry::absent(), idt.table[0]);
}

#[test]
fn the_table_is_four_kilobytes() {
    let idt = Idt::new();
    assert_eq!(4096, idt.limit());
    assert_eq!(IdtInfo { limit: 4096, base: 0xDEAD_B000 }, idt.info(0xDEAD_B000));
}
