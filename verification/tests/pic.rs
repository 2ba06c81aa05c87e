use toyos::pic::{
    finish_interrupt_if_pic, Pic, Pics, PortWrite, CMD_END_OF_INTERRUPT, CMD_INIT, MODE_8086,
};

fn write(port: u16, value: u8) -> PortWrite {
    PortWrite { port, value }
}

#[test]
fn a_controller_handles_eight_interrupts() {
    let pic = Pic { offset: 0x20, command: 0x20, data: 0x21 };
    assert!(!pic.handles_interrupt(0x1F));
    assert!(pic.handles_interrupt(0x20));
    assert!(pic.handles_interrupt(0x27));
    assert!(!pic.handles_interrupt(0x28));
    assert!(!pic.handles_interrupt(0));
    assert!(!pic.handles_interrupt(0xFF));
}

#[test]
fn a_controller_near_the_last_interrupt_handles_what_is_left() {
    let pic = Pic { offset: 0xFC, command: 0x20, data: 0x21 };
    assert!(!pic.handles_interrupt(0xFB));
    assert!(pic.handles_interrupt(0xFC));
    assert!(pic.handles_interrupt(0xFF));
    assert!(!pic.handles_interrupt(0x03));
}

#[test]
fn the_standard_pair() {
    let pics = Pics::new();
    assert_eq!(Pic { offset: 0x20, command: 0x20, data: 0x21 }, pics.first);
    assert_eq!(Pic { offset: 0x28, command: 0xA0, data: 0xA1 }, pics.second);
    assert!(!pics.handles_interrupt(0x1F));
    for id in 0x20..0x30 {
        assert!(pics.handles_interrupt(id));
    }
    assert!(!pics.handles_interrupt(0x30));
    assert!(!pics.handles_interrupt(0x80));
}

#[test]
fn initialization_is_ten_writes() {
    assert_eq!(0x11, CMD_INIT);
    assert_eq!(0x01, MODE_8086);
    let writes = Pics::new().initialize(0xB8, 0x8E);
    assert_eq!(
        [
            write(0x20, 0x11),
            write(0xA0, 0x11),
            write(0x21, 0x20),
            write(0xA1, 0x28),
            write(0x21, 4),
            write(0xA1, 2),
            write(0x21, 0x01),
            write(0xA1, 0x01),
            write(0x21, 0xB8),
            write(0xA1, 0x8E),
        ],
        writes
    );
}

#[test]
fn the_first_controller_hears_of_every_interrupt() {
    assert_eq!(0x20, CMD_END_OF_INTERRUPT);
    let pics = Pics::new();
    let ack = pics.end_of_interrupt(0x21);
    assert_eq!((None, write(0x20, 0x20)), (ack.second, ack.first));
    let ack = pics.end_of_interrupt(0x28);
    assert_eq!((Some(write(0xA0, 0x20)), write(0x20, 0x20)), (ack.second, ack.first));
    let ack = pics.end_of_interrupt(0x2F);
    assert_eq!((Some(write(0xA0, 0x20)), write(0x20, 0x20)), (ack.second, ack.first));
    let ack = pics.end_of_interrupt(0x80);
    assert_eq!((None, write(0x20, 0x20)), (ack.second, ack.first));
    assert_eq!(write(0xA0, 0x20), pics.second.end_of_interrupt(0x28));
}

#[test]
fn other_interrupts_are_not_acknowledged() {
    let pics = Pics::new();
    assert!(finish_interrupt_if_pic(&pics, 0x80).is_none());
    assert!(finish_interrupt_if_pic(&pics, 0x1F).is_none());
    assert!(finish_interrupt_if_pic(&pics, 0x30).is_none());
    let ack = finish_interrupt_if_pic(&pics, 0x20).unwrap();
    assert_eq!((None, write(0x20, 0x20)), (ack.second, ack.first));
    let ack = finish_interrupt_if_pic(&pics, 0x2C).unwrap();
    assert_eq!((Some(write(0xA0, 0x20)), write(0x20, 0x20)), (ack.second, ack.first));
}
