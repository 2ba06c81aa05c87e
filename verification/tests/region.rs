use toyos::heap::FreeBlock;
use toyos::region::{Region, HEADER_SIZE};

#[test]
fn a_new_region_is_zero() {
    let region = Region::new(4096, 32);
    assert_eq!(4096, region.base_address());
    assert_eq!(32, region.len());
    for i in 0..32 {
        assert_eq!(0, region.read(4096 + i));
    }
}

#[test]
fn bytes_are_written_and_read_at_their_address() {
    let mut region = Region::from_bytes(100, vec![1, 2, 3, 4]);
    assert_eq!(3, region.read(102));
    region.write(102, 9);
    assert_eq!(9, region.read(102));
    assert_eq!(1, region.read(100));
    assert_eq!(2, region.read(101));
    assert_eq!(4, region.read(103));
}

#[test]
fn a_header_is_eight_bytes_in_little_endian_order() {
    assert_eq!(8, HEADER_SIZE);
    let mut region = Region::from_bytes(4096, vec![0xFF; 24]);
    region.write_header(4104, FreeBlock::head(Some(0x0102_0304)));
    let expected = [0x04, 0x03, 0x02, 0x01, 0, 0, 0, 0];
    for i in 0..8 {
        assert_eq!(0xFF, region.read(4096 + i));
        assert_eq!(expected[i], region.read(4104 + i));
        assert_eq!(0xFF, region.read(4112 + i));
    }
    assert_eq!(Some(0x0102_0304), region.read_header(4104).next);
}

#[test]
fn the_end_of_a_list_is_a_zero_word() {
    let mut region = Region::from_bytes(4096, vec![0xFF; 16]);
    region.write_header(4096, FreeBlock::tail());
    for i in 0..8 {
        assert_eq!(0, region.read(4096 + i));
    }
    assert_eq!(None, region.read_header(4096).next);
    assert_eq!(Some(usize::MAX), region.read_header(4104).next);
}
