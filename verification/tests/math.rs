use std::mem::size_of;
use toyos::math::{log2, PowersOf2};

#[test]
fn test_is_power_of_2() {
    assert_eq!(false, 0usize.is_power_of_2());
    assert_eq!(true, 1usize.is_power_of_2());
    assert_eq!(true, 2usize.is_power_of_2());
    assert_eq!(false, 3usize.is_power_of_2());
    assert_eq!(true, 4usize.is_power_of_2());
    assert_eq!(false, 255usize.is_power_of_2());
    assert_eq!(true, 256usize.is_power_of_2());
    assert_eq!(false, 257usize.is_power_of_2());
    assert_eq!(false, 4294967295usize.is_power_of_2());
    if size_of::<usize>() > 4 {
        assert_eq!(false, 18446744073709551615usize.is_power_of_2());
    }
}

#[test]
fn test_next_power_of_2() {
    assert_eq!(1, 0usize.next_power_of_2());
    assert_eq!(1, 1usize.next_power_of_2());
    assert_eq!(2, 2usize.next_power_of_2());
    assert_eq!(4, 3usize.next_power_of_2());
    assert_eq!(4, 4usize.next_power_of_2());
    assert_eq!(8, 5usize.next_power_of_2());
    assert_eq!(8, 8usize.next_power_of_2());
    assert_eq!(16, 9usize.next_power_of_2());
    assert_eq!(16, 16usize.next_power_of_2());
    assert_eq!(32, 17usize.next_power_of_2());
    assert_eq!(32, 32usize.next_power_of_2());
    assert_eq!(8388608, 8376263usize.next_power_of_2());
}

#[test]
fn next_power_of_2_is_tight_and_a_power_of_2() {
    let mut v: usize = 1;
    while v < 5000 {
        let r = v.next_power_of_2();
        assert!(r.is_power_of_2());
        assert!(r >= v);
        assert!(v > r >> 1);
        v += 1;
    }
}

#[test]
fn next_power_of_2_at_the_largest_power() {
    let top: usize = 1 << (usize::BITS - 1);
    assert_eq!(top, top.next_power_of_2());
    assert_eq!(top, (top - 1).next_power_of_2());
    assert_eq!(top, (top / 2 + 1).next_power_of_2());
    assert_eq!(true, top.is_power_of_2());
    assert_eq!(false, (top + 1).is_power_of_2());
}

#[test]
fn log2_is_the_floor_of_the_logarithm() {
    assert_eq!(0, log2(1));
    assert_eq!(1, log2(2));
    assert_eq!(1, log2(3));
    assert_eq!(2, log2(4));
    assert_eq!(4, log2(16));
    assert_eq!(4, log2(31));
    assert_eq!(12, log2(4096));
    assert_eq!((usize::BITS - 1) as u8, log2(usize::MAX));
}
