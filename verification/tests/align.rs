use bump_allocator::align::{align_down, align_up, is_power_of_two};

#[test]
fn powers_of_two_are_told_apart() {
    assert!(!is_power_of_two(0));
    assert!(is_power_of_two(1));
    assert!(is_power_of_two(2));
    assert!(!is_power_of_two(3));
    assert!(is_power_of_two(4));
    assert!(!is_power_of_two(6));
    assert!(is_power_of_two(0x1000));
    assert!(!is_power_of_two(0x1001));
    assert!(!is_power_of_two(0x3000));
    assert!(is_power_of_two(1 << (usize::BITS - 1)));
    assert!(!is_power_of_two(usize::MAX));
}

#[test]
fn power_of_two_test_agrees_with_std() {
    for a in 0..5000usize {
        assert_eq!(is_power_of_two(a), a.is_power_of_two());
    }
}

#[test]
fn align_down_clears_the_low_bits() {
    assert_eq!(align_down(0, 8), 0);
    assert_eq!(align_down(7, 8), 0);
    assert_eq!(align_down(8, 8), 8);
    assert_eq!(align_down(0x1fff, 0x1000), 0x1000);
    assert_eq!(align_down(0x2000, 0x1000), 0x2000);
    assert_eq!(align_down(12345, 1), 12345);
    assert_eq!(align_down(usize::MAX, 2), usize::MAX - 1);
    assert_eq!(align_down(usize::MAX, 1 << (usize::BITS - 1)), 1 << (usize::BITS - 1));
}

#[test]
fn align_up_reaches_the_next_multiple() {
    assert_eq!(align_up(0, 8), Some(0));
    assert_eq!(align_up(1, 8), Some(8));
    assert_eq!(align_up(8, 8), Some(8));
    assert_eq!(align_up(9, 8), Some(16));
    assert_eq!(align_up(0x1001, 0x1000), Some(0x2000));
    assert_eq!(align_up(12345, 1), Some(12345));
    assert_eq!(align_up(usize::MAX, 1), Some(usize::MAX));
}

#[test]
fn align_up_past_the_last_address_is_none() {
    assert_eq!(align_up(usize::MAX, 2), None);
    assert_eq!(align_up(usize::MAX - 6, 8), None);
    assert_eq!(align_up(usize::MAX - 7, 8), Some(usize::MAX - 7));
    assert_eq!(align_up(1, 1 << (usize::BITS - 1)), Some(1 << (usize::BITS - 1)));
    assert_eq!(align_up((1 << (usize::BITS - 1)) + 1, 1 << (usize::BITS - 1)), None);
}

#[test]
fn rounding_agrees_with_division() {
    for shift in 0..6u32 {
        let align = 1usize << shift;
        for addr in 0..300usize {
            let down = align_down(addr, align);
            let up = align_up(addr, align).unwrap();
            assert_eq!(down, addr / align * align);
            assert_eq!(up, (addr + align - 1) / align * align);
        }
    }
}
