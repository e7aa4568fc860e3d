use wht::{binary_dot_product, is_power_of_two};

#[test]
fn binary_dot_product_01() {
    assert_eq!(binary_dot_product(0b00, 0b00), 0);
    assert_eq!(binary_dot_product(0b00, 0b01), 0);
    assert_eq!(binary_dot_product(0b00, 0b10), 0);
    assert_eq!(binary_dot_product(0b00, 0b11), 0);

    assert_eq!(binary_dot_product(0b01, 0b00), 0);
    assert_eq!(binary_dot_product(0b01, 0b01), 1);
    assert_eq!(binary_dot_product(0b01, 0b10), 0);
    assert_eq!(binary_dot_product(0b01, 0b11), 1);

    assert_eq!(binary_dot_product(0b10, 0b00), 0);
    assert_eq!(binary_dot_product(0b10, 0b01), 0);
    assert_eq!(binary_dot_product(0b10, 0b10), 1);
    assert_eq!(binary_dot_product(0b10, 0b11), 1);

    assert_eq!(binary_dot_product(0b11, 0b00), 0);
    assert_eq!(binary_dot_product(0b11, 0b01), 1);
    assert_eq!(binary_dot_product(0b11, 0b10), 1);
    assert_eq!(binary_dot_product(0b11, 0b11), 0);
}

#[test]
fn binary_dot_product_02() {
    assert_eq!(binary_dot_product(0b1, 0b1), 1);
    assert_eq!(binary_dot_product(0b11, 0b11), 0);
    assert_eq!(binary_dot_product(0b111, 0b111), 1);
    assert_eq!(binary_dot_product(0b1111, 0b1111), 0);
    assert_eq!(binary_dot_product(0b11111, 0b11111), 1);

    assert_eq!(binary_dot_product(0b1011, 0b1100), 1);
    assert_eq!(binary_dot_product(0b1011, 0b1010), 0);

    assert_eq!(binary_dot_product(0b10_1001, 0b10_1001), 1);
    assert_eq!(binary_dot_product(0b1010_0001, 0b1010_0001), 1);
    assert_eq!(binary_dot_product(0b00_1010_0001, 0b00_1010_0001), 1);

    assert_eq!(binary_dot_product(0b00_0010_0001, 0b00_1010_0001), 0);
}

#[test]
fn binary_dot_product_matches_popcount_parity() {
    // The parity function is the popcount of the bitwise AND, mod 2, for
    // pairs across the 32-bit range.
    let pairs: [(usize, usize); 6] = [
        (0b1011, 0b1100),
        (0b1011, 0b1010),
        (0xdead_beef, 0x1234_5678),
        (0xffff_ffff, 0xffff_ffff),
        (0x8000_0001, 0x8000_0001),
        (0x5555_5555, 0xaaaa_aaaa),
    ];
    for (i, j) in pairs {
        assert_eq!(binary_dot_product(i, j), ((i & j).count_ones() % 2) as usize);
    }
}

#[test]
fn power_of_two_check() {
    assert!(is_power_of_two(1));
    assert!(is_power_of_two(2));
    assert!(is_power_of_two(1024));
    assert!(is_power_of_two(1 << 14));
    assert!(!is_power_of_two(0));
    assert!(!is_power_of_two(3));
    assert!(!is_power_of_two(12));
    assert!(!is_power_of_two(usize::MAX));
}
