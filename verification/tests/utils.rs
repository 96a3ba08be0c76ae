use bitcalc::utils::{to_bin, to_hex, Base};

#[test]
fn test_to_bin() {
    assert_eq!(0, to_bin(0));
    assert_eq!(1, to_bin(1));
    assert_eq!(10, to_bin(2));
    assert_eq!(11, to_bin(3));
    assert_eq!(100, to_bin(4));
    assert_eq!(101, to_bin(5));
    assert_eq!(110, to_bin(6));
    assert_eq!(111, to_bin(7));
    assert_eq!(1000, to_bin(8));
    assert_eq!(1001, to_bin(9));
    assert_eq!(1010, to_bin(10));
    assert_eq!(1011, to_bin(11));
    assert_eq!(1100, to_bin(12));
    assert_eq!(1101, to_bin(13));
    assert_eq!(1110, to_bin(14));
    assert_eq!(1111, to_bin(15));
}

#[test]
fn test_to_hex() {}

#[test]
fn to_bin_of_the_largest_argument() {
    assert_eq!(11_111_111_111_111_111_111, to_bin(0xf_ffff));
    assert_eq!(10_000_000_000_000_000_000, to_bin(0x8_0000));
}

#[test]
fn to_hex_weights_each_digit_by_a_power_of_ten() {
    assert_eq!(0, to_hex(0));
    assert_eq!(9, to_hex(9));
    assert_eq!(15, to_hex(0xf));
    assert_eq!(10, to_hex(0x10));
    assert_eq!(1 * 10 + 15, to_hex(0x1f));
    assert_eq!(15 * 10 + 15, to_hex(0xff));
    assert_eq!(1234, to_hex(0x1234));
    assert_eq!(16_666_666_666_666_665, to_hex(u64::MAX));
}

#[test]
fn base_numbers() {
    assert_eq!(2, Base::Bin.get_base_numeric());
    assert_eq!(10, Base::Dec.get_base_numeric());
    assert_eq!(16, Base::Hex.get_base_numeric());
}
