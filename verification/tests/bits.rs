use kernel::bits::{get_field, get_flag, set_field, set_flag};

#[test]
fn field_is_read_from_its_place() {
    assert_eq!(get_field(0xFFFF_8123_4567_89AB, 0, 12), 0x9AB);
    assert_eq!(get_field(0xFFFF_8123_4567_89AB, 12, 9), 0x078);
    assert_eq!(get_field(0xFFFF_8123_4567_89AB, 48, 16), 0xFFFF);
    assert_eq!(get_field(0x8000_0000_0000_0000, 63, 1), 1);
    assert_eq!(get_field(0x7FFF_FFFF_FFFF_FFFF, 63, 1), 0);
    assert_eq!(get_field(u64::MAX, 1, 63), 0x7FFF_FFFF_FFFF_FFFF);
}

#[test]
fn field_is_written_to_its_place() {
    assert_eq!(set_field(0, 12, 9, 0x1FF), 0x1F_F000);
    assert_eq!(set_field(u64::MAX, 12, 9, 0), 0xFFFF_FFFF_FFE0_0FFF);
    assert_eq!(set_field(0xABCD, 4, 8, 0x12), 0xA12D);
    // Bits of the value above the width of the field are dropped.
    assert_eq!(set_field(0, 4, 4, 0x1F), 0xF0);
}

#[test]
fn flag_is_one_bit() {
    assert!(get_flag(0b100, 2));
    assert!(!get_flag(0b100, 1));
    assert_eq!(set_flag(0, 63, true), 0x8000_0000_0000_0000);
    assert_eq!(set_flag(u64::MAX, 0, false), u64::MAX - 1);
    assert_eq!(set_flag(0b101, 0, true), 0b101);
}
