use kernel::bytes::{push_u16, push_u32, push_u64, read_u16, read_u32, read_u64};

#[test]
fn integers_are_written_low_byte_first() {
    let mut bytes = vec![0xAA];
    push_u16(&mut bytes, 0x1234);
    push_u32(&mut bytes, 0x89AB_CDEF);
    push_u64(&mut bytes, 0x0102_0304_0506_0708);
    assert_eq!(
        bytes,
        vec![0xAA, 0x34, 0x12, 0xEF, 0xCD, 0xAB, 0x89, 8, 7, 6, 5, 4, 3, 2, 1]
    );
}

#[test]
fn integers_are_read_low_byte_first() {
    let bytes = [0xFF, 0x34, 0x12, 0xEF, 0xCD, 0xAB, 0x89, 8, 7, 6, 5, 4, 3, 2, 1];
    assert_eq!(read_u16(&bytes, 1), 0x1234);
    assert_eq!(read_u32(&bytes, 3), 0x89AB_CDEF);
    assert_eq!(read_u64(&bytes, 7), 0x0102_0304_0506_0708);
    assert_eq!(read_u16(&bytes, 0), 0x34FF);
    assert_eq!(read_u64(&[0xFF; 8], 0), u64::MAX);
    assert_eq!(read_u32(&[0xFF; 4], 0), u32::MAX);
    assert_eq!(read_u16(&[0xFF; 2], 0), u16::MAX);
}

#[test]
fn written_integers_are_read_back() {
    for value in [0u64, 1, 0xFF, 0x100, 0xFFFF_FFFF, 0x1_0000_0000, u64::MAX, 0x8000_0000_0000_0000] {
        let mut bytes = Vec::new();
        push_u64(&mut bytes, value);
        assert_eq!(read_u64(&bytes, 0), value);
        assert_eq!(bytes, value.to_le_bytes().to_vec());
    }
    for value in [0u32, 0xFF, 0x1_0000, u32::MAX] {
        let mut bytes = Vec::new();
        push_u32(&mut bytes, value);
        assert_eq!(read_u32(&bytes, 0), value);
        assert_eq!(bytes, value.to_le_bytes().to_vec());
    }
    for value in [0u16, 0xFF, 0x100, u16::MAX] {
        let mut bytes = Vec::new();
        push_u16(&mut bytes, value);
        assert_eq!(read_u16(&bytes, 0), value);
        assert_eq!(bytes, value.to_le_bytes().to_vec());
    }
}
