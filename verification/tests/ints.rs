use bitrange::storage::Storage;

fn st16(w: u16) -> Storage {
    Storage::try_new(vec![w as u128], 16).unwrap()
}

fn st8(w: u8) -> Storage {
    Storage::try_new(vec![w as u128], 8).unwrap()
}

#[test]
fn ints_rw_ints_basic_functionality() {
    assert_eq!(st16(0x1234_u16).bits(5, 9, 8, false) as u8, 1);
    assert_eq!(st16(0x1234_u16).with_bits(5, 9, 0xF, 8).words[0] as u16, 0x13F4);
}

#[test]
fn ints_read_ints_signs() {
    assert_eq!(st16(0x0FFF_u16).bits(0, 4, 8, true) as u8 as i8, -1);
    assert_eq!(st16(0x0FFF_i16 as u16).bits(0, 4, 8, true) as u8 as i8, -1);
    assert_eq!(st16(0x0FFF_u16).bits(0, 4, 8, false) as u8, 0xF);
    assert_eq!(st16(0x0FFF_i16 as u16).bits(0, 4, 8, false) as u8, 0xF);

    assert_eq!(st16(0xFFFF_u16).bits(0, 4, 8, true) as u8 as i8, -1);
    assert_eq!(st16(-1_i16 as u16).bits(0, 4, 8, true) as u8 as i8, -1);
    assert_eq!(st16(0xFFFF_u16).bits(0, 4, 8, false) as u8, 0xF);
    assert_eq!(st16(-1_i16 as u16).bits(0, 4, 8, false) as u8, 0xF);

    assert_eq!(st8(0x0F_u8).bits(0, 4, 16, true) as u16 as i16, -1);
    assert_eq!(st8(0x0F_i8 as u8).bits(0, 4, 16, true) as u16 as i16, -1);
    assert_eq!(st8(0x0F_u8).bits(0, 4, 16, false) as u16, 0xF);
    assert_eq!(st8(0x0F_i8 as u8).bits(0, 4, 16, false) as u16, 0xF);

    assert_eq!(st8(0xFF_u8).bits(0, 4, 16, true) as u16 as i16, -1);
    assert_eq!(st8(-1_i8 as u8).bits(0, 4, 16, true) as u16 as i16, -1);
    assert_eq!(st8(0xFF_u8).bits(0, 4, 16, false) as u16, 0xF);
    assert_eq!(st8(-1_i8 as u8).bits(0, 4, 16, false) as u16, 0xF);
}

#[test]
fn ints_write_ints_signs() {
    assert_eq!(st16(0_u16).with_bits(0, 4, -1_i8 as u8 as u128, 8).words[0] as u16, 0xF);
    assert_eq!(
        st16(0_i16 as u16).with_bits(0, 4, -1_i8 as u8 as u128, 8).words[0] as u16 as i16,
        0xF
    );
    assert_eq!(st16(0_u16).with_bits(0, 4, 0xFF_u8 as u128, 8).words[0] as u16, 0xF);
    assert_eq!(
        st16(0_i16 as u16).with_bits(0, 4, 0xFF_u8 as u128, 8).words[0] as u16 as i16,
        0xF
    );

    assert_eq!(st8(0_u8).with_bits(0, 4, -1_i16 as u16 as u128, 16).words[0] as u8, 0xF);
    assert_eq!(
        st8(0_i8 as u8).with_bits(0, 4, -1_i16 as u16 as u128, 16).words[0] as u8 as i8,
        0xF
    );
    assert_eq!(st8(0_u8).with_bits(0, 4, 0xFFFF_u16 as u128, 16).words[0] as u8, 0xF);
    assert_eq!(
        st8(0_i8 as u8).with_bits(0, 4, 0xFFFF_u16 as u128, 16).words[0] as u8 as i8,
        0xF
    );
}
