use bitrange::storage::Storage;

fn arr8(words: Vec<u128>) -> Storage {
    Storage::try_new(words, 8).unwrap()
}

fn arr16(words: Vec<u128>) -> Storage {
    Storage::try_new(words, 16).unwrap()
}

#[test]
fn int_arrays_rw_ints_basic_functionality() {
    assert_eq!(arr8(vec![0x21_u8 as u128, 0x43]).bits(4, 12, 8, false) as u8, 0x32);
    assert_eq!(
        arr8(vec![0x21_u8 as u128, 0x43]).with_bits(4, 12, 0xFE, 8).words,
        vec![0xE1, 0x4F]
    );
}

#[test]
fn int_arrays_read_ints_signs_basic() {
    assert_eq!(arr8(vec![0x21_i8 as u8 as u128, 0x43]).bits(0, 8, 8, false) as u8, 0x21);

    assert_eq!(arr16(vec![0x0FFF_u16 as u128, 0]).bits(0, 4, 8, true) as u8 as i8, -1);
    assert_eq!(arr16(vec![0x0FFF_i16 as u16 as u128, 0]).bits(0, 4, 8, true) as u8 as i8, -1);
    assert_eq!(arr16(vec![0x0FFF_u16 as u128, 0]).bits(0, 4, 8, false) as u8, 0xF);
    assert_eq!(arr16(vec![0x0FFF_i16 as u16 as u128, 0]).bits(0, 4, 8, false) as u8, 0xF);

    assert_eq!(arr16(vec![0xFFFF_u16 as u128, 0]).bits(0, 4, 8, true) as u8 as i8, -1);
    assert_eq!(arr16(vec![-1_i16 as u16 as u128, 0]).bits(0, 4, 8, true) as u8 as i8, -1);
    assert_eq!(arr16(vec![0xFFFF_u16 as u128, 0]).bits(0, 4, 8, false) as u8, 0xF);
    assert_eq!(arr16(vec![-1_i16 as u16 as u128, 0]).bits(0, 4, 8, false) as u8, 0xF);

    assert_eq!(arr8(vec![0x0F_u8 as u128, 0]).bits(0, 4, 16, true) as u16 as i16, -1);
    assert_eq!(arr8(vec![0x0F_i8 as u8 as u128, 0]).bits(0, 4, 16, true) as u16 as i16, -1);
    assert_eq!(arr8(vec![0x0F_u8 as u128, 0]).bits(0, 4, 16, false) as u16, 0xF);
    assert_eq!(arr8(vec![0x0F_i8 as u8 as u128, 0]).bits(0, 4, 16, false) as u16, 0xF);

    assert_eq!(arr8(vec![0xFF_u8 as u128, 0]).bits(0, 4, 16, true) as u16 as i16, -1);
    assert_eq!(arr8(vec![-1_i8 as u8 as u128, 0]).bits(0, 4, 16, true) as u16 as i16, -1);
    assert_eq!(arr8(vec![0xFF_u8 as u128, 0]).bits(0, 4, 16, false) as u16, 0xF);
    assert_eq!(arr8(vec![-1_i8 as u8 as u128, 0]).bits(0, 4, 16, false) as u16, 0xF);
}

#[test]
fn int_arrays_read_ints_signs_crossing_boundaries() {
    assert_eq!(arr8(vec![0x21_i8 as u8 as u128, 0x43]).bits(4, 12, 8, false) as u8, 0x32);

    assert_eq!(arr16(vec![0xFFFF_u16 as u128, 0x0FFF]).bits(14, 18, 8, true) as u8 as i8, -1);
    assert_eq!(arr16(vec![-1_i16 as u16 as u128, 0x0FFF]).bits(14, 18, 8, true) as u8 as i8, -1);
    assert_eq!(arr16(vec![0xFFFF_u16 as u128, 0x0FFF]).bits(14, 18, 8, false) as u8, 0xF);
    assert_eq!(arr16(vec![-1_i16 as u16 as u128, 0x0FFF]).bits(14, 18, 8, false) as u8, 0xF);

    assert_eq!(arr16(vec![0xFFFF_u16 as u128; 2]).bits(14, 18, 8, true) as u8 as i8, -1);
    assert_eq!(arr16(vec![-1_i16 as u16 as u128; 2]).bits(14, 18, 8, true) as u8 as i8, -1);
    assert_eq!(arr16(vec![0xFFFF_u16 as u128; 2]).bits(14, 18, 8, false) as u8, 0xF);
    assert_eq!(arr16(vec![-1_i16 as u16 as u128; 2]).bits(14, 18, 8, false) as u8, 0xF);

    assert_eq!(arr8(vec![0xFF_u8 as u128, 0x0F]).bits(6, 10, 16, true) as u16 as i16, -1);
    assert_eq!(arr8(vec![-1_i8 as u8 as u128, 0x0F]).bits(6, 10, 16, true) as u16 as i16, -1);
    assert_eq!(arr8(vec![0xFF_u8 as u128, 0x0F]).bits(6, 10, 16, false) as u16, 0xF);
    assert_eq!(arr8(vec![-1_i8 as u8 as u128, 0x0F]).bits(6, 10, 16, false) as u16, 0xF);

    assert_eq!(arr8(vec![0xFF_u8 as u128; 2]).bits(6, 10, 16, true) as u16 as i16, -1);
    assert_eq!(arr8(vec![-1_i8 as u8 as u128; 2]).bits(6, 10, 16, true) as u16 as i16, -1);
    assert_eq!(arr8(vec![0xFF_u8 as u128; 2]).bits(6, 10, 16, false) as u16, 0xF);
    assert_eq!(arr8(vec![-1_i8 as u8 as u128; 2]).bits(6, 10, 16, false) as u16, 0xF);
}

#[test]
fn int_arrays_write_ints_signs_basic() {
    let s = arr8(vec![0x21_i8 as u8 as u128, 0x43]).with_bits(0, 8, 0xFE, 8);
    assert_eq!(s.words[0] as u8 as i8, 0xFE_u8 as i8);
    assert_eq!(s.words[1], 0x43);

    assert_eq!(
        arr16(vec![0_u16 as u128; 2]).with_bits(0, 4, -1_i8 as u8 as u128, 8).words,
        vec![0xF, 0]
    );
    assert_eq!(
        arr16(vec![0_i16 as u16 as u128; 2]).with_bits(0, 4, -1_i8 as u8 as u128, 8).words,
        vec![0xF, 0]
    );
    assert_eq!(
        arr16(vec![0_u16 as u128; 2]).with_bits(0, 4, 0xFF_u8 as u128, 8).words,
        vec![0xF, 0]
    );
    assert_eq!(
        arr16(vec![0_i16 as u16 as u128; 2]).with_bits(0, 4, 0xFF_u8 as u128, 8).words,
        vec![0xF, 0]
    );

    assert_eq!(
        arr8(vec![0_u8 as u128; 2]).with_bits(0, 4, -1_i16 as u16 as u128, 16).words,
        vec![0xF, 0]
    );
    assert_eq!(
        arr8(vec![0_i8 as u8 as u128; 2]).with_bits(0, 4, -1_i16 as u16 as u128, 16).words,
        vec![0xF, 0]
    );
    assert_eq!(
        arr8(vec![0_u8 as u128; 2]).with_bits(0, 4, 0xFFFF_u16 as u128, 16).words,
        vec![0xF, 0]
    );
    assert_eq!(
        arr8(vec![0_i8 as u8 as u128; 2]).with_bits(0, 4, 0xFFFF_u16 as u128, 16).words,
        vec![0xF, 0]
    );
}

#[test]
fn int_arrays_write_ints_signs_crossing_boundaries() {
    let s = arr8(vec![0x21_i8 as u8 as u128, 0x43]).with_bits(4, 12, 0xFE, 8);
    assert_eq!(s.words[0] as u8 as i8, 0xE1_u8 as i8);
    assert_eq!(s.words[1], 0x4F);

    assert_eq!(
        arr16(vec![0_u16 as u128; 2]).with_bits(14, 18, -1_i8 as u8 as u128, 8).words,
        vec![0xC000, 3]
    );
    let s = arr16(vec![0_i16 as u16 as u128; 2]).with_bits(14, 18, -1_i8 as u8 as u128, 8);
    assert_eq!(s.words[0] as u16 as i16, 0xC000_u16 as i16);
    assert_eq!(s.words[1], 3);
    assert_eq!(
        arr16(vec![0_u16 as u128; 2]).with_bits(14, 18, 0xFF_u8 as u128, 8).words,
        vec![0xC000, 3]
    );
    let s = arr16(vec![0_i16 as u16 as u128; 2]).with_bits(14, 18, 0xFF_u8 as u128, 8);
    assert_eq!(s.words[0] as u16 as i16, 0xC000_u16 as i16);
    assert_eq!(s.words[1], 3);

    assert_eq!(
        arr8(vec![0_u8 as u128; 2]).with_bits(6, 10, -1_i16 as u16 as u128, 16).words,
        vec![0xC0, 3]
    );
    let s = arr8(vec![0_i8 as u8 as u128; 2]).with_bits(6, 10, -1_i16 as u16 as u128, 16);
    assert_eq!(s.words[0] as u8 as i8, 0xC0_u8 as i8);
    assert_eq!(s.words[1], 3);
    assert_eq!(
        arr8(vec![0_u8 as u128; 2]).with_bits(6, 10, 0xFFFF_u16 as u128, 16).words,
        vec![0xC0, 3]
    );
    let s = arr8(vec![0_i8 as u8 as u128; 2]).with_bits(6, 10, 0xFFFF_u16 as u128, 16);
    assert_eq!(s.words[0] as u8 as i8, 0xC0_u8 as i8);
    assert_eq!(s.words[1], 3);
}
