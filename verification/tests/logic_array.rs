use num_bigint::BigUint;
use rustdv::gpi::logic_array::LogicArray;
use rustdv::gpi::value::Logic;

#[test]
fn roundtrip_u64() {
    let v = LogicArray::from_u64(0xA5, 8);
    assert_eq!(v.to_binstr(), "10100101");
    assert_eq!(v.try_to_u64().ok(), Some(0xA5));
}

#[test]
fn constructs_from_two_state_primitive_types() {
    let v = LogicArray::from_bool(true, 1);
    assert_eq!(v.to_binstr(), "1");

    let v = LogicArray::from_u8(0xa5, 8);
    assert_eq!(v.try_to_u8().ok(), Some(0xa5));

    let v = LogicArray::from_u16(0xa5b6, 16);
    assert_eq!(v.try_to_u16().ok(), Some(0xa5b6));

    let v = LogicArray::from_u32(0xa5b6_c7d8, 32);
    assert_eq!(v.try_to_u32().ok(), Some(0xa5b6_c7d8));

    let v = LogicArray::from_u64(0x0123_4567_89ab_cdef, 64);
    assert_eq!(v.try_to_u64().ok(), Some(0x0123_4567_89ab_cdef));

    let value = 0x0123_4567_89ab_cdef_fedc_ba98_7654_3210;
    let v = LogicArray::from_u128(value, 128);
    assert_eq!(v.try_to_u128().ok(), Some(value));

    let truncated = LogicArray::from_u8(0xa5, 4);
    assert_eq!(truncated.to_binstr(), "0101");
}

#[test]
fn bigint_conversion_preserves_arbitrary_width_values() {
    let value = BigUint::from_slice(&[0x7654_3210, 0xfedc_ba98, 0x89ab_cdef, 0x0123_4567, 0xa5a5_5a5a]);
    let v = LogicArray::from_bigint(&value, 160);

    assert_eq!(v.len(), 160);
    assert_eq!(v.try_to_biguint().ok(), Some(value));

    let truncated = LogicArray::from_bigint(&BigUint::from(0xffu8), 4);
    assert_eq!(truncated.try_to_biguint().ok(), Some(BigUint::from(0x0fu8)));
}

#[test]
fn converts_to_two_state_primitive_types() {
    let zero = LogicArray::from_binstr("0");
    assert_eq!(zero.try_to_bool().ok(), Some(false));

    let v = LogicArray::from_vpi_words(
        &vec![(0x7654_3210, 0), (0xfedc_ba98, 0), (0x89ab_cdef, 0), (0x0123_4567, 0)],
        128,
    );
    assert_eq!(v.try_to_bool().ok(), Some(true));
    assert_eq!(v.try_to_u8().ok(), Some(0x10));
    assert_eq!(v.try_to_u16().ok(), Some(0x3210));
    assert_eq!(v.try_to_u32().ok(), Some(0x7654_3210));
    assert_eq!(v.try_to_u64().ok(), Some(0xfedc_ba98_7654_3210));
    assert_eq!(v.try_to_u128().ok(), Some(0x0123_4567_89ab_cdef_fedc_ba98_7654_3210));
}

#[test]
fn four_state_rejected() {
    let v = LogicArray::from_binstr("1x0z");
    assert!(v.try_to_bool().is_err());
    assert!(v.try_to_u8().is_err());
    assert!(v.try_to_u16().is_err());
    assert!(v.try_to_u32().is_err());
    assert!(v.try_to_u64().is_err());
    assert!(v.try_to_u128().is_err());
    assert!(v.try_to_biguint().is_err());
    assert!(!v.is_resolvable());
    match v.try_to_u8() {
        Err(e) => assert_eq!(e.to_string(), "value '1x0z' has x/z bits"),
        Ok(_) => panic!("four-state"),
    }
}

#[test]
fn vpi_encoding_and_lsb_first_bit_access() {
    let v = LogicArray::from_binstr("01xz");

    assert_eq!(v.to_vpi_words(), vec![(0b0110, 0b0011)]);
    assert_eq!(v.get(0), Some(Logic::Z));
    assert_eq!(v.get(1), Some(Logic::X));
    assert_eq!(v.get(2), Some(Logic::One));
    assert_eq!(v.get(3), Some(Logic::Zero));
    assert_eq!(v.get(4), None);
    assert_eq!(v.to_binstr(), "01xz");
}

#[test]
fn constructs_from_vpi_words_and_masks_unused_bits() {
    let states = LogicArray::from_vpi_words(&vec![(0b0110, 0b0011)], 4);
    assert_eq!(states.to_binstr(), "01xz");
    assert_eq!(states.to_vpi_words(), vec![(0b0110, 0b0011)]);

    let partial = LogicArray::from_vpi_words(&vec![(0xffff_fff5, 0xffff_fff8)], 3);
    assert_eq!(partial.to_binstr(), "101");
    assert!(partial.is_resolvable());
    assert_eq!(partial.to_vpi_words(), vec![(0b101, 0)]);
}

#[test]
fn width_is_preserved_independently_of_biguint_magnitude() {
    let zeros = LogicArray::from_binstr("00000");
    assert_eq!(zeros.len(), 5);
    assert_eq!(zeros.to_binstr(), "00000");

    let wide = LogicArray::from_u64(1, 65);
    assert_eq!(wide.len(), 65);
    assert_eq!(wide.get(0), Some(Logic::One));
    assert_eq!(wide.get(64), Some(Logic::Zero));
    assert_eq!(wide.try_to_u64().ok(), Some(1));

    let empty = LogicArray::from_binstr("");
    assert!(empty.is_empty());
    assert_eq!(empty.to_binstr(), "");
}

#[test]
fn digits_past_the_width_are_dropped() {
    let v = LogicArray::from_digits(&vec![0xffff_ffff, 0xffff_ffff], 36);
    assert_eq!(v.to_vpi_words(), vec![(0xffff_ffff, 0), (0xf, 0)]);
    let short = LogicArray::from_digits(&vec![5], 40);
    assert_eq!(short.to_vpi_words(), vec![(5, 0), (0, 0)]);
}

#[test]
fn bigint_round_trip_keeps_the_low_bits() {
    let v = LogicArray::from_bigint(&BigUint::from(0b1011u8), 6);
    assert_eq!(v.to_binstr(), "001011");
    assert_eq!(v.try_to_biguint().ok(), Some(BigUint::from(0b1011u8)));
}
