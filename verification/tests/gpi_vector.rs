use rustdv::gpi::vector::{check_kind, Wanted};
use num_bigint::BigUint;
use rustdv::gpi::errors::{HandleError, ValueError};
use rustdv::gpi::logic_array::LogicArray;
use rustdv::gpi::vector::{
    bigint_words, classify, explicit_top, first_root, fit_words, read_bigint, read_bool, read_u32,
    read_u64, sim_time_from_parts, top_not_found, u128_words, ObjKind, VPI_BIT_VAR, VPI_BYTE_VAR,
    VPI_ENUM_VAR, VPI_INT_VAR, VPI_LONG_INT_VAR, VPI_MODULE, VPI_NET, VPI_REAL_VAR, VPI_SHORT_INT_VAR,
    VPI_STRING_VAR, VPI_STRUCT_VAR, VPI_UNION_VAR,
};

fn single_word(v: u128, expected: u32) {
    let words = u128_words(v, 1);
    assert_eq!(words[0].0, expected);
    assert_eq!(words[0].1, 0);
}

#[test]
fn scalar_values_convert_to_one_vpi_word() {
    single_word(false as u128, 0);
    single_word(true as u128, 1);
    single_word(0xa5u8 as u128, 0xa5);
    single_word(0xa5b6u16 as u128, 0xa5b6);
    single_word(0xa5b6_c7d8u32 as u128, 0xa5b6_c7d8);
}

#[test]
fn wide_values_convert_in_least_significant_word_first_order() {
    let words = u128_words(0x0123_4567_89ab_cdefu64 as u128, 2);
    assert_eq!(words.iter().map(|w| w.0).collect::<Vec<_>>(), [0x89ab_cdef, 0x0123_4567]);
    assert!(words.iter().all(|w| w.1 == 0));

    let words = u128_words(0x0123_4567_89ab_cdef_fedc_ba98_7654_3210u128, 4);
    assert_eq!(
        words.iter().map(|w| w.0).collect::<Vec<_>>(),
        [0x7654_3210, 0xfedc_ba98, 0x89ab_cdef, 0x0123_4567]
    );
    assert!(words.iter().all(|w| w.1 == 0));
}

#[test]
fn sv_integral_variables_support_vector_access() {
    for object_type in [VPI_LONG_INT_VAR, VPI_SHORT_INT_VAR, VPI_INT_VAR, VPI_BYTE_VAR, VPI_ENUM_VAR, VPI_BIT_VAR] {
        let kind = classify(object_type, 64);
        assert_eq!(kind, ObjKind::Logic { width: 64 });
        let words = vec![(0x89ab_cdef, 0), (0x1234_5678, 0)];
        assert_eq!(read_u64(&words, 64), Ok(0x1234_5678_89ab_cdef));
        let put = fit_words(&u128_words(0xfedc_ba98_7654_3210u64 as u128, 2), 64);
        assert_eq!(put[0].0, 0x7654_3210);
        assert_eq!(put[1].0, 0xfedc_ba98);
    }
}

#[test]
fn non_logic_variables_have_typed_handles() {
    for object_type in [VPI_REAL_VAR, VPI_STRING_VAR, VPI_STRUCT_VAR, VPI_UNION_VAR] {
        assert!(matches!(
            classify(object_type, 1),
            ObjKind::Real | ObjKind::Str | ObjKind::Struct | ObjKind::Union
        ));
    }
    assert_eq!(classify(VPI_MODULE, 0), ObjKind::Hierarchy);
    assert_eq!(classify(VPI_NET, -1), ObjKind::Logic { width: 0 });
    assert_eq!(classify(9999, 8), ObjKind::Other);
}

#[test]
fn top_selection_prefers_explicit_name_and_otherwise_uses_first_root() {
    assert_eq!(explicit_top(Some(" dut ")), Some("dut".to_string()));
    assert_eq!(explicit_top(Some("   ")), None);
    assert_eq!(explicit_top(None), None);
    assert_eq!(first_root(vec!["first", "dut"]), Ok("first"));
    assert!(matches!(top_not_found("missing"), HandleError::NotFound { .. }));
    assert_eq!(first_root::<&str>(vec![]), Err(HandleError::NoTopModule));
}

#[test]
fn vector_read_uses_vpi_word_order_and_masks_unused_bits() {
    let words = vec![(0x89ab_cdef, 0), (0xffff_fff5, 0xffff_ffe0)];
    assert_eq!(read_u64(&words, 37), Ok(0x0000_0015_89ab_cdef));
}

#[test]
fn vector_read_reports_xz_in_used_bits() {
    let words = vec![(0x5e, 0x04)];
    assert_eq!(read_u64(&words, 8), Err(ValueError::FourState("01011x10".to_owned())));
}

#[test]
fn logic_array_read_uses_vpi_vector_words() {
    let words = vec![(0b0110, 0b0011)];
    assert_eq!(LogicArray::from_vpi_words(&words, 4).to_binstr(), "01xz");
}

#[test]
fn vector_read_returns_numeric_zero_from_a_vector_word() {
    assert_eq!(read_u64(&vec![(0, 0)], 8), Ok(0));
}

#[test]
fn bool_read_converts_single_bit_values() {
    assert_eq!(read_bool(&vec![(0, 0)], 1), Ok(false));
    assert_eq!(read_bool(&vec![(1, 0)], 1), Ok(true));
}

#[test]
fn bool_read_rejects_wide_and_four_state_values() {
    assert_eq!(read_bool(&vec![(1, 0)], 2), Err(ValueError::Width { want: 1, have: 2 }));
    assert_eq!(read_bool(&vec![(1, 1)], 1), Err(ValueError::FourState("x".to_owned())));
}

#[test]
fn bigint_read_supports_values_wider_than_u64() {
    let words = vec![(0x89ab_cdef, 0), (0x0123_4567, 0), (0xffff_ffea, 0xffff_ffc0)];
    assert_eq!(
        read_bigint(&words, 70).map(|value| value.to_str_radix(16)),
        Ok("2a0123456789abcdef".to_owned())
    );
}

#[test]
fn bigint_read_reports_xz_in_used_bits() {
    let words = vec![(0, 0), (0, 0), (1, 1)];
    assert_eq!(read_bigint(&words, 65), Err(ValueError::FourState(format!("x{}", "0".repeat(64)))));
}

#[test]
fn vector_write_truncates_and_zero_extends_to_signal_width() {
    let words = fit_words(&u128_words(0xffff_ffff_ffff_ffa5u64 as u128, 2), 8);
    assert_eq!(words.len(), 1);
    assert_eq!(words[0].0, 0xa5);
    assert_eq!(words[0].1, 0);

    let words = fit_words(&u128_words(0xffff_fff5_89ab_cdefu64 as u128, 2), 37);
    assert_eq!(words.len(), 2);
    assert_eq!(words[0].0, 0x89ab_cdef);
    assert_eq!(words[1].0, 0x15);
    assert_eq!(words[0].1, 0);
    assert_eq!(words[1].1, 0);

    let words = fit_words(&u128_words(0x0123_4567_89ab_cdefu64 as u128, 2), 70);
    assert_eq!(words.len(), 3);
    assert_eq!(words[0].0, 0x89ab_cdef);
    assert_eq!(words[1].0, 0x0123_4567);
    assert_eq!(words[2].0, 0);
}

#[test]
fn typed_integer_setters_write_vpi_words() {
    assert_eq!(fit_words(&u128_words(true as u128, 1), 1)[0].0, 1);
    assert_eq!(fit_words(&u128_words(0xa5, 1), 8)[0].0, 0xa5);
    assert_eq!(fit_words(&u128_words(0xa5b6, 1), 16)[0].0, 0xa5b6);
    assert_eq!(fit_words(&u128_words(0xa5b6_c7d8, 1), 32)[0].0, 0xa5b6_c7d8);
    let words = fit_words(&u128_words(0x0123_4567_89ab_cdef_fedc_ba98_7654_3210, 4), 128);
    assert_eq!(
        words.iter().map(|w| w.0).collect::<Vec<_>>(),
        [0x7654_3210, 0xfedc_ba98, 0x89ab_cdef, 0x0123_4567]
    );
    assert!(words.iter().all(|w| w.1 == 0));
    assert_eq!(read_u32(&vec![(0xa5, 0)], 8, 8), Ok(0xa5));
}

#[test]
fn bigint_setter_writes_and_zero_extends_vpi_words() {
    let value = BigUint::from_slice(&[0x7654_3210, 0xfedc_ba98, 0x89ab_cdef, 0x0123_4567, 0xa5a5_5a5a]);
    let words = fit_words(&bigint_words(&value), 192);
    assert_eq!(
        words.iter().map(|w| w.0).collect::<Vec<_>>(),
        [0x7654_3210, 0xfedc_ba98, 0x89ab_cdef, 0x0123_4567, 0xa5a5_5a5a, 0]
    );
    assert!(words.iter().all(|w| w.1 == 0));
}

#[test]
fn vector_word_mask_clears_unused_aval_and_bval_bits() {
    let words = fit_words(&vec![(u32::MAX, u32::MAX), (u32::MAX, u32::MAX)], 37);
    assert_eq!(words[0].0, u32::MAX);
    assert_eq!(words[0].1, u32::MAX);
    assert_eq!(words[1].0, 0x1f);
    assert_eq!(words[1].1, 0x1f);
}

#[test]
fn logic_array_write_uses_vpi_vector_words() {
    let words = fit_words(&LogicArray::from_binstr("01xz").to_vpi_words(), 4);
    assert_eq!(words.len(), 1);
    assert_eq!(words[0].0, 0b0110);
    assert_eq!(words[0].1, 0b0011);
    assert_eq!(sim_time_from_parts(1, 2), (1u64 << 32) | 2);
}

#[test]
fn a_handle_of_the_wrong_kind_names_both_kinds() {
    assert!(check_kind("top.clk", ObjKind::Logic { width: 1 }, Wanted::Signal).is_ok());
    assert!(check_kind("top.s", ObjKind::Union, Wanted::Aggregate).is_ok());
    let e = check_kind("top.u", ObjKind::Hierarchy, Wanted::Signal).unwrap_err();
    assert_eq!(e.to_string(), "'top.u' is a module, expected signal");
    let e = check_kind("top.x", ObjKind::Struct, Wanted::Real).unwrap_err();
    assert_eq!(e.to_string(), "'top.x' is a struct, expected real");
    let e = check_kind("ignored", ObjKind::Other, Wanted::Aggregate).unwrap_err();
    assert_eq!(e.to_string(), "'<unknown>' is a unsupported simulator object, expected struct or union");
}

#[test]
fn bigint_words_are_the_digits_low_first_with_clean_bvals() {
    assert_eq!(bigint_words(&BigUint::from(0x1_0000_0002u64)), vec![(2, 0), (1, 0)]);
    assert!(bigint_words(&BigUint::from(0u8)).is_empty());
}

#[test]
fn bigint_read_drops_zero_top_words() {
    let words = vec![(5, 0), (0, 0), (0, 0)];
    let v = read_bigint(&words, 96).unwrap();
    assert_eq!(v, BigUint::from(5u8));
    assert_eq!(v.to_u32_digits(), vec![5]);
}
