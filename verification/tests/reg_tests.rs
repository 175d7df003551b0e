use scada::reg::Reg;

fn mk_reg(tip: i32, bits: Option<i32>) -> Reg {
    Reg {
        id: 1,
        name: "r".to_string(),
        addr: 32,
        n_mb: Some(3),
        tip,
        bits,
        grup: Some(21),
        a_en: true,
        a_no_write: 0,
    }
}

#[test]
fn is_bit_only_for_tip_zero_with_bits() {
    let r_bool = mk_reg(0, Some(0));
    assert!(r_bool.is_bit(), "tip=0 with bits must be bit register");

    let r_f32_with_bits = mk_reg(5, Some(0));
    assert!(!r_f32_with_bits.is_bit(), "tip=5 must not be treated as bit even if bits is set");
    assert!(r_f32_with_bits.is_32(), "tip=5 must stay 32-bit numeric");
}

#[test]
fn widths_of_register_types() {
    assert!(mk_reg(2, None).is_32());
    assert!(mk_reg(4, None).is_32());
    assert!(!mk_reg(3, None).is_32());
    assert!(!mk_reg(0, None).is_bit());
}
