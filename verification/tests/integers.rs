//! Circuit integers: construction, wrapping multiplication and checked shift
//! right, on concrete values.
use snarkvm_verified::boolean::Boolean;
use snarkvm_verified::circuit::Circuit;
use snarkvm_verified::integers::{Integer, IntegerType};
use snarkvm_verified::mode::Mode;

fn integer(ty: IntegerType, mode: Mode, raw: u128, cs: &mut Circuit) -> Integer {
    Integer::new(ty, mode, raw, cs)
}

#[test]
fn new_holds_the_bit_pattern_and_mode() {
    let mut cs = Circuit::new();
    let a = integer(IntegerType::I8, Mode::Public, 0xFB, &mut cs);
    assert_eq!(0xFB, a.eject_value());
    assert_eq!(Mode::Public, a.eject_mode());
    assert_eq!(8, a.bits_le().len());
    assert_eq!(IntegerType::I8, a.integer_type());
    assert!(!a.is_constant());
    // One public variable and one booleanity constraint per bit.
    assert_eq!(1 + 8, cs.num_public());
    assert_eq!(8, cs.num_constraints());
}

#[test]
fn integer_type_widths() {
    assert_eq!(8, IntegerType::U8.bits());
    assert_eq!(128, IntegerType::I128.bits());
    assert!(IntegerType::I32.is_signed());
    assert!(!IntegerType::U64.is_signed());
}

#[test]
fn add_checked_signed_values() {
    let mut cs = Circuit::new();
    let a = integer(IntegerType::I8, Mode::Private, (-100i8) as u8 as u128, &mut cs);
    let b = integer(IntegerType::I8, Mode::Public, 27u128, &mut cs);
    let c = a.add_checked(&b, &mut cs);
    assert_eq!(-73i8, c.eject_value() as u8 as i8);
    assert!(cs.is_satisfied());

    // -100 + -100 overflows an i8: the circuit is no longer satisfied.
    let d = integer(IntegerType::I8, Mode::Private, (-100i8) as u8 as u128, &mut cs);
    let _ = a.add_checked(&d, &mut cs);
    assert!(!cs.is_satisfied());
}

#[test]
fn add_of_two_overflowing_constants_halts() {
    let mut cs = Circuit::new();
    let a = integer(IntegerType::U16, Mode::Constant, 65535, &mut cs);
    let b = integer(IntegerType::U16, Mode::Constant, 1, &mut cs);
    assert!(a.add_halts(&b));
    let before = (cs.num_constants(), cs.num_constraints());
    assert!(a.try_add_checked(&b, &mut cs).is_none());
    assert_eq!(before, (cs.num_constants(), cs.num_constraints()));
    let c = integer(IntegerType::U16, Mode::Constant, 0, &mut cs);
    assert!(!a.add_halts(&c));
    assert_eq!(65535, a.try_add_checked(&c, &mut cs).unwrap().eject_value());
}

#[test]
fn mul_wrapped_wraps_around() {
    let mut cs = Circuit::new();
    let a = integer(IntegerType::U8, Mode::Private, 200, &mut cs);
    let b = integer(IntegerType::U8, Mode::Public, 3, &mut cs);
    let c = a.mul_wrapped(&b, &mut cs);
    assert_eq!((200u8).wrapping_mul(3) as u128, c.eject_value());
    assert_eq!(Mode::Private, c.eject_mode());

    let x = integer(IntegerType::I16, Mode::Constant, (-300i16) as u16 as u128, &mut cs);
    let y = integer(IntegerType::I16, Mode::Constant, 250, &mut cs);
    let z = x.mul_wrapped(&y, &mut cs);
    assert_eq!((-300i16).wrapping_mul(250), z.eject_value() as u16 as i16);
    assert!(z.is_constant());
    assert!(cs.is_satisfied());
}

#[test]
fn shr_checked_divides_rounding_down() {
    let mut cs = Circuit::new();
    let a = integer(IntegerType::I8, Mode::Private, (-7i8) as u8 as u128, &mut cs);
    let s = integer(IntegerType::U8, Mode::Constant, 1, &mut cs);
    let r = a.shr_checked(&s, &mut cs);
    assert_eq!(-4i8, r.eject_value() as u8 as i8);
    assert!(cs.is_satisfied());

    let b = integer(IntegerType::U32, Mode::Public, 0xF000_0000, &mut cs);
    let t = integer(IntegerType::U8, Mode::Private, 28, &mut cs);
    let r = b.shr_checked(&t, &mut cs);
    assert_eq!(0xF, r.eject_value());
    assert!(cs.is_satisfied());
}

#[test]
fn shr_by_a_variable_amount_too_large_fails() {
    let mut cs = Circuit::new();
    let a = integer(IntegerType::U8, Mode::Private, 0x80, &mut cs);
    let s = integer(IntegerType::U8, Mode::Private, 9, &mut cs);
    assert!(!a.shr_halts(&s));
    let r = a.shr_checked(&s, &mut cs);
    // The amount wraps modulo the width, and the circuit records the failure.
    assert_eq!(0x40, r.eject_value());
    assert!(!cs.is_satisfied());
}

#[test]
fn shr_of_constants_by_the_width_halts() {
    let mut cs = Circuit::new();
    let a = integer(IntegerType::U8, Mode::Constant, 0x80, &mut cs);
    let s = integer(IntegerType::U8, Mode::Constant, 8, &mut cs);
    assert!(a.shr_halts(&s));
    assert!(a.try_shr_checked(&s, &mut cs).is_none());
    let t = integer(IntegerType::U8, Mode::Constant, 7, &mut cs);
    assert_eq!(1, a.try_shr_checked(&t, &mut cs).unwrap().eject_value());
}

#[test]
fn shr_by_a_constant_large_amount_of_a_variable_halts() {
    let mut cs = Circuit::new();
    let a = integer(IntegerType::U8, Mode::Private, 0x80, &mut cs);
    let s = integer(IntegerType::U8, Mode::Constant, 8, &mut cs);
    assert!(a.shr_halts(&s));
    assert!(a.try_shr_checked(&s, &mut cs).is_none());
}

#[test]
fn a_constant_overflow_bit_is_not_recorded() {
    let mut cs = Circuit::new();
    // Two u8 values whose top bits are the constant `true` and whose other bits are private.
    let mut bits = Vec::new();
    for i in 0..8 {
        let mode = if i == 7 { Mode::Constant } else { Mode::Private };
        bits.push(Boolean::new(mode, i == 7, &mut cs));
    }
    let a = Integer::from_bits(IntegerType::U8, bits.clone());
    let b = Integer::from_bits(IntegerType::U8, bits);
    assert!(!a.add_halts(&b));
    let c = a.add_checked(&b, &mut cs);
    // 128 + 128 wraps to 0, and the constant overflow bit adds no failing constraint.
    assert_eq!(0, c.eject_value());
    assert!(cs.is_satisfied());
}

#[test]
fn mul_wrapped_allocates_the_product_bits() {
    let mut cs = Circuit::new();
    let a = integer(IntegerType::U16, Mode::Private, 7, &mut cs);
    let b = integer(IntegerType::U16, Mode::Constant, 9, &mut cs);
    let before = (cs.num_constants(), cs.num_public(), cs.num_private(), cs.num_constraints());
    let c = a.mul_wrapped(&b, &mut cs);
    assert_eq!(63, c.eject_value());
    assert_eq!((before.0, before.1, before.2 + 16, before.3 + 16), (cs.num_constants(), cs.num_public(), cs.num_private(), cs.num_constraints()));

    let x = integer(IntegerType::U8, Mode::Constant, 3, &mut cs);
    let y = integer(IntegerType::U8, Mode::Constant, 5, &mut cs);
    let before = (cs.num_constants(), cs.num_private(), cs.num_constraints());
    let _ = x.mul_wrapped(&y, &mut cs);
    assert_eq!((before.0 + 8, before.1, before.2), (cs.num_constants(), cs.num_private(), cs.num_constraints()));
}

#[test]
fn shr_checked_counts() {
    // A variable amount of type u8 shifting a u32: the upper bits of the
    // amount from bit 5 on are folded, three of them variables.
    let mut cs = Circuit::new();
    let a = integer(IntegerType::U32, Mode::Public, 0x100, &mut cs);
    let s = integer(IntegerType::U8, Mode::Private, 4, &mut cs);
    let before = (cs.num_constants(), cs.num_public(), cs.num_private(), cs.num_constraints());
    let r = a.shr_checked(&s, &mut cs);
    assert_eq!(0x10, r.eject_value());
    assert_eq!(
        (before.0, before.1, before.2 + 1 + 3 + 32, before.3 + 2 + 3 + 32),
        (cs.num_constants(), cs.num_public(), cs.num_private(), cs.num_constraints())
    );
}
