//! Circuit booleans: allocation, negation and the binary gates.
use snarkvm_verified::boolean::Boolean;
use snarkvm_verified::circuit::Circuit;
use snarkvm_verified::mode::Mode;
use snarkvm_verified::traits::{Adder, Equal, Subtractor};

fn counts(cs: &Circuit) -> (u64, u64, u64, u64) {
    (cs.num_constants(), cs.num_public(), cs.num_private(), cs.num_constraints())
}

/// The counts added to a fresh environment (which holds the public `one`).
fn in_scope(cs: &Circuit) -> (u64, u64, u64, u64) {
    let (c, p, v, k) = counts(cs);
    (c, p - 1, v, k)
}

#[test]
fn test_new_constant() {
    let mut cs = Circuit::new();
    let candidate = Boolean::new(Mode::Constant, false, &mut cs);
    assert!(!candidate.eject_value()); // false
    assert_eq!((1, 0, 0, 0), in_scope(&cs));

    let candidate = Boolean::new(Mode::Constant, true, &mut cs);
    assert!(candidate.eject_value()); // true
    assert_eq!((2, 0, 0, 0), in_scope(&cs));
}

#[test]
fn test_new_public() {
    let mut cs = Circuit::new();
    let candidate = Boolean::new(Mode::Public, false, &mut cs);
    assert!(!candidate.eject_value()); // false
    assert_eq!((0, 1, 0, 1), in_scope(&cs));

    let candidate = Boolean::new(Mode::Public, true, &mut cs);
    assert!(candidate.eject_value()); // true
    assert_eq!((0, 2, 0, 2), in_scope(&cs));
}

#[test]
fn test_new_private() {
    let mut cs = Circuit::new();
    let candidate = Boolean::new(Mode::Private, false, &mut cs);
    assert!(!candidate.eject_value()); // false
    assert_eq!((0, 0, 1, 1), in_scope(&cs));

    let candidate = Boolean::new(Mode::Private, true, &mut cs);
    assert!(candidate.eject_value()); // true
    assert_eq!((0, 0, 2, 2), in_scope(&cs));
}

fn check_not(
    expected: bool,
    candidate_input: Boolean,
    cs: &Circuit,
    num_constants: u64,
    num_public: u64,
    num_private: u64,
    num_constraints: u64,
) {
    let before = counts(cs);
    let candidate_output = candidate_input.not();
    assert_eq!(expected, candidate_output.eject_value());
    let after = counts(cs);
    assert_eq!(num_constants, after.0 - before.0, "(num_constants)");
    assert_eq!(num_public, after.1 - before.1, "(num_public)");
    assert_eq!(num_private, after.2 - before.2, "(num_private)");
    assert_eq!(num_constraints, after.3 - before.3, "(num_constraints)");
    assert!(cs.is_satisfied(), "(is_satisfied)");
}

#[test]
fn test_not_constant() {
    let mut cs = Circuit::new();
    // NOT false
    let candidate_input = Boolean::new(Mode::Constant, false, &mut cs);
    check_not(true, candidate_input, &cs, 0, 0, 0, 0);

    // NOT true
    let candidate_input = Boolean::new(Mode::Constant, true, &mut cs);
    check_not(false, candidate_input, &cs, 0, 0, 0, 0);
}

#[test]
fn test_not_public() {
    let mut cs = Circuit::new();
    // NOT false
    let candidate_input = Boolean::new(Mode::Public, false, &mut cs);
    check_not(true, candidate_input, &cs, 0, 0, 0, 0);

    // NOT true
    let candidate_input = Boolean::new(Mode::Public, true, &mut cs);
    check_not(false, candidate_input, &cs, 0, 0, 0, 0);
}

#[test]
fn test_not_private() {
    let mut cs = Circuit::new();
    // NOT false
    let candidate_input = Boolean::new(Mode::Private, false, &mut cs);
    check_not(true, candidate_input, &cs, 0, 0, 0, 0);

    // NOT true
    let candidate_input = Boolean::new(Mode::Private, true, &mut cs);
    check_not(false, candidate_input, &cs, 0, 0, 0, 0);
}

#[test]
fn not_keeps_constants_and_makes_variables_private() {
    let mut cs = Circuit::new();
    let c = Boolean::new(Mode::Constant, true, &mut cs);
    let p = Boolean::new(Mode::Public, true, &mut cs);
    assert_eq!(Mode::Constant, c.not().eject_mode());
    assert_eq!(Mode::Private, p.not().eject_mode());
}

const MODES: [Mode; 3] = [Mode::Constant, Mode::Public, Mode::Private];

#[test]
fn binary_gates_compute_their_truth_tables() {
    for &ma in MODES.iter() {
        for &mb in MODES.iter() {
            for a in [false, true] {
                for b in [false, true] {
                    let mut cs = Circuit::new();
                    let x = Boolean::new(ma, a, &mut cs);
                    let y = Boolean::new(mb, b, &mut cs);
                    assert_eq!(a && b, x.and(&y, &mut cs).eject_value());
                    assert_eq!(a || b, x.or(&y, &mut cs).eject_value());
                    assert_eq!(a != b, x.xor(&y, &mut cs).eject_value());
                    assert_eq!(!(a && b), x.nand(&y, &mut cs).eject_value());
                    assert_eq!(!a && !b, x.nor(&y, &mut cs).eject_value());
                    assert_eq!(a == b, x.is_eq(&y, &mut cs).eject_value());
                    assert_eq!(a != b, x.is_neq(&y, &mut cs).eject_value());
                    assert!(cs.is_satisfied());
                }
            }
        }
    }
}

#[test]
fn gate_on_two_variables_allocates_one_private_and_one_constraint() {
    let mut cs = Circuit::new();
    let x = Boolean::new(Mode::Public, true, &mut cs);
    let y = Boolean::new(Mode::Private, false, &mut cs);
    let before = counts(&cs);
    let z = x.and(&y, &mut cs);
    let after = counts(&cs);
    assert_eq!(Mode::Private, z.eject_mode());
    assert_eq!((0, 0, 1, 1), (after.0 - before.0, after.1 - before.1, after.2 - before.2, after.3 - before.3));
}

#[test]
fn gate_with_a_constant_allocates_nothing() {
    let mut cs = Circuit::new();
    let x = Boolean::new(Mode::Constant, true, &mut cs);
    let y = Boolean::new(Mode::Private, false, &mut cs);
    let before = counts(&cs);
    let z = x.and(&y, &mut cs);
    assert_eq!(before, counts(&cs));
    assert_eq!(Mode::Private, z.eject_mode());
    assert!(!z.eject_value());
}

#[test]
fn full_adder_and_subtractor_truth_tables() {
    for a in [false, true] {
        for b in [false, true] {
            for c in [false, true] {
                let mut cs = Circuit::new();
                let x = Boolean::new(Mode::Private, a, &mut cs);
                let y = Boolean::new(Mode::Public, b, &mut cs);
                let z = Boolean::new(Mode::Private, c, &mut cs);
                let (sum, carry) = x.adder(&y, &z, &mut cs);
                let total = a as u8 + b as u8 + c as u8;
                assert_eq!(total % 2 == 1, sum.eject_value());
                assert_eq!(total >= 2, carry.eject_value());
                let (difference, borrow) = x.subtractor(&y, &z, &mut cs);
                let d = a as i8 - b as i8 - c as i8;
                assert_eq!(d.rem_euclid(2) == 1, difference.eject_value());
                assert_eq!(d < 0, borrow.eject_value());
                assert!(cs.is_satisfied());
            }
        }
    }
}

#[test]
fn ternary_selects_by_condition() {
    for &mc in MODES.iter() {
        for cond in [false, true] {
            let mut cs = Circuit::new();
            let c = Boolean::new(mc, cond, &mut cs);
            let f = Boolean::new(Mode::Private, true, &mut cs);
            let s = Boolean::new(Mode::Public, false, &mut cs);
            let r = Boolean::ternary(&c, &f, &s, &mut cs);
            assert_eq!(cond, r.eject_value());
        }
    }
}

fn text(s: &str) -> String {
    s.to_string()
}

#[test]
fn test_parser() {
    let mut cs = Circuit::new();
    let candidate = Boolean::parse(&text("true"), &mut cs);
    assert_eq!(true, candidate.eject_value());
    assert!(candidate.is_constant());

    let candidate = Boolean::parse(&text("false"), &mut cs);
    assert_eq!(false, candidate.eject_value());
    assert!(candidate.is_constant());

    let candidate = Boolean::parse(&text("Constant(true)"), &mut cs);
    assert_eq!(true, candidate.eject_value());
    assert!(candidate.is_constant());

    let candidate = Boolean::parse(&text("Constant(false)"), &mut cs);
    assert_eq!(false, candidate.eject_value());
    assert!(candidate.is_constant());

    let candidate = Boolean::parse(&text("Public(true)"), &mut cs);
    assert_eq!(true, candidate.eject_value());
    assert!(candidate.is_public());

    let candidate = Boolean::parse(&text("Public(false)"), &mut cs);
    assert_eq!(false, candidate.eject_value());
    assert!(candidate.is_public());

    let candidate = Boolean::parse(&text("Private(true)"), &mut cs);
    assert_eq!(true, candidate.eject_value());
    assert!(candidate.is_private());

    let candidate = Boolean::parse(&text("Private(false)"), &mut cs);
    assert_eq!(false, candidate.eject_value());
    assert!(candidate.is_private());
}

#[test]
fn parsing_other_text_is_refused() {
    let mut cs = Circuit::new();
    let before = counts(&cs);
    assert!(Boolean::try_parse(&text("True"), &mut cs).is_none());
    assert!(Boolean::try_parse(&text("Public(1)"), &mut cs).is_none());
    assert!(Boolean::try_parse(&text(""), &mut cs).is_none());
    assert_eq!(before, counts(&cs));
}

#[test]
fn test_debug() {
    let mut cs = Circuit::new();
    let candidate = Boolean::new(Mode::Constant, false, &mut cs);
    assert_eq!("false", candidate.to_debug_string());

    let candidate = Boolean::new(Mode::Constant, true, &mut cs);
    assert_eq!("true", candidate.to_debug_string());

    let candidate = Boolean::new(Mode::Public, false, &mut cs);
    assert_eq!("false", candidate.to_debug_string());

    let candidate = Boolean::new(Mode::Public, true, &mut cs);
    assert_eq!("true", candidate.to_debug_string());

    let candidate = Boolean::new(Mode::Private, false, &mut cs);
    assert_eq!("false", candidate.to_debug_string());

    let candidate = Boolean::new(Mode::Private, true, &mut cs);
    assert_eq!("true", candidate.to_debug_string());
}

#[test]
fn test_display() {
    let mut cs = Circuit::new();
    let candidate = Boolean::new(Mode::Constant, false, &mut cs);
    assert_eq!("Constant(false)", candidate.to_display_string());

    let candidate = Boolean::new(Mode::Constant, true, &mut cs);
    assert_eq!("Constant(true)", candidate.to_display_string());

    let candidate = Boolean::new(Mode::Public, false, &mut cs);
    assert_eq!("Public(false)", candidate.to_display_string());

    let candidate = Boolean::new(Mode::Public, true, &mut cs);
    assert_eq!("Public(true)", candidate.to_display_string());

    let candidate = Boolean::new(Mode::Private, false, &mut cs);
    assert_eq!("Private(false)", candidate.to_display_string());

    let candidate = Boolean::new(Mode::Private, true, &mut cs);
    assert_eq!("Private(true)", candidate.to_display_string());
}

#[test]
fn test_new_fail() {
    {
        let mut cs = Circuit::new();
        cs.new_variable(Mode::Constant);

        // Ensure `a` is either 0 or 1, for an `a` that is neither:
        // (1 - a) * a = 0
        cs.enforce(true, false);
        assert_eq!(0, cs.num_constraints());
    }
    {
        let mut cs = Circuit::new();
        cs.new_variable(Mode::Public);

        // Ensure `a` is either 0 or 1, for an `a` that is neither:
        // (1 - a) * a = 0
        cs.enforce(false, false);
        assert!(!cs.is_satisfied());
    }
    {
        let mut cs = Circuit::new();
        cs.new_variable(Mode::Private);

        // Ensure `a` is either 0 or 1, for an `a` that is neither:
        // (1 - a) * a = 0
        cs.enforce(false, false);
        assert!(!cs.is_satisfied());
    }
}

#[test]
fn displayed_text_parses_back() {
    for &mode in MODES.iter() {
        for value in [false, true] {
            let mut cs = Circuit::new();
            let b = Boolean::new(mode, value, &mut cs);
            let parsed = Boolean::try_parse(&b.to_display_string(), &mut cs).unwrap();
            assert_eq!(mode, parsed.eject_mode());
            assert_eq!(value, parsed.eject_value());
        }
    }
}
