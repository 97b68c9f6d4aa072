//! The constraint environment and modes.
use snarkvm_verified::circuit::Circuit;
use snarkvm_verified::mode::{eject_mode, Mode};

#[test]
fn a_fresh_environment_holds_the_public_one() {
    let cs = Circuit::new();
    assert_eq!((0, 1, 0, 0), (cs.num_constants(), cs.num_public(), cs.num_private(), cs.num_constraints()));
    assert!(cs.is_satisfied());
}

#[test]
fn variables_and_constraints_are_counted() {
    let mut cs = Circuit::new();
    cs.new_variable(Mode::Constant);
    cs.new_variable(Mode::Private);
    cs.new_variable(Mode::Private);
    cs.enforce(true, true);
    cs.enforce(false, true);
    assert_eq!((1, 1, 2, 1), (cs.num_constants(), cs.num_public(), cs.num_private(), cs.num_constraints()));
    assert!(cs.is_satisfied());
    cs.enforce(false, false);
    assert!(!cs.is_satisfied());
    cs.enforce(false, true);
    assert!(!cs.is_satisfied());
    cs.reset_circuit();
    assert!(cs.is_satisfied());
    assert_eq!(0, cs.num_constraints());
}

#[test]
fn the_mode_of_several_values_is_the_least_visible() {
    assert_eq!(Mode::Constant, eject_mode(&[Mode::Constant, Mode::Constant]));
    assert_eq!(Mode::Public, eject_mode(&[Mode::Constant, Mode::Public]));
    assert_eq!(Mode::Private, eject_mode(&[Mode::Public, Mode::Private, Mode::Constant]));
    assert!(Mode::Public.is_public());
    assert!(Mode::Private.is_private());
    assert!(Mode::Constant.is_constant());
}
