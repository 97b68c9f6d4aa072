//! Operations that circuit types offer.
//!
//! Every operation takes the constraint environment it synthesizes in.
use vstd::prelude::*;
use crate::circuit::Circuit;
use crate::mode::Mode;

verus! {

/// Operations to inject from a primitive form into a circuit environment.
pub trait Inject: Sized {
    type Primitive;

    /// Initializes a circuit of the given mode and primitive value.
    fn new(mode: Mode, value: Self::Primitive, cs: &mut Circuit) -> Self;

    /// Initializes a constant circuit of the given primitive value.
    fn constant(value: Self::Primitive, cs: &mut Circuit) -> Self;

    /// Initializes a blank default of the circuit for the given mode.
    fn blank(mode: Mode, cs: &mut Circuit) -> Self;
}

/// Representation of the zero value.
pub trait Zero: Sized {
    type Boolean;

    /// Returns a new zero constant.
    fn zero(cs: &mut Circuit) -> Self;

    /// Returns `true` if `self` is zero.
    fn is_zero(&self, cs: &mut Circuit) -> Self::Boolean;
}

/// Representation of the one value.
pub trait One: Sized {
    type Boolean;

    /// Returns a new one constant.
    fn one(cs: &mut Circuit) -> Self;

    /// Returns `true` if `self` is one.
    fn is_one(&self, cs: &mut Circuit) -> Self::Boolean;
}

/// Trait for equality comparisons.
pub trait Equal: Sized {
    type Boolean;

    /// Returns `true` if `self` and `other` are equal.
    fn is_eq(&self, other: &Self, cs: &mut Circuit) -> Self::Boolean;

    /// Returns `true` if `self` and `other` are *not* equal.
    fn is_neq(&self, other: &Self, cs: &mut Circuit) -> Self::Boolean;
}

/// Unary operator for converting to bits.
pub trait ToBits {
    type Boolean;

    fn to_bits_le(&self) -> Vec<Self::Boolean>;

    fn to_bits_be(&self) -> Vec<Self::Boolean>;
}

/// Unary operator for instantiating from bits.
pub trait FromBits: Sized {
    type Boolean;

    fn from_bits_le(mode: Mode, bits_le: &[Self::Boolean], cs: &mut Circuit) -> Self;

    fn from_bits_be(mode: Mode, bits_be: &[Self::Boolean], cs: &mut Circuit) -> Self;
}

/// A single-bit binary adder with a carry bit.
///
/// sum = (a XOR b) XOR carry
/// carry = a AND b OR carry AND (a XOR b)
pub trait Adder: Sized {
    /// Returns the sum of `self` and `other` as a sum bit and carry bit.
    fn adder(&self, other: &Self, carry: &Self, cs: &mut Circuit) -> (Self, Self);
}

/// A single-bit binary subtractor with a borrow bit.
///
/// difference = (a XOR b) XOR borrow
/// borrow = ((NOT a) AND b) OR (borrow AND (NOT (a XOR b)))
pub trait Subtractor: Sized {
    /// Returns the difference of `self` and `other` as a difference bit and borrow bit.
    fn subtractor(&self, other: &Self, borrow: &Self, cs: &mut Circuit) -> (Self, Self);
}

/// Binary operator for performing `a AND b`.
pub trait And: Sized {
    type Output;

    /// Returns `(a AND b)`.
    fn and(&self, other: &Self, cs: &mut Circuit) -> Self::Output;
}

/// Binary operator for performing `a OR b`.
pub trait Or: Sized {
    type Output;

    /// Returns `(a OR b)`.
    fn or(&self, other: &Self, cs: &mut Circuit) -> Self::Output;
}

/// Binary operator for performing `NOT (a AND b)`.
pub trait Nand: Sized {
    type Output;

    /// Returns `NOT (a AND b)`.
    fn nand(&self, other: &Self, cs: &mut Circuit) -> Self::Output;
}

/// Binary operator for performing `(NOT a) AND (NOT b)`.
pub trait Nor: Sized {
    type Output;

    /// Returns `(NOT a) AND (NOT b)`.
    fn nor(&self, other: &Self, cs: &mut Circuit) -> Self::Output;
}

/// Binary operator for performing `(a != b)`.
pub trait Xor: Sized {
    type Output;

    /// Returns `(a != b)`.
    fn xor(&self, other: &Self, cs: &mut Circuit) -> Self::Output;
}

/// Trait for ternary operations.
pub trait Ternary: Sized {
    type Boolean;
    type Output;

    /// Returns `first` if `condition` is `true`, otherwise returns `second`.
    fn ternary(condition: &Self::Boolean, first: &Self, second: &Self, cs: &mut Circuit) -> Self::Output;
}

/// Representation of a boolean.
pub trait BooleanTrait: Adder + And + Equal + Nand + Nor + Or + Subtractor + Ternary + Xor {}

} // verus!
