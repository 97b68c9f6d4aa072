//! Checked addition of circuit integers: values, circuit costs, and
//! overflow, for every type and every pair of modes.
use snarkvm_verified::circuit::Circuit;
use snarkvm_verified::integers::{Integer, IntegerType};
use snarkvm_verified::mode::Mode;

const ITERATIONS: usize = 128;

/// A small deterministic generator of test values.
struct Rng(u64);

impl Rng {
    fn new(seed: u64) -> Rng {
        Rng(seed ^ 0x9E37_79B9_7F4A_7C15)
    }

    fn next_u64(&mut self) -> u64 {
        let mut x = self.0;
        x ^= x << 13;
        x ^= x >> 7;
        x ^= x << 17;
        self.0 = x;
        x
    }

    fn next_u128(&mut self) -> u128 {
        ((self.next_u64() as u128) << 64) | (self.next_u64() as u128)
    }
}

/// A primitive integer type and its circuit counterpart.
trait Prim: Copy + PartialEq + std::fmt::Debug {
    const TY: IntegerType;
    const MAX: Self;
    const ONE: Self;
    fn to_raw(self) -> u128;
    fn from_raw(raw: u128) -> Self;
    fn add_checked(self, other: Self) -> Option<Self>;
}

impl Prim for u8 {
    const TY: IntegerType = IntegerType::U8;
    const MAX: Self = u8::MAX;
    const ONE: Self = 1;

    fn to_raw(self) -> u128 {
        self as u128
    }

    fn from_raw(raw: u128) -> Self {
        raw as u8
    }

    fn add_checked(self, other: Self) -> Option<Self> {
        self.checked_add(other)
    }
}

impl Prim for i8 {
    const TY: IntegerType = IntegerType::I8;
    const MAX: Self = i8::MAX;
    const ONE: Self = 1;

    fn to_raw(self) -> u128 {
        self as u8 as u128
    }

    fn from_raw(raw: u128) -> Self {
        raw as u8 as i8
    }

    fn add_checked(self, other: Self) -> Option<Self> {
        self.checked_add(other)
    }
}

impl Prim for u16 {
    const TY: IntegerType = IntegerType::U16;
    const MAX: Self = u16::MAX;
    const ONE: Self = 1;

    fn to_raw(self) -> u128 {
        self as u128
    }

    fn from_raw(raw: u128) -> Self {
        raw as u16
    }

    fn add_checked(self, other: Self) -> Option<Self> {
        self.checked_add(other)
    }
}

impl Prim for i16 {
    const TY: IntegerType = IntegerType::I16;
    const MAX: Self = i16::MAX;
    const ONE: Self = 1;

    fn to_raw(self) -> u128 {
        self as u16 as u128
    }

    fn from_raw(raw: u128) -> Self {
        raw as u16 as i16
    }

    fn add_checked(self, other: Self) -> Option<Self> {
        self.checked_add(other)
    }
}

impl Prim for u32 {
    const TY: IntegerType = IntegerType::U32;
    const MAX: Self = u32::MAX;
    const ONE: Self = 1;

    fn to_raw(self) -> u128 {
        self as u128
    }

    fn from_raw(raw: u128) -> Self {
        raw as u32
    }

    fn add_checked(self, other: Self) -> Option<Self> {
        self.checked_add(other)
    }
}

impl Prim for i32 {
    const TY: IntegerType = IntegerType::I32;
    const MAX: Self = i32::MAX;
    const ONE: Self = 1;

    fn to_raw(self) -> u128 {
        self as u32 as u128
    }

    fn from_raw(raw: u128) -> Self {
        raw as u32 as i32
    }

    fn add_checked(self, other: Self) -> Option<Self> {
        self.checked_add(other)
    }
}

impl Prim for u64 {
    const TY: IntegerType = IntegerType::U64;
    const MAX: Self = u64::MAX;
    const ONE: Self = 1;

    fn to_raw(self) -> u128 {
        self as u128
    }

    fn from_raw(raw: u128) -> Self {
        raw as u64
    }

    fn add_checked(self, other: Self) -> Option<Self> {
        self.checked_add(other)
    }
}

impl Prim for i64 {
    const TY: IntegerType = IntegerType::I64;
    const MAX: Self = i64::MAX;
    const ONE: Self = 1;

    fn to_raw(self) -> u128 {
        self as u64 as u128
    }

    fn from_raw(raw: u128) -> Self {
        raw as u64 as i64
    }

    fn add_checked(self, other: Self) -> Option<Self> {
        self.checked_add(other)
    }
}

impl Prim for u128 {
    const TY: IntegerType = IntegerType::U128;
    const MAX: Self = u128::MAX;
    const ONE: Self = 1;

    fn to_raw(self) -> u128 {
        self as u128
    }

    fn from_raw(raw: u128) -> Self {
        raw as u128
    }

    fn add_checked(self, other: Self) -> Option<Self> {
        self.checked_add(other)
    }
}

impl Prim for i128 {
    const TY: IntegerType = IntegerType::I128;
    const MAX: Self = i128::MAX;
    const ONE: Self = 1;

    fn to_raw(self) -> u128 {
        self as u128 as u128
    }

    fn from_raw(raw: u128) -> Self {
        raw as u128 as i128
    }

    fn add_checked(self, other: Self) -> Option<Self> {
        self.checked_add(other)
    }
}

fn counts(cs: &Circuit) -> (u64, u64, u64, u64) {
    (cs.num_constants(), cs.num_public(), cs.num_private(), cs.num_constraints())
}

fn integer<I: Prim>(mode: Mode, value: I, cs: &mut Circuit) -> Integer {
    Integer::new(I::TY, mode, value.to_raw(), cs)
}

fn check_add_checked<I: Prim>(
    expected: I,
    a: &Integer,
    b: &Integer,
    cs: &mut Circuit,
    num_constants: u64,
    num_public: u64,
    num_private: u64,
    num_constraints: u64,
) {
    let before = counts(cs);
    let candidate = a.add_checked(b, cs);
    let after = counts(cs);
    assert_eq!(expected, I::from_raw(candidate.eject_value()));
    assert_eq!(num_constants, after.0 - before.0, "(num_constants)");
    assert_eq!(num_public, after.1 - before.1, "(num_public)");
    assert_eq!(num_private, after.2 - before.2, "(num_private)");
    assert_eq!(num_constraints, after.3 - before.3, "(num_constraints)");
    assert!(cs.is_satisfied(), "(is_satisfied)");
}

fn check_overflow_halts<I: Prim>(mode_a: Mode, mode_b: Mode, value_a: I, value_b: I) {
    let mut cs = Circuit::new();
    let a = integer(mode_a, value_a, &mut cs);
    let b = integer(mode_b, value_b, &mut cs);
    assert!(a.try_add_checked(&b, &mut cs).is_none());

    let mut cs = Circuit::new();
    let a = integer(mode_a, value_b, &mut cs);
    let b = integer(mode_b, value_a, &mut cs);
    assert!(a.try_add_checked(&b, &mut cs).is_none());
}

fn check_overflow_fails<I: Prim>(mode_a: Mode, mode_b: Mode, value_a: I, value_b: I) {
    {
        let mut cs = Circuit::new();
        let a = integer(mode_a, value_a, &mut cs);
        let b = integer(mode_b, value_b, &mut cs);
        let _candidate = a.add_checked(&b, &mut cs);
        assert!(!cs.is_satisfied(), "(!is_satisfied)");
    }
    {
        let mut cs = Circuit::new();
        let a = integer(mode_a, value_b, &mut cs);
        let b = integer(mode_b, value_a, &mut cs);
        let _candidate = a.add_checked(&b, &mut cs);
        assert!(!cs.is_satisfied(), "(!is_satisfied)");
    }
}

fn run_test<I: Prim>(
    mode_a: Mode,
    mode_b: Mode,
    num_constants: u64,
    num_public: u64,
    num_private: u64,
    num_constraints: u64,
) {
    let mut rng = Rng::new(I::TY as u64 * 31 + mode_a as u64 * 7 + mode_b as u64);
    for _ in 0..ITERATIONS {
        let first = I::from_raw(rng.next_u128());
        let second = I::from_raw(rng.next_u128());

        let mut cs = Circuit::new();
        let a = integer(mode_a, first, &mut cs);
        let b = integer(mode_b, second, &mut cs);

        match first.add_checked(second) {
            Some(expected) => check_add_checked::<I>(
                expected, &a, &b, &mut cs, num_constants, num_public, num_private, num_constraints,
            ),
            None => match (mode_a, mode_b) {
                (Mode::Constant, Mode::Constant) => check_overflow_halts::<I>(mode_a, mode_b, first, second),
                _ => check_overflow_fails::<I>(mode_a, mode_b, first, second),
            },
        }
    }
}

#[test]
fn test_u8_constant_plus_constant() {
    run_test::<u8>(Mode::Constant, Mode::Constant, 8, 0, 0, 0);
    check_overflow_halts::<u8>(Mode::Constant, Mode::Constant, <u8 as Prim>::MAX, <u8 as Prim>::ONE);
}

#[test]
fn test_u8_constant_plus_public() {
    check_overflow_fails::<u8>(Mode::Constant, Mode::Public, <u8 as Prim>::MAX, <u8 as Prim>::ONE);
}

#[test]
fn test_u8_constant_plus_private() {
    check_overflow_fails::<u8>(Mode::Constant, Mode::Private, <u8 as Prim>::MAX, <u8 as Prim>::ONE);
}

#[test]
fn test_u8_public_plus_constant() {
    check_overflow_fails::<u8>(Mode::Public, Mode::Constant, <u8 as Prim>::MAX, <u8 as Prim>::ONE);
}

#[test]
fn test_u8_private_plus_constant() {
    check_overflow_fails::<u8>(Mode::Private, Mode::Constant, <u8 as Prim>::MAX, <u8 as Prim>::ONE);
}

#[test]
fn test_u8_public_plus_public() {
    run_test::<u8>(Mode::Public, Mode::Public, 1, 0, 37, 38);
    check_overflow_fails::<u8>(Mode::Public, Mode::Public, <u8 as Prim>::MAX, <u8 as Prim>::ONE);
}

#[test]
fn test_u8_public_plus_private() {
    run_test::<u8>(Mode::Public, Mode::Private, 1, 0, 37, 38);
    check_overflow_fails::<u8>(Mode::Public, Mode::Private, <u8 as Prim>::MAX, <u8 as Prim>::ONE);
}

#[test]
fn test_u8_private_plus_public() {
    run_test::<u8>(Mode::Private, Mode::Public, 1, 0, 37, 38);
    check_overflow_fails::<u8>(Mode::Private, Mode::Public, <u8 as Prim>::MAX, <u8 as Prim>::ONE);
}

#[test]
fn test_u8_private_plus_private() {
    run_test::<u8>(Mode::Private, Mode::Private, 1, 0, 37, 38);
    check_overflow_fails::<u8>(Mode::Private, Mode::Private, <u8 as Prim>::MAX, <u8 as Prim>::ONE);
}

#[test]
fn test_i8_constant_plus_constant() {
    run_test::<i8>(Mode::Constant, Mode::Constant, 8, 0, 0, 0);
    check_overflow_halts::<i8>(Mode::Constant, Mode::Constant, <i8 as Prim>::MAX, <i8 as Prim>::ONE);
}

#[test]
fn test_i8_constant_plus_public() {
    check_overflow_fails::<i8>(Mode::Constant, Mode::Public, <i8 as Prim>::MAX, <i8 as Prim>::ONE);
}

#[test]
fn test_i8_constant_plus_private() {
    check_overflow_fails::<i8>(Mode::Constant, Mode::Private, <i8 as Prim>::MAX, <i8 as Prim>::ONE);
}

#[test]
fn test_i8_public_plus_constant() {
    check_overflow_fails::<i8>(Mode::Public, Mode::Constant, <i8 as Prim>::MAX, <i8 as Prim>::ONE);
}

#[test]
fn test_i8_private_plus_constant() {
    check_overflow_fails::<i8>(Mode::Private, Mode::Constant, <i8 as Prim>::MAX, <i8 as Prim>::ONE);
}

#[test]
fn test_i8_public_plus_public() {
    run_test::<i8>(Mode::Public, Mode::Public, 1, 0, 38, 39);
    check_overflow_fails::<i8>(Mode::Public, Mode::Public, <i8 as Prim>::MAX, <i8 as Prim>::ONE);
}

#[test]
fn test_i8_public_plus_private() {
    run_test::<i8>(Mode::Public, Mode::Private, 1, 0, 38, 39);
    check_overflow_fails::<i8>(Mode::Public, Mode::Private, <i8 as Prim>::MAX, <i8 as Prim>::ONE);
}

#[test]
fn test_i8_private_plus_public() {
    run_test::<i8>(Mode::Private, Mode::Public, 1, 0, 38, 39);
    check_overflow_fails::<i8>(Mode::Private, Mode::Public, <i8 as Prim>::MAX, <i8 as Prim>::ONE);
}

#[test]
fn test_i8_private_plus_private() {
    run_test::<i8>(Mode::Private, Mode::Private, 1, 0, 38, 39);
    check_overflow_fails::<i8>(Mode::Private, Mode::Private, <i8 as Prim>::MAX, <i8 as Prim>::ONE);
}

#[test]
fn test_u16_constant_plus_constant() {
    run_test::<u16>(Mode::Constant, Mode::Constant, 16, 0, 0, 0);
    check_overflow_halts::<u16>(Mode::Constant, Mode::Constant, <u16 as Prim>::MAX, <u16 as Prim>::ONE);
}

#[test]
fn test_u16_constant_plus_public() {
    check_overflow_fails::<u16>(Mode::Constant, Mode::Public, <u16 as Prim>::MAX, <u16 as Prim>::ONE);
}

#[test]
fn test_u16_constant_plus_private() {
    check_overflow_fails::<u16>(Mode::Constant, Mode::Private, <u16 as Prim>::MAX, <u16 as Prim>::ONE);
}

#[test]
fn test_u16_public_plus_constant() {
    check_overflow_fails::<u16>(Mode::Public, Mode::Constant, <u16 as Prim>::MAX, <u16 as Prim>::ONE);
}

#[test]
fn test_u16_private_plus_constant() {
    check_overflow_fails::<u16>(Mode::Private, Mode::Constant, <u16 as Prim>::MAX, <u16 as Prim>::ONE);
}

#[test]
fn test_u16_public_plus_public() {
    run_test::<u16>(Mode::Public, Mode::Public, 1, 0, 77, 78);
    check_overflow_fails::<u16>(Mode::Public, Mode::Public, <u16 as Prim>::MAX, <u16 as Prim>::ONE);
}

#[test]
fn test_u16_public_plus_private() {
    run_test::<u16>(Mode::Public, Mode::Private, 1, 0, 77, 78);
    check_overflow_fails::<u16>(Mode::Public, Mode::Private, <u16 as Prim>::MAX, <u16 as Prim>::ONE);
}

#[test]
fn test_u16_private_plus_public() {
    run_test::<u16>(Mode::Private, Mode::Public, 1, 0, 77, 78);
    check_overflow_fails::<u16>(Mode::Private, Mode::Public, <u16 as Prim>::MAX, <u16 as Prim>::ONE);
}

#[test]
fn test_u16_private_plus_private() {
    run_test::<u16>(Mode::Private, Mode::Private, 1, 0, 77, 78);
    check_overflow_fails::<u16>(Mode::Private, Mode::Private, <u16 as Prim>::MAX, <u16 as Prim>::ONE);
}

#[test]
fn test_i16_constant_plus_constant() {
    run_test::<i16>(Mode::Constant, Mode::Constant, 16, 0, 0, 0);
    check_overflow_halts::<i16>(Mode::Constant, Mode::Constant, <i16 as Prim>::MAX, <i16 as Prim>::ONE);
}

#[test]
fn test_i16_constant_plus_public() {
    check_overflow_fails::<i16>(Mode::Constant, Mode::Public, <i16 as Prim>::MAX, <i16 as Prim>::ONE);
}

#[test]
fn test_i16_constant_plus_private() {
    check_overflow_fails::<i16>(Mode::Constant, Mode::Private, <i16 as Prim>::MAX, <i16 as Prim>::ONE);
}

#[test]
fn test_i16_public_plus_constant() {
    check_overflow_fails::<i16>(Mode::Public, Mode::Constant, <i16 as Prim>::MAX, <i16 as Prim>::ONE);
}

#[test]
fn test_i16_private_plus_constant() {
    check_overflow_fails::<i16>(Mode::Private, Mode::Constant, <i16 as Prim>::MAX, <i16 as Prim>::ONE);
}

#[test]
fn test_i16_public_plus_public() {
    run_test::<i16>(Mode::Public, Mode::Public, 1, 0, 78, 79);
    check_overflow_fails::<i16>(Mode::Public, Mode::Public, <i16 as Prim>::MAX, <i16 as Prim>::ONE);
}

#[test]
fn test_i16_public_plus_private() {
    run_test::<i16>(Mode::Public, Mode::Private, 1, 0, 78, 79);
    check_overflow_fails::<i16>(Mode::Public, Mode::Private, <i16 as Prim>::MAX, <i16 as Prim>::ONE);
}

#[test]
fn test_i16_private_plus_public() {
    run_test::<i16>(Mode::Private, Mode::Public, 1, 0, 78, 79);
    check_overflow_fails::<i16>(Mode::Private, Mode::Public, <i16 as Prim>::MAX, <i16 as Prim>::ONE);
}

#[test]
fn test_i16_private_plus_private() {
    run_test::<i16>(Mode::Private, Mode::Private, 1, 0, 78, 79);
    check_overflow_fails::<i16>(Mode::Private, Mode::Private, <i16 as Prim>::MAX, <i16 as Prim>::ONE);
}

#[test]
fn test_u32_constant_plus_constant() {
    run_test::<u32>(Mode::Constant, Mode::Constant, 32, 0, 0, 0);
    check_overflow_halts::<u32>(Mode::Constant, Mode::Constant, <u32 as Prim>::MAX, <u32 as Prim>::ONE);
}

#[test]
fn test_u32_constant_plus_public() {
    check_overflow_fails::<u32>(Mode::Constant, Mode::Public, <u32 as Prim>::MAX, <u32 as Prim>::ONE);
}

#[test]
fn test_u32_constant_plus_private() {
    check_overflow_fails::<u32>(Mode::Constant, Mode::Private, <u32 as Prim>::MAX, <u32 as Prim>::ONE);
}

#[test]
fn test_u32_public_plus_constant() {
    check_overflow_fails::<u32>(Mode::Public, Mode::Constant, <u32 as Prim>::MAX, <u32 as Prim>::ONE);
}

#[test]
fn test_u32_private_plus_constant() {
    check_overflow_fails::<u32>(Mode::Private, Mode::Constant, <u32 as Prim>::MAX, <u32 as Prim>::ONE);
}

#[test]
fn test_u32_public_plus_public() {
    run_test::<u32>(Mode::Public, Mode::Public, 1, 0, 157, 158);
    check_overflow_fails::<u32>(Mode::Public, Mode::Public, <u32 as Prim>::MAX, <u32 as Prim>::ONE);
}

#[test]
fn test_u32_public_plus_private() {
    run_test::<u32>(Mode::Public, Mode::Private, 1, 0, 157, 158);
    check_overflow_fails::<u32>(Mode::Public, Mode::Private, <u32 as Prim>::MAX, <u32 as Prim>::ONE);
}

#[test]
fn test_u32_private_plus_public() {
    run_test::<u32>(Mode::Private, Mode::Public, 1, 0, 157, 158);
    check_overflow_fails::<u32>(Mode::Private, Mode::Public, <u32 as Prim>::MAX, <u32 as Prim>::ONE);
}

#[test]
fn test_u32_private_plus_private() {
    run_test::<u32>(Mode::Private, Mode::Private, 1, 0, 157, 158);
    check_overflow_fails::<u32>(Mode::Private, Mode::Private, <u32 as Prim>::MAX, <u32 as Prim>::ONE);
}

#[test]
fn test_i32_constant_plus_constant() {
    run_test::<i32>(Mode::Constant, Mode::Constant, 32, 0, 0, 0);
    check_overflow_halts::<i32>(Mode::Constant, Mode::Constant, <i32 as Prim>::MAX, <i32 as Prim>::ONE);
}

#[test]
fn test_i32_constant_plus_public() {
    check_overflow_fails::<i32>(Mode::Constant, Mode::Public, <i32 as Prim>::MAX, <i32 as Prim>::ONE);
}

#[test]
fn test_i32_constant_plus_private() {
    check_overflow_fails::<i32>(Mode::Constant, Mode::Private, <i32 as Prim>::MAX, <i32 as Prim>::ONE);
}

#[test]
fn test_i32_public_plus_constant() {
    check_overflow_fails::<i32>(Mode::Public, Mode::Constant, <i32 as Prim>::MAX, <i32 as Prim>::ONE);
}

#[test]
fn test_i32_private_plus_constant() {
    check_overflow_fails::<i32>(Mode::Private, Mode::Constant, <i32 as Prim>::MAX, <i32 as Prim>::ONE);
}

#[test]
fn test_i32_public_plus_public() {
    run_test::<i32>(Mode::Public, Mode::Public, 1, 0, 158, 159);
    check_overflow_fails::<i32>(Mode::Public, Mode::Public, <i32 as Prim>::MAX, <i32 as Prim>::ONE);
}

#[test]
fn test_i32_public_plus_private() {
    run_test::<i32>(Mode::Public, Mode::Private, 1, 0, 158, 159);
    check_overflow_fails::<i32>(Mode::Public, Mode::Private, <i32 as Prim>::MAX, <i32 as Prim>::ONE);
}

#[test]
fn test_i32_private_plus_public() {
    run_test::<i32>(Mode::Private, Mode::Public, 1, 0, 158, 159);
    check_overflow_fails::<i32>(Mode::Private, Mode::Public, <i32 as Prim>::MAX, <i32 as Prim>::ONE);
}

#[test]
fn test_i32_private_plus_private() {
    run_test::<i32>(Mode::Private, Mode::Private, 1, 0, 158, 159);
    check_overflow_fails::<i32>(Mode::Private, Mode::Private, <i32 as Prim>::MAX, <i32 as Prim>::ONE);
}

#[test]
fn test_u64_constant_plus_constant() {
    run_test::<u64>(Mode::Constant, Mode::Constant, 64, 0, 0, 0);
    check_overflow_halts::<u64>(Mode::Constant, Mode::Constant, <u64 as Prim>::MAX, <u64 as Prim>::ONE);
}

#[test]
fn test_u64_constant_plus_public() {
    check_overflow_fails::<u64>(Mode::Constant, Mode::Public, <u64 as Prim>::MAX, <u64 as Prim>::ONE);
}

#[test]
fn test_u64_constant_plus_private() {
    check_overflow_fails::<u64>(Mode::Constant, Mode::Private, <u64 as Prim>::MAX, <u64 as Prim>::ONE);
}

#[test]
fn test_u64_public_plus_constant() {
    check_overflow_fails::<u64>(Mode::Public, Mode::Constant, <u64 as Prim>::MAX, <u64 as Prim>::ONE);
}

#[test]
fn test_u64_private_plus_constant() {
    check_overflow_fails::<u64>(Mode::Private, Mode::Constant, <u64 as Prim>::MAX, <u64 as Prim>::ONE);
}

#[test]
fn test_u64_public_plus_public() {
    run_test::<u64>(Mode::Public, Mode::Public, 1, 0, 317, 318);
    check_overflow_fails::<u64>(Mode::Public, Mode::Public, <u64 as Prim>::MAX, <u64 as Prim>::ONE);
}

#[test]
fn test_u64_public_plus_private() {
    run_test::<u64>(Mode::Public, Mode::Private, 1, 0, 317, 318);
    check_overflow_fails::<u64>(Mode::Public, Mode::Private, <u64 as Prim>::MAX, <u64 as Prim>::ONE);
}

#[test]
fn test_u64_private_plus_public() {
    run_test::<u64>(Mode::Private, Mode::Public, 1, 0, 317, 318);
    check_overflow_fails::<u64>(Mode::Private, Mode::Public, <u64 as Prim>::MAX, <u64 as Prim>::ONE);
}

#[test]
fn test_u64_private_plus_private() {
    run_test::<u64>(Mode::Private, Mode::Private, 1, 0, 317, 318);
    check_overflow_fails::<u64>(Mode::Private, Mode::Private, <u64 as Prim>::MAX, <u64 as Prim>::ONE);
}

#[test]
fn test_i64_constant_plus_constant() {
    run_test::<i64>(Mode::Constant, Mode::Constant, 64, 0, 0, 0);
    check_overflow_halts::<i64>(Mode::Constant, Mode::Constant, <i64 as Prim>::MAX, <i64 as Prim>::ONE);
}

#[test]
fn test_i64_constant_plus_public() {
    check_overflow_fails::<i64>(Mode::Constant, Mode::Public, <i64 as Prim>::MAX, <i64 as Prim>::ONE);
}

#[test]
fn test_i64_constant_plus_private() {
    check_overflow_fails::<i64>(Mode::Constant, Mode::Private, <i64 as Prim>::MAX, <i64 as Prim>::ONE);
}

#[test]
fn test_i64_public_plus_constant() {
    check_overflow_fails::<i64>(Mode::Public, Mode::Constant, <i64 as Prim>::MAX, <i64 as Prim>::ONE);
}

#[test]
fn test_i64_private_plus_constant() {
    check_overflow_fails::<i64>(Mode::Private, Mode::Constant, <i64 as Prim>::MAX, <i64 as Prim>::ONE);
}

#[test]
fn test_i64_public_plus_public() {
    run_test::<i64>(Mode::Public, Mode::Public, 1, 0, 318, 319);
    check_overflow_fails::<i64>(Mode::Public, Mode::Public, <i64 as Prim>::MAX, <i64 as Prim>::ONE);
}

#[test]
fn test_i64_public_plus_private() {
    run_test::<i64>(Mode::Public, Mode::Private, 1, 0, 318, 319);
    check_overflow_fails::<i64>(Mode::Public, Mode::Private, <i64 as Prim>::MAX, <i64 as Prim>::ONE);
}

#[test]
fn test_i64_private_plus_public() {
    run_test::<i64>(Mode::Private, Mode::Public, 1, 0, 318, 319);
    check_overflow_fails::<i64>(Mode::Private, Mode::Public, <i64 as Prim>::MAX, <i64 as Prim>::ONE);
}

#[test]
fn test_i64_private_plus_private() {
    run_test::<i64>(Mode::Private, Mode::Private, 1, 0, 318, 319);
    check_overflow_fails::<i64>(Mode::Private, Mode::Private, <i64 as Prim>::MAX, <i64 as Prim>::ONE);
}

#[test]
fn test_u128_constant_plus_constant() {
    run_test::<u128>(Mode::Constant, Mode::Constant, 128, 0, 0, 0);
    check_overflow_halts::<u128>(Mode::Constant, Mode::Constant, <u128 as Prim>::MAX, <u128 as Prim>::ONE);
}

#[test]
fn test_u128_constant_plus_public() {
    check_overflow_fails::<u128>(Mode::Constant, Mode::Public, <u128 as Prim>::MAX, <u128 as Prim>::ONE);
}

#[test]
fn test_u128_constant_plus_private() {
    check_overflow_fails::<u128>(Mode::Constant, Mode::Private, <u128 as Prim>::MAX, <u128 as Prim>::ONE);
}

#[test]
fn test_u128_public_plus_constant() {
    check_overflow_fails::<u128>(Mode::Public, Mode::Constant, <u128 as Prim>::MAX, <u128 as Prim>::ONE);
}

#[test]
fn test_u128_private_plus_constant() {
    check_overflow_fails::<u128>(Mode::Private, Mode::Constant, <u128 as Prim>::MAX, <u128 as Prim>::ONE);
}

#[test]
fn test_u128_public_plus_public() {
    run_test::<u128>(Mode::Public, Mode::Public, 1, 0, 637, 638);
    check_overflow_fails::<u128>(Mode::Public, Mode::Public, <u128 as Prim>::MAX, <u128 as Prim>::ONE);
}

#[test]
fn test_u128_public_plus_private() {
    run_test::<u128>(Mode::Public, Mode::Private, 1, 0, 637, 638);
    check_overflow_fails::<u128>(Mode::Public, Mode::Private, <u128 as Prim>::MAX, <u128 as Prim>::ONE);
}

#[test]
fn test_u128_private_plus_public() {
    run_test::<u128>(Mode::Private, Mode::Public, 1, 0, 637, 638);
    check_overflow_fails::<u128>(Mode::Private, Mode::Public, <u128 as Prim>::MAX, <u128 as Prim>::ONE);
}

#[test]
fn test_u128_private_plus_private() {
    run_test::<u128>(Mode::Private, Mode::Private, 1, 0, 637, 638);
    check_overflow_fails::<u128>(Mode::Private, Mode::Private, <u128 as Prim>::MAX, <u128 as Prim>::ONE);
}

#[test]
fn test_i128_constant_plus_constant() {
    run_test::<i128>(Mode::Constant, Mode::Constant, 128, 0, 0, 0);
    check_overflow_halts::<i128>(Mode::Constant, Mode::Constant, <i128 as Prim>::MAX, <i128 as Prim>::ONE);
}

#[test]
fn test_i128_constant_plus_public() {
    check_overflow_fails::<i128>(Mode::Constant, Mode::Public, <i128 as Prim>::MAX, <i128 as Prim>::ONE);
}

#[test]
fn test_i128_constant_plus_private() {
    check_overflow_fails::<i128>(Mode::Constant, Mode::Private, <i128 as Prim>::MAX, <i128 as Prim>::ONE);
}

#[test]
fn test_i128_public_plus_constant() {
    check_overflow_fails::<i128>(Mode::Public, Mode::Constant, <i128 as Prim>::MAX, <i128 as Prim>::ONE);
}

#[test]
fn test_i128_private_plus_constant() {
    check_overflow_fails::<i128>(Mode::Private, Mode::Constant, <i128 as Prim>::MAX, <i128 as Prim>::ONE);
}

#[test]
fn test_i128_public_plus_public() {
    run_test::<i128>(Mode::Public, Mode::Public, 1, 0, 638, 639);
    check_overflow_fails::<i128>(Mode::Public, Mode::Public, <i128 as Prim>::MAX, <i128 as Prim>::ONE);
}

#[test]
fn test_i128_public_plus_private() {
    run_test::<i128>(Mode::Public, Mode::Private, 1, 0, 638, 639);
    check_overflow_fails::<i128>(Mode::Public, Mode::Private, <i128 as Prim>::MAX, <i128 as Prim>::ONE);
}

#[test]
fn test_i128_private_plus_public() {
    run_test::<i128>(Mode::Private, Mode::Public, 1, 0, 638, 639);
    check_overflow_fails::<i128>(Mode::Private, Mode::Public, <i128 as Prim>::MAX, <i128 as Prim>::ONE);
}

#[test]
fn test_i128_private_plus_private() {
    run_test::<i128>(Mode::Private, Mode::Private, 1, 0, 638, 639);
    check_overflow_fails::<i128>(Mode::Private, Mode::Private, <i128 as Prim>::MAX, <i128 as Prim>::ONE);
}
