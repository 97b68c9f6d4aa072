//! Fixed-width circuit integers, held as little-endian circuit booleans.
use vstd::prelude::*;
use vstd::arithmetic::power2::*;
use vstd::arithmetic::div_mod::*;
use vstd::arithmetic::mul::*;
use crate::bits::{bit, bits_value, bits_to_u128, u128_to_bits, lemma_bits_value_push, lemma_bits_value_bound, lemma_bits_value_concat, lemma_bits_value_fill, lemma_bits_value_injective, lemma_pow2_128};
use crate::boolean::{Boolean, adder_cost, adder_spec, and_spec, gate_cost, lemma_gate_cost, lemma_witnessed_chain, witnessed_n, xor_spec};
use crate::circuit::{bump, bump_by, lemma_bump_by, Circuit};
use crate::mode::{eject_mode, joined_mode, Mode};
use crate::traits::Adder;

verus! {

/// The primitive integer types a circuit integer can stand for.
#[derive(Clone, Copy, Debug, PartialEq, Eq, Structural)]
pub enum IntegerType {
    U8,
    U16,
    U32,
    U64,
    U128,
    I8,
    I16,
    I32,
    I64,
    I128,
}

impl IntegerType {
    /// The number of bits of the type.
    pub open spec fn width(self) -> nat {
        match self {
            IntegerType::U8 | IntegerType::I8 => 8,
            IntegerType::U16 | IntegerType::I16 => 16,
            IntegerType::U32 | IntegerType::I32 => 32,
            IntegerType::U64 | IntegerType::I64 => 64,
            IntegerType::U128 | IntegerType::I128 => 128,
        }
    }

    /// Whether the type is signed (two's complement).
    pub open spec fn signed(self) -> bool {
        match self {
            IntegerType::I8 | IntegerType::I16 | IntegerType::I32 | IntegerType::I64 | IntegerType::I128 => true,
            _ => false,
        }
    }

    /// Returns the number of bits of the type.
    pub fn bits(&self) -> (n: usize)
        ensures
            n == self.width(),
    {
        match self {
            IntegerType::U8 | IntegerType::I8 => 8,
            IntegerType::U16 | IntegerType::I16 => 16,
            IntegerType::U32 | IntegerType::I32 => 32,
            IntegerType::U64 | IntegerType::I64 => 64,
            IntegerType::U128 | IntegerType::I128 => 128,
        }
    }

    /// Returns `true` if the type is signed.
    pub fn is_signed(&self) -> (b: bool)
        ensures
            b == self.signed(),
    {
        match self {
            IntegerType::I8 | IntegerType::I16 | IntegerType::I32 | IntegerType::I64 | IntegerType::I128 => true,
            _ => false,
        }
    }
}

/// The values of a sequence of circuit booleans.
pub open spec fn vals(s: Seq<(Mode, bool)>) -> Seq<bool> {
    Seq::new(s.len(), |i: int| s[i].1)
}

/// The integer a bit pattern denotes under a type: two's complement when signed.
pub open spec fn typed_value(ty: IntegerType, v: Seq<bool>) -> int {
    if ty.signed() && v.len() > 0 && v.last() {
        bits_value(v) - pow2(v.len())
    } else {
        bits_value(v) as int
    }
}

/// Whether `x` is representable in the type.
pub open spec fn in_range(ty: IntegerType, x: int) -> bool {
    if ty.signed() {
        -(pow2((ty.width() - 1) as nat) as int) <= x < pow2((ty.width() - 1) as nat)
    } else {
        0 <= x < pow2(ty.width())
    }
}

/// The environment after `k` variables of the given mode, each with its
/// booleanity constraint unless it is a constant.
pub open spec fn injected_n(mode: Mode, before: Circuit, after: Circuit, k: nat) -> bool {
    &&& after.constants() == (if mode == Mode::Constant { bump_by(before.constants(), k) } else { before.constants() })
    &&& after.publics() == (if mode == Mode::Public { bump_by(before.publics(), k) } else { before.publics() })
    &&& after.privates() == (if mode == Mode::Private { bump_by(before.privates(), k) } else { before.privates() })
    &&& after.constraints() == (if mode == Mode::Constant { before.constraints() } else { bump_by(before.constraints(), k) })
    &&& after.satisfied() == before.satisfied()
}

/// A circuit integer: one circuit boolean per bit, least significant first.
#[derive(Clone, Debug)]
pub struct Integer {
    ty: IntegerType,
    bits_le: Vec<Boolean>,
}

impl Integer {
    /// The primitive type the integer stands for.
    pub closed spec fn kind(&self) -> IntegerType {
        self.ty
    }

    /// The mode and value of each bit, least significant first.
    pub closed spec fn bits_view(&self) -> Seq<(Mode, bool)> {
        self.bits_le@.map_values(|b: Boolean| b@)
    }

    /// The integer has exactly one bit per bit of its type.
    pub open spec fn wf(&self) -> bool {
        self.bits_view().len() == self.kind().width()
    }

    /// The unsigned number of the bit pattern.
    pub open spec fn raw(&self) -> nat {
        bits_value(vals(self.bits_view()))
    }

    /// The integer the bits denote under the type.
    pub open spec fn value(&self) -> int {
        typed_value(self.kind(), vals(self.bits_view()))
    }

    /// Every bit is a constant.
    pub open spec fn all_constant(&self) -> bool {
        forall|i: int| 0 <= i < self.bits_view().len() ==> #[trigger] self.bits_view()[i].0 == Mode::Constant
    }

    /// Every bit has the given mode.
    pub open spec fn all_mode(&self, mode: Mode) -> bool {
        forall|i: int| 0 <= i < self.bits_view().len() ==> #[trigger] self.bits_view()[i].0 == mode
    }

    /// Allocates one boolean of the given mode per value, least significant first.
    fn from_values(ty: IntegerType, mode: Mode, values: &Vec<bool>, cs: &mut Circuit) -> (r: Integer)
        requires
            values@.len() == ty.width(),
        ensures
            r.wf(),
            r.kind() == ty,
            vals(r.bits_view()) == values@,
            r.all_mode(mode),
            injected_n(mode, *old(cs), *final(cs), ty.width()),
    {
        let n = ty.bits();
        let mut bits_le: Vec<Boolean> = Vec::new();
        let mut i: usize = 0;
        proof {
            lemma_bump_by(old(cs).constants(), 0, 0);
            lemma_bump_by(old(cs).publics(), 0, 0);
            lemma_bump_by(old(cs).privates(), 0, 0);
            lemma_bump_by(old(cs).constraints(), 0, 0);
        }
        while i < n
            invariant
                n == values@.len(),
                i <= n,
                bits_le@.len() == i,
                forall|j: int| 0 <= j < i ==> #[trigger] bits_le@[j]@ == (mode, values@[j]),
                injected_n(mode, *old(cs), *cs, i as nat),
            decreases n - i,
        {
            let ghost before = *cs;
            let b = Boolean::new(mode, values[i], cs);
            proof {
                lemma_bump_by(old(cs).constants(), i as nat, 1);
                lemma_bump_by(old(cs).publics(), i as nat, 1);
                lemma_bump_by(old(cs).privates(), i as nat, 1);
                lemma_bump_by(old(cs).constraints(), i as nat, 1);
                lemma_bump_by(before.constants(), 0, 0);
            }
            bits_le.push(b);
            i = i + 1;
        }
        let r = Integer { ty, bits_le };
        proof {
            assert(vals(r.bits_view()) =~= values@);
        }
        r
    }

    /// Initializes a new integer of the given type and mode from the bit
    /// pattern `raw` (two's complement for a signed type).
    pub fn new(ty: IntegerType, mode: Mode, raw: u128, cs: &mut Circuit) -> (r: Integer)
        requires
            raw < pow2(ty.width()),
        ensures
            r.wf(),
            r.kind() == ty,
            r.raw() == raw,
            r.all_mode(mode),
            injected_n(mode, *old(cs), *final(cs), ty.width()),
    {
        let values = u128_to_bits(raw, ty.bits());
        proof {
            lemma_small_mod(raw as nat, pow2(ty.width()));
        }
        Integer::from_values(ty, mode, &values, cs)
    }

    /// Wraps little-endian bits as an integer of the given type.
    pub fn from_bits(ty: IntegerType, bits_le: Vec<Boolean>) -> (r: Integer)
        requires
            bits_le@.len() == ty.width(),
        ensures
            r.wf(),
            r.kind() == ty,
            r.bits_view() == bits_le@.map_values(|b: Boolean| b@),
    {
        Integer { ty, bits_le }
    }

    /// Returns the primitive type of the integer.
    pub fn integer_type(&self) -> (t: IntegerType)
        ensures
            t == self.kind(),
    {
        self.ty
    }

    /// Returns the little-endian bits of the integer.
    pub fn bits_le(&self) -> (b: &Vec<Boolean>)
        ensures
            b@.map_values(|x: Boolean| x@) == self.bits_view(),
    {
        &self.bits_le
    }

    /// Returns `true` if every bit of the integer is a constant.
    pub fn is_constant(&self) -> (b: bool)
        ensures
            b == self.all_constant(),
    {
        let mut i: usize = 0;
        while i < self.bits_le.len()
            invariant
                i <= self.bits_le@.len(),
                self.bits_view().len() == self.bits_le@.len(),
                forall|j: int| 0 <= j < i ==> #[trigger] self.bits_view()[j].0 == Mode::Constant,
            decreases self.bits_le@.len() - i,
        {
            if !self.bits_le[i].is_constant() {
                assert(self.bits_view()[i as int].0 != Mode::Constant);
                return false;
            }
            i = i + 1;
        }
        true
    }

    /// Ejects the bit pattern of the integer as an unsigned number.
    pub fn eject_value(&self) -> (v: u128)
        requires
            self.wf(),
        ensures
            v == self.raw(),
    {
        let mut values: Vec<bool> = Vec::new();
        let mut i: usize = 0;
        while i < self.bits_le.len()
            invariant
                i <= self.bits_le@.len(),
                self.bits_view().len() == self.bits_le@.len(),
                values@ =~= vals(self.bits_view()).subrange(0, i as int),
            decreases self.bits_le@.len() - i,
        {
            values.push(self.bits_le[i].eject_value());
            i = i + 1;
        }
        proof {
            assert(values@ =~= vals(self.bits_view()));
        }
        bits_to_u128(values.as_slice())
    }

    /// Ejects the mode of the integer: the join of the modes of its bits.
    pub fn eject_mode(&self) -> (m: Mode)
        requires
            self.wf(),
        ensures
            m == joined_mode(Seq::new(self.bits_view().len(), |i: int| self.bits_view()[i].0)),
    {
        let mut modes: Vec<Mode> = Vec::new();
        let mut i: usize = 0;
        while i < self.bits_le.len()
            invariant
                i <= self.bits_le@.len(),
                self.bits_view().len() == self.bits_le@.len(),
                modes@ =~= Seq::new(self.bits_view().len(), |k: int| self.bits_view()[k].0).subrange(0, i as int),
            decreases self.bits_le@.len() - i,
        {
            modes.push(self.bits_le[i].eject_mode());
            i = i + 1;
        }
        proof {
            assert(modes@ =~= Seq::new(self.bits_view().len(), |k: int| self.bits_view()[k].0));
        }
        eject_mode(modes.as_slice())
    }
}


/// A ripple-carry adder over the first `n` bits: the sum bits, the carry out
/// of bit `n - 1`, and the carry into bit `n - 1`.
pub open spec fn ripple(a: Seq<(Mode, bool)>, b: Seq<(Mode, bool)>, n: nat) -> (Seq<(Mode, bool)>, (Mode, bool), (Mode, bool))
    decreases n,
{
    if n == 0 {
        (Seq::empty(), (Mode::Constant, false), (Mode::Constant, false))
    } else {
        let r = ripple(a, b, (n - 1) as nat);
        let sc = adder_spec(a[n - 1], b[n - 1], r.1);
        (r.0.push(sc.0), sc.1, r.1)
    }
}

/// The witnesses of a ripple-carry adder over the first `n` bits.
pub open spec fn ripple_cost(a: Seq<(Mode, bool)>, b: Seq<(Mode, bool)>, n: nat) -> nat
    decreases n,
{
    if n == 0 {
        0
    } else {
        ripple_cost(a, b, (n - 1) as nat) + adder_cost(a[n - 1], b[n - 1], ripple(a, b, (n - 1) as nat).1)
    }
}

/// The witnesses of the adder and, for a signed type, of the XOR of the two
/// most significant carries.
pub open spec fn add_cost(ty: IntegerType, a: Seq<(Mode, bool)>, b: Seq<(Mode, bool)>) -> nat {
    let r = ripple(a, b, ty.width());
    ripple_cost(a, b, ty.width()) + if ty.signed() { gate_cost(r.2, r.1) } else { 0 }
}

/// The overflow bit that checked addition asserts to be zero: the final carry
/// for an unsigned type, the XOR of the two most significant carries for a signed one.
pub open spec fn add_carry(ty: IntegerType, a: Seq<(Mode, bool)>, b: Seq<(Mode, bool)>) -> (Mode, bool) {
    let r = ripple(a, b, ty.width());
    if ty.signed() { xor_spec(r.2, r.1) } else { r.1 }
}

/// Every bit is a constant.
pub open spec fn all_const(s: Seq<(Mode, bool)>) -> bool {
    forall|i: int| 0 <= i < s.len() ==> #[trigger] s[i].0 == Mode::Constant
}

/// Checked addition halts on two constants whose sum is out of range.
pub open spec fn add_halts(ty: IntegerType, a: Seq<(Mode, bool)>, b: Seq<(Mode, bool)>) -> bool {
    all_const(a) && all_const(b) && !in_range(ty, typed_value(ty, vals(a)) + typed_value(ty, vals(b)))
}

/// The value facts of one full adder.
proof fn lemma_adder_values(a: (Mode, bool), b: (Mode, bool), c: (Mode, bool))
    ensures
        adder_spec(a, b, c).0.1 == ((a.1 != b.1) != c.1),
        adder_spec(a, b, c).1.1 == ((a.1 && b.1) || (c.1 && (a.1 != b.1))),
        (a.0 == Mode::Constant && b.0 == Mode::Constant && c.0 == Mode::Constant) ==> (
            adder_spec(a, b, c).0.0 == Mode::Constant && adder_spec(a, b, c).1.0 == Mode::Constant),
{
}

/// The ripple adder computes the sum of the first `n` bits, with its carry as bit `n`.
proof fn lemma_ripple_value(a: Seq<(Mode, bool)>, b: Seq<(Mode, bool)>, n: nat)
    requires
        n <= a.len(),
        n <= b.len(),
    ensures
        ripple(a, b, n).0.len() == n,
        bits_value(vals(ripple(a, b, n).0)) + bit(ripple(a, b, n).1.1) * pow2(n)
            == bits_value(vals(a).subrange(0, n as int)) + bits_value(vals(b).subrange(0, n as int)),
    decreases n,
{
    if n == 0 {
        lemma2_to64();
        assert(vals(ripple(a, b, 0).0) =~= Seq::<bool>::empty());
        assert(vals(a).subrange(0, 0) =~= Seq::<bool>::empty());
        assert(vals(b).subrange(0, 0) =~= Seq::<bool>::empty());
    } else {
        let m = (n - 1) as nat;
        let r = ripple(a, b, m);
        let sc = adder_spec(a[m as int], b[m as int], r.1);
        lemma_ripple_value(a, b, m);
        lemma_adder_values(a[m as int], b[m as int], r.1);
        assert(vals(r.0.push(sc.0)) =~= vals(r.0).push(sc.0.1));
        assert(vals(a).subrange(0, n as int) =~= vals(a).subrange(0, m as int).push(a[m as int].1));
        assert(vals(b).subrange(0, n as int) =~= vals(b).subrange(0, m as int).push(b[m as int].1));
        lemma_bits_value_push(vals(r.0), sc.0.1);
        lemma_bits_value_push(vals(a).subrange(0, m as int), a[m as int].1);
        lemma_bits_value_push(vals(b).subrange(0, m as int), b[m as int].1);
        lemma_pow2_unfold(n);
        let p = pow2(m) as int;
        let (bs, bc, ba, bb, bi) = (bit(sc.0.1) as int, bit(sc.1.1) as int, bit(a[m as int].1) as int, bit(b[m as int].1) as int, bit(r.1.1) as int);
        assert(bs + 2 * bc == ba + bb + bi);
        assert(bs * p + bc * (2 * p) == ba * p + bb * p + bi * p) by (nonlinear_arith)
            requires bs + 2 * bc == ba + bb + bi;
    }
}

/// A ripple over constants stays constant.
proof fn lemma_ripple_constant(a: Seq<(Mode, bool)>, b: Seq<(Mode, bool)>, n: nat)
    requires
        n <= a.len(),
        n <= b.len(),
        forall|i: int| 0 <= i < a.len() ==> #[trigger] a[i].0 == Mode::Constant,
        forall|i: int| 0 <= i < b.len() ==> #[trigger] b[i].0 == Mode::Constant,
    ensures
        ripple(a, b, n).1.0 == Mode::Constant,
        ripple(a, b, n).2.0 == Mode::Constant,
        forall|i: int| 0 <= i < ripple(a, b, n).0.len() ==> #[trigger] ripple(a, b, n).0[i].0 == Mode::Constant,
    decreases n,
{
    if n > 0 {
        let m = (n - 1) as nat;
        lemma_ripple_constant(a, b, m);
        lemma_adder_values(a[m as int], b[m as int], ripple(a, b, m).1);
        lemma_ripple_value(a, b, m);
    }
}

/// The number of a bit pattern splits at its most significant bit.
proof fn lemma_msb_split(v: Seq<bool>)
    requires
        v.len() > 0,
    ensures
        bits_value(v) == bits_value(v.subrange(0, v.len() - 1)) + bit(v.last()) * pow2((v.len() - 1) as nat),
        bits_value(v.subrange(0, v.len() - 1)) < pow2((v.len() - 1) as nat),
{
    assert(v.drop_last() =~= v.subrange(0, v.len() - 1));
    lemma_bits_value_bound(v.subrange(0, v.len() - 1));
}

/// What checked addition computes: the sum modulo `2^w`, an overflow bit that
/// is set exactly when the sum is out of range, and the sum itself otherwise.
pub proof fn lemma_add_value(ty: IntegerType, a: Seq<(Mode, bool)>, b: Seq<(Mode, bool)>)
    requires
        a.len() == ty.width(),
        b.len() == ty.width(),
    ensures
        ripple(a, b, ty.width()).0.len() == ty.width(),
        bits_value(vals(ripple(a, b, ty.width()).0)) == (bits_value(vals(a)) + bits_value(vals(b))) % pow2(ty.width()),
        add_carry(ty, a, b).1 == !in_range(ty, typed_value(ty, vals(a)) + typed_value(ty, vals(b))),
        in_range(ty, typed_value(ty, vals(a)) + typed_value(ty, vals(b))) ==>
            typed_value(ty, vals(ripple(a, b, ty.width()).0)) == typed_value(ty, vals(a)) + typed_value(ty, vals(b)),
{
    let w = ty.width();
    let m = (w - 1) as nat;
    let r = ripple(a, b, w);
    let rm = ripple(a, b, m);
    lemma_ripple_value(a, b, w);
    lemma_ripple_value(a, b, m);
    lemma_adder_values(a[m as int], b[m as int], rm.1);
    assert(vals(a).subrange(0, w as int) =~= vals(a));
    assert(vals(b).subrange(0, w as int) =~= vals(b));
    let sv = vals(r.0);
    assert(sv.len() == w);
    lemma_bits_value_bound(sv);
    lemma_pow2_pos(w);
    lemma_pow2_unfold(w);
    let q = pow2(w) as int;
    let p = pow2(m) as int;
    let sa = bits_value(vals(a)) as int;
    let sb = bits_value(vals(b)) as int;
    let ss = bits_value(sv) as int;
    let co = bit(r.1.1) as int;
    assert(ss + co * q == sa + sb);
    lemma_fundamental_div_mod_converse(sa + sb, q, co, ss);
    // split every pattern at its most significant bit
    lemma_msb_split(vals(a));
    lemma_msb_split(vals(b));
    lemma_msb_split(sv);
    assert(vals(a).subrange(0, m as int) =~= vals(a).subrange(0, w - 1));
    assert(sv.subrange(0, w - 1) =~= vals(rm.0));
    assert(sv.last() == r.0[m as int].1);
    let am = bit(vals(a).last()) as int;
    let bm = bit(vals(b).last()) as int;
    let sm = bit(sv.last()) as int;
    let ci = bit(rm.1.1) as int;
    let la = bits_value(vals(a).subrange(0, m as int)) as int;
    let lb = bits_value(vals(b).subrange(0, m as int)) as int;
    let ls = bits_value(vals(rm.0)) as int;
    assert(ls + ci * p == la + lb);
    assert(sm + 2 * co == am + bm + ci);
    assert(q == 2 * p);
    assert(sa == la + am * p);
    assert(sb == lb + bm * p);
    assert(ss == ls + sm * p);
    assert(0 <= ls < p);
    if ty.signed() {
        assert(am * q == 2 * (am * p)) by (nonlinear_arith) requires q == 2 * p;
        assert(bm * q == 2 * (bm * p)) by (nonlinear_arith) requires q == 2 * p;
        assert(sm * q == 2 * (sm * p)) by (nonlinear_arith) requires q == 2 * p;
        assert(sm * p + co * (2 * p) == am * p + bm * p + ci * p) by (nonlinear_arith)
            requires sm + 2 * co == am + bm + ci;
        let va = typed_value(ty, vals(a));
        let vb = typed_value(ty, vals(b));
        let vs = typed_value(ty, sv);
        assert(va == sa - am * q);
        assert(vb == sb - bm * q);
        assert(vs == ss - sm * q);
        assert(va + vb == vs + (ci - co) * q) by (nonlinear_arith)
            requires
                va == la + am * p - am * q,
                vb == lb + bm * p - bm * q,
                vs == ls + sm * p - sm * q,
                ls + ci * p == la + lb,
                sm * p + co * (2 * p) == am * p + bm * p + ci * p,
                q == 2 * p;
        assert(-p <= vs < p);
        if ci == co {
            assert(va + vb == vs) by (nonlinear_arith) requires va + vb == vs + (ci - co) * q, ci == co;
        } else if ci == 1 {
            assert(va + vb == vs + q) by (nonlinear_arith) requires va + vb == vs + (ci - co) * q, ci == 1, co == 0;
        } else {
            assert(va + vb == vs - q) by (nonlinear_arith) requires va + vb == vs + (ci - co) * q, ci == 0, co == 1;
        }
    } else {
        if co == 1 {
            assert(sa + sb >= q);
        }
    }
}

/// When both operands are constants, the overflow bit is a constant, set exactly when the sum
/// is out of range.
pub proof fn lemma_carry_of_constants(ty: IntegerType, a: Seq<(Mode, bool)>, b: Seq<(Mode, bool)>)
    requires
        a.len() == ty.width(),
        b.len() == ty.width(),
        forall|i: int| 0 <= i < a.len() ==> #[trigger] a[i].0 == Mode::Constant,
        forall|i: int| 0 <= i < b.len() ==> #[trigger] b[i].0 == Mode::Constant,
    ensures
        add_carry(ty, a, b).0 == Mode::Constant,
        add_carry(ty, a, b).1 == !in_range(ty, typed_value(ty, vals(a)) + typed_value(ty, vals(b))),
        forall|i: int| 0 <= i < ripple(a, b, ty.width()).0.len() ==> #[trigger] ripple(a, b, ty.width()).0[i].0 == Mode::Constant,
{
    lemma_add_value(ty, a, b);
    lemma_ripple_constant(a, b, ty.width());
}

impl Integer {
    /// Runs a ripple-carry adder over the bits and returns the sum bits with
    /// the overflow bit: the final carry for an unsigned type, the XOR of the
    /// two most significant carries for a signed one.
    fn ripple_add(&self, other: &Integer, cs: &mut Circuit) -> (r: (Vec<Boolean>, Boolean))
        requires
            self.wf(),
            other.wf(),
            self.kind() == other.kind(),
        ensures
            r.0@.map_values(|x: Boolean| x@) == ripple(self.bits_view(), other.bits_view(), self.kind().width()).0,
            r.1@ == add_carry(self.kind(), self.bits_view(), other.bits_view()),
            final(cs).constants() == bump(old(cs).constants()),
            final(cs).publics() == old(cs).publics(),
            final(cs).privates() == bump_by(old(cs).privates(), add_cost(self.kind(), self.bits_view(), other.bits_view())),
            final(cs).constraints() == bump_by(old(cs).constraints(), add_cost(self.kind(), self.bits_view(), other.bits_view())),
            final(cs).satisfied() == old(cs).satisfied(),
    {
        let ghost a = self.bits_view();
        let ghost b = other.bits_view();
        let w = self.ty.bits();
        let signed = self.ty.is_signed();
        let mut bits_le: Vec<Boolean> = Vec::new();
        let mut carry = Boolean::new(Mode::Constant, false, cs);
        let ghost start = *cs;
        proof {
            lemma_bump_by(start.privates(), 0, 0);
            lemma_bump_by(start.constraints(), 0, 0);
        }
        let mut prev = carry;
        let mut index: usize = 0;
        while index < w
            invariant
                w == self.kind().width(),
                a == self.bits_view(),
                b == other.bits_view(),
                a.len() == w,
                b.len() == w,
                self.bits_le@.len() == w,
                other.bits_le@.len() == w,
                index <= w,
                bits_le@.map_values(|x: Boolean| x@) =~= ripple(a, b, index as nat).0,
                carry@ == ripple(a, b, index as nat).1,
                prev@ == ripple(a, b, index as nat).2,
                witnessed_n(start, *cs, ripple_cost(a, b, index as nat)),
            decreases w - index,
        {
            let ghost before = *cs;
            let (sum, next) = self.bits_le[index].adder(&other.bits_le[index], &carry, cs);
            proof {
                assert(self.bits_le@[index as int]@ == a[index as int]);
                assert(other.bits_le@[index as int]@ == b[index as int]);
                lemma_witnessed_chain(start, before, *cs, ripple_cost(a, b, index as nat), adder_cost(a[index as int], b[index as int], carry@));
            }
            bits_le.push(sum);
            prev = carry;
            carry = next;
            index = index + 1;
        }
        let ghost before = *cs;
        let overflow = if signed { prev.xor(&carry, cs) } else { carry };
        proof {
            if signed {
                lemma_gate_cost(prev@, carry@, before, *cs);
            } else {
                lemma_bump_by(before.privates(), 0, 0);
                lemma_bump_by(before.constraints(), 0, 0);
            }
            lemma_witnessed_chain(start, before, *cs, ripple_cost(a, b, w as nat), if signed { gate_cost(prev@, carry@) } else { 0 });
        }
        (bits_le, overflow)
    }

    /// Returns `true` where checked addition of the two integers halts: both
    /// are constants and their sum is out of range.
    pub fn add_halts(&self, other: &Integer) -> (b: bool)
        requires
            self.wf(),
            other.wf(),
            self.kind() == other.kind(),
        ensures
            b == add_halts(self.kind(), self.bits_view(), other.bits_view()),
    {
        if self.is_constant() && other.is_constant() {
            let mut scratch = Circuit::new();
            let (_, overflow) = self.ripple_add(other, &mut scratch);
            proof {
                lemma_carry_of_constants(self.ty, self.bits_view(), other.bits_view());
            }
            overflow.eject_value()
        } else {
            false
        }
    }

    /// Adds two integers of the same type as `add_checked` does, or returns
    /// `None`, with the environment unchanged, where that addition halts.
    pub fn try_add_checked(&self, other: &Integer, cs: &mut Circuit) -> (r: Option<Integer>)
        requires
            self.wf(),
            other.wf(),
            self.kind() == other.kind(),
        ensures
            r is None <==> add_halts(self.kind(), self.bits_view(), other.bits_view()),
            r is None ==> *final(cs) == *old(cs),
            r matches Some(x) ==> {
                &&& x.wf()
                &&& x.kind() == self.kind()
                &&& x.raw() == (self.raw() + other.raw()) % pow2(self.kind().width())
                &&& in_range(self.kind(), self.value() + other.value()) ==> x.value() == self.value() + other.value()
                &&& final(cs).satisfied() == (old(cs).satisfied() && (in_range(self.kind(), self.value() + other.value())
                    || add_carry(self.kind(), self.bits_view(), other.bits_view()).0 == Mode::Constant))
                &&& (self.all_constant() && other.all_constant()) ==> injected_n(Mode::Constant, *old(cs), *final(cs), self.kind().width())
                &&& !(self.all_constant() && other.all_constant()) ==> {
                    &&& final(cs).constants() == bump(old(cs).constants())
                    &&& final(cs).publics() == old(cs).publics()
                    &&& final(cs).privates() == bump_by(old(cs).privates(), add_cost(self.kind(), self.bits_view(), other.bits_view()))
                    &&& final(cs).constraints() == bump_by(
                        old(cs).constraints(),
                        add_cost(self.kind(), self.bits_view(), other.bits_view())
                            + if add_carry(self.kind(), self.bits_view(), other.bits_view()).0 == Mode::Constant { 0nat } else { 1nat },
                    )
                }
            },
    {
        if self.add_halts(other) {
            None
        } else {
            Some(self.add_checked(other, cs))
        }
    }

    /// Adds two integers of the same type, enforcing that the sum does not overflow.
    ///
    /// For two constants an overflow halts; otherwise the bits of a ripple-carry
    /// adder are returned and the environment records whether the overflow bit
    /// is zero (a constraint over a constant overflow bit is not recorded).
    pub fn add_checked(&self, other: &Integer, cs: &mut Circuit) -> (r: Integer)
        requires
            self.wf(),
            other.wf(),
            self.kind() == other.kind(),
            !add_halts(self.kind(), self.bits_view(), other.bits_view()),
        ensures
            r.wf(),
            r.kind() == self.kind(),
            !(self.all_constant() && other.all_constant()) ==> r.bits_view() == ripple(
                self.bits_view(),
                other.bits_view(),
                self.kind().width(),
            ).0,
            r.raw() == (self.raw() + other.raw()) % pow2(self.kind().width()),
            in_range(self.kind(), self.value() + other.value()) ==> r.value() == self.value() + other.value(),
            final(cs).satisfied() == (old(cs).satisfied() && (in_range(self.kind(), self.value() + other.value())
                || add_carry(self.kind(), self.bits_view(), other.bits_view()).0 == Mode::Constant)),
            (self.all_constant() && other.all_constant()) ==> (r.all_constant() && in_range(self.kind(), self.value() + other.value())),
            (self.all_constant() && other.all_constant()) ==> injected_n(Mode::Constant, *old(cs), *final(cs), self.kind().width()),
            !(self.all_constant() && other.all_constant()) ==> {
                &&& final(cs).constants() == bump(old(cs).constants())
                &&& final(cs).publics() == old(cs).publics()
                &&& final(cs).privates() == bump_by(old(cs).privates(), add_cost(self.kind(), self.bits_view(), other.bits_view()))
                &&& final(cs).constraints() == bump_by(
                    old(cs).constraints(),
                    add_cost(self.kind(), self.bits_view(), other.bits_view())
                        + if add_carry(self.kind(), self.bits_view(), other.bits_view()).0 == Mode::Constant { 0nat } else { 1nat },
                )
            },
    {
        if self.is_constant() && other.is_constant() {
            // Two constants: add the values and inject the sum as a constant.
            let x = self.eject_value();
            let y = other.eject_value();
            let sum = x.wrapping_add(y);
            let values = u128_to_bits(sum, self.ty.bits());
            let r = Integer::from_values(self.ty, Mode::Constant, &values, cs);
            proof {
                let w = self.kind().width();
                lemma_pow2_128();
                lemma_pow2_pos(w);
                lemma_pow2_adds(w, (128 - w) as nat);
                lemma_pow2_pos((128 - w) as nat);
                lemma_mod_mod((x + y) as int, pow2(w) as int, pow2((128 - w) as nat) as int);
                lemma_carry_of_constants(self.ty, self.bits_view(), other.bits_view());
                lemma_add_value(self.ty, self.bits_view(), other.bits_view());
                assert(r.raw() == bits_value(values@));
                assert(r.value() == typed_value(self.ty, values@));
                lemma_bits_value_injective(values@, vals(ripple(self.bits_view(), other.bits_view(), w).0));
            }
            return r;
        }
        let ghost a = self.bits_view();
        let ghost b = other.bits_view();
        let (bits_le, overflow) = self.ripple_add(other, cs);
        let ghost mut mid = *cs;
        // Ensure the overflow bit is zero.
        cs.enforce(overflow.is_constant(), !overflow.eject_value());
        proof {
            let k = add_cost(self.kind(), a, b);
            lemma_bump_by(old(cs).constraints(), k, 1);
            lemma_bump_by(old(cs).constraints(), k, 0);
            lemma_bump_by(mid.constraints(), 0, 0);
            lemma_ripple_value(a, b, self.kind().width());
            assert(bits_le@.len() == bits_le@.map_values(|x: Boolean| x@).len());
        }
        let r = Integer::from_bits(self.ty, bits_le);
        proof {
            lemma_add_value(self.ty, a, b);
            assert(overflow@ == add_carry(self.ty, a, b));
        }
        r
    }
}


/// The bits of `v` shifted right by `s` places, filled from the top with the
/// sign bit for a signed type and with zeros otherwise.
pub open spec fn shifted_vals(ty: IntegerType, v: Seq<bool>, s: nat) -> Seq<bool> {
    Seq::new(v.len(), |i: int| if i + s < v.len() { v[i + s] } else { ty.signed() && v.last() })
}

/// A bit pattern denotes zero exactly when every bit is clear.
proof fn lemma_bits_value_zero(v: Seq<bool>)
    ensures
        (bits_value(v) == 0) == (forall|j: int| 0 <= j < v.len() ==> !#[trigger] v[j]),
    decreases v.len(),
{
    if v.len() > 0 {
        lemma_bits_value_zero(v.drop_last());
        lemma_pow2_pos((v.len() - 1) as nat);
        if bits_value(v) == 0 {
            assert forall|j: int| 0 <= j < v.len() implies !#[trigger] v[j] by {
                if j < v.len() - 1 {
                    assert(v.drop_last()[j] == v[j]);
                }
            }
        }
        if forall|j: int| 0 <= j < v.len() ==> !#[trigger] v[j] {
            assert forall|j: int| 0 <= j < v.drop_last().len() implies !#[trigger] v.drop_last()[j] by {
                assert(v.drop_last()[j] == v[j]);
            }
        }
    }
}

/// A bit pattern is below `2^k` exactly when no bit at or above `k` is set.
pub proof fn lemma_bits_value_below(v: Seq<bool>, k: nat)
    requires
        k <= v.len(),
    ensures
        (bits_value(v) < pow2(k)) == (forall|j: int| k <= j < v.len() ==> !#[trigger] v[j]),
{
    let low = v.subrange(0, k as int);
    let high = v.subrange(k as int, v.len() as int);
    assert(v =~= low + high);
    lemma_bits_value_concat(low, high);
    lemma_bits_value_bound(low);
    lemma_bits_value_zero(high);
    lemma_pow2_pos(k);
    if bits_value(high) > 0 {
        assert(pow2(k) * bits_value(high) >= pow2(k)) by (nonlinear_arith)
            requires bits_value(high) > 0, pow2(k) > 0;
    } else {
        assert(pow2(k) * bits_value(high) == 0) by (nonlinear_arith) requires bits_value(high) == 0;
    }
    assert forall|j: int| k <= j < v.len() implies (v[j] == high[j - k]) by {}
    if forall|j: int| k <= j < v.len() ==> !#[trigger] v[j] {
        assert forall|j: int| 0 <= j < high.len() implies !#[trigger] high[j] by {
            assert(v[j + k] == high[j]);
        }
    }
}

/// Shifting right by `s` divides the typed value by `2^s`, rounding down.
pub proof fn lemma_shift_value(ty: IntegerType, v: Seq<bool>, s: nat)
    requires
        v.len() == ty.width(),
        s < ty.width(),
    ensures
        typed_value(ty, shifted_vals(ty, v, s)) == typed_value(ty, v) / (pow2(s) as int),
{
    let w = v.len();
    let low = v.subrange(0, s as int);
    let high = v.subrange(s as int, w as int);
    let fill = ty.signed() && v.last();
    let f = Seq::new(s, |i: int| fill);
    let sh = shifted_vals(ty, v, s);
    assert(v =~= low + high);
    assert(sh =~= high + f);
    lemma_bits_value_concat(low, high);
    lemma_bits_value_concat(high, f);
    lemma_bits_value_fill(fill, s);
    lemma_bits_value_bound(low);
    lemma_pow2_pos(s);
    lemma_pow2_adds((w - s) as nat, s);
    let ps = pow2(s) as int;
    let pr = pow2((w - s) as nat) as int;
    let pw = pow2(w) as int;
    let vl = bits_value(low) as int;
    let vh = bits_value(high) as int;
    assert(bits_value(v) == vl + ps * vh);
    assert(sh.len() == w);
    assert(sh.last() == if s > 0 { fill } else { v.last() });
    if fill {
        assert(bits_value(sh) == vh + pr * (ps - 1));
        assert(pr * (ps - 1) == pw - pr) by (nonlinear_arith) requires pr * ps == pw;
        assert(typed_value(ty, sh) == vh - pr);
        assert(typed_value(ty, v) == vl + ps * vh - pw);
        assert(vl + ps * vh - pw == (vh - pr) * ps + vl) by (nonlinear_arith) requires pr * ps == pw;
        lemma_fundamental_div_mod_converse(typed_value(ty, v), ps, vh - pr, vl);
    } else {
        assert(pr * 0 == 0) by (nonlinear_arith);
        assert(bits_value(sh) == vh);
        assert(typed_value(ty, sh) == vh);
        assert(typed_value(ty, v) == vl + ps * vh);
        assert(vl + ps * vh == vh * ps + vl) by (nonlinear_arith);
        lemma_fundamental_div_mod_converse(typed_value(ty, v), ps, vh, vl);
    }
}

/// The shift amount types: `u8`, `u16` and `u32`.
pub open spec fn is_magnitude(ty: IntegerType) -> bool {
    ty == IntegerType::U8 || ty == IntegerType::U16 || ty == IntegerType::U32
}

/// The number of low bits of a shift amount that a type of width `w` reads: `log2(w)`.
pub open spec fn shift_index(ty: IntegerType) -> nat {
    match ty {
        IntegerType::U8 | IntegerType::I8 => 3,
        IntegerType::U16 | IntegerType::I16 => 4,
        IntegerType::U32 | IntegerType::I32 => 5,
        IntegerType::U64 | IntegerType::I64 => 6,
        IntegerType::U128 | IntegerType::I128 => 7,
    }
}

/// Checked shift right halts on a variable operand when an upper bit of the
/// amount is the constant `true`.
pub open spec fn shr_halts(ty: IntegerType, rhs: Seq<(Mode, bool)>) -> bool {
    exists|j: int| shift_index(ty) <= j < rhs.len() && #[trigger] rhs[j].0 == Mode::Constant && rhs[j].1
}

/// The number of variable bits of `s` at positions `k` up to `j`.
pub open spec fn variable_bits(s: Seq<(Mode, bool)>, k: int, j: int) -> nat
    decreases j - k,
{
    if j <= k {
        0
    } else {
        variable_bits(s, k, j - 1) + if s[j - 1].0 != Mode::Constant {
            1nat
        } else {
            0nat
        }
    }
}

/// The mode of a product or shift: constant only from two constants.
pub open spec fn result_mode(a: Integer, b: Integer) -> Mode {
    if a.all_constant() && b.all_constant() { Mode::Constant } else { Mode::Private }
}

impl Integer {
    /// Returns `log2` of the width of the type.
    fn shift_index(&self) -> (k: usize)
        ensures
            k == shift_index(self.kind()),
            pow2(k as nat) == self.kind().width(),
    {
        proof {
            lemma2_to64();
        }
        match self.ty {
            IntegerType::U8 | IntegerType::I8 => 3,
            IntegerType::U16 | IntegerType::I16 => 4,
            IntegerType::U32 | IntegerType::I32 => 5,
            IntegerType::U64 | IntegerType::I64 => 6,
            IntegerType::U128 | IntegerType::I128 => 7,
        }
    }

    /// Multiplies two integers of the same type, wrapping around at the width.
    ///
    /// The product's bits are allocated in its mode: `w` constants for two
    /// constants, otherwise `w` private booleans, each with its booleanity
    /// constraint.
    pub fn mul_wrapped(&self, other: &Integer, cs: &mut Circuit) -> (r: Integer)
        requires
            self.wf(),
            other.wf(),
            self.kind() == other.kind(),
        ensures
            r.wf(),
            r.kind() == self.kind(),
            r.raw() == (self.raw() * other.raw()) % pow2(self.kind().width()),
            r.all_mode(result_mode(*self, *other)),
            injected_n(result_mode(*self, *other), *old(cs), *final(cs), self.kind().width()),
    {
        let mode = if self.is_constant() && other.is_constant() { Mode::Constant } else { Mode::Private };
        let x = self.eject_value();
        let y = other.eject_value();
        let product = x.wrapping_mul(y);
        let values = u128_to_bits(product, self.ty.bits());
        let r = Integer::from_values(self.ty, mode, &values, cs);
        proof {
            let w = self.kind().width();
            lemma_pow2_128();
            lemma_pow2_pos(w);
            lemma_pow2_adds(w, (128 - w) as nat);
            lemma_pow2_pos((128 - w) as nat);
            lemma_mod_mod((x * y) as int, pow2(w) as int, pow2((128 - w) as nat) as int);
        }
        r
    }

    /// Returns `true` where the checked shift of `self` by `rhs` halts: for
    /// two constants, an amount at or above the width; otherwise an upper bit
    /// of the amount that is the constant `true`.
    pub fn shr_halts(&self, rhs: &Integer) -> (b: bool)
        requires
            self.wf(),
            rhs.wf(),
            is_magnitude(rhs.kind()),
        ensures
            b == (if self.all_constant() && rhs.all_constant() {
                rhs.raw() >= self.kind().width()
            } else {
                shr_halts(self.kind(), rhs.bits_view())
            }),
    {
        if self.is_constant() && rhs.is_constant() {
            let w = self.ty.bits();
            let amount = rhs.eject_value();
            amount >= w as u128
        } else {
            let k = self.shift_index();
            let ghost rv = rhs.bits_view();
            let mut j: usize = k;
            while j < rhs.bits_le.len()
                invariant
                    rv == rhs.bits_view(),
                    rv.len() == rhs.bits_le@.len(),
                    k == shift_index(self.kind()),
                    k <= j <= rhs.bits_le@.len(),
                    !(self.all_constant() && rhs.all_constant()),
                    forall|t: int| k <= t < j ==> !(#[trigger] rv[t].0 == Mode::Constant && rv[t].1),
                decreases rhs.bits_le@.len() - j,
            {
                let b = rhs.bits_le[j];
                proof {
                    assert(b@ == rv[j as int]);
                }
                if b.is_constant() && b.eject_value() {
                    proof {
                        assert(shift_index(self.kind()) <= j < rv.len() && rv[j as int].0 == Mode::Constant && rv[j as int].1);
                    }
                    return true;
                }
                j = j + 1;
            }
            false
        }
    }

    /// Shifts right as `shr_checked` does, or returns `None`, with the
    /// environment unchanged, where that shift halts.
    pub fn try_shr_checked(&self, rhs: &Integer, cs: &mut Circuit) -> (r: Option<Integer>)
        requires
            self.wf(),
            rhs.wf(),
            is_magnitude(rhs.kind()),
        ensures
            r is None <==> (if self.all_constant() && rhs.all_constant() {
                rhs.raw() >= self.kind().width()
            } else {
                shr_halts(self.kind(), rhs.bits_view())
            }),
            r is None ==> *final(cs) == *old(cs),
            r matches Some(x) ==> {
                &&& x.wf()
                &&& x.kind() == self.kind()
                &&& x.value() == self.value() / (pow2(rhs.raw() % self.kind().width()) as int)
                &&& x.all_mode(result_mode(*self, *rhs))
            },
    {
        if self.shr_halts(rhs) {
            None
        } else {
            Some(self.shr_checked(rhs, cs))
        }
    }

    /// Shifts right by `rhs`, enforcing that `rhs` is below the width.
    ///
    /// For two constants an out-of-range amount halts; otherwise the upper
    /// bits of the amount are asserted to be zero and the shift wraps the
    /// amount modulo the width.
    pub fn shr_checked(&self, rhs: &Integer, cs: &mut Circuit) -> (r: Integer)
        requires
            self.wf(),
            rhs.wf(),
            is_magnitude(rhs.kind()),
            (self.all_constant() && rhs.all_constant()) ==> rhs.raw() < self.kind().width(),
            !(self.all_constant() && rhs.all_constant()) ==> !shr_halts(self.kind(), rhs.bits_view()),
        ensures
            r.wf(),
            r.kind() == self.kind(),
            vals(r.bits_view()) == shifted_vals(self.kind(), vals(self.bits_view()), rhs.raw() % self.kind().width()),
            r.value() == self.value() / (pow2(rhs.raw() % self.kind().width()) as int),
            r.all_mode(result_mode(*self, *rhs)),
            (self.all_constant() && rhs.all_constant()) ==> final(cs).satisfied() == old(cs).satisfied(),
            !(self.all_constant() && rhs.all_constant()) ==>
                final(cs).satisfied() == (old(cs).satisfied() && rhs.raw() < self.kind().width()),
            (self.all_constant() && rhs.all_constant()) ==> injected_n(
                Mode::Constant,
                *old(cs),
                *final(cs),
                self.kind().width(),
            ),
            !(self.all_constant() && rhs.all_constant()) ==> {
                let c = variable_bits(rhs.bits_view(), shift_index(self.kind()) as int, rhs.bits_view().len() as int);
                &&& final(cs).constants() == old(cs).constants()
                &&& final(cs).publics() == old(cs).publics()
                &&& final(cs).privates() == bump_by(old(cs).privates(), 1 + c + self.kind().width())
                &&& final(cs).constraints() == bump_by(old(cs).constraints(), 2 + c + self.kind().width())
            },
    {
        let both_constant = self.is_constant() && rhs.is_constant();
        let w = self.ty.bits();
        let k = self.shift_index();
        proof {
            lemma_bits_value_below(vals(rhs.bits_view()), k as nat);
        }
        let ghost start = *cs;
        let ghost mut mid = *cs;
        let ghost mut folded = *cs;
        if !both_constant {
            // Fold the upper bits of the amount, starting from a private `false`.
            let mut upper = Boolean::new(Mode::Private, false, cs);
            proof {
                mid = *cs;
                lemma_bump_by(mid.privates(), 0, 0);
                lemma_bump_by(mid.constraints(), 0, 0);
            }
            let mut j: usize = k;
            let ghost rv = rhs.bits_view();
            while j < rhs.bits_le.len()
                invariant
                    witnessed_n(mid, *cs, variable_bits(rv, k as int, j as int)),
                    rv == rhs.bits_view(),
                    rv.len() == rhs.bits_le@.len(),
                    k <= j <= rhs.bits_le@.len(),
                    !(self.all_constant() && rhs.all_constant()) ==> !shr_halts(self.kind(), rv),
                    !both_constant,
                    both_constant == (self.all_constant() && rhs.all_constant()),
                    k == shift_index(self.kind()),
                    upper@.0 != Mode::Constant,
                    upper@.1 == (exists|t: int| k <= t < j && #[trigger] rv[t].1),
                    cs.satisfied() == old(cs).satisfied(),
                decreases rhs.bits_le@.len() - j,
            {
                let b = rhs.bits_le[j];
                proof {
                    assert(b@ == rv[j as int]);
                    if b@.0 == Mode::Constant {
                        assert(!(shift_index(self.kind()) <= j < rv.len() && rv[j as int].0 == Mode::Constant && rv[j as int].1));
                        assert(!b@.1);
                    }
                }
                let ghost u0 = upper@;
                let ghost before = *cs;
                upper = upper.or(&b, cs);
                proof {
                    lemma_gate_cost(u0, b@, before, *cs);
                    lemma_witnessed_chain(mid, before, *cs, variable_bits(rv, k as int, j as int), gate_cost(u0, b@));
                    assert(variable_bits(rv, k as int, j + 1) == variable_bits(rv, k as int, j as int) + gate_cost(u0, b@));
                    if upper@.1 {
                        if !b@.1 {
                            let t = choose|t: int| k <= t < j && #[trigger] rv[t].1;
                            assert(k <= t < j + 1 && rv[t].1);
                        } else {
                            assert(k <= j < j + 1 && rv[j as int].1);
                        }
                    }
                    if exists|t: int| k <= t < j + 1 && #[trigger] rv[t].1 {
                        let t = choose|t: int| k <= t < j + 1 && #[trigger] rv[t].1;
                        if t < j {
                            assert(k <= t < j && rv[t].1);
                        }
                    }
                }
                j = j + 1;
            }
            // Enforce that the upper bits of the amount are zero.
            cs.enforce(upper.is_constant(), !upper.eject_value());
            proof {
                folded = *cs;
                let v = vals(rv);
                assert(upper@.1 == !(forall|t: int| k <= t < v.len() ==> !#[trigger] v[t])) by {
                    if upper@.1 {
                        let t = choose|t: int| k <= t < rv.len() && #[trigger] rv[t].1;
                        assert(v[t]);
                    } else {
                        assert forall|t: int| k <= t < v.len() implies !#[trigger] v[t] by {
                            assert(!(k <= t < rv.len() && rv[t].1));
                        }
                    }
                }
            }
        }
        let amount = rhs.eject_value();
        let s = (amount % (w as u128)) as usize;
        let mut values: Vec<bool> = Vec::new();
        let ghost sv = vals(self.bits_view());
        let fill = self.ty.is_signed() && self.bits_le[w - 1].eject_value();
        let mut i: usize = 0;
        while i < w
            invariant
                w == self.kind().width(),
                sv == vals(self.bits_view()),
                sv.len() == w,
                self.bits_le@.len() == w,
                s < w,
                fill == (self.kind().signed() && sv.last()),
                i <= w,
                values@ =~= shifted_vals(self.kind(), sv, s as nat).subrange(0, i as int),
            decreases w - i,
        {
            if i + s < w {
                values.push(self.bits_le[i + s].eject_value());
            } else {
                values.push(fill);
            }
            i = i + 1;
        }
        proof {
            assert(values@ =~= shifted_vals(self.kind(), sv, s as nat));
            lemma_shift_value(self.kind(), sv, s as nat);
        }
        let mode = if both_constant { Mode::Constant } else { Mode::Private };
        let r = Integer::from_values(self.ty, mode, &values, cs);
        proof {
            if !both_constant {
                let c = variable_bits(rhs.bits_view(), k as int, rhs.bits_view().len() as int);
                let w = self.kind().width();
                lemma_bump_by(start.privates(), 1, c);
                lemma_bump_by(start.privates(), 1 + c, w);
                lemma_bump_by(start.constraints(), 1, c);
                lemma_bump_by(bump_by(start.constraints(), 1 + c), 0, 1);
                lemma_bump_by(start.constraints(), 1 + c, 1);
                lemma_bump_by(start.constraints(), 2 + c, w);
            }
        }
        r
    }
}

} // verus!

verus! {

/// The ripple-carry adder over variables: its carries are private, and its
/// first bit takes two witnesses and every later bit five.
proof fn lemma_ripple_of_variables(a: Seq<(Mode, bool)>, b: Seq<(Mode, bool)>, n: nat)
    requires
        1 <= n <= a.len(),
        n <= b.len(),
        forall|i: int| 0 <= i < a.len() ==> #[trigger] a[i].0 != Mode::Constant,
        forall|i: int| 0 <= i < b.len() ==> #[trigger] b[i].0 != Mode::Constant,
    ensures
        ripple_cost(a, b, n) == 5 * n - 3,
        ripple(a, b, n).1.0 == Mode::Private,
        n >= 2 ==> ripple(a, b, n).2.0 == Mode::Private,
    decreases n,
{
    let m = (n - 1) as nat;
    let x = a[m as int];
    let y = b[m as int];
    assert(x.0 != Mode::Constant);
    assert(y.0 != Mode::Constant);
    if n > 1 {
        lemma_ripple_of_variables(a, b, m);
    }
    let c = ripple(a, b, m).1;
    let ab = xor_spec(x, y);
    assert(ab.0 == Mode::Private);
    assert(and_spec(x, y).0 == Mode::Private);
    assert(gate_cost(x, y) == 1);
    if m == 0 {
        assert(c == (Mode::Constant, false));
        assert(gate_cost(ab, c) == 0);
        assert(gate_cost(c, ab) == 0);
        assert(and_spec(c, ab) == c);
        assert(gate_cost(and_spec(x, y), and_spec(c, ab)) == 0);
        assert(adder_cost(x, y, c) == 2);
    } else {
        assert(c.0 == Mode::Private);
        assert(and_spec(c, ab).0 == Mode::Private);
        assert(adder_cost(x, y, c) == 5);
    }
    assert(ripple_cost(a, b, n) == ripple_cost(a, b, m) + adder_cost(x, y, c));
}

/// Checked addition of two integers whose bits are all variables takes
/// `5w - 3` private witnesses for a width `w`, one more for a signed type, and
/// its overflow bit is private, so it adds one more constraint than witnesses.
pub proof fn lemma_add_cost_of_variables(ty: IntegerType, a: Seq<(Mode, bool)>, b: Seq<(Mode, bool)>)
    requires
        a.len() == ty.width(),
        b.len() == ty.width(),
        forall|i: int| 0 <= i < a.len() ==> #[trigger] a[i].0 != Mode::Constant,
        forall|i: int| 0 <= i < b.len() ==> #[trigger] b[i].0 != Mode::Constant,
    ensures
        add_cost(ty, a, b) == 5 * ty.width() - 3 + if ty.signed() { 1int } else { 0int },
        add_carry(ty, a, b).0 == Mode::Private,
{
    lemma_ripple_of_variables(a, b, ty.width());
}

} // verus!

verus! {

/// A bit pattern of a type's width denotes a value of that type: from
/// `-2^(w-1)` to `2^(w-1) - 1` when signed, from `0` to `2^w - 1` otherwise.
pub proof fn lemma_typed_value_in_range(ty: IntegerType, v: Seq<bool>)
    requires
        v.len() == ty.width(),
    ensures
        in_range(ty, typed_value(ty, v)),
        ty.signed() ==> -(pow2((ty.width() - 1) as nat) as int) <= typed_value(ty, v) < pow2((ty.width() - 1) as nat),
        !ty.signed() ==> 0 <= typed_value(ty, v) < pow2(ty.width()),
{
    let w = ty.width();
    lemma_bits_value_bound(v);
    lemma_msb_split(v);
    lemma_pow2_unfold(w);
    lemma_pow2_pos((w - 1) as nat);
}

/// Checked addition of two constants halts exactly when the sum of their
/// values (two's complement for a signed type) lies outside the type: below
/// `-2^(w-1)` or above `2^(w-1) - 1` when signed, above `2^w - 1` otherwise.
/// Addition with a variable operand never halts.
pub proof fn lemma_add_halts_exactly_out_of_range(ty: IntegerType, a: Seq<(Mode, bool)>, b: Seq<(Mode, bool)>)
    requires
        a.len() == ty.width(),
        b.len() == ty.width(),
    ensures
        !(all_const(a) && all_const(b)) ==> !add_halts(ty, a, b),
        (all_const(a) && all_const(b) && ty.signed()) ==> (add_halts(ty, a, b) <==> {
            let x = typed_value(ty, vals(a)) + typed_value(ty, vals(b));
            x < -(pow2((ty.width() - 1) as nat) as int) || x >= pow2((ty.width() - 1) as nat)
        }),
        (all_const(a) && all_const(b) && !ty.signed()) ==> (add_halts(ty, a, b) <==> bits_value(vals(a))
            + bits_value(vals(b)) >= pow2(ty.width())),
{
}

/// Adding a negative and a non-negative value of a signed type never halts,
/// whatever the carry out of the top bit of the bit patterns.
pub proof fn lemma_add_of_opposite_signs_never_halts(ty: IntegerType, a: Seq<(Mode, bool)>, b: Seq<(Mode, bool)>)
    requires
        a.len() == ty.width(),
        b.len() == ty.width(),
        ty.signed(),
        typed_value(ty, vals(a)) < 0 <= typed_value(ty, vals(b)),
    ensures
        !add_halts(ty, a, b),
{
    lemma_typed_value_in_range(ty, vals(a));
    lemma_typed_value_in_range(ty, vals(b));
}

/// Checked shift right halts only where the amount is at least the width:
/// an amount below the width (its bits at or above `log2(w)` all clear) never
/// halts, whichever of its bits are constants.
pub proof fn lemma_shr_halts_only_when_too_large(ty: IntegerType, rhs: Seq<(Mode, bool)>)
    requires
        rhs.len() >= 8,
    ensures
        shr_halts(ty, rhs) ==> bits_value(vals(rhs)) >= ty.width(),
        bits_value(vals(rhs)) < ty.width() ==> !shr_halts(ty, rhs),
{
    let k = shift_index(ty);
    lemma2_to64();
    assert(pow2(k) == ty.width());
    lemma_bits_value_below(vals(rhs), k);
    if shr_halts(ty, rhs) {
        let j = choose|j: int| shift_index(ty) <= j < rhs.len() && #[trigger] rhs[j].0 == Mode::Constant && rhs[j].1;
        assert(vals(rhs)[j]);
    }
}

} // verus!
