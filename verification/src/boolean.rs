//! The circuit boolean: a value of `0` or `1` held in a given mode.
use vstd::prelude::*;
use crate::circuit::{bump, bump_by, lemma_bump_by, Circuit};
use crate::mode::Mode;
use crate::traits::{Adder, And, BooleanTrait, Equal, Inject, Nand, Nor, Or, Subtractor, Ternary, Xor};

verus! {

/// A circuit boolean. Its view is its mode and its assigned value.
#[derive(Clone, Copy, Debug)]
pub struct Boolean {
    mode: Mode,
    value: bool,
}

impl View for Boolean {
    type V = (Mode, bool);

    closed spec fn view(&self) -> (Mode, bool) {
        (self.mode, self.value)
    }
}

/// `NOT a`: a constant stays constant, a variable becomes a private combination.
pub open spec fn not_spec(a: (Mode, bool)) -> (Mode, bool) {
    if a.0 == Mode::Constant { (Mode::Constant, !a.1) } else { (Mode::Private, !a.1) }
}

/// `a AND b`: a constant operand selects the other operand or itself.
pub open spec fn and_spec(a: (Mode, bool), b: (Mode, bool)) -> (Mode, bool) {
    if a.0 == Mode::Constant {
        if a.1 { b } else { a }
    } else if b.0 == Mode::Constant {
        if b.1 { a } else { b }
    } else {
        (Mode::Private, a.1 && b.1)
    }
}

/// `a OR b`: a constant operand selects itself or the other operand.
pub open spec fn or_spec(a: (Mode, bool), b: (Mode, bool)) -> (Mode, bool) {
    if a.0 == Mode::Constant {
        if a.1 { a } else { b }
    } else if b.0 == Mode::Constant {
        if b.1 { b } else { a }
    } else {
        (Mode::Private, a.1 || b.1)
    }
}

/// `a XOR b`: a constant operand selects the other operand or its negation.
pub open spec fn xor_spec(a: (Mode, bool), b: (Mode, bool)) -> (Mode, bool) {
    if a.0 == Mode::Constant {
        if a.1 { not_spec(b) } else { b }
    } else if b.0 == Mode::Constant {
        if b.1 { not_spec(a) } else { a }
    } else {
        (Mode::Private, a.1 != b.1)
    }
}

/// Whether a binary operation on `a` and `b` allocates a private witness.
pub open spec fn allocates(a: (Mode, bool), b: (Mode, bool)) -> bool {
    a.0 != Mode::Constant && b.0 != Mode::Constant
}

/// The environment after one private witness and one constraint that holds.
pub open spec fn witnessed(before: Circuit, after: Circuit) -> bool {
    &&& after.constants() == before.constants()
    &&& after.publics() == before.publics()
    &&& after.privates() == bump(before.privates())
    &&& after.constraints() == bump(before.constraints())
    &&& after.satisfied() == before.satisfied()
}

/// The environment after `k` private witnesses, each with one constraint
/// that holds.
pub open spec fn witnessed_n(before: Circuit, after: Circuit, k: nat) -> bool {
    &&& after.constants() == before.constants()
    &&& after.publics() == before.publics()
    &&& after.privates() == bump_by(before.privates(), k)
    &&& after.constraints() == bump_by(before.constraints(), k)
    &&& after.satisfied() == before.satisfied()
}

/// One witness for a gate on two variables, none otherwise.
pub open spec fn gate_cost(a: (Mode, bool), b: (Mode, bool)) -> nat {
    if allocates(a, b) { 1 } else { 0 }
}

/// The witnesses of a full adder: one for each of its five gates whose two
/// inputs are variables.
pub open spec fn adder_cost(a: (Mode, bool), b: (Mode, bool), c: (Mode, bool)) -> nat {
    let ab = xor_spec(a, b);
    gate_cost(a, b) + gate_cost(ab, c) + gate_cost(a, b) + gate_cost(c, ab) + gate_cost(and_spec(a, b), and_spec(c, ab))
}

/// The witnesses of a full subtractor: one for each of its five gates whose
/// two inputs are variables.
pub open spec fn subtractor_cost(a: (Mode, bool), b: (Mode, bool), c: (Mode, bool)) -> nat {
    let ab = xor_spec(a, b);
    gate_cost(a, b) + gate_cost(ab, c) + gate_cost(not_spec(a), b) + gate_cost(c, not_spec(ab)) + gate_cost(
        and_spec(not_spec(a), b),
        and_spec(c, not_spec(ab)),
    )
}

/// A gate's effect on the environment is that of its cost in witnesses.
pub proof fn lemma_gate_cost(a: (Mode, bool), b: (Mode, bool), before: Circuit, after: Circuit)
    requires
        allocates(a, b) ==> witnessed(before, after),
        !allocates(a, b) ==> untouched(before, after),
    ensures
        witnessed_n(before, after, gate_cost(a, b)),
{
    lemma_bump_by(before.privates(), 0, 0);
    lemma_bump_by(before.constraints(), 0, 0);
}

/// Witnesses added one after the other add up.
pub proof fn lemma_witnessed_chain(x: Circuit, y: Circuit, z: Circuit, j: nat, k: nat)
    requires
        witnessed_n(x, y, j),
        witnessed_n(y, z, k),
    ensures
        witnessed_n(x, z, j + k),
{
    lemma_bump_by(x.privates(), j, k);
    lemma_bump_by(x.constraints(), j, k);
}

/// The environment is unchanged.
pub open spec fn untouched(before: Circuit, after: Circuit) -> bool {
    &&& after.constants() == before.constants()
    &&& after.publics() == before.publics()
    &&& after.privates() == before.privates()
    &&& after.constraints() == before.constraints()
    &&& after.satisfied() == before.satisfied()
}

/// The environment after one variable of the given mode, with its
/// booleanity constraint for a variable.
pub open spec fn injected(mode: Mode, before: Circuit, after: Circuit) -> bool {
    &&& after.constants() == (if mode == Mode::Constant { bump(before.constants()) } else { before.constants() })
    &&& after.publics() == (if mode == Mode::Public { bump(before.publics()) } else { before.publics() })
    &&& after.privates() == (if mode == Mode::Private { bump(before.privates()) } else { before.privates() })
    &&& after.constraints() == (if mode == Mode::Constant { before.constraints() } else { bump(before.constraints()) })
    &&& after.satisfied() == before.satisfied()
}

impl Boolean {
    /// Initializes a new boolean of the given mode and value, with the
    /// constraint `(1 - a) * a = 0` for a variable.
    pub fn new(mode: Mode, value: bool, cs: &mut Circuit) -> (b: Boolean)
        ensures
            b@ == (mode, value),
            final(cs).constants() == (if mode == Mode::Constant { bump(old(cs).constants()) } else { old(cs).constants() }),
            final(cs).publics() == (if mode == Mode::Public { bump(old(cs).publics()) } else { old(cs).publics() }),
            final(cs).privates() == (if mode == Mode::Private { bump(old(cs).privates()) } else { old(cs).privates() }),
            final(cs).constraints() == (if mode == Mode::Constant { old(cs).constraints() } else { bump(old(cs).constraints()) }),
            final(cs).satisfied() == old(cs).satisfied(),
    {
        cs.new_variable(mode);
        cs.enforce(mode.is_constant(), true);
        Boolean { mode, value }
    }

    /// Returns a boolean constant that allocates nothing (a constant combination).
    pub fn constant_value(value: bool) -> (b: Boolean)
        ensures
            b@ == (Mode::Constant, value),
    {
        Boolean { mode: Mode::Constant, value }
    }

    /// Ejects the mode of the boolean.
    pub fn eject_mode(&self) -> (m: Mode)
        ensures
            m == self@.0,
    {
        self.mode
    }

    /// Ejects the boolean as a constant boolean value.
    pub fn eject_value(&self) -> (v: bool)
        ensures
            v == self@.1,
    {
        self.value
    }

    /// Returns `true` if the boolean is a constant.
    pub fn is_constant(&self) -> (b: bool)
        ensures
            b == (self@.0 == Mode::Constant),
    {
        self.mode.is_constant()
    }

    /// Returns `true` if the boolean is a public variable.
    pub fn is_public(&self) -> (b: bool)
        ensures
            b == (self@.0 == Mode::Public),
    {
        self.mode.is_public()
    }

    /// Returns `true` if the boolean is private.
    pub fn is_private(&self) -> (b: bool)
        ensures
            b == (self@.0 == Mode::Private),
    {
        self.mode.is_private()
    }

    /// Returns `(NOT a)`.
    pub fn not(&self) -> (b: Boolean)
        ensures
            b@ == not_spec(self@),
    {
        if self.is_constant() {
            Boolean { mode: Mode::Constant, value: !self.value }
        } else {
            Boolean { mode: Mode::Private, value: !self.value }
        }
    }

    /// Allocates a private witness that a holding constraint defines.
    fn witness(value: bool, cs: &mut Circuit) -> (b: Boolean)
        ensures
            b@ == (Mode::Private, value),
            witnessed(*old(cs), *final(cs)),
    {
        cs.new_variable(Mode::Private);
        cs.enforce(false, true);
        Boolean { mode: Mode::Private, value }
    }

    /// Returns `(a AND b)`.
    pub fn and(&self, other: &Boolean, cs: &mut Circuit) -> (b: Boolean)
        ensures
            b@ == and_spec(self@, other@),
            allocates(self@, other@) ==> witnessed(*old(cs), *final(cs)),
            !allocates(self@, other@) ==> untouched(*old(cs), *final(cs)),
    {
        if self.is_constant() {
            if self.value { *other } else { *self }
        } else if other.is_constant() {
            if other.value { *self } else { *other }
        } else {
            Boolean::witness(self.value && other.value, cs)
        }
    }

    /// Returns `(a OR b)`.
    pub fn or(&self, other: &Boolean, cs: &mut Circuit) -> (b: Boolean)
        ensures
            b@ == or_spec(self@, other@),
            allocates(self@, other@) ==> witnessed(*old(cs), *final(cs)),
            !allocates(self@, other@) ==> untouched(*old(cs), *final(cs)),
    {
        if self.is_constant() {
            if self.value { *self } else { *other }
        } else if other.is_constant() {
            if other.value { *other } else { *self }
        } else {
            Boolean::witness(self.value || other.value, cs)
        }
    }

    /// Returns `(a != b)`.
    pub fn xor(&self, other: &Boolean, cs: &mut Circuit) -> (b: Boolean)
        ensures
            b@ == xor_spec(self@, other@),
            allocates(self@, other@) ==> witnessed(*old(cs), *final(cs)),
            !allocates(self@, other@) ==> untouched(*old(cs), *final(cs)),
    {
        if self.is_constant() {
            if self.value { other.not() } else { *other }
        } else if other.is_constant() {
            if other.value { self.not() } else { *self }
        } else {
            Boolean::witness(self.value != other.value, cs)
        }
    }

    /// Returns `NOT (a AND b)`.
    pub fn nand(&self, other: &Boolean, cs: &mut Circuit) -> (b: Boolean)
        ensures
            b@ == not_spec(and_spec(self@, other@)),
            allocates(self@, other@) ==> witnessed(*old(cs), *final(cs)),
            !allocates(self@, other@) ==> untouched(*old(cs), *final(cs)),
    {
        self.and(other, cs).not()
    }

    /// Returns `(NOT a) AND (NOT b)`.
    pub fn nor(&self, other: &Boolean, cs: &mut Circuit) -> (b: Boolean)
        ensures
            b@ == and_spec(not_spec(self@), not_spec(other@)),
            allocates(self@, other@) ==> witnessed(*old(cs), *final(cs)),
            !allocates(self@, other@) ==> untouched(*old(cs), *final(cs)),
    {
        self.not().and(&other.not(), cs)
    }

    /// Returns `first` if `condition` is `true`, otherwise returns `second`.
    pub fn ternary(condition: &Boolean, first: &Boolean, second: &Boolean, cs: &mut Circuit) -> (b: Boolean)
        ensures
            b@.1 == (if condition@.1 { first@.1 } else { second@.1 }),
            condition@.0 == Mode::Constant ==> b@ == (if condition@.1 { first@ } else { second@ }),
            (condition@.0 != Mode::Constant && first@.0 == Mode::Constant && second@.0 == Mode::Constant) ==> b@ == (
                if first@.1 == second@.1 { (Mode::Constant, first@.1) }
                else if first@.1 { condition@ } else { not_spec(condition@) }),
            (condition@.0 != Mode::Constant && (first@.0 != Mode::Constant || second@.0 != Mode::Constant)) ==> b@.0 == Mode::Private,
            (condition@.0 != Mode::Constant && (first@.0 != Mode::Constant || second@.0 != Mode::Constant)) ==> witnessed(*old(cs), *final(cs)),
            !(condition@.0 != Mode::Constant && (first@.0 != Mode::Constant || second@.0 != Mode::Constant)) ==> untouched(*old(cs), *final(cs)),
    {
        if condition.is_constant() {
            if condition.value { *first } else { *second }
        } else if first.is_constant() && second.is_constant() {
            match (first.value, second.value) {
                (true, true) => Boolean::constant_value(true),
                (false, false) => Boolean::constant_value(false),
                (true, false) => *condition,
                (false, true) => condition.not(),
            }
        } else {
            let value = if condition.value { first.value } else { second.value };
            Boolean::witness(value, cs)
        }
    }
}

/// The text `parse` reads into a boolean of the given mode and value.
pub open spec fn parses_to(s: Seq<char>, mode: Mode, value: bool) -> bool {
    ||| (mode == Mode::Constant && value && (s == "true"@ || s == "Constant(true)"@))
    ||| (mode == Mode::Constant && !value && (s == "false"@ || s == "Constant(false)"@))
    ||| (mode == Mode::Public && value && s == "Public(true)"@)
    ||| (mode == Mode::Public && !value && s == "Public(false)"@)
    ||| (mode == Mode::Private && value && s == "Private(true)"@)
    ||| (mode == Mode::Private && !value && s == "Private(false)"@)
}

/// The text of a boolean with its mode, such as `Public(true)`.
pub open spec fn display_spec(b: (Mode, bool)) -> Seq<char> {
    match b {
        (Mode::Constant, true) => "Constant(true)"@,
        (Mode::Constant, false) => "Constant(false)"@,
        (Mode::Public, true) => "Public(true)"@,
        (Mode::Public, false) => "Public(false)"@,
        (Mode::Private, true) => "Private(true)"@,
        (Mode::Private, false) => "Private(false)"@,
    }
}

/// The text of a boolean's value: `true` or `false`.
pub open spec fn debug_spec(b: (Mode, bool)) -> Seq<char> {
    if b.1 {
        "true"@
    } else {
        "false"@
    }
}

impl Boolean {
    /// Reads a boolean from its text: `true`, `false`, or a mode with the
    /// value in brackets, such as `Private(false)`; `None` for other text.
    pub fn try_parse(s: &String, cs: &mut Circuit) -> (r: Option<Boolean>)
        ensures
            match r {
                Some(b) => parses_to(s@, b@.0, b@.1),
                None => forall|m: Mode, v: bool| !parses_to(s@, m, v),
            },
            r is None ==> *final(cs) == *old(cs),
            r matches Some(b) ==> {
                &&& final(cs).constants() == (if b@.0 == Mode::Constant { bump(old(cs).constants()) } else { old(cs).constants() })
                &&& final(cs).publics() == (if b@.0 == Mode::Public { bump(old(cs).publics()) } else { old(cs).publics() })
                &&& final(cs).privates() == (if b@.0 == Mode::Private { bump(old(cs).privates()) } else { old(cs).privates() })
                &&& final(cs).constraints() == (if b@.0 == Mode::Constant { old(cs).constraints() } else { bump(old(cs).constraints()) })
                &&& final(cs).satisfied() == old(cs).satisfied()
            },
    {
        let (mode, value) = if *s == "true".to_owned() || *s == "Constant(true)".to_owned() {
            (Mode::Constant, true)
        } else if *s == "false".to_owned() || *s == "Constant(false)".to_owned() {
            (Mode::Constant, false)
        } else if *s == "Public(true)".to_owned() {
            (Mode::Public, true)
        } else if *s == "Public(false)".to_owned() {
            (Mode::Public, false)
        } else if *s == "Private(true)".to_owned() {
            (Mode::Private, true)
        } else if *s == "Private(false)".to_owned() {
            (Mode::Private, false)
        } else {
            return None;
        };
        Some(Boolean::new(mode, value, cs))
    }

    /// Reads a boolean from its text, which must be one that `try_parse`
    /// reads.
    pub fn parse(s: &String, cs: &mut Circuit) -> (b: Boolean)
        requires
            exists|m: Mode, v: bool| parses_to(s@, m, v),
        ensures
            parses_to(s@, b@.0, b@.1),
            final(cs).constants() == (if b@.0 == Mode::Constant { bump(old(cs).constants()) } else { old(cs).constants() }),
            final(cs).publics() == (if b@.0 == Mode::Public { bump(old(cs).publics()) } else { old(cs).publics() }),
            final(cs).privates() == (if b@.0 == Mode::Private { bump(old(cs).privates()) } else { old(cs).privates() }),
            final(cs).constraints() == (if b@.0 == Mode::Constant { old(cs).constraints() } else { bump(old(cs).constraints()) }),
            final(cs).satisfied() == old(cs).satisfied(),
    {
        match Boolean::try_parse(s, cs) {
            Some(b) => b,
            None => {
                proof {
                    let (m, v) = choose|m: Mode, v: bool| parses_to(s@, m, v);
                    assert(parses_to(s@, m, v));
                }
                Boolean::constant_value(false)
            },
        }
    }

    /// Returns the text of the boolean with its mode, such as `Public(true)`.
    pub fn to_display_string(&self) -> (r: String)
        ensures
            r@ == display_spec(self@),
    {
        match (self.mode, self.value) {
            (Mode::Constant, true) => "Constant(true)".to_owned(),
            (Mode::Constant, false) => "Constant(false)".to_owned(),
            (Mode::Public, true) => "Public(true)".to_owned(),
            (Mode::Public, false) => "Public(false)".to_owned(),
            (Mode::Private, true) => "Private(true)".to_owned(),
            (Mode::Private, false) => "Private(false)".to_owned(),
        }
    }

    /// Returns the text of the boolean's value: `true` or `false`.
    pub fn to_debug_string(&self) -> (r: String)
        ensures
            r@ == debug_spec(self@),
    {
        if self.value {
            "true".to_owned()
        } else {
            "false".to_owned()
        }
    }
}

/// The sum bit and carry bit of a full adder.
pub open spec fn adder_spec(a: (Mode, bool), b: (Mode, bool), c: (Mode, bool)) -> ((Mode, bool), (Mode, bool)) {
    let ab = xor_spec(a, b);
    (xor_spec(ab, c), or_spec(and_spec(a, b), and_spec(c, ab)))
}

/// The difference bit and borrow bit of a full subtractor.
pub open spec fn subtractor_spec(a: (Mode, bool), b: (Mode, bool), c: (Mode, bool)) -> ((Mode, bool), (Mode, bool)) {
    let ab = xor_spec(a, b);
    (xor_spec(ab, c), or_spec(and_spec(not_spec(a), b), and_spec(c, not_spec(ab))))
}

impl Adder for Boolean {
    fn adder(&self, other: &Boolean, carry: &Boolean, cs: &mut Circuit) -> (r: (Boolean, Boolean))
        ensures
            (r.0@, r.1@) == adder_spec(self@, other@, carry@),
            r.0@.1 == ((self@.1 != other@.1) != carry@.1),
            r.1@.1 == ((self@.1 && other@.1) || (carry@.1 && (self@.1 != other@.1))),
            witnessed_n(*old(cs), *final(cs), adder_cost(self@, other@, carry@)),
    {
        let ghost s0 = *cs;
        let c1 = self.xor(other, cs);
        let ghost s1 = *cs;
        let sum = c1.xor(carry, cs);
        let ghost s2 = *cs;
        let c2 = self.and(other, cs);
        let ghost s3 = *cs;
        let c3 = carry.and(&c1, cs);
        let ghost s4 = *cs;
        let next = c2.or(&c3, cs);
        proof {
            lemma_gate_cost(self@, other@, s0, s1);
            lemma_gate_cost(c1@, carry@, s1, s2);
            lemma_gate_cost(self@, other@, s2, s3);
            lemma_gate_cost(carry@, c1@, s3, s4);
            lemma_gate_cost(c2@, c3@, s4, *cs);
            let g1 = gate_cost(self@, other@);
            let g2 = gate_cost(c1@, carry@);
            let g4 = gate_cost(carry@, c1@);
            let g5 = gate_cost(c2@, c3@);
            lemma_witnessed_chain(s0, s1, s2, g1, g2);
            lemma_witnessed_chain(s0, s2, s3, g1 + g2, g1);
            lemma_witnessed_chain(s0, s3, s4, g1 + g2 + g1, g4);
            lemma_witnessed_chain(s0, s4, *cs, g1 + g2 + g1 + g4, g5);
        }
        (sum, next)
    }
}

impl Subtractor for Boolean {
    fn subtractor(&self, other: &Boolean, borrow: &Boolean, cs: &mut Circuit) -> (r: (Boolean, Boolean))
        ensures
            (r.0@, r.1@) == subtractor_spec(self@, other@, borrow@),
            r.0@.1 == ((self@.1 != other@.1) != borrow@.1),
            r.1@.1 == ((!self@.1 && other@.1) || (borrow@.1 && (self@.1 == other@.1))),
            witnessed_n(*old(cs), *final(cs), subtractor_cost(self@, other@, borrow@)),
    {
        let ghost s0 = *cs;
        let c1 = self.xor(other, cs);
        let ghost s1 = *cs;
        let difference = c1.xor(borrow, cs);
        let ghost s2 = *cs;
        let c2 = self.not().and(other, cs);
        let ghost s3 = *cs;
        let c3 = borrow.and(&c1.not(), cs);
        let ghost s4 = *cs;
        let next = c2.or(&c3, cs);
        proof {
            lemma_gate_cost(self@, other@, s0, s1);
            lemma_gate_cost(c1@, borrow@, s1, s2);
            lemma_gate_cost(not_spec(self@), other@, s2, s3);
            lemma_gate_cost(borrow@, not_spec(c1@), s3, s4);
            lemma_gate_cost(c2@, c3@, s4, *cs);
            let g1 = gate_cost(self@, other@);
            let g2 = gate_cost(c1@, borrow@);
            let g3 = gate_cost(not_spec(self@), other@);
            let g4 = gate_cost(borrow@, not_spec(c1@));
            let g5 = gate_cost(c2@, c3@);
            lemma_witnessed_chain(s0, s1, s2, g1, g2);
            lemma_witnessed_chain(s0, s2, s3, g1 + g2, g3);
            lemma_witnessed_chain(s0, s3, s4, g1 + g2 + g3, g4);
            lemma_witnessed_chain(s0, s4, *cs, g1 + g2 + g3 + g4, g5);
        }
        (difference, next)
    }
}

impl Equal for Boolean {
    type Boolean = Boolean;

    fn is_eq(&self, other: &Boolean, cs: &mut Circuit) -> (b: Boolean)
        ensures
            b@ == not_spec(xor_spec(self@, other@)),
            b@.1 == (self@.1 == other@.1),
            allocates(self@, other@) ==> witnessed(*old(cs), *final(cs)),
            !allocates(self@, other@) ==> untouched(*old(cs), *final(cs)),
    {
        self.xor(other, cs).not()
    }

    fn is_neq(&self, other: &Boolean, cs: &mut Circuit) -> (b: Boolean)
        ensures
            b@ == xor_spec(self@, other@),
            b@.1 == (self@.1 != other@.1),
            allocates(self@, other@) ==> witnessed(*old(cs), *final(cs)),
            !allocates(self@, other@) ==> untouched(*old(cs), *final(cs)),
    {
        self.xor(other, cs)
    }
}

impl And for Boolean {
    type Output = Boolean;

    fn and(&self, other: &Boolean, cs: &mut Circuit) -> (b: Boolean)
        ensures
            b@ == and_spec(self@, other@),
            allocates(self@, other@) ==> witnessed(*old(cs), *final(cs)),
            !allocates(self@, other@) ==> untouched(*old(cs), *final(cs)),
    {
        Boolean::and(self, other, cs)
    }
}

impl Or for Boolean {
    type Output = Boolean;

    fn or(&self, other: &Boolean, cs: &mut Circuit) -> (b: Boolean)
        ensures
            b@ == or_spec(self@, other@),
            allocates(self@, other@) ==> witnessed(*old(cs), *final(cs)),
            !allocates(self@, other@) ==> untouched(*old(cs), *final(cs)),
    {
        Boolean::or(self, other, cs)
    }
}

impl Xor for Boolean {
    type Output = Boolean;

    fn xor(&self, other: &Boolean, cs: &mut Circuit) -> (b: Boolean)
        ensures
            b@ == xor_spec(self@, other@),
            allocates(self@, other@) ==> witnessed(*old(cs), *final(cs)),
            !allocates(self@, other@) ==> untouched(*old(cs), *final(cs)),
    {
        Boolean::xor(self, other, cs)
    }
}

impl Nand for Boolean {
    type Output = Boolean;

    fn nand(&self, other: &Boolean, cs: &mut Circuit) -> (b: Boolean)
        ensures
            b@ == not_spec(and_spec(self@, other@)),
            allocates(self@, other@) ==> witnessed(*old(cs), *final(cs)),
            !allocates(self@, other@) ==> untouched(*old(cs), *final(cs)),
    {
        Boolean::nand(self, other, cs)
    }
}

impl Nor for Boolean {
    type Output = Boolean;

    fn nor(&self, other: &Boolean, cs: &mut Circuit) -> (b: Boolean)
        ensures
            b@ == and_spec(not_spec(self@), not_spec(other@)),
            allocates(self@, other@) ==> witnessed(*old(cs), *final(cs)),
            !allocates(self@, other@) ==> untouched(*old(cs), *final(cs)),
    {
        Boolean::nor(self, other, cs)
    }
}

impl Ternary for Boolean {
    type Boolean = Boolean;
    type Output = Boolean;

    fn ternary(condition: &Boolean, first: &Boolean, second: &Boolean, cs: &mut Circuit) -> (b: Boolean)
        ensures
            b@.1 == (if condition@.1 { first@.1 } else { second@.1 }),
            condition@.0 == Mode::Constant ==> b@ == (if condition@.1 { first@ } else { second@ }),
            (condition@.0 != Mode::Constant && first@.0 == Mode::Constant && second@.0 == Mode::Constant) ==> b@ == (
                if first@.1 == second@.1 { (Mode::Constant, first@.1) }
                else if first@.1 { condition@ } else { not_spec(condition@) }),
            (condition@.0 != Mode::Constant && (first@.0 != Mode::Constant || second@.0 != Mode::Constant)) ==> b@.0 == Mode::Private,
            (condition@.0 != Mode::Constant && (first@.0 != Mode::Constant || second@.0 != Mode::Constant)) ==> witnessed(*old(cs), *final(cs)),
            !(condition@.0 != Mode::Constant && (first@.0 != Mode::Constant || second@.0 != Mode::Constant)) ==> untouched(*old(cs), *final(cs)),
    {
        Boolean::ternary(condition, first, second, cs)
    }
}

impl BooleanTrait for Boolean {}

impl Inject for Boolean {
    type Primitive = bool;

    fn new(mode: Mode, value: bool, cs: &mut Circuit) -> (b: Boolean)
        ensures
            b@ == (mode, value),
            injected(mode, *old(cs), *final(cs)),
    {
        Boolean::new(mode, value, cs)
    }

    fn constant(value: bool, cs: &mut Circuit) -> (b: Boolean)
        ensures
            b@ == (Mode::Constant, value),
            injected(Mode::Constant, *old(cs), *final(cs)),
    {
        Boolean::new(Mode::Constant, value, cs)
    }

    fn blank(mode: Mode, cs: &mut Circuit) -> (b: Boolean)
        ensures
            b@ == (mode, false),
            injected(mode, *old(cs), *final(cs)),
    {
        Boolean::new(mode, false, cs)
    }
}

} // verus!

verus! {

/// Parsing the text that a boolean displays gives back its mode and value.
pub proof fn lemma_parse_display(b: (Mode, bool))
    ensures
        parses_to(display_spec(b), b.0, b.1),
{
}

} // verus!
