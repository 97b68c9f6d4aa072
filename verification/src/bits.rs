//! Little-endian bit sequences and the natural numbers they denote.
use vstd::prelude::*;
use vstd::arithmetic::power2::*;
use vstd::arithmetic::mul::*;
use vstd::arithmetic::div_mod::*;
use vstd::bits::lemma_u128_shr_is_div;

verus! {

/// The number a single bit stands for.
pub open spec fn bit(b: bool) -> nat {
    if b { 1 } else { 0 }
}

/// The natural number of a little-endian bit sequence.
pub open spec fn bits_value(s: Seq<bool>) -> nat
    decreases s.len(),
{
    if s.len() == 0 {
        0
    } else {
        bits_value(s.drop_last()) + bit(s.last()) * pow2((s.len() - 1) as nat)
    }
}

/// Appending a bit adds it at the next power of two.
pub proof fn lemma_bits_value_push(s: Seq<bool>, b: bool)
    ensures
        bits_value(s.push(b)) == bits_value(s) + bit(b) * pow2(s.len()),
{
    assert(s.push(b).drop_last() =~= s);
}

/// A sequence of `n` bits denotes a number below `2^n`.
pub proof fn lemma_bits_value_bound(s: Seq<bool>)
    ensures
        bits_value(s) < pow2(s.len()),
    decreases s.len(),
{
    if s.len() == 0 {
        lemma2_to64();
    } else {
        lemma_bits_value_bound(s.drop_last());
        lemma_pow2_unfold(s.len());
    }
}

/// The number of a concatenation: the high part is scaled by `2^|low|`.
pub proof fn lemma_bits_value_concat(x: Seq<bool>, y: Seq<bool>)
    ensures
        bits_value(x + y) == bits_value(x) + pow2(x.len()) * bits_value(y),
    decreases y.len(),
{
    if y.len() == 0 {
        assert(x + y =~= x);
        assert(pow2(x.len()) * 0 == 0) by (nonlinear_arith);
    } else {
        let y0 = y.drop_last();
        let l = y.last();
        assert(x + y =~= (x + y0).push(l));
        assert(y =~= y0.push(l));
        lemma_bits_value_push(x + y0, l);
        lemma_bits_value_push(y0, l);
        lemma_bits_value_concat(x, y0);
        lemma_pow2_adds(x.len(), y0.len());
        lemma_mul_is_distributive_add(pow2(x.len()) as int, bits_value(y0) as int, (bit(l) * pow2(y0.len())) as int);
        lemma_mul_is_associative(pow2(x.len()) as int, bit(l) as int, pow2(y0.len()) as int);
        lemma_mul_is_commutative(pow2(x.len()) as int, bit(l) as int);
        let px = pow2(x.len()) as int;
        let py = pow2(y0.len()) as int;
        let bl = bit(l) as int;
        let vy = bits_value(y0) as int;
        assert(bits_value(x + y) == bits_value(x + y0) + bl * pow2((x + y0).len()));
        assert((x + y0).len() == x.len() + y0.len());
        assert(pow2(x.len() + y0.len()) == px * py);
        assert(bits_value(y) == vy + bl * py);
        assert(px * (vy + bl * py) == px * vy + bl * (px * py)) by (nonlinear_arith);
    }
}

/// `n` copies of one bit: zero, or `2^n - 1`.
pub proof fn lemma_bits_value_fill(b: bool, n: nat)
    ensures
        bits_value(Seq::new(n, |i: int| b)) == if b { (pow2(n) - 1) as nat } else { 0 },
    decreases n,
{
    let s = Seq::new(n, |i: int| b);
    if n == 0 {
        lemma2_to64();
    } else {
        assert(s.drop_last() =~= Seq::new((n - 1) as nat, |i: int| b));
        lemma_bits_value_fill(b, (n - 1) as nat);
        lemma_pow2_unfold(n);
        lemma_pow2_pos((n - 1) as nat);
    }
}

/// Sequences of one length that denote the same number are equal.
pub proof fn lemma_bits_value_injective(x: Seq<bool>, y: Seq<bool>)
    requires
        x.len() == y.len(),
        bits_value(x) == bits_value(y),
    ensures
        x == y,
    decreases x.len(),
{
    if x.len() > 0 {
        let n = (x.len() - 1) as nat;
        lemma_bits_value_bound(x.drop_last());
        lemma_bits_value_bound(y.drop_last());
        lemma_pow2_pos(n);
        assert(bits_value(x) == bits_value(x.drop_last()) + bit(x.last()) * pow2(n));
        assert(bits_value(y) == bits_value(y.drop_last()) + bit(y.last()) * pow2(n));
        assert(x.last() == y.last()) by {
            if x.last() != y.last() {
                assert(bit(true) * pow2(n) == pow2(n));
                assert(bit(false) * pow2(n) == 0);
            }
        }
        lemma_bits_value_injective(x.drop_last(), y.drop_last());
        assert(x =~= x.drop_last().push(x.last()));
        assert(y =~= y.drop_last().push(y.last()));
    }
}

/// `2^128` is one more than the largest `u128`.
pub proof fn lemma_pow2_128()
    ensures
        pow2(128) == u128::MAX + 1,
{
    lemma2_to64_rest();
    lemma_pow2_adds(64, 64);
}

/// The low `n` bits of `v`, least significant first.
pub fn u128_to_bits(v: u128, n: usize) -> (s: Vec<bool>)
    requires
        n <= 128,
    ensures
        s@.len() == n,
        bits_value(s@) == v as nat % pow2(n as nat),
{
    let mut s: Vec<bool> = Vec::new();
    let mut i: usize = 0;
    proof {
        lemma2_to64();
    }
    while i < n
        invariant
            i <= n <= 128,
            s@.len() == i,
            bits_value(s@) == v as nat % pow2(i as nat),
        decreases n - i,
    {
        let shifted: u128 = v >> (i as u128);
        let b: bool = (shifted & 1u128) == 1u128;
        proof {
            lemma_u128_shr_is_div(v, i as u128);
            assert((shifted & 1u128 == 1u128) == (shifted % 2 == 1)) by (bit_vector);
            lemma_pow2_pos(i as nat);
            lemma_mod_breakdown(v as int, pow2(i as nat) as int, 2);
            lemma_pow2_unfold((i + 1) as nat);
            lemma_mul_is_commutative(pow2(i as nat) as int, 2);
            lemma_bits_value_push(s@, b);
            lemma_mod_bound((v as nat / pow2(i as nat)) as int, 2);
            lemma_mul_is_commutative(bit(b) as int, pow2(i as nat) as int);
        }
        s.push(b);
        i = i + 1;
    }
    s
}

/// The number of a sequence of at most 128 bits.
pub fn bits_to_u128(s: &[bool]) -> (v: u128)
    requires
        s@.len() <= 128,
    ensures
        v as nat == bits_value(s@),
{
    let n = s.len();
    let mut acc: u128 = 0;
    let mut pow: u128 = 1;
    let mut i: usize = 0;
    proof {
        lemma2_to64();
        lemma_pow2_128();
        assert(s@.subrange(0, 0) =~= Seq::<bool>::empty());
    }
    while i < n
        invariant
            n == s@.len() <= 128,
            i <= n,
            i < n ==> pow as nat == pow2(i as nat),
            acc as nat == bits_value(s@.subrange(0, i as int)),
            pow2(128) == u128::MAX + 1,
        decreases n - i,
    {
        proof {
            lemma_bits_value_bound(s@.subrange(0, i as int));
            lemma_pow2_unfold((i + 1) as nat);
            if i + 1 < 128 {
                lemma_pow2_strictly_increases((i + 1) as nat, 128);
            }
            assert(s@.subrange(0, i + 1) =~= s@.subrange(0, i as int).push(s@[i as int]));
            lemma_bits_value_push(s@.subrange(0, i as int), s@[i as int]);
        }
        if s[i] {
            acc = acc + pow;
        }
        if i + 1 < n {
            pow = pow * 2;
        }
        i = i + 1;
    }
    proof {
        assert(s@.subrange(0, n as int) =~= s@);
    }
    acc
}

} // verus!
