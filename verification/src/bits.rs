//! Bit sequences and the numbers they stand for.
//!
//! A bit-vector value is a `Seq<bool>` with the least significant bit first.
//! This module relates such sequences to natural numbers and to signed
//! integers in two's complement.

use vstd::arithmetic::div_mod::lemma_fundamental_div_mod_converse;
use vstd::arithmetic::power2::{lemma_pow2_pos, lemma_pow2_unfold, pow2};
use vstd::prelude::*;

verus! {

/// The number a single bit contributes at position zero.
pub open spec fn bit_weight(b: bool) -> nat {
    if b {
        1
    } else {
        0
    }
}

/// The unsigned number that a bit sequence stands for.
pub open spec fn to_nat(s: Seq<bool>) -> nat
    decreases s.len(),
{
    if s.len() == 0 {
        0
    } else {
        bit_weight(s[0]) + 2 * to_nat(s.drop_first())
    }
}

/// The low `w` bits of `n`.
pub open spec fn from_nat(n: nat, w: nat) -> Seq<bool>
    decreases w,
{
    if w == 0 {
        Seq::empty()
    } else {
        seq![n % 2 == 1] + from_nat(n / 2, (w - 1) as nat)
    }
}

/// The signed number that a bit sequence stands for, in two's complement.
pub open spec fn to_int(s: Seq<bool>) -> int {
    if s.len() > 0 && s[s.len() - 1] {
        to_nat(s) - pow2(s.len())
    } else {
        to_nat(s) as int
    }
}

/// The low `w` bits of `v` in two's complement.
pub open spec fn from_int(v: int, w: nat) -> Seq<bool> {
    from_nat((v % (pow2(w) as int)) as nat, w)
}

/// `s` cut or padded with zero bits to exactly `w` bits.
pub open spec fn fit(s: Seq<bool>, w: nat) -> Seq<bool> {
    Seq::new(w, |k: int| k < s.len() && s[k])
}

/// `w` bits that are all `b`.
pub open spec fn fill(b: bool, w: nat) -> Seq<bool> {
    Seq::new(w, |k: int| b)
}

/// The low `w` bits are `w` bits.
pub proof fn lemma_from_nat_len(n: nat, w: nat)
    ensures
        from_nat(n, w).len() == w,
    decreases w,
{
    if w > 0 {
        lemma_from_nat_len(n / 2, (w - 1) as nat);
    }
}

/// A sequence of `n` bits stands for a number below two to the `n`.
pub proof fn lemma_to_nat_bound(s: Seq<bool>)
    ensures
        to_nat(s) < pow2(s.len()),
    decreases s.len(),
{
    if s.len() == 0 {
        assert(pow2(0) == 1) by {
            vstd::arithmetic::power2::lemma2_to64();
        }
    } else {
        lemma_to_nat_bound(s.drop_first());
        lemma_pow2_unfold(s.len());
    }
}

/// Reading back the low `w` bits of `n` gives `n` modulo two to the `w`.
pub proof fn lemma_to_nat_from_nat(n: nat, w: nat)
    ensures
        to_nat(from_nat(n, w)) == n % pow2(w),
    decreases w,
{
    if w == 0 {
        assert(pow2(0) == 1) by {
            vstd::arithmetic::power2::lemma2_to64();
        }
    } else {
        let rest = from_nat(n / 2, (w - 1) as nat);
        let s = from_nat(n, w);
        lemma_to_nat_from_nat(n / 2, (w - 1) as nat);
        assert(s.drop_first() == rest);
        assert(s[0] == (n % 2 == 1));
        lemma_pow2_unfold(w);
        lemma_pow2_pos((w - 1) as nat);
        let p = pow2((w - 1) as nat) as int;
        let h = (n / 2) as int;
        // n = 2 * h + n % 2 and h = p * (h / p) + h % p
        let r = 2 * (h % p) + (n % 2) as int;
        assert(h == p * (h / p) + h % p) by {
            vstd::arithmetic::div_mod::lemma_fundamental_div_mod(h, p);
        }
        assert(0 <= h % p < p) by {
            vstd::arithmetic::div_mod::lemma_mod_pos_bound(h, p);
        }
        assert(n as int == (h / p) * (2 * p) + r) by (nonlinear_arith)
            requires
                h == p * (h / p) + h % p,
                n as int == 2 * h + (n % 2) as int,
                r == 2 * (h % p) + (n % 2) as int,
        ;
        lemma_fundamental_div_mod_converse(n as int, 2 * p, h / p, r);
    }
}

/// A number below two to the `w` is read back unchanged.
pub proof fn lemma_to_nat_from_nat_small(n: nat, w: nat)
    requires
        n < pow2(w),
    ensures
        to_nat(from_nat(n, w)) == n,
{
    lemma_to_nat_from_nat(n, w);
    vstd::arithmetic::div_mod::lemma_small_mod(n, pow2(w));
}

/// Writing down the number of a bit sequence gives the sequence back.
pub proof fn lemma_from_nat_to_nat(s: Seq<bool>)
    ensures
        from_nat(to_nat(s), s.len()) == s,
    decreases s.len(),
{
    if s.len() == 0 {
        assert(from_nat(to_nat(s), 0) =~= s);
    } else {
        let t = s.drop_first();
        lemma_from_nat_to_nat(t);
        let n = to_nat(s);
        assert(n % 2 == bit_weight(s[0]));
        assert(n / 2 == to_nat(t));
        assert(from_nat(n, s.len()) =~= seq![s[0]] + t);
        assert(seq![s[0]] + t =~= s);
    }
}

/// The number of a concatenation: the high part counts from the low part's length.
pub proof fn lemma_to_nat_concat(low: Seq<bool>, high: Seq<bool>)
    ensures
        to_nat(low + high) == to_nat(low) + pow2(low.len()) * to_nat(high),
    decreases low.len(),
{
    if low.len() == 0 {
        assert(low + high =~= high);
        assert(pow2(0) == 1) by {
            vstd::arithmetic::power2::lemma2_to64();
        }
    } else {
        let rest = low.drop_first();
        lemma_to_nat_concat(rest, high);
        assert((low + high).drop_first() =~= rest + high);
        lemma_pow2_unfold(low.len());
        let p = pow2(rest.len());
        let h = to_nat(high);
        assert(2 * (p * h) == (2 * p) * h) by (nonlinear_arith);
    }
}

/// The low `n` bits stand for the remainder, the others for the quotient.
pub proof fn lemma_to_nat_split(s: Seq<bool>, n: nat)
    requires
        n <= s.len(),
    ensures
        to_nat(s.subrange(0, n as int)) == to_nat(s) % pow2(n),
        to_nat(s.subrange(n as int, s.len() as int)) == to_nat(s) / pow2(n),
{
    let low = s.subrange(0, n as int);
    let high = s.subrange(n as int, s.len() as int);
    assert(low + high =~= s);
    lemma_to_nat_concat(low, high);
    lemma_to_nat_bound(low);
    lemma_pow2_pos(n);
    let p = pow2(n) as int;
    let h = to_nat(high) as int;
    assert(p * h == h * p) by (nonlinear_arith);
    lemma_fundamental_div_mod_converse(to_nat(s) as int, p, h, to_nat(low) as int);
}

/// Zero bits stand for zero.
pub proof fn lemma_to_nat_zeros(w: nat)
    ensures
        to_nat(fill(false, w)) == 0,
    decreases w,
{
    if w > 0 {
        lemma_to_nat_zeros((w - 1) as nat);
        assert(fill(false, w).drop_first() =~= fill(false, (w - 1) as nat));
    }
}

/// Zero bits above a sequence do not change its number.
pub proof fn lemma_to_nat_fit(s: Seq<bool>, w: nat)
    requires
        s.len() <= w,
    ensures
        to_nat(fit(s, w)) == to_nat(s),
{
    let zeros = fill(false, (w - s.len()) as nat);
    assert(fit(s, w) =~= s + zeros);
    lemma_to_nat_concat(s, zeros);
    lemma_to_nat_zeros((w - s.len()) as nat);
    assert(pow2(s.len()) * 0 == 0) by (nonlinear_arith);
}

/// The low bits of zero are zero bits.
pub proof fn lemma_from_nat_zero(w: nat)
    ensures
        from_nat(0, w) == fill(false, w),
    decreases w,
{
    if w == 0 {
        assert(from_nat(0, w) =~= fill(false, w));
    } else {
        lemma_from_nat_zero((w - 1) as nat);
        assert(from_nat(0, w) =~= fill(false, w));
    }
}

/// `x` moved up by `s` places, with zero bits coming in below.
pub open spec fn shift_up(x: Seq<bool>, s: nat) -> Seq<bool> {
    Seq::new(x.len(), |k: int| k >= s && x[k - s])
}

/// Moving up by `s` places multiplies by two to the `s`, where the top `s`
/// bits were zero.
pub proof fn lemma_shift_up_small(x: Seq<bool>, s: nat)
    requires
        s <= x.len(),
        forall|k: int| x.len() - s <= k < x.len() ==> !x[k],
    ensures
        to_nat(shift_up(x, s)) == pow2(s) * to_nat(x),
{
    let w = x.len();
    let body = x.subrange(0, w - s);
    assert(shift_up(x, s) =~= fill(false, s) + body);
    assert(x =~= body + fill(false, s));
    lemma_to_nat_concat(fill(false, s), body);
    lemma_to_nat_concat(body, fill(false, s));
    lemma_to_nat_zeros(s);
    assert(pow2(body.len()) * 0 == 0) by (nonlinear_arith);
}

} // verus!
