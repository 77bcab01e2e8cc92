//! Digit sequences in an arbitrary radix: their values, the canonical
//! positional and bijective digit sequences of a number, and in-place
//! multiply-add on both kinds of sequence.
use vstd::arithmetic::div_mod::{
    lemma_div_is_strictly_smaller, lemma_fundamental_div_mod, lemma_fundamental_div_mod_converse,
};
use vstd::prelude::*;

verus! {

/// A radix that a digit alphabet can have: at least two digits, and no more
/// than an index can count.
pub open spec fn radix_ok(b: nat) -> bool {
    2 <= b <= usize::MAX
}

/// Value of a digit sequence read most significant digit first.
pub open spec fn value_msf(ds: Seq<usize>, b: nat) -> nat
    decreases ds.len(),
{
    if ds.len() == 0 {
        0
    } else {
        value_msf(ds.drop_last(), b) * b + ds.last() as nat
    }
}

/// Value of a digit sequence read least significant digit first.
pub open spec fn value_lsf(ds: Seq<usize>, b: nat) -> nat
    decreases ds.len(),
{
    if ds.len() == 0 {
        0
    } else {
        ds[0] as nat + b * value_lsf(ds.drop_first(), b)
    }
}

/// The positional digits of `n` in radix `b`, each below `b`, least
/// significant first and with no leading zero; zero has no digits.
pub open spec fn digits_lsf(n: nat, b: nat) -> Seq<usize>
    decreases n,
{
    if n == 0 || b < 2 {
        seq![]
    } else {
        proof {
            lemma_div_is_strictly_smaller(n as int, b as int);
        }
        seq![(n % b) as usize] + digits_lsf(n / b, b)
    }
}

/// The bijective digits of `n` in radix `b`, each between 1 and `b`, least
/// significant first; zero has no digits.
pub open spec fn bijective_lsf(n: nat, b: nat) -> Seq<usize>
    decreases n,
{
    if n == 0 || b < 2 {
        seq![]
    } else {
        proof {
            if n > 1 {
                lemma_div_is_strictly_smaller((n - 1) as int, b as int);
            }
        }
        seq![(((n - 1) as nat % b) + 1) as usize] + bijective_lsf((n - 1) as nat / b, b)
    }
}

/// Reading a sequence most significant first gives what reading its
/// reverse least significant first gives.
pub proof fn lemma_msf_is_reversed_lsf(ds: Seq<usize>, b: nat)
    ensures
        value_msf(ds, b) == value_lsf(ds.reverse(), b),
    decreases ds.len(),
{
    if ds.len() == 0 {
        assert(ds.reverse() =~= seq![]);
    } else {
        let p = ds.drop_last();
        lemma_msf_is_reversed_lsf(p, b);
        assert(ds.reverse().drop_first() =~= p.reverse());
        assert(ds.reverse()[0] == ds.last());
        assert(value_msf(p, b) * b == b * value_msf(p, b)) by (nonlinear_arith);
    }
}

/// The positional digits of `n` have value `n`.
pub proof fn lemma_digits_value(n: nat, b: nat)
    requires
        radix_ok(b),
    ensures
        value_lsf(digits_lsf(n, b), b) == n,
    decreases n,
{
    if n > 0 {
        lemma_div_is_strictly_smaller(n as int, b as int);
        lemma_digits_value(n / b, b);
        lemma_fundamental_div_mod(n as int, b as int);
        let ds = digits_lsf(n, b);
        assert(ds.drop_first() =~= digits_lsf(n / b, b));
    }
}

/// A number with no positional digits is zero.
pub proof fn lemma_no_digits_is_zero(n: nat, b: nat)
    requires
        radix_ok(b),
        digits_lsf(n, b).len() == 0,
    ensures
        n == 0,
{
    if n > 0 {
        assert(digits_lsf(n, b).len() >= 1);
    }
}

/// A sequence of digits between 1 and `b` is the bijective digit sequence
/// of its value: bijective numerals are unique.
pub proof fn lemma_bijective_unique(x: Seq<usize>, b: nat)
    requires
        radix_ok(b),
        forall|i: int| 0 <= i < x.len() ==> 1 <= #[trigger] x[i] <= b,
    ensures
        bijective_lsf(value_lsf(x, b), b) == x,
    decreases x.len(),
{
    if x.len() == 0 {
        assert(bijective_lsf(0, b) =~= x);
    } else {
        let rest = x.drop_first();
        let m = value_lsf(rest, b);
        lemma_bijective_unique(rest, b);
        let n = value_lsf(x, b);
        assert(n == x[0] + b * m);
        assert((n - 1) == m * b + (x[0] - 1)) by (nonlinear_arith)
            requires
                n == x[0] + b * m,
        ;
        lemma_fundamental_div_mod_converse(n - 1, b as int, m as int, x[0] - 1);
        assert(bijective_lsf(n, b) =~= seq![x[0]] + rest);
        assert(seq![x[0]] + rest =~= x);
    }
}

/// Regrouping `rest * a + c` around radix `b`, where `rest = x * b + r` and
/// `r * a + c = y * b + z`.
proof fn lemma_regroup(rest: int, a: int, c: int, b: int, x: int, r: int, y: int, z: int)
    requires
        rest == b * x + r,
        r * a + c == b * y + z,
    ensures
        rest * a + c == (x * a + y) * b + z,
{
    assert(rest * a == b * x * a + r * a) by (nonlinear_arith)
        requires
            rest == b * x + r,
    ;
    assert((x * a + y) * b == b * x * a + b * y) by (nonlinear_arith);
}

/// One step of a positional multiply-add: the lowest digit of `rest * a +
/// carry` and what remains to be added above it.
pub proof fn lemma_positional_step(rest: nat, a: nat, carry: nat, b: nat)
    requires
        radix_ok(b),
        rest > 0,
        a >= 1,
    ensures
        ({
            let t = (rest % b) * a + carry;
            digits_lsf(rest * a + carry, b) == seq![(t % b) as usize] + digits_lsf(
                (rest / b) * a + t / b,
                b,
            )
        }),
{
    let t = (rest % b) * a + carry;
    let n = rest * a + carry;
    lemma_fundamental_div_mod(rest as int, b as int);
    lemma_fundamental_div_mod(t as int, b as int);
    let q = (rest / b) * a + t / b;
    lemma_regroup(rest as int, a as int, carry as int, b as int, (rest / b) as int, (rest % b) as int, (t / b) as int, (t % b) as int);
    assert(n >= rest) by (nonlinear_arith)
        requires
            n == rest * a + carry,
            a >= 1,
    ;
    lemma_fundamental_div_mod_converse(n as int, b as int, q as int, (t % b) as int);
}

/// One step of a bijective multiply-add: the lowest digit of `rest * a +
/// carry` and what remains to be added above it.
pub proof fn lemma_bijective_step(rest: nat, a: nat, carry: nat, b: nat)
    requires
        radix_ok(b),
        rest > 0,
        a >= 1,
    ensures
        ({
            let t = ((rest - 1) as nat % b + 1) * a + carry;
            &&& t >= 1
            &&& bijective_lsf(rest * a + carry, b) == seq![
                (((t - 1) as nat % b) + 1) as usize,
            ] + bijective_lsf(((rest - 1) as nat / b) * a + (t - 1) as nat / b, b)
        }),
{
    let r1 = (rest - 1) as nat;
    let bd = r1 % b + 1;
    let t = bd * a + carry;
    let n = rest * a + carry;
    lemma_fundamental_div_mod(r1 as int, b as int);
    assert(t >= 1) by (nonlinear_arith)
        requires
            t == bd * a + carry,
            bd >= 1,
            a >= 1,
    ;
    let t1 = (t - 1) as nat;
    lemma_fundamental_div_mod(t1 as int, b as int);
    let q = (r1 / b) * a + t1 / b;
    lemma_regroup(rest as int, a as int, carry as int - 1, b as int, (r1 / b) as int, (r1 % b) as int + 1, (t1 / b) as int, (t1 % b) as int);
    assert(n >= rest) by (nonlinear_arith)
        requires
            n == rest * a + carry,
            a >= 1,
    ;
    lemma_fundamental_div_mod_converse(n - 1, b as int, q as int, (t1 % b) as int);
}

/// Turns the positional digits of `m` in radix `b` into those of `m * a + c`.
pub(crate) fn mul_add_positional(limbs: &mut Vec<usize>, a: usize, c: usize, b: usize, Ghost(m): Ghost<nat>)
    requires
        radix_ok(b as nat),
        1 <= a,
        c <= a,
        old(limbs)@ == digits_lsf(m, b as nat),
    ensures
        final(limbs)@ == digits_lsf(m * (a as nat) + (c as nat), b as nat),
{
    let ghost target = digits_lsf(m * (a as nat) + (c as nat), b as nat);
    let ghost mut rest: nat = m;
    let mut carry: u128 = c as u128;
    let mut i: usize = 0;
    while i < limbs.len()
        invariant
            radix_ok(b as nat),
            1 <= a,
            carry <= a,
            i <= limbs.len(),
            limbs@.subrange(i as int, limbs.len() as int) == digits_lsf(rest, b as nat),
            limbs@.subrange(0, i as int) + digits_lsf(rest * (a as nat) + (carry as nat), b as nat) == target,
        decreases limbs.len() - i,
    {
        let ghost old_limbs = limbs@;
        let ghost old_rest = rest;
        let ghost old_carry = carry;
        proof {
            assert(rest > 0) by {
                if rest == 0 {
                    assert(digits_lsf(rest, b as nat).len() == 0);
                }
            }
            lemma_positional_step(rest, a as nat, carry as nat, b as nat);
            assert(limbs@.subrange(i as int, limbs.len() as int)[0] == limbs[i as int]);
            assert(limbs[i as int] == rest % (b as nat));
            let ai = a as int;
            let bi = b as int;
            vstd::arithmetic::mul::lemma_mul_inequality((rest % (b as nat)) as int, bi - 1, ai);
            assert((bi - 1) * ai + ai == bi * ai) by (nonlinear_arith);
            assert((b as nat) * (a as nat) <= usize::MAX * usize::MAX) by (nonlinear_arith)
                requires b <= usize::MAX, a <= usize::MAX;
        }
        let t: u128 = (limbs[i] as u128) * (a as u128) + carry;
        proof {
            vstd::arithmetic::div_mod::lemma_div_is_ordered(t as int, ((b as nat) * (a as nat)) as int, b as int);
            vstd::arithmetic::div_mod::lemma_div_multiples_vanish(a as int, b as int);
        }
        limbs.set(i, (t % (b as u128)) as usize);
        carry = t / (b as u128);
        proof {
            rest = rest / (b as nat);
            assert(limbs@.subrange(i + 1, limbs.len() as int) =~= old_limbs.subrange(i as int, limbs.len() as int).drop_first());
            assert(limbs@.subrange(0, i + 1) =~= limbs@.subrange(0, i as int).push(limbs[i as int]));
            assert(limbs@.subrange(0, i as int) =~= old_limbs.subrange(0, i as int));
            assert(limbs@.subrange(0, i + 1) + digits_lsf(rest * (a as nat) + (carry as nat), b as nat) =~= old_limbs.subrange(0, i as int) + digits_lsf(old_rest * (a as nat) + (old_carry as nat), b as nat));
        }
        i = i + 1;
    }
    proof {
        assert(digits_lsf(rest, b as nat) =~= limbs@.subrange(limbs.len() as int, limbs.len() as int));
        lemma_no_digits_is_zero(rest, b as nat);
        assert(rest == 0);
        assert(rest * (a as nat) == 0) by (nonlinear_arith)
            requires
                rest == 0,
        ;
        assert(limbs@.subrange(0, limbs.len() as int) =~= limbs@);
    }
    while carry > 0
        invariant
            radix_ok(b as nat),
            limbs@ + digits_lsf(carry as nat, b as nat) == target,
        decreases carry,
    {
        let ghost old_limbs = limbs@;
        let ghost old_carry = carry;
        limbs.push((carry % (b as u128)) as usize);
        carry = carry / (b as u128);
        proof {
            assert(limbs@ + digits_lsf(carry as nat, b as nat) =~= old_limbs + digits_lsf(old_carry as nat, b as nat));
        }
    }
    proof {
        assert(limbs@ + digits_lsf(0, b as nat) =~= limbs@);
    }
}

/// Turns the bijective digits of `m` in radix `b` into those of `m * a + c`.
pub(crate) fn mul_add_bijective(limbs: &mut Vec<usize>, a: usize, c: usize, b: usize, Ghost(m): Ghost<nat>)
    requires
        radix_ok(b as nat),
        radix_ok(a as nat),
        c < a,
        old(limbs)@ == bijective_lsf(m, b as nat),
    ensures
        final(limbs)@ == bijective_lsf(m * (a as nat) + (c as nat), b as nat),
{
    let ghost target = bijective_lsf(m * (a as nat) + (c as nat), b as nat);
    let ghost mut rest: nat = m;
    let mut carry: u128 = c as u128;
    let mut i: usize = 0;
    while i < limbs.len()
        invariant
            radix_ok(b as nat),
            radix_ok(a as nat),
            carry <= 2 * a,
            i <= limbs.len(),
            limbs@.subrange(i as int, limbs.len() as int) == bijective_lsf(rest, b as nat),
            limbs@.subrange(0, i as int) + bijective_lsf(rest * (a as nat) + (carry as nat), b as nat)
                == target,
        decreases limbs.len() - i,
    {
        let ghost old_limbs = limbs@;
        let ghost old_rest = rest;
        let ghost old_carry = carry;
        proof {
            assert(rest > 0) by {
                if rest == 0 {
                    assert(bijective_lsf(rest, b as nat).len() == 0);
                }
            }
            lemma_bijective_step(rest, a as nat, carry as nat, b as nat);
            assert(limbs@.subrange(i as int, limbs.len() as int)[0] == limbs[i as int]);
            let ai = a as int;
            let bi = b as int;
            let li = limbs[i as int] as int;
            assert(1 <= li <= bi);
            vstd::arithmetic::mul::lemma_mul_inequality(li, bi, ai);
            assert(bi * ai + 2 * ai <= usize::MAX * usize::MAX + 2 * usize::MAX) by (nonlinear_arith)
                requires
                    bi <= usize::MAX,
                    ai <= usize::MAX,
                    bi >= 0,
                    ai >= 0,
            ;
            assert(usize::MAX * usize::MAX + 2 * usize::MAX <= u128::MAX) by (nonlinear_arith)
                requires
                    usize::MAX <= 0xffff_ffff_ffff_ffff,
            ;
            assert(li * ai >= 1) by (nonlinear_arith)
                requires
                    li >= 1,
                    ai >= 1,
            ;
        }
        let t: u128 = (limbs[i] as u128) * (a as u128) + carry;
        let t1: u128 = t - 1;
        proof {
            let ai = a as int;
            let bi = b as int;
            assert(2 * ai - 1 < bi * ai) by (nonlinear_arith)
                requires
                    bi >= 2,
                    ai >= 1,
            ;
            assert(t1 < bi * (2 * ai)) by (nonlinear_arith)
                requires
                    t1 <= bi * ai + 2 * ai - 1,
                    2 * ai - 1 < bi * ai,
            ;
            vstd::arithmetic::div_mod::lemma_multiply_divide_lt(t1 as int, bi, 2 * ai);
        }
        limbs.set(i, (t1 % (b as u128)) as usize + 1);
        carry = t1 / (b as u128);
        proof {
            rest = ((rest - 1) as nat) / (b as nat);
            assert(limbs@.subrange(i + 1, limbs.len() as int) =~= old_limbs.subrange(
                i as int,
                limbs.len() as int,
            ).drop_first());
            assert(limbs@.subrange(0, i + 1) =~= limbs@.subrange(0, i as int).push(limbs[i as int]));
            assert(limbs@.subrange(0, i as int) =~= old_limbs.subrange(0, i as int));
            assert(limbs@.subrange(0, i + 1) + bijective_lsf(rest * (a as nat) + (carry as nat), b as nat)
                =~= old_limbs.subrange(0, i as int) + bijective_lsf(
                old_rest * (a as nat) + (old_carry as nat),
                b as nat,
            ));
        }
        i = i + 1;
    }
    proof {
        assert(bijective_lsf(rest, b as nat) =~= limbs@.subrange(
            limbs.len() as int,
            limbs.len() as int,
        ));
        if rest > 0 {
            assert(bijective_lsf(rest, b as nat).len() >= 1);
        }
        assert(rest * (a as nat) == 0) by (nonlinear_arith)
            requires
                rest == 0,
        ;
        assert(limbs@.subrange(0, limbs.len() as int) =~= limbs@);
    }
    while carry > 0
        invariant
            radix_ok(b as nat),
            limbs@ + bijective_lsf(carry as nat, b as nat) == target,
        decreases carry,
    {
        let ghost old_limbs = limbs@;
        let ghost old_carry = carry;
        let c1: u128 = carry - 1;
        limbs.push((c1 % (b as u128)) as usize + 1);
        carry = c1 / (b as u128);
        proof {
            assert(limbs@ + bijective_lsf(carry as nat, b as nat) =~= old_limbs + bijective_lsf(
                old_carry as nat,
                b as nat,
            ));
        }
    }
    proof {
        assert(limbs@ + bijective_lsf(0, b as nat) =~= limbs@);
    }
}

} // verus!
