//! Modular arithmetic without overflow, for cyclic selection.

use vstd::prelude::*;

verus! {

/// The additive complement of `value` modulo `modulo`.
pub fn compliment(value: usize, modulo: usize) -> (r: usize)
    requires
        modulo > 0,
    ensures
        r == (modulo - value % modulo) % (modulo as int),
        r < modulo,
        (value + r) % (modulo as int) == 0,
{
    let r = (modulo - value % modulo) % modulo;
    proof {
        let m = modulo as int;
        let v = value as int;
        vstd::arithmetic::div_mod::lemma_fundamental_div_mod(v, m);
        vstd::arithmetic::div_mod::lemma_mod_bound(v, m);
        assert((v + (m - v % m) % m) % m == 0) by (nonlinear_arith)
            requires
                m > 0,
                0 <= v % m < m,
                v == m * (v / m) + v % m,
        ;
        assert(r as int == (m - v % m) % m);
    }
    r
}

/// `(augend + addend) % modulo`, computed without ever overflowing,
/// even when the mathematical sum does not fit the machine word.
pub fn add_mod(augend: usize, addend: usize, modulo: usize) -> (r: usize)
    requires
        modulo > 0,
    ensures
        r == (augend + addend) % (modulo as int),
{
    let m = modulo;
    let a = augend % m;
    let b = addend % m;
    proof {
        let mi = m as int;
        let ai = a as int;
        let bi = b as int;
        vstd::arithmetic::div_mod::lemma_mod_bound(augend as int, mi);
        vstd::arithmetic::div_mod::lemma_mod_bound(addend as int, mi);
        vstd::arithmetic::div_mod::lemma_add_mod_noop(augend as int, addend as int, mi);
        vstd::arithmetic::div_mod::lemma_small_mod((ai + bi) as nat, (2 * m) as nat);
        assert((ai + bi) % mi == (augend + addend) % mi);
    }
    let would_overflow = usize::MAX - b < a;
    if would_overflow {
        // the complements' sum fits: each is at most `m`, and the sum
        // `2 m - a - b` is under `m` because `a + b` exceeds `m`
        let ca = compliment(a, m);
        let cb = compliment(b, m);
        proof {
            let mi = m as int;
            let ai = a as int;
            let bi = b as int;
            assert(ai + bi > usize::MAX >= mi - 1);
            assert(ai < mi && bi < mi);
            assert(ai > 0 && bi > 0);
            assert(ai % mi == ai && bi % mi == bi) by {
                vstd::arithmetic::div_mod::lemma_small_mod(a as nat, m as nat);
                vstd::arithmetic::div_mod::lemma_small_mod(b as nat, m as nat);
            }
            assert(ca == mi - ai) by {
                vstd::arithmetic::div_mod::lemma_small_mod((mi - ai) as nat, m as nat);
            }
            assert(cb == mi - bi) by {
                vstd::arithmetic::div_mod::lemma_small_mod((mi - bi) as nat, m as nat);
            }
            assert(ca + cb <= mi);
            assert(mi <= ai + bi < 2 * mi);
            assert((ai + bi) % mi == ai + bi - mi) by (nonlinear_arith)
                requires
                    mi > 0,
                    mi <= ai + bi < 2 * mi,
            ;
        }
        m - (ca + cb)
    } else {
        proof {
            vstd::arithmetic::div_mod::lemma_mod_bound((a + b) as int, m as int);
        }
        (a + b) % m
    }
}

/// `(minuend - subtrahend) % modulo`, as a non-negative residue.
pub fn sub_mod(minuend: usize, subtrahend: usize, modulo: usize) -> (r: usize)
    requires
        modulo > 0,
    ensures
        r == (minuend - subtrahend) % (modulo as int),
{
    let c = compliment(subtrahend, modulo);
    let r = add_mod(minuend, c, modulo);
    proof {
        let m = modulo as int;
        let s = subtrahend as int;
        let v = minuend as int;
        let ci = c as int;
        vstd::arithmetic::div_mod::lemma_mod_equivalence(v + ci, v - s, m);
        assert((v + ci) - (v - s) == s + ci);
        assert((s + ci) % m == 0);
        assert((v + ci) % m == (v - s) % m);
    }
    r
}

} // verus!
