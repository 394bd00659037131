//! Modular index arithmetic: the mathematical remainder, which is never
//! negative, and the two steps along one axis of a torus.

use vstd::prelude::*;

verus! {

/// The remainder of `a` by a positive `n`: the one value in `[0, n)` that
/// differs from `a` by a multiple of `n`.
pub open spec fn modulo(a: int, n: int) -> int
    recommends
        n > 0,
{
    a % n
}

/// `modulo` stays in `[0, n)`, and moving `a` by `n` does not change it.
pub proof fn lemma_modulo_range(a: int, n: int)
    requires
        n > 0,
    ensures
        0 <= modulo(a, n) < n,
        0 <= a < n ==> modulo(a, n) == a,
        modulo(a + n, n) == modulo(a, n),
        modulo(a - n, n) == modulo(a, n),
{
    assert(0 <= a % n < n);
    assert((a + n) % n == a % n) by (nonlinear_arith)
        requires
            n > 0,
    ;
    assert((a - n) % n == a % n) by (nonlinear_arith)
        requires
            n > 0,
    ;
    if 0 <= a < n {
        assert(a % n == a) by (nonlinear_arith)
            requires
                0 <= a < n,
        ;
    }
}

/// The remainder that rounds towards zero differs from `modulo` by a
/// multiple of `n`: it is `modulo` itself for `a >= 0`, and otherwise the
/// negated remainder of `-a`.
proof fn lemma_truncated_remainder(a: int, n: int)
    requires
        n > 0,
    ensures
        a >= 0 ==> modulo(a % n, n) == modulo(a, n),
        a < 0 ==> modulo(-((-a) % n), n) == modulo(a, n),
{
    if a >= 0 {
        lemma_modulo_range(a % n, n);
    } else {
        let k = (-a) % n;
        assert((-k) % n == a % n) by (nonlinear_arith)
            requires
                n > 0,
                k == (-a) % n,
        ;
    }
}

/// `a` modulo `b`, as an index: `((a % b) + b) % b`, computed wide enough
/// that the middle sum cannot overflow.
pub fn m(a: i16, b: i16) -> (r: usize)
    requires
        b > 0,
    ensures
        r == modulo(a as int, b as int),
        r < b,
{
    let wide_a: i32 = a as i32;
    let wide_b: i32 = b as i32;
    let rem: i32 = wide_a % wide_b;
    let shifted: i32 = rem + wide_b;
    let r: i32 = shifted % wide_b;
    proof {
        lemma_modulo_range(rem as int, wide_b as int);
        lemma_truncated_remainder(a as int, b as int);
    }
    r as usize
}

/// One step back or forth from an index `i` of an axis of length `n`: the
/// step wraps at the two ends and is otherwise plain.
pub proof fn lemma_modulo_step(i: int, n: int)
    requires
        0 <= i < n,
    ensures
        modulo(i - 1, n) == if i == 0 { n - 1 } else { i - 1 },
        modulo(i + 1, n) == if i == n - 1 { 0 } else { i + 1 },
{
    if i == 0 {
        lemma_modulo_range(i - 1 + n, n);
        lemma_modulo_range(i - 1, n);
    } else {
        lemma_modulo_range(i - 1, n);
    }
    if i == n - 1 {
        lemma_modulo_range(i + 1 - n, n);
        lemma_modulo_range(i + 1, n);
    } else {
        lemma_modulo_range(i + 1, n);
    }
}

/// The index before `i` on an axis of length `n`; before index 0 comes the
/// last.
pub fn before(i: usize, n: usize) -> (r: usize)
    requires
        i < n,
    ensures
        r == modulo(i - 1, n as int),
        r < n,
{
    proof {
        lemma_modulo_step(i as int, n as int);
    }
    if i == 0 {
        n - 1
    } else {
        i - 1
    }
}

/// The index after `i` on an axis of length `n`; after the last comes
/// index 0.
pub fn after(i: usize, n: usize) -> (r: usize)
    requires
        i < n,
    ensures
        r == modulo(i + 1, n as int),
        r < n,
{
    proof {
        lemma_modulo_step(i as int, n as int);
    }
    if i == n - 1 {
        0
    } else {
        i + 1
    }
}

} // verus!
