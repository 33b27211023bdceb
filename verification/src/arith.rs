//! Facts of modular arithmetic that the ring positions rely on.

use vstd::arithmetic::div_mod::*;
use vstd::arithmetic::mul::*;
use vstd::prelude::*;

verus! {

/// Position `index + i` of a ring of `n` slots lies `i` slots after `index`,
/// wrapping around once at most.
pub proof fn lemma_ring_offset(index: int, i: int, n: int)
    requires
        n > 0,
        index >= 0,
        0 <= i < n,
    ensures
        index % n + i < n ==> (index + i) % n == index % n + i,
        index % n + i >= n ==> (index + i) % n == index % n + i - n,
{
    lemma_fundamental_div_mod(index, n);
    let q = index / n;
    let r = index % n;
    assert(index + i == q * n + (r + i)) by (nonlinear_arith)
        requires
            index == n * q + r,
    ;
    if r + i < n {
        lemma_fundamental_div_mod_converse_mod(index + i, n, q, r + i);
    } else {
        assert(index + i == (q + 1) * n + (r + i - n)) by (nonlinear_arith)
            requires
                index + i == q * n + (r + i),
        ;
        lemma_fundamental_div_mod_converse_mod(index + i, n, q + 1, r + i - n);
    }
}

/// Two distinct positions closer than `n` to each other fall in distinct
/// slots of a ring of `n` slots.
pub proof fn lemma_ring_distinct(p: int, q: int, n: int)
    requires
        n > 0,
        p != q,
        p - q < n,
        q - p < n,
    ensures
        p % n != q % n,
{
    if p % n == q % n {
        lemma_fundamental_div_mod(p, n);
        lemma_fundamental_div_mod(q, n);
        let a = p / n;
        let b = q / n;
        assert(p - q == n * (a - b)) by (nonlinear_arith)
            requires
                p == n * a + p % n,
                q == n * b + q % n,
                p % n == q % n,
        ;
        if a - b >= 1 {
            lemma_mul_inequality(1, a - b, n);
            lemma_mul_is_commutative(a - b, n);
        } else if a - b <= -1 {
            lemma_mul_inequality(1, b - a, n);
            lemma_mul_is_commutative(b - a, n);
            assert(n * (b - a) == -(n * (a - b))) by (nonlinear_arith);
        } else {
            assert(a - b == 0);
            assert(n * 0 == 0) by (nonlinear_arith);
        }
    }
}

/// `m` is a multiple of both `a` and `b`.
pub open spec fn is_common_multiple(m: int, a: int, b: int) -> bool {
    m % a == 0 && m % b == 0
}

/// A multiple of a multiple of `a` is a multiple of `a`.
pub proof fn lemma_multiple_of_multiple(q: int, l: int, a: int)
    requires
        a > 0,
        l % a == 0,
    ensures
        (q * l) % a == 0,
{
    lemma_mul_mod_noop_right(q, l, a);
    assert(q * 0 == 0) by (nonlinear_arith);
    lemma_mod_self_0(a);
    lemma_small_mod(0, a as nat);
}

/// The difference of two multiples of `a` is a multiple of `a`.
pub proof fn lemma_difference_of_multiples(x: int, y: int, a: int)
    requires
        a > 0,
        x % a == 0,
        y % a == 0,
    ensures
        (x - y) % a == 0,
{
    lemma_sub_mod_noop(x, y, a);
    lemma_small_mod(0, a as nat);
}

/// Every positive common multiple of `a` and `b` is a multiple of their
/// least common multiple `l`.
pub proof fn lemma_common_multiple_of_lcm(m: int, a: int, b: int, l: int)
    requires
        a > 0,
        b > 0,
        l > 0,
        is_common_multiple(l, a, b),
        forall|k: int| k > 0 && #[trigger] is_common_multiple(k, a, b) ==> l <= k,
        m > 0,
        is_common_multiple(m, a, b),
    ensures
        m % l == 0,
{
    lemma_fundamental_div_mod(m, l);
    let q = m / l;
    let r = m % l;
    assert(r == m - q * l) by (nonlinear_arith)
        requires
            m == l * q + r,
    ;
    lemma_multiple_of_multiple(q, l, a);
    lemma_multiple_of_multiple(q, l, b);
    lemma_difference_of_multiples(m, q * l, a);
    lemma_difference_of_multiples(m, q * l, b);
    assert(is_common_multiple(r, a, b));
    lemma_mod_pos_bound(m, l);
    if r > 0 {
        assert(l <= r);
    }
}

} // verus!
