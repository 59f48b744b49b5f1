//! Algebraic facts about amplitudes and gates, proved over the same spec
//! functions that the executable contracts use.
use crate::complex::{can_multiply, mul_imag, mul_real, Complex, ONE};
use crate::gate::{dot_fits, dot_imag, dot_real, is_product, is_square, one, product_fits, zero};
use vstd::arithmetic::div_mod::lemma_div_multiples_vanish;
use vstd::prelude::*;

verus! {

/// The product `a * b` as an amplitude.
pub open spec fn product_of(a: Complex, b: Complex) -> Complex {
    Complex { re: mul_real(a, b) as i64, im: mul_imag(a, b) as i64 }
}

/// Both parts of `c` are whole numbers, that is multiples of `ONE`.
pub open spec fn is_whole(c: Complex) -> bool {
    c.re % ONE == 0 && c.im % ONE == 0
}

/// Multiplication of amplitudes is commutative.
pub proof fn lemma_multiply_commutative(a: Complex, b: Complex)
    ensures
        mul_real(a, b) == mul_real(b, a),
        mul_imag(a, b) == mul_imag(b, a),
{
    assert(a.re * b.re - a.im * b.im == b.re * a.re - b.im * a.im) by (nonlinear_arith);
    assert(a.re * b.im + a.im * b.re == b.re * a.im + b.im * a.re) by (nonlinear_arith);
}

proof fn lemma_scaled_product(d: int, u: int, v: int)
    ensures
        (d * u) * (d * v) == d * (d * (u * v)),
{
    assert((d * u) * (d * v) == d * (d * (u * v))) by (nonlinear_arith);
}

proof fn lemma_whole_product(a: Complex, b: Complex, x1: int, x2: int, y1: int, y2: int)
    requires
        a.re == ONE * x1,
        a.im == ONE * x2,
        b.re == ONE * y1,
        b.im == ONE * y2,
    ensures
        mul_real(a, b) == ONE * (x1 * y1 - x2 * y2),
        mul_imag(a, b) == ONE * (x1 * y2 + x2 * y1),
{
    let d = ONE as int;
    lemma_scaled_product(d, x1, y1);
    lemma_scaled_product(d, x2, y2);
    lemma_scaled_product(d, x1, y2);
    lemma_scaled_product(d, x2, y1);
    assert(d * (d * (x1 * y1)) - d * (d * (x2 * y2)) == d * (d * (x1 * y1 - x2 * y2)))
        by (nonlinear_arith);
    assert(d * (d * (x1 * y2)) + d * (d * (x2 * y1)) == d * (d * (x1 * y2 + x2 * y1)))
        by (nonlinear_arith);
    lemma_div_multiples_vanish(d * (x1 * y1 - x2 * y2), d);
    lemma_div_multiples_vanish(d * (x1 * y2 + x2 * y1), d);
}

/// Multiplication of whole amplitudes is associative: on such values no
/// rounding takes place, so both groupings give the same amplitude.
pub proof fn lemma_multiply_associative_whole(a: Complex, b: Complex, c: Complex)
    requires
        is_whole(a),
        is_whole(b),
        is_whole(c),
        can_multiply(a, b),
        can_multiply(b, c),
        can_multiply(product_of(a, b), c),
        can_multiply(a, product_of(b, c)),
    ensures
        product_of(product_of(a, b), c) == product_of(a, product_of(b, c)),
{
    let d = ONE as int;
    let (x1, x2) = (a.re as int / d, a.im as int / d);
    let (y1, y2) = (b.re as int / d, b.im as int / d);
    let (z1, z2) = (c.re as int / d, c.im as int / d);
    assert(a.re == d * x1 && a.im == d * x2);
    assert(b.re == d * y1 && b.im == d * y2);
    assert(c.re == d * z1 && c.im == d * z2);
    let ab = product_of(a, b);
    let bc = product_of(b, c);
    lemma_whole_product(a, b, x1, x2, y1, y2);
    lemma_whole_product(b, c, y1, y2, z1, z2);
    let (p1, p2) = (x1 * y1 - x2 * y2, x1 * y2 + x2 * y1);
    let (q1, q2) = (y1 * z1 - y2 * z2, y1 * z2 + y2 * z1);
    lemma_whole_product(ab, c, p1, p2, z1, z2);
    lemma_whole_product(a, bc, x1, x2, q1, q2);
    assert(p1 * z1 == x1 * y1 * z1 - x2 * y2 * z1) by (nonlinear_arith)
        requires
            p1 == x1 * y1 - x2 * y2,
    ;
    assert(p2 * z2 == x1 * y2 * z2 + x2 * y1 * z2) by (nonlinear_arith)
        requires
            p2 == x1 * y2 + x2 * y1,
    ;
    assert(x1 * q1 == x1 * y1 * z1 - x1 * y2 * z2) by (nonlinear_arith)
        requires
            q1 == y1 * z1 - y2 * z2,
    ;
    assert(x2 * q2 == x2 * y1 * z2 + x2 * y2 * z1) by (nonlinear_arith)
        requires
            q2 == y1 * z2 + y2 * z1,
    ;
    assert(p1 * z2 == x1 * y1 * z2 - x2 * y2 * z2) by (nonlinear_arith)
        requires
            p1 == x1 * y1 - x2 * y2,
    ;
    assert(p2 * z1 == x1 * y2 * z1 + x2 * y1 * z1) by (nonlinear_arith)
        requires
            p2 == x1 * y2 + x2 * y1,
    ;
    assert(x1 * q2 == x1 * y1 * z2 + x1 * y2 * z1) by (nonlinear_arith)
        requires
            q2 == y1 * z2 + y2 * z1,
    ;
    assert(x2 * q1 == x2 * y1 * z1 - x2 * y2 * z2) by (nonlinear_arith)
        requires
            q1 == y1 * z1 - y2 * z2,
    ;
}

proof fn lemma_times_one(x: Complex)
    ensures
        mul_real(one(), x) == x.re,
        mul_imag(one(), x) == x.im,
        can_multiply(one(), x),
{
    lemma_div_multiples_vanish(x.re as int, ONE as int);
    lemma_div_multiples_vanish(x.im as int, ONE as int);
}

proof fn lemma_times_zero(x: Complex)
    ensures
        mul_real(zero(), x) == 0,
        mul_imag(zero(), x) == 0,
        can_multiply(zero(), x),
{
}

proof fn lemma_identity_row(row: Seq<Complex>, v: Seq<Complex>, i: int, k: int)
    requires
        0 <= k <= v.len(),
        0 <= i < v.len(),
        row.len() == v.len(),
        forall|j: int| 0 <= j < v.len() ==> #[trigger] row[j] == if j == i {
            one()
        } else {
            zero()
        },
    ensures
        dot_fits(row, v, k),
        dot_real(row, v, k) == if i < k {
            v[i].re as int
        } else {
            0
        },
        dot_imag(row, v, k) == if i < k {
            v[i].im as int
        } else {
            0
        },
    decreases k,
{
    if k > 0 {
        lemma_identity_row(row, v, i, k - 1);
        lemma_times_one(v[k - 1]);
        lemma_times_zero(v[k - 1]);
    }
}

/// The identity gate (1 on the diagonal, 0 elsewhere) leaves every register
/// as it is: its product with `v` never overflows and is `v` itself.
pub proof fn lemma_identity_keeps_amplitudes(m: Seq<Seq<Complex>>, v: Seq<Complex>)
    requires
        is_square(m, v.len() as int),
        forall|i: int, j: int|
            0 <= i < v.len() && 0 <= j < v.len() ==> #[trigger] m[i][j] == if i == j {
                one()
            } else {
                zero()
            },
    ensures
        product_fits(m, v),
        is_product(m, v, v),
{
    assert forall|i: int| 0 <= i < m.len() implies dot_fits(#[trigger] m[i], v, v.len() as int)
        && dot_real(m[i], v, v.len() as int) == v[i].re && dot_imag(m[i], v, v.len() as int)
        == v[i].im by {
        assert(forall|j: int| 0 <= j < v.len() ==> #[trigger] m[i][j] == if j == i {
            one()
        } else {
            zero()
        });
        lemma_identity_row(m[i], v, i, v.len() as int);
    }
}

/// Sum of the real parts of `v[0..k]`.
pub open spec fn sum_real(v: Seq<Complex>, k: int) -> int
    decreases k,
{
    if k <= 0 {
        0
    } else {
        sum_real(v, k - 1) + v[k - 1].re
    }
}

/// Sum of the imaginary parts of `v[0..k]`.
pub open spec fn sum_imag(v: Seq<Complex>, k: int) -> int
    decreases k,
{
    if k <= 0 {
        0
    } else {
        sum_imag(v, k - 1) + v[k - 1].im
    }
}

proof fn lemma_pauli_x_row(row: Seq<Complex>, v: Seq<Complex>, i: int, k: int)
    requires
        0 <= k <= v.len(),
        0 <= i < v.len(),
        row.len() == v.len(),
        forall|j: int| 0 <= j < v.len() ==> #[trigger] row[j] == if j == i {
            zero()
        } else {
            one()
        },
    ensures
        dot_real(row, v, k) == sum_real(v, k) - if i < k {
            v[i].re as int
        } else {
            0
        },
        dot_imag(row, v, k) == sum_imag(v, k) - if i < k {
            v[i].im as int
        } else {
            0
        },
    decreases k,
{
    if k > 0 {
        lemma_pauli_x_row(row, v, i, k - 1);
        lemma_times_one(v[k - 1]);
        lemma_times_zero(v[k - 1]);
    }
}

proof fn lemma_sum_of_complements(v: Seq<Complex>, w: Seq<Complex>, s_re: int, s_im: int, k: int)
    requires
        0 <= k <= v.len(),
        w.len() == v.len(),
        forall|j: int|
            0 <= j < v.len() ==> (#[trigger] w[j]).re == s_re - v[j].re && w[j].im == s_im
                - v[j].im,
    ensures
        sum_real(w, k) == k * s_re - sum_real(v, k),
        sum_imag(w, k) == k * s_im - sum_imag(v, k),
    decreases k,
{
    if k > 0 {
        lemma_sum_of_complements(v, w, s_re, s_im, k - 1);
        assert(w[k - 1].re == s_re - v[k - 1].re && w[k - 1].im == s_im - v[k - 1].im);
        assert((k - 1) * s_re + s_re == k * s_re) by (nonlinear_arith);
        assert((k - 1) * s_im + s_im == k * s_im) by (nonlinear_arith);
        assert(sum_real(w, k) == sum_real(w, k - 1) + w[k - 1].re);
        assert(sum_real(v, k) == sum_real(v, k - 1) + v[k - 1].re);
    } else {
        assert(k * s_re == 0 && k * s_im == 0) by (nonlinear_arith)
            requires
                k == 0,
        ;
    }
}

/// Applying this library's Pauli-X of width `n` twice multiplies the
/// amplitudes by its square, the matrix with `n - 1` on the diagonal and
/// `n - 2` elsewhere: `u[i] = (n - 1) v[i] + (n - 2) (sum of the other v[j])`.
pub proof fn lemma_pauli_x_twice(
    m: Seq<Seq<Complex>>,
    v: Seq<Complex>,
    w: Seq<Complex>,
    u: Seq<Complex>,
)
    requires
        is_square(m, v.len() as int),
        forall|i: int, j: int|
            0 <= i < v.len() && 0 <= j < v.len() ==> #[trigger] m[i][j] == if i == j {
                zero()
            } else {
                one()
            },
        is_product(m, v, w),
        is_product(m, w, u),
    ensures
        u.len() == v.len(),
        forall|i: int|
            0 <= i < v.len() ==> (#[trigger] u[i]).re == (v.len() - 1) * v[i].re + (v.len() - 2)
                * (sum_real(v, v.len() as int) - v[i].re) && u[i].im == (v.len() - 1) * v[i].im + (
            v.len() - 2) * (sum_imag(v, v.len() as int) - v[i].im),
{
    let n = v.len() as int;
    let s_re = sum_real(v, n);
    let s_im = sum_imag(v, n);
    assert forall|i: int| 0 <= i < n implies (#[trigger] w[i]).re == s_re - v[i].re && w[i].im
        == s_im - v[i].im by {
        assert(forall|j: int| 0 <= j < n ==> #[trigger] m[i][j] == if j == i {
            zero()
        } else {
            one()
        });
        lemma_pauli_x_row(m[i], v, i, n);
    }
    lemma_sum_of_complements(v, w, s_re, s_im, n);
    assert forall|i: int| 0 <= i < n implies (#[trigger] u[i]).re == (n - 1) * v[i].re + (n - 2) * (
    s_re - v[i].re) && u[i].im == (n - 1) * v[i].im + (n - 2) * (s_im - v[i].im) by {
        assert(forall|j: int| 0 <= j < n ==> #[trigger] m[i][j] == if j == i {
            zero()
        } else {
            one()
        });
        lemma_pauli_x_row(m[i], w, i, n);
        assert(w[i].re == s_re - v[i].re && w[i].im == s_im - v[i].im);
        let (a, b) = (v[i].re as int, v[i].im as int);
        assert(n * s_re - s_re - (s_re - a) == (n - 1) * a + (n - 2) * (s_re - a))
            by (nonlinear_arith);
        assert(n * s_im - s_im - (s_im - b) == (n - 1) * b + (n - 2) * (s_im - b))
            by (nonlinear_arith);
    }
}

} // verus!
