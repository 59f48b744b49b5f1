//! Fixed-point complex amplitudes and their arithmetic.
use rand::rngs::ThreadRng;
use rand::Rng;
use vstd::arithmetic::div_mod::lemma_fundamental_div_mod;
use vstd::arithmetic::div_mod::lemma_fundamental_div_mod_converse;
use vstd::arithmetic::div_mod::lemma_div_is_ordered;
use vstd::prelude::*;

verus! {

/// The fixed-point unit: a component equal to `ONE` stands for 1.
pub const ONE: i64 = 4294967296;

/// Half of `ONE`, that is 0.5.
pub const HALF: i64 = 2147483648;

/// A complex amplitude `real + imaginary * i`, both parts in units of `1 / ONE`.
#[derive(Clone, Copy, Debug, PartialEq, Eq, Structural)]
pub struct Complex {
    pub re: i64,
    pub im: i64,
}

/// Brings a product of two fixed-point values back to the unit `1 / ONE`,
/// rounding down.
pub open spec fn rescale(x: int) -> int {
    x / (ONE as int)
}

/// Whether an integer can be held by a component.
pub open spec fn fits(x: int) -> bool {
    i64::MIN <= x <= i64::MAX
}

/// Real part of the product `a * b`.
pub open spec fn mul_real(a: Complex, b: Complex) -> int {
    rescale(a.re * b.re - a.im * b.im)
}

/// Imaginary part of the product `a * b`.
pub open spec fn mul_imag(a: Complex, b: Complex) -> int {
    rescale(a.re * b.im + a.im * b.re)
}

/// Whether both parts of `a * b` can be held by a `Complex`.
pub open spec fn can_multiply(a: Complex, b: Complex) -> bool {
    fits(mul_real(a, b)) && fits(mul_imag(a, b))
}

/// The squared modulus of `c`, in units of `1 / ONE`.
pub open spec fn norm_sq(c: Complex) -> int {
    rescale(c.re * c.re + c.im * c.im)
}

/// The thread-local generator of rand, carried through opaquely.
#[verifier::external_type_specification]
#[verifier::external_body]
pub struct ExThreadRng(ThreadRng);

/// Relies on rand's `Rng::gen_range` over an integer range, which returns a
/// value `v` with `low <= v < high`.
#[verifier::external_body]
fn draw_below_one(rng: &mut ThreadRng) -> (r: i64)
    ensures
        0 <= r < ONE,
{
    rng.gen_range(0..ONE)
}

proof fn lemma_product_bounds(x: i64, y: i64)
    ensures
        -0x4000_0000_0000_0000_0000_0000_0000_0000 + 0x8000_0000_0000_0000 <= x * y,
        x * y <= 0x4000_0000_0000_0000_0000_0000_0000_0000,
{
    assert(-0x8000_0000_0000_0000 <= x <= 0x7fff_ffff_ffff_ffff);
    assert(-0x8000_0000_0000_0000 <= y <= 0x7fff_ffff_ffff_ffff);
    assert(-0x4000_0000_0000_0000_0000_0000_0000_0000 + 0x8000_0000_0000_0000 <= x * y
        <= 0x4000_0000_0000_0000_0000_0000_0000_0000) by (nonlinear_arith)
        requires
            -0x8000_0000_0000_0000 <= x <= 0x7fff_ffff_ffff_ffff,
            -0x8000_0000_0000_0000 <= y <= 0x7fff_ffff_ffff_ffff,
    ;
}

proof fn lemma_floor_of_negative(x: int, n: int, d: int)
    requires
        x < 0,
        n == -x,
        d > 0,
    ensures
        x / d == -((n + d - 1) / d),
{
    lemma_fundamental_div_mod(x, d);
    let k = x / d;
    let r = x % d;
    assert(n + d - 1 == (-k) * d + (d - 1 - r)) by (nonlinear_arith)
        requires
            x == d * k + r,
            n == -x,
    ;
    lemma_fundamental_div_mod_converse(n + d - 1, d, -k, d - 1 - r);
}

/// `rescale(x)` when it fits a component, `None` otherwise.
fn rescale_checked(x: i128) -> (r: Option<i64>)
    requires
        x > i128::MIN,
    ensures
        r.is_some() <==> fits(rescale(x as int)),
        r.is_some() ==> r.unwrap() == rescale(x as int),
{
    let d: u128 = ONE as u128;
    let q: i128;
    if x >= 0 {
        q = (x as u128 / d) as i128;
    } else {
        let n: u128 = (-x) as u128;
        let up: u128 = (n + (d - 1)) / d;
        proof {
            lemma_floor_of_negative(x as int, n as int, d as int);
        }
        q = -(up as i128);
    }
    if i64::MIN as i128 <= q && q <= i64::MAX as i128 {
        Some(q as i64)
    } else {
        None
    }
}

impl Complex {
    /// The amplitude `real + imaginary * i`.
    pub fn new(re: i64, im: i64) -> (r: Complex)
        ensures
            r.re == re,
            r.im == im,
    {
        Complex { re, im }
    }

    /// The real part, in units of `1 / ONE`.
    pub fn real_part(&self) -> (r: i64)
        ensures
            r == self.re,
    {
        self.re
    }

    /// The imaginary part, in units of `1 / ONE`.
    pub fn imaginary(&self) -> (r: i64)
        ensures
            r == self.im,
    {
        self.im
    }

    /// The squared modulus `real² + imaginary²`, in units of `1 / ONE`.
    pub fn normalized_squared(&self) -> (r: u128)
        ensures
            r == norm_sq(*self),
    {
        let re: i128 = self.re as i128;
        let im: i128 = self.im as i128;
        proof {
            lemma_product_bounds(self.re, self.re);
            lemma_product_bounds(self.im, self.im);
            assert(re * re >= 0) by (nonlinear_arith);
            assert(im * im >= 0) by (nonlinear_arith);
        }
        let sum: u128 = (re * re) as u128 + (im * im) as u128;
        sum / (ONE as u128)
    }

    /// An amplitude whose real part is drawn uniformly from `[0, 1)` and whose
    /// imaginary part is zero.
    pub fn random(rng: &mut ThreadRng) -> (r: Complex)
        ensures
            0 <= r.re < ONE,
            r.im == 0,
    {
        Complex::new(draw_below_one(rng), 0)
    }

    /// The product `a * b`, or `None` when a part of it does not fit a component.
    pub fn checked_multiply(a: Complex, b: Complex) -> (r: Option<Complex>)
        ensures
            r.is_some() <==> can_multiply(a, b),
            r.is_some() ==> r.unwrap().re == mul_real(a, b) && r.unwrap().im
                == mul_imag(a, b),
    {
        let ar: i128 = a.re as i128;
        let ai: i128 = a.im as i128;
        let br: i128 = b.re as i128;
        let bi: i128 = b.im as i128;
        proof {
            lemma_product_bounds(a.re, b.re);
            lemma_product_bounds(a.im, b.im);
            lemma_product_bounds(a.re, b.im);
            lemma_product_bounds(a.im, b.re);
        }
        let re_raw: i128 = ar * br - ai * bi;
        let im_raw: i128 = match (ar * bi).checked_add(ai * br) {
            Some(s) => s,
            None => {
                proof {
                    let big: int = 0x8000_0000_0000_0000_0000_0000_0000_0000;
                    lemma_div_is_ordered(big, ar * bi + ai * br, ONE as int);
                    assert(big / (ONE as int) == 0x8000_0000_0000_0000_0000_0000);
                }
                return None;
            },
        };
        let re = match rescale_checked(re_raw) {
            Some(v) => v,
            None => {
                return None;
            },
        };
        let im = match rescale_checked(im_raw) {
            Some(v) => v,
            None => {
                return None;
            },
        };
        Some(Complex { re, im })
    }

    /// The product `a * b`: `(ar*br − ai*bi, ar*bi + ai*br)`, rescaled to the unit.
    pub fn multiply(a: Complex, b: Complex) -> (r: Complex)
        requires
            can_multiply(a, b),
        ensures
            r.re == mul_real(a, b),
            r.im == mul_imag(a, b),
    {
        match Complex::checked_multiply(a, b) {
            Some(c) => c,
            None => {
                proof {
                    assert(false);
                }
                Complex::new(0, 0)
            },
        }
    }
}

} // verus!
