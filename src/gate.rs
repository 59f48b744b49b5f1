//! Gates: square matrices of amplitudes, their application to a register,
//! and the standard constructors.
use crate::complex::{can_multiply, fits, mul_imag, mul_real, Complex, HALF, ONE};
use crate::register::QuantumRegister;
use vstd::prelude::*;

verus! {

/// Why a gate could not be built or applied.
#[derive(Clone, Copy, Debug, PartialEq, Eq, Structural)]
pub enum GateError {
    /// The matrix is not square of the register's width.
    DimensionMismatch,
    /// A basis index given to a constructor lies outside `0..width`.
    IndexOutOfRange,
    /// A product or a sum of amplitudes does not fit a component.
    Overflow,
}

/// Real part of `row[0] * v[0] + ... + row[k-1] * v[k-1]`.
pub open spec fn dot_real(row: Seq<Complex>, v: Seq<Complex>, k: int) -> int
    decreases k,
{
    if k <= 0 {
        0
    } else {
        dot_real(row, v, k - 1) + mul_real(row[k - 1], v[k - 1])
    }
}

/// Imaginary part of `row[0] * v[0] + ... + row[k-1] * v[k-1]`.
pub open spec fn dot_imag(row: Seq<Complex>, v: Seq<Complex>, k: int) -> int
    decreases k,
{
    if k <= 0 {
        0
    } else {
        dot_imag(row, v, k - 1) + mul_imag(row[k - 1], v[k - 1])
    }
}

/// Whether every product and every partial sum of the first `k` terms fits a
/// component.
pub open spec fn dot_fits(row: Seq<Complex>, v: Seq<Complex>, k: int) -> bool
    decreases k,
{
    if k <= 0 {
        true
    } else {
        &&& dot_fits(row, v, k - 1)
        &&& can_multiply(row[k - 1], v[k - 1])
        &&& fits(dot_real(row, v, k))
        &&& fits(dot_imag(row, v, k))
    }
}

/// `m` is an `n` by `n` matrix.
pub open spec fn is_square(m: Seq<Seq<Complex>>, n: int) -> bool {
    m.len() == n && forall|i: int| 0 <= i < n ==> #[trigger] m[i].len() == n
}

/// Every entry of the product `m * v` can be computed without overflow.
pub open spec fn product_fits(m: Seq<Seq<Complex>>, v: Seq<Complex>) -> bool {
    forall|i: int| 0 <= i < m.len() ==> dot_fits(#[trigger] m[i], v, v.len() as int)
}

/// `w` is the matrix-vector product `m * v`.
pub open spec fn is_product(m: Seq<Seq<Complex>>, v: Seq<Complex>, w: Seq<Complex>) -> bool {
    &&& w.len() == m.len()
    &&& forall|i: int|
        0 <= i < m.len() ==> (#[trigger] w[i]).re == dot_real(m[i], v, v.len() as int) && w[i].im
            == dot_imag(m[i], v, v.len() as int)
}

/// The amplitude 1.
pub open spec fn one() -> Complex {
    Complex { re: ONE, im: 0 }
}

/// The amplitude 0.
pub open spec fn zero() -> Complex {
    Complex { re: 0, im: 0 }
}

/// The amplitude `i`.
pub open spec fn unit_i() -> Complex {
    Complex { re: 0, im: ONE }
}

/// The rule that fills the cells of one of the standard gates.
#[derive(Clone, Copy)]
enum Shape {
    /// `diag` on the diagonal, `off` elsewhere.
    Uniform { diag: Complex, off: Complex },
    /// The identity, with `i` at `[control][control]` when `control == target`.
    Cnot { control: usize, target: usize },
    /// The identity, with `i` at `[lhs][rhs]` and `[rhs][lhs]` off the diagonal.
    Swap { lhs: usize, rhs: usize },
    /// The identity, with `i` on the diagonal at the two controls and the target.
    Toffoli { control_1: usize, control_2: usize, target: usize },
}

spec fn cell(shape: Shape, i: int, j: int) -> Complex {
    match shape {
        Shape::Uniform { diag, off } => if i == j {
            diag
        } else {
            off
        },
        Shape::Cnot { control, target } => if i == j && i == control && control == target {
            unit_i()
        } else if i == j {
            one()
        } else {
            zero()
        },
        Shape::Swap { lhs, rhs } => if i == j {
            one()
        } else if (i == lhs && j == rhs) || (i == rhs && j == lhs) {
            unit_i()
        } else {
            zero()
        },
        Shape::Toffoli { control_1, control_2, target } => if i == j && (i == target || i
            == control_1 || i == control_2) {
            unit_i()
        } else if i == j {
            one()
        } else {
            zero()
        },
    }
}

fn cell_at(shape: Shape, i: usize, j: usize) -> (r: Complex)
    ensures
        r == cell(shape, i as int, j as int),
{
    match shape {
        Shape::Uniform { diag, off } => if i == j {
            diag
        } else {
            off
        },
        Shape::Cnot { control, target } => if i == j && i == control && control == target {
            Complex::new(0, ONE)
        } else if i == j {
            Complex::new(ONE, 0)
        } else {
            Complex::new(0, 0)
        },
        Shape::Swap { lhs, rhs } => if i == j {
            Complex::new(ONE, 0)
        } else if (i == lhs && j == rhs) || (i == rhs && j == lhs) {
            Complex::new(0, ONE)
        } else {
            Complex::new(0, 0)
        },
        Shape::Toffoli { control_1, control_2, target } => if i == j && (i == target || i
            == control_1 || i == control_2) {
            Complex::new(0, ONE)
        } else if i == j {
            Complex::new(ONE, 0)
        } else {
            Complex::new(0, 0)
        },
    }
}

/// The `n` by `n` gate whose cells follow `shape`.
fn build(n: usize, shape: Shape) -> (g: Gate)
    ensures
        is_square(g@, n as int),
        forall|i: int, j: int| 0 <= i < n && 0 <= j < n ==> #[trigger] g@[i][j] == cell(shape, i, j),
{
    let mut rows: Vec<Vec<Complex>> = Vec::new();
    let mut i: usize = 0;
    while i < n
        invariant
            0 <= i <= n,
            rows.len() == i,
            forall|a: int| 0 <= a < i ==> (#[trigger] rows@[a])@.len() == n,
            forall|a: int, b: int|
                0 <= a < i && 0 <= b < n ==> #[trigger] rows@[a]@[b] == cell(shape, a, b),
        decreases n - i,
    {
        let mut row: Vec<Complex> = Vec::new();
        let mut j: usize = 0;
        while j < n
            invariant
                0 <= i < n,
                0 <= j <= n,
                row.len() == j,
                forall|b: int| 0 <= b < j ==> #[trigger] row@[b] == cell(shape, i as int, b),
            decreases n - j,
        {
            row.push(cell_at(shape, i, j));
            j = j + 1;
        }
        rows.push(row);
        i = i + 1;
    }
    let g = Gate { rows };
    assert(forall|a: int| 0 <= a < n ==> #[trigger] g@[a] == g.rows@[a]@);
    g
}

/// The identity gate of width `n`: 1 on the diagonal, 0 elsewhere.
pub fn identity(n: usize) -> (g: Gate)
    ensures
        is_square(g@, n as int),
        forall|i: int, j: int|
            0 <= i < n && 0 <= j < n ==> #[trigger] g@[i][j] == if i == j {
                one()
            } else {
                zero()
            },
{
    build(n, Shape::Uniform { diag: Complex::new(ONE, 0), off: Complex::new(0, 0) })
}

/// Pauli-X as this library defines it for width `n`: 0 on the diagonal, 1
/// elsewhere.
pub fn pauli_x(n: usize) -> (g: Gate)
    ensures
        is_square(g@, n as int),
        forall|i: int, j: int|
            0 <= i < n && 0 <= j < n ==> #[trigger] g@[i][j] == if i == j {
                zero()
            } else {
                one()
            },
{
    build(n, Shape::Uniform { diag: Complex::new(0, 0), off: Complex::new(ONE, 0) })
}

/// Pauli-Y as this library defines it for width `n`: `0.5 i` on the diagonal,
/// `-0.5 i` elsewhere.
pub fn pauli_y(n: usize) -> (g: Gate)
    ensures
        is_square(g@, n as int),
        forall|i: int, j: int|
            0 <= i < n && 0 <= j < n ==> #[trigger] g@[i][j] == if i == j {
                Complex { re: 0, im: HALF }
            } else {
                Complex { re: 0, im: (-HALF) as i64 }
            },
{
    build(n, Shape::Uniform { diag: Complex::new(0, HALF), off: Complex::new(0, -HALF) })
}

/// Pauli-Z as this library defines it for width `n`: 1 on the diagonal, -1
/// elsewhere.
pub fn pauli_z(n: usize) -> (g: Gate)
    ensures
        is_square(g@, n as int),
        forall|i: int, j: int|
            0 <= i < n && 0 <= j < n ==> #[trigger] g@[i][j] == if i == j {
                one()
            } else {
                Complex { re: (-ONE) as i64, im: 0 }
            },
{
    build(n, Shape::Uniform { diag: Complex::new(ONE, 0), off: Complex::new(-ONE, 0) })
}

/// CNOT as this library defines it for width `n`: the identity, except that
/// the cell `[control][control]` is `i` when `control == target`.
pub fn cnot(n: usize, control: usize, target: usize) -> (r: Result<Gate, GateError>)
    ensures
        control >= n || target >= n ==> r == Err::<Gate, GateError>(GateError::IndexOutOfRange),
        control < n && target < n ==> r is Ok && is_square(r->Ok_0@, n as int) && forall|
            i: int,
            j: int,
        |
            0 <= i < n && 0 <= j < n ==> #[trigger] r->Ok_0@[i][j] == if i == j && i == control
                && control == target {
                unit_i()
            } else if i == j {
                one()
            } else {
                zero()
            },
{
    if control >= n || target >= n {
        return Err(GateError::IndexOutOfRange);
    }
    Ok(build(n, Shape::Cnot { control, target }))
}

/// SWAP as this library defines it for width `n`: the identity, except that
/// the cells `[lhs][rhs]` and `[rhs][lhs]` off the diagonal are `i`.
pub fn swap(n: usize, lhs: usize, rhs: usize) -> (r: Result<Gate, GateError>)
    ensures
        lhs >= n || rhs >= n ==> r == Err::<Gate, GateError>(GateError::IndexOutOfRange),
        lhs < n && rhs < n ==> r is Ok && is_square(r->Ok_0@, n as int) && forall|
            i: int,
            j: int,
        |
            0 <= i < n && 0 <= j < n ==> #[trigger] r->Ok_0@[i][j] == if i == j {
                one()
            } else if (i == lhs && j == rhs) || (i == rhs && j == lhs) {
                unit_i()
            } else {
                zero()
            },
{
    if lhs >= n || rhs >= n {
        return Err(GateError::IndexOutOfRange);
    }
    Ok(build(n, Shape::Swap { lhs, rhs }))
}

/// Toffoli as this library defines it for width `n`: the identity, except
/// that the diagonal cells of `control_1`, `control_2` and `target` are `i`.
pub fn toffoli(n: usize, control_1: usize, control_2: usize, target: usize) -> (r: Result<
    Gate,
    GateError,
>)
    ensures
        control_1 >= n || control_2 >= n || target >= n ==> r == Err::<Gate, GateError>(
            GateError::IndexOutOfRange,
        ),
        control_1 < n && control_2 < n && target < n ==> r is Ok && is_square(r->Ok_0@, n as int)
            && forall|i: int, j: int|
            0 <= i < n && 0 <= j < n ==> #[trigger] r->Ok_0@[i][j] == if i == j && (i == target
                || i == control_1 || i == control_2) {
                unit_i()
            } else if i == j {
                one()
            } else {
                zero()
            },
{
    if control_1 >= n || control_2 >= n || target >= n {
        return Err(GateError::IndexOutOfRange);
    }
    Ok(build(n, Shape::Toffoli { control_1, control_2, target }))
}

proof fn lemma_dot_fits_prefix(row: Seq<Complex>, v: Seq<Complex>, j: int, k: int)
    requires
        0 <= j <= k,
        dot_fits(row, v, k),
    ensures
        dot_fits(row, v, j),
    decreases k - j,
{
    if j < k {
        lemma_dot_fits_prefix(row, v, j, k - 1);
    }
}

/// A square matrix of amplitudes, row-major: entry `[row][col]`.
pub struct Gate {
    rows: Vec<Vec<Complex>>,
}

impl View for Gate {
    type V = Seq<Seq<Complex>>;

    closed spec fn view(&self) -> Seq<Seq<Complex>> {
        self.rows@.map_values(|row: Vec<Complex>| row@)
    }
}

/// `row * v`, or `None` when a product or partial sum overflows.
fn row_times(row: &Vec<Complex>, v: &Vec<Complex>) -> (r: Option<Complex>)
    requires
        row.len() == v.len(),
    ensures
        r.is_some() <==> dot_fits(row@, v@, v.len() as int),
        r.is_some() ==> r.unwrap().re == dot_real(row@, v@, v.len() as int) && r.unwrap().im
            == dot_imag(row@, v@, v.len() as int),
{
    let n = v.len();
    let mut re: i64 = 0;
    let mut im: i64 = 0;
    let mut j: usize = 0;
    while j < n
        invariant
            row.len() == n,
            v.len() == n,
            0 <= j <= n,
            dot_fits(row@, v@, j as int),
            re == dot_real(row@, v@, j as int),
            im == dot_imag(row@, v@, j as int),
        decreases n - j,
    {
        let p = match Complex::checked_multiply(row[j], v[j]) {
            Some(p) => p,
            None => {
                proof {
                    if dot_fits(row@, v@, n as int) {
                        lemma_dot_fits_prefix(row@, v@, j + 1, n as int);
                    }
                }
                return None;
            },
        };
        let next_re = re.checked_add(p.re);
        let next_im = im.checked_add(p.im);
        if next_re.is_none() || next_im.is_none() {
            proof {
                if dot_fits(row@, v@, n as int) {
                    lemma_dot_fits_prefix(row@, v@, j + 1, n as int);
                }
            }
            return None;
        }
        re = next_re.unwrap();
        im = next_im.unwrap();
        j = j + 1;
    }
    Some(Complex::new(re, im))
}

impl Gate {
    /// Wraps `matrix` as it is.
    pub fn new(matrix: Vec<Vec<Complex>>) -> (g: Gate)
        ensures
            g@ == matrix@.map_values(|row: Vec<Complex>| row@),
    {
        Gate { rows: matrix }
    }

    /// The entries, row by row.
    pub fn rows(&self) -> (r: &Vec<Vec<Complex>>)
        ensures
            r@.map_values(|row: Vec<Complex>| row@) == self@,
    {
        &self.rows
    }

    /// The number of rows.
    pub fn width(&self) -> (r: usize)
        ensures
            r == self@.len(),
    {
        self.rows.len()
    }

    /// Replaces the register's amplitudes `v` by the product `self * v`.
    /// Fails, leaving the register unchanged, when this matrix is not square
    /// of the register's width, or when an entry of the product overflows.
    pub fn apply(&self, register: &mut QuantumRegister) -> (r: Result<(), GateError>)
        ensures
            !is_square(self@, old(register).amplitudes@.len() as int) ==> r == Err::<
                (),
                GateError,
            >(GateError::DimensionMismatch),
            is_square(self@, old(register).amplitudes@.len() as int) && !product_fits(
                self@,
                old(register).amplitudes@,
            ) ==> r == Err::<(), GateError>(GateError::Overflow),
            is_square(self@, old(register).amplitudes@.len() as int) && product_fits(
                self@,
                old(register).amplitudes@,
            ) ==> r is Ok && is_product(
                self@,
                old(register).amplitudes@,
                final(register).amplitudes@,
            ),
            r is Err ==> *final(register) == *old(register),
    {
        let n = register.amplitudes.len();
        assert(self@.len() == self.rows.len());
        if self.rows.len() != n {
            return Err(GateError::DimensionMismatch);
        }
        let mut i: usize = 0;
        while i < n
            invariant
                self.rows.len() == n,
                register.amplitudes.len() == n,
                0 <= i <= n,
                forall|a: int| 0 <= a < i ==> #[trigger] self@[a].len() == n,
            decreases n - i,
        {
            assert(self@[i as int] == self.rows@[i as int]@);
            if self.rows[i].len() != n {
                return Err(GateError::DimensionMismatch);
            }
            i = i + 1;
        }
        let mut out: Vec<Complex> = Vec::new();
        let mut i: usize = 0;
        while i < n
            invariant
                is_square(self@, n as int),
                self.rows.len() == n,
                register.amplitudes.len() == n,
                0 <= i <= n,
                out.len() == i,
                forall|a: int| 0 <= a < i ==> dot_fits(#[trigger] self@[a], register.amplitudes@, n as int),
                forall|a: int|
                    0 <= a < i ==> (#[trigger] out@[a]).re == dot_real(self@[a], register.amplitudes@, n as int)
                        && out@[a].im == dot_imag(self@[a], register.amplitudes@, n as int),
            decreases n - i,
        {
            assert(self@[i as int] == self.rows@[i as int]@);
            match row_times(&self.rows[i], &register.amplitudes) {
                Some(c) => out.push(c),
                None => {
                    return Err(GateError::Overflow);
                },
            }
            i = i + 1;
        }
        register.amplitudes = out;
        Ok(())
    }
}

} // verus!
