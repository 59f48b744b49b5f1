//! The quantum register: a fixed-width sequence of amplitudes.
use crate::complex::{Complex, ONE};
use crate::gate::{is_product, is_square, product_fits, Gate, GateError};
use rand::rngs::ThreadRng;
use vstd::prelude::*;

verus! {

/// The full state of a register: one amplitude per basis state.
#[derive(Clone, Debug)]
pub struct QuantumRegister {
    pub amplitudes: Vec<Complex>,
}

impl QuantumRegister {
    /// A register of `width` amplitudes, each with a real part drawn
    /// independently and uniformly from `[0, 1)` and a zero imaginary part.
    /// The result is not normalised.
    pub fn new(width: usize, rng: &mut ThreadRng) -> (r: QuantumRegister)
        ensures
            r.amplitudes@.len() == width,
            forall|i: int|
                0 <= i < width ==> 0 <= (#[trigger] r.amplitudes@[i]).re < ONE
                    && r.amplitudes@[i].im == 0,
    {
        let mut amplitudes: Vec<Complex> = Vec::new();
        let mut i: usize = 0;
        while i < width
            invariant
                0 <= i <= width,
                amplitudes.len() == i,
                forall|a: int|
                    0 <= a < i ==> 0 <= (#[trigger] amplitudes@[a]).re < ONE && amplitudes@[a].im == 0,
            decreases width - i,
        {
            amplitudes.push(Complex::random(rng));
            i = i + 1;
        }
        QuantumRegister { amplitudes }
    }

    /// A register holding exactly `amplitudes`.
    pub fn from_amplitudes(amplitudes: Vec<Complex>) -> (r: QuantumRegister)
        ensures
            r.amplitudes@ == amplitudes@,
    {
        QuantumRegister { amplitudes }
    }

    /// The amplitudes, one per basis state.
    pub fn amplitudes(&self) -> (r: &Vec<Complex>)
        ensures
            r@ == self.amplitudes@,
    {
        &self.amplitudes
    }

    /// The number of basis states.
    pub fn width(&self) -> (r: usize)
        ensures
            r == self.amplitudes@.len(),
    {
        self.amplitudes.len()
    }

    /// Evolves the register by `gate`: see `Gate::apply`.
    pub fn apply(&mut self, gate: &Gate) -> (r: Result<(), GateError>)
        ensures
            !is_square(gate@, old(self).amplitudes@.len() as int) ==> r == Err::<(), GateError>(
                GateError::DimensionMismatch,
            ),
            is_square(gate@, old(self).amplitudes@.len() as int) && !product_fits(
                gate@,
                old(self).amplitudes@,
            ) ==> r == Err::<(), GateError>(GateError::Overflow),
            is_square(gate@, old(self).amplitudes@.len() as int) && product_fits(
                gate@,
                old(self).amplitudes@,
            ) ==> r is Ok && is_product(gate@, old(self).amplitudes@, final(self).amplitudes@),
            r is Err ==> *final(self) == *old(self),
    {
        gate.apply(self)
    }
}

} // verus!
