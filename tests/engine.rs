use qubits::complex::{Complex, HALF, ONE};
use qubits::gate::{cnot, identity, pauli_x, pauli_y, pauli_z, swap, toffoli, Gate, GateError};
use qubits::register::QuantumRegister;

fn whole(re: i64, im: i64) -> Complex {
    Complex::new(re * ONE, im * ONE)
}

fn register_of(values: &[(i64, i64)]) -> QuantumRegister {
    QuantumRegister::from_amplitudes(values.iter().map(|&(re, im)| whole(re, im)).collect())
}

#[test]
fn accessors_return_parts() {
    let c = Complex::new(7, -9);
    assert_eq!(c.real_part(), 7);
    assert_eq!(c.imaginary(), -9);
}

#[test]
fn multiply_whole_values() {
    let p = Complex::multiply(whole(1, 2), whole(3, 4));
    assert_eq!(p, whole(-5, 10));
}

#[test]
fn multiply_halves() {
    let half = Complex::new(HALF, 0);
    assert_eq!(Complex::multiply(half, half), Complex::new(ONE / 4, 0));
    let i_half = Complex::new(0, HALF);
    assert_eq!(Complex::multiply(i_half, i_half), Complex::new(-ONE / 4, 0));
}

#[test]
fn multiply_rounds_down() {
    let p = Complex::multiply(Complex::new(-1, 0), Complex::new(1, 0));
    assert_eq!(p, Complex::new(-1, 0));
    let q = Complex::multiply(Complex::new(1, 0), Complex::new(1, 0));
    assert_eq!(q, Complex::new(0, 0));
}

#[test]
fn multiply_commutes() {
    let a = Complex::new(123_456_789, -987_654_321);
    let b = Complex::new(-55_555_555_555, 3 * ONE + 17);
    assert_eq!(Complex::multiply(a, b), Complex::multiply(b, a));
}

#[test]
fn multiply_associates_on_whole_values() {
    let (a, b, c) = (whole(1, 2), whole(-3, 1), whole(2, -5));
    let left = Complex::multiply(Complex::multiply(a, b), c);
    let right = Complex::multiply(a, Complex::multiply(b, c));
    assert_eq!(left, right);
}

#[test]
fn checked_multiply_reports_overflow() {
    let big = Complex::new(i64::MAX, i64::MAX);
    assert_eq!(Complex::checked_multiply(big, big), None);
    let min = Complex::new(i64::MIN, i64::MIN);
    assert_eq!(Complex::checked_multiply(min, min), None);
    assert_eq!(Complex::checked_multiply(whole(2, 0), whole(3, 0)), Some(whole(6, 0)));
}

#[test]
fn normalized_squared_three_four() {
    assert_eq!(whole(3, 4).normalized_squared(), 25 * ONE as u128);
    assert_eq!(whole(-3, -4).normalized_squared(), 25 * ONE as u128);
    assert_eq!(Complex::new(HALF, HALF).normalized_squared(), HALF as u128);
    assert_eq!(Complex::new(i64::MIN, i64::MIN).normalized_squared(), 1u128 << 95);
}

#[test]
fn random_amplitudes_in_unit_interval() {
    let mut rng = rand::thread_rng();
    let register = QuantumRegister::new(16, &mut rng);
    assert_eq!(register.width(), 16);
    for c in register.amplitudes() {
        assert!(0 <= c.re && c.re < ONE);
        assert_eq!(c.im, 0);
    }
}

#[test]
fn round_trip_construction() {
    let v = vec![whole(1, 0), Complex::new(5, -7), Complex::new(i64::MIN, i64::MAX)];
    let register = QuantumRegister::from_amplitudes(v.clone());
    assert_eq!(register.amplitudes(), &v);
    assert_eq!(QuantumRegister::from_amplitudes(vec![]).amplitudes().len(), 0);
}

#[test]
fn identity_keeps_register() {
    let v = vec![Complex::new(3, -4), Complex::new(i64::MAX, i64::MIN), Complex::new(-1, 1)];
    let mut register = QuantumRegister::from_amplitudes(v.clone());
    assert_eq!(register.apply(&identity(3)), Ok(()));
    assert_eq!(register.amplitudes(), &v);
}

#[test]
fn identity_by_hand_keeps_register() {
    let one = whole(1, 0);
    let zero = whole(0, 0);
    let gate = Gate::new(vec![vec![one, zero], vec![zero, one]]);
    let mut register = register_of(&[(2, 3), (-4, 5)]);
    assert_eq!(gate.apply(&mut register), Ok(()));
    assert_eq!(register.amplitudes(), &vec![whole(2, 3), whole(-4, 5)]);
}

#[test]
fn pauli_x_cells() {
    let gate = pauli_x(3);
    for (i, row) in gate.rows().iter().enumerate() {
        for (j, cell) in row.iter().enumerate() {
            let expected = if i == j { whole(0, 0) } else { whole(1, 0) };
            assert_eq!(*cell, expected);
        }
    }
}

#[test]
fn pauli_x_twice_is_its_square() {
    let gate = pauli_x(3);
    let mut register = register_of(&[(1, 1), (2, 0), (3, -1)]);
    assert_eq!(register.apply(&gate), Ok(()));
    assert_eq!(register.amplitudes(), &vec![whole(5, -1), whole(4, 0), whole(3, 1)]);
    assert_eq!(register.apply(&gate), Ok(()));
    // Square: 2 on the diagonal, 1 elsewhere.
    assert_eq!(register.amplitudes(), &vec![whole(7, 1), whole(8, 0), whole(9, -1)]);
}

#[test]
fn pauli_y_cells_and_product() {
    let gate = pauli_y(2);
    assert_eq!(gate.rows()[0][0], Complex::new(0, HALF));
    assert_eq!(gate.rows()[0][1], Complex::new(0, -HALF));
    assert_eq!(gate.rows()[1][1], Complex::new(0, HALF));
    let mut register = register_of(&[(2, 0), (4, 0)]);
    assert_eq!(register.apply(&gate), Ok(()));
    assert_eq!(register.amplitudes(), &vec![whole(0, -1), whole(0, 1)]);
}

#[test]
fn pauli_z_product() {
    let gate = pauli_z(3);
    assert_eq!(gate.rows()[1][1], whole(1, 0));
    assert_eq!(gate.rows()[1][2], whole(-1, 0));
    let mut register = register_of(&[(1, 0), (2, 0), (4, 0)]);
    assert_eq!(register.apply(&gate), Ok(()));
    assert_eq!(register.amplitudes(), &vec![whole(-5, 0), whole(-3, 0), whole(1, 0)]);
}

#[test]
fn cnot_distinct_indices_passes_through() {
    let gate = cnot(3, 0, 1).unwrap();
    let mut register = register_of(&[(1, 0), (0, 0), (0, 0)]);
    assert_eq!(register.apply(&gate), Ok(()));
    assert_eq!(register.amplitudes(), &vec![whole(1, 0), whole(0, 0), whole(0, 0)]);
    for (i, row) in gate.rows().iter().enumerate() {
        for (j, cell) in row.iter().enumerate() {
            let expected = if i == j { whole(1, 0) } else { whole(0, 0) };
            assert_eq!(*cell, expected);
        }
    }
}

#[test]
fn cnot_equal_indices_marks_cell() {
    let gate = cnot(3, 1, 1).unwrap();
    assert_eq!(gate.rows()[1][1], whole(0, 1));
    assert_eq!(gate.rows()[0][0], whole(1, 0));
    assert_eq!(gate.rows()[1][0], whole(0, 0));
    let mut register = register_of(&[(1, 0), (2, 0), (3, 0)]);
    assert_eq!(register.apply(&gate), Ok(()));
    assert_eq!(register.amplitudes(), &vec![whole(1, 0), whole(0, 2), whole(3, 0)]);
}

#[test]
fn swap_cells() {
    let gate = swap(3, 0, 2).unwrap();
    assert_eq!(gate.rows()[0][2], whole(0, 1));
    assert_eq!(gate.rows()[2][0], whole(0, 1));
    assert_eq!(gate.rows()[0][0], whole(1, 0));
    assert_eq!(gate.rows()[0][1], whole(0, 0));
    let mut register = register_of(&[(1, 0), (0, 0), (0, 0)]);
    assert_eq!(register.apply(&gate), Ok(()));
    assert_eq!(register.amplitudes(), &vec![whole(1, 0), whole(0, 0), whole(0, 1)]);
    let same = swap(2, 1, 1).unwrap();
    assert_eq!(same.rows()[1][1], whole(1, 0));
}

#[test]
fn toffoli_cells() {
    let gate = toffoli(4, 0, 1, 3).unwrap();
    assert_eq!(gate.rows()[0][0], whole(0, 1));
    assert_eq!(gate.rows()[1][1], whole(0, 1));
    assert_eq!(gate.rows()[2][2], whole(1, 0));
    assert_eq!(gate.rows()[3][3], whole(0, 1));
    assert_eq!(gate.rows()[0][3], whole(0, 0));
    assert_eq!(gate.width(), 4);
}

#[test]
fn constructors_reject_indices_out_of_range() {
    assert_eq!(cnot(3, 3, 0).err(), Some(GateError::IndexOutOfRange));
    assert_eq!(cnot(3, 0, 7).err(), Some(GateError::IndexOutOfRange));
    assert_eq!(swap(2, 2, 0).err(), Some(GateError::IndexOutOfRange));
    assert_eq!(toffoli(3, 0, 1, 3).err(), Some(GateError::IndexOutOfRange));
    assert_eq!(toffoli(3, 5, 1, 2).err(), Some(GateError::IndexOutOfRange));
}

#[test]
fn dimension_mismatch_leaves_register() {
    let gate = pauli_x(2);
    let mut register = register_of(&[(1, 0), (2, 0), (3, 0)]);
    assert_eq!(register.apply(&gate), Err(GateError::DimensionMismatch));
    assert_eq!(register.amplitudes(), &vec![whole(1, 0), whole(2, 0), whole(3, 0)]);
}

#[test]
fn ragged_gate_is_a_mismatch() {
    let gate = Gate::new(vec![vec![whole(1, 0), whole(0, 0)], vec![whole(1, 0)]]);
    let mut register = register_of(&[(1, 0), (2, 0)]);
    assert_eq!(gate.apply(&mut register), Err(GateError::DimensionMismatch));
    assert_eq!(register.amplitudes(), &vec![whole(1, 0), whole(2, 0)]);
}

#[test]
fn overflow_leaves_register() {
    let big = Complex::new(i64::MAX, 0);
    let gate = Gate::new(vec![vec![big, big], vec![big, big]]);
    let before = vec![Complex::new(i64::MAX, 0), Complex::new(i64::MAX, 0)];
    let mut register = QuantumRegister::from_amplitudes(before.clone());
    assert_eq!(register.apply(&gate), Err(GateError::Overflow));
    assert_eq!(register.amplitudes(), &before);
}

#[test]
fn sum_overflow_is_reported() {
    let one = whole(1, 0);
    let gate = Gate::new(vec![vec![one, one], vec![one, one]]);
    let mut register = QuantumRegister::from_amplitudes(vec![
        Complex::new(i64::MAX, 0),
        Complex::new(1, 0),
    ]);
    assert_eq!(register.apply(&gate), Err(GateError::Overflow));
}

#[test]
fn empty_register_and_gate() {
    let mut register = QuantumRegister::from_amplitudes(vec![]);
    assert_eq!(register.apply(&pauli_z(0)), Ok(()));
    assert_eq!(register.width(), 0);
}
