use neural_network::{Error, Fixed, Matrix, Scalar, Vector};

#[derive(Clone, Copy, Debug, PartialEq)]
struct Real(f32);

impl Scalar for Real {
    fn zero_value() -> Self {
        Real(0.0)
    }

    fn sum(self, rhs: Self) -> Self {
        Real(self.0 + rhs.0)
    }

    fn difference(self, rhs: Self) -> Self {
        Real(self.0 - rhs.0)
    }

    fn product(self, rhs: Self) -> Self {
        Real(self.0 * rhs.0)
    }

    fn bits(self) -> u32 {
        self.0.to_bits()
    }

    fn of_bits(bits: u32) -> Self {
        Real(f32::from_bits(bits))
    }

    fn drawn(self) -> bool {
        0.0 <= self.0 && self.0 < 1.0
    }

    fn bits_round_trip(_x: Self) {}

    fn zero() -> Self {
        Real(0.0)
    }

    fn add(self, rhs: Self) -> Self {
        Real(self.0 + rhs.0)
    }

    fn sub(self, rhs: Self) -> Self {
        Real(self.0 - rhs.0)
    }

    fn mul(self, rhs: Self) -> Self {
        Real(self.0 * rhs.0)
    }

    fn to_bits(self) -> u32 {
        self.0.to_bits()
    }

    fn from_bits(bits: u32) -> Self {
        Real(f32::from_bits(bits))
    }

    fn random() -> Self {
        Real(rand::random::<f32>())
    }
}

fn reals(values: &[f32]) -> Vec<Real> {
    values.iter().map(|v| Real(*v)).collect()
}

fn real_vector(values: &[f32]) -> Vector<Real> {
    Vector::from_data(reals(values))
}

fn real_matrix(rows: &[&[f32]]) -> Matrix<Real> {
    Matrix::from_data(rows.iter().map(|r| reals(r)).collect())
}

fn fixed(n: i16) -> Fixed {
    Fixed::from_int(n)
}

#[test]
fn matrix_product_of_two_by_three_and_three_by_two() {
    let a = real_matrix(&[&[1.0, 2.0, 3.0], &[4.0, 5.0, 6.0]]);
    let b = real_matrix(&[&[7.0, 8.0], &[9.0, 10.0], &[11.0, 12.0]]);
    let p = a.mul(&b).unwrap();
    assert_eq!(p.rows(), 2);
    assert_eq!(p.columns(), 2);
    assert_eq!(*p, vec![reals(&[58.0, 64.0]), reals(&[139.0, 154.0])]);
}

#[test]
fn matrix_product_has_the_rows_of_the_left_and_the_columns_of_the_right() {
    for (r, s, c) in [(1usize, 1usize, 1usize), (2, 3, 4), (5, 1, 2), (3, 4, 1), (4, 2, 0)] {
        let a: Matrix<Real> = Matrix::zero(r, s);
        let b: Matrix<Real> = Matrix::zero(s, c);
        let p = a.mul(&b).unwrap();
        assert_eq!(p.rows(), r);
        assert_eq!(p.columns(), c);
        assert!(p.iter().all(|row| row.len() == c));
    }
}

#[test]
fn matrix_product_with_unfit_shapes_is_a_dimension_mismatch() {
    let a = real_matrix(&[&[1.0, 2.0, 3.0], &[4.0, 5.0, 6.0]]);
    let b = real_matrix(&[&[7.0, 8.0], &[9.0, 10.0]]);
    assert!(matches!(a.mul(&b), Err(Error::DimensionMismatch)));
    assert!(matches!(b.mul(&b), Ok(_)));
}

#[test]
fn matrix_without_rows_has_no_columns() {
    let empty: Matrix<Real> = Matrix::zero(0, 5);
    assert_eq!(empty.rows(), 0);
    assert_eq!(empty.columns(), 0);
    let none: Matrix<Real> = Matrix::from_data(Vec::new());
    assert_eq!(none.rows(), 0);
    assert_eq!(none.columns(), 0);
    assert_eq!(empty.mul(&none).unwrap().rows(), 0);
}

#[test]
fn zero_matrix_holds_zero_everywhere() {
    let z: Matrix<Real> = Matrix::zero(2, 3);
    assert_eq!(*z, vec![reals(&[0.0, 0.0, 0.0]), reals(&[0.0, 0.0, 0.0])]);
    let v: Vector<Real> = Vector::zero(4);
    assert_eq!(*v, reals(&[0.0, 0.0, 0.0, 0.0]));
    assert_eq!(v.size(), 4);
}

#[test]
fn new_matrix_and_vector_have_the_shape_asked_for() {
    let m: Matrix<Real> = Matrix::new(3, 5);
    assert_eq!(m.rows(), 3);
    assert_eq!(m.columns(), 5);
    assert!(m.iter().all(|row| row.len() == 5));
    assert!(m.iter().all(|row| row.iter().all(|x| 0.0 <= x.0 && x.0 < 1.0)));
    let v: Vector<Real> = Vector::new(7);
    assert_eq!(v.size(), 7);
    let f: Matrix<Fixed> = Matrix::new(8, 8);
    assert!(f.iter().all(|row| row.iter().all(|x| 0 <= x.raw() && x.raw() < 65536)));
    let first = f[0][0];
    assert!(f.iter().any(|row| row.iter().any(|x| *x != first)));
}

#[test]
fn matrix_from_draws_places_the_values_row_after_row() {
    let values = reals(&[1.0, 2.0, 3.0, 4.0, 5.0, 6.0]);
    let m = Matrix::from_draws(2, 3, &values).unwrap();
    assert_eq!(*m, vec![reals(&[1.0, 2.0, 3.0]), reals(&[4.0, 5.0, 6.0])]);
    let t = Matrix::from_draws(3, 2, &values).unwrap();
    assert_eq!(*t, vec![reals(&[1.0, 2.0]), reals(&[3.0, 4.0]), reals(&[5.0, 6.0])]);
    for i in 0..3 {
        for j in 0..2 {
            assert_eq!(t[i][j], values[i * 2 + j]);
        }
    }
    let none: Matrix<Real> = Matrix::from_draws(0, 4, &Vec::new()).unwrap();
    assert_eq!(none.rows(), 0);
    let thin: Matrix<Real> = Matrix::from_draws(3, 0, &Vec::new()).unwrap();
    assert_eq!(thin.rows(), 3);
    assert_eq!(thin.columns(), 0);
}

#[test]
fn matrix_from_draws_wants_a_value_for_each_entry() {
    let values = reals(&[1.0, 2.0, 3.0, 4.0, 5.0, 6.0]);
    assert!(matches!(Matrix::from_draws(2, 2, &values), Err(Error::DimensionMismatch)));
    assert!(matches!(Matrix::from_draws(4, 2, &values), Err(Error::DimensionMismatch)));
    assert!(matches!(Matrix::from_draws(0, 3, &values), Err(Error::DimensionMismatch)));
    assert!(matches!(
        Matrix::from_draws(usize::MAX, usize::MAX, &values),
        Err(Error::DimensionMismatch)
    ));
    assert!(matches!(Matrix::from_draws(usize::MAX, 2, &values), Err(Error::DimensionMismatch)));
}

#[test]
fn new_matrix_draws_each_entry_on_its_own() {
    let m: Matrix<Fixed> = Matrix::new(16, 16);
    assert_eq!(m.rows(), 16);
    assert!(m.iter().all(|row| row.len() == 16));
    assert!(m.iter().all(|row| row.iter().all(|x| 0 <= x.raw() && x.raw() < 65536)));
    assert!(m.iter().all(|row| row.iter().any(|x| *x != row[0])));
    assert!(m.iter().any(|row| *row != m[0]));
    let v: Vector<Fixed> = Vector::new(64);
    assert!(v.iter().all(|x| 0 <= x.raw() && x.raw() < 65536));
    assert!(v.iter().any(|x| *x != v[0]));
}

#[test]
fn matrix_sum_and_difference_go_entry_by_entry() {
    let a = real_matrix(&[&[1.0, 2.0], &[3.0, 4.0]]);
    let b = real_matrix(&[&[0.5, 0.25], &[-1.0, 4.0]]);
    assert_eq!(*a.add(&b).unwrap(), vec![reals(&[1.5, 2.25]), reals(&[2.0, 8.0])]);
    assert_eq!(*a.sub(&b).unwrap(), vec![reals(&[0.5, 1.75]), reals(&[4.0, 0.0])]);
}

#[test]
fn matrix_sum_and_difference_of_unlike_shapes_are_dimension_mismatches() {
    let a = real_matrix(&[&[1.0, 2.0], &[3.0, 4.0]]);
    let wide = real_matrix(&[&[1.0, 2.0, 3.0], &[3.0, 4.0, 5.0]]);
    let tall = real_matrix(&[&[1.0, 2.0], &[3.0, 4.0], &[5.0, 6.0]]);
    assert!(matches!(a.add(&wide), Err(Error::DimensionMismatch)));
    assert!(matches!(a.add(&tall), Err(Error::DimensionMismatch)));
    assert!(matches!(a.sub(&wide), Err(Error::DimensionMismatch)));
    assert!(matches!(a.sub(&tall), Err(Error::DimensionMismatch)));
}

#[test]
fn matrix_sub_assign_changes_the_left_operand_in_place() {
    let mut a = real_matrix(&[&[1.0, 2.0], &[3.0, 4.0]]);
    let b = real_matrix(&[&[0.5, 0.25], &[-1.0, 4.0]]);
    assert_eq!(a.sub_assign(b), Ok(()));
    assert_eq!(*a, vec![reals(&[0.5, 1.75]), reals(&[4.0, 0.0])]);
}

#[test]
fn matrix_sub_assign_of_unlike_shapes_leaves_the_left_operand() {
    let mut a = real_matrix(&[&[1.0, 2.0], &[3.0, 4.0]]);
    let b = real_matrix(&[&[0.5, 0.25, 1.0], &[-1.0, 4.0, 1.0]]);
    assert_eq!(a.sub_assign(b), Err(Error::DimensionMismatch));
    assert_eq!(*a, vec![reals(&[1.0, 2.0]), reals(&[3.0, 4.0])]);
}

#[test]
fn matrix_times_scalar_scales_every_entry() {
    let a = real_matrix(&[&[1.0, -2.0], &[3.0, 0.5]]);
    assert_eq!(*a.mul_scalar(Real(2.0)), vec![reals(&[2.0, -4.0]), reals(&[6.0, 1.0])]);
    assert_eq!(*a.scaled(Real(-1.0)), vec![reals(&[-1.0, 2.0]), reals(&[-3.0, -0.5])]);
}

#[test]
fn matrix_times_vector_dots_each_row_with_the_vector() {
    let a = real_matrix(&[&[1.0, 2.0, 3.0], &[4.0, 5.0, 6.0]]);
    let v = real_vector(&[1.0, 0.5, -1.0]);
    assert_eq!(*a.mul_vector(&v).unwrap(), reals(&[-1.0, 0.5]));
    let short = real_vector(&[1.0, 0.5]);
    assert!(matches!(a.mul_vector(&short), Err(Error::DimensionMismatch)));
}

#[test]
fn transposed_matrix_times_vector_dots_each_column_with_the_vector() {
    let a = real_matrix(&[&[1.0, 2.0, 3.0], &[4.0, 5.0, 6.0]]);
    let v = real_vector(&[1.0, -1.0]);
    let r = a.transpose().mul_vector(&v).unwrap();
    assert_eq!(*r, reals(&[-3.0, -3.0, -3.0]));
    assert_eq!(r.size(), a.columns());
    let long = real_vector(&[1.0, -1.0, 2.0]);
    assert!(matches!(a.transpose().mul_vector(&long), Err(Error::DimensionMismatch)));
}

#[test]
fn transposing_twice_gives_the_same_product() {
    let a = real_matrix(&[&[1.0, 2.0, 3.0], &[4.0, 5.0, 6.0]]);
    let v = real_vector(&[0.25, 0.5, -1.0]);
    let direct = a.mul_vector(&v).unwrap();
    let twice = a.transpose().transpose().mul_vector(&v).unwrap();
    assert_eq!(*twice, *direct);
    assert_eq!(*a, vec![reals(&[1.0, 2.0, 3.0]), reals(&[4.0, 5.0, 6.0])]);
}

#[test]
fn transposed_product_agrees_with_the_product_by_the_transposed_matrix() {
    let a = real_matrix(&[&[1.0, 2.0, 3.0], &[4.0, 5.0, 6.0]]);
    let at = real_matrix(&[&[1.0, 4.0], &[2.0, 5.0], &[3.0, 6.0]]);
    let v = real_vector(&[2.0, -3.0]);
    assert_eq!(*a.transpose().mul_vector(&v).unwrap(), *at.mul_vector(&v).unwrap());
    let w = real_vector(&[1.0, 0.0, -1.0]);
    assert_eq!(*at.transpose().mul_vector(&w).unwrap(), *a.mul_vector(&w).unwrap());
}

#[test]
fn vector_sum_adds_position_by_position() {
    let a = real_vector(&[1.0, 2.0]);
    let b = real_vector(&[0.5, -2.0]);
    assert_eq!(*a.add(&b).unwrap(), reals(&[1.5, 0.0]));
    let c = real_vector(&[0.5]);
    assert!(matches!(a.add(&c), Err(Error::DimensionMismatch)));
}

#[test]
fn vector_times_scalar_scales_every_entry() {
    let a = real_vector(&[1.0, -2.0, 0.5]);
    assert_eq!(*a.mul_scalar(Real(4.0)), reals(&[4.0, -8.0, 2.0]));
}

#[test]
fn vector_sub_assign_changes_the_left_operand_in_place() {
    let mut a = real_vector(&[1.0, 2.0]);
    assert_eq!(a.sub_assign(&real_vector(&[0.5, 3.0])), Ok(()));
    assert_eq!(*a, reals(&[0.5, -1.0]));
    assert_eq!(a.sub_assign(&real_vector(&[0.5])), Err(Error::DimensionMismatch));
    assert_eq!(a.sub_assign(&real_vector(&[0.5, 1.0, 2.0])), Err(Error::DimensionMismatch));
    assert_eq!(*a, reals(&[0.5, -1.0]));
}

#[test]
fn outer_product_has_a_row_for_each_entry_of_the_left_vector() {
    let u = real_vector(&[1.0, 2.0, 3.0]);
    let v = real_vector(&[10.0, 20.0]);
    let m = u.mul_transpose(v.transpose());
    assert_eq!(m.rows(), 3);
    assert_eq!(m.columns(), 2);
    assert_eq!(*m, vec![reals(&[10.0, 20.0]), reals(&[20.0, 40.0]), reals(&[30.0, 60.0])]);
}

#[test]
fn vector_from_a_vec_holds_its_entries() {
    let v: Vector<Real> = reals(&[1.0, 2.0]).into();
    assert_eq!(*v, reals(&[1.0, 2.0]));
    assert_eq!(*v.clone(), reals(&[1.0, 2.0]));
    assert_eq!(v.into_data(), reals(&[1.0, 2.0]));
}

#[test]
fn fixed_whole_numbers_multiply_exactly() {
    assert_eq!(fixed(3).mul(fixed(-4)), fixed(-12));
    assert_eq!(fixed(3).add(fixed(-4)), fixed(-1));
    assert_eq!(fixed(3).sub(fixed(-4)), fixed(7));
    assert_eq!(Fixed::zero(), fixed(0));
    assert_eq!(fixed(1).raw(), 65536);
}

#[test]
fn fixed_product_rounds_down() {
    let half = Fixed::from_raw(32768);
    let three = Fixed::from_int(3);
    assert_eq!(three.mul(half).raw(), 98304);
    assert_eq!(Fixed::from_raw(1).mul(half).raw(), 0);
    assert_eq!(Fixed::from_raw(-1).mul(half).raw(), -1);
    assert_eq!(Fixed::from_raw(3).mul(half).raw(), 1);
    assert_eq!(Fixed::from_raw(-3).mul(half).raw(), -2);
}

#[test]
fn fixed_arithmetic_saturates() {
    let top = Fixed::from_raw(i32::MAX);
    let bottom = Fixed::from_raw(i32::MIN);
    assert_eq!(top.add(fixed(1)), top);
    assert_eq!(bottom.sub(fixed(1)), bottom);
    assert_eq!(bottom.add(fixed(-1)), bottom);
    assert_eq!(top.mul(fixed(2)), top);
    assert_eq!(top.mul(fixed(-2)), bottom);
    assert_eq!(bottom.mul(bottom), top);
}

#[test]
fn fixed_bit_patterns_are_twos_complement() {
    assert_eq!(fixed(1).to_bits(), 0x0001_0000);
    assert_eq!(Fixed::from_raw(-1).to_bits(), 0xffff_ffff);
    assert_eq!(Fixed::from_raw(i32::MIN).to_bits(), 0x8000_0000);
    assert_eq!(Fixed::from_bits(0xffff_0000), fixed(-1));
    for raw in [0, 1, -1, 65536, -65536, i32::MAX, i32::MIN, 123456789, -987654321] {
        assert_eq!(Fixed::from_bits(Fixed::from_raw(raw).to_bits()).raw(), raw);
    }
}

#[test]
fn fixed_unit_fraction_keeps_the_top_sixteen_bits() {
    assert_eq!(Fixed::unit_fraction(0).raw(), 0);
    assert_eq!(Fixed::unit_fraction(0xffff_ffff).raw(), 65535);
    assert_eq!(Fixed::unit_fraction(0x8000_0000).raw(), 32768);
    assert_eq!(Fixed::unit_fraction(0x0001_ffff).raw(), 1);
}

#[test]
fn fixed_random_lies_between_zero_and_one() {
    let draws: Vec<Fixed> = (0..200).map(|_| Fixed::random()).collect();
    assert!(draws.iter().all(|x| 0 <= x.raw() && x.raw() < 65536));
    assert!(draws.iter().any(|x| *x != draws[0]));
}

#[test]
fn fixed_matrix_product_is_exact_on_whole_numbers() {
    let a = Matrix::from_data(vec![vec![fixed(1), fixed(2)], vec![fixed(3), fixed(4)]]);
    let b = Matrix::from_data(vec![vec![fixed(0), fixed(1)], vec![fixed(1), fixed(0)]]);
    let p = a.mul(&b).unwrap();
    assert_eq!(*p, vec![vec![fixed(2), fixed(1)], vec![fixed(4), fixed(3)]]);
}
