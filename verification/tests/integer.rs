//! The store, the generators and the strategies on wrapping 64-bit integers.

use mult_mat::{
    multiply, multiply_blocked, multiply_iter, multiply_rayon, Element, Matrix, MatrixError, BLOCK,
};

/// A matrix of dimension `n` whose values follow a fixed pattern of small
/// positive and negative integers.
fn patterned(n: usize, seed: usize) -> Matrix<i64> {
    let mut values = Vec::with_capacity(n * n);
    for p in 0..n * n {
        values.push(((p * 7 + seed * 13) % 23) as i64 - 11);
    }
    Matrix::new(n, values).unwrap()
}

/// The product by the definition: each cell summed from zero in ascending
/// order of the summation index, with wrapping arithmetic.
fn by_definition(a: &Matrix<i64>, b: &Matrix<i64>) -> Vec<i64> {
    let n = a.size();
    let mut cells = Vec::with_capacity(n * n);
    for i in 0..n {
        for j in 0..n {
            let mut acc: i64 = 0;
            for k in 0..n {
                acc = acc.wrapping_add(a.values()[i * n + k].wrapping_mul(b.values()[k * n + j]));
            }
            cells.push(acc);
        }
    }
    cells
}

#[test]
fn neutral_values_of_integers() {
    assert_eq!(<i64 as Element>::zero(), 0);
    assert_eq!(<i64 as Element>::one(), 1);
}

#[test]
fn integer_operations_wrap() {
    assert_eq!(3i64.plus(4), 7);
    assert_eq!(3i64.times(-4), -12);
    assert_eq!(i64::MAX.plus(1), i64::MIN);
    assert_eq!(i64::MAX.times(2), -2);
    assert_eq!(i64::MIN.times(-1), i64::MIN);
}

#[test]
fn new_keeps_dimension_and_values() {
    let m = Matrix::new(2, vec![1i64, 2, 3, 4]).unwrap();
    assert_eq!(m.size(), 2);
    assert_eq!(m.values(), &vec![1i64, 2, 3, 4]);
    assert_eq!(m.into_values(), vec![1i64, 2, 3, 4]);
}

#[test]
fn new_accepts_the_empty_matrix() {
    let m = Matrix::<i64>::new(0, Vec::new()).unwrap();
    assert_eq!(m.size(), 0);
    assert!(m.values().is_empty());
}

#[test]
fn new_refuses_a_wrong_number_of_values() {
    assert_eq!(Matrix::new(2, vec![1i64, 2, 3]), Err(MatrixError::DimensionMismatch));
    assert_eq!(Matrix::new(2, vec![1i64, 2, 3, 4, 5]), Err(MatrixError::DimensionMismatch));
    assert_eq!(Matrix::new(0, vec![1i64]), Err(MatrixError::DimensionMismatch));
    assert_eq!(Matrix::<i64>::new(3, Vec::new()), Err(MatrixError::DimensionMismatch));
}

#[test]
fn new_refuses_a_dimension_whose_square_overflows() {
    assert_eq!(Matrix::<i64>::new(usize::MAX, Vec::new()), Err(MatrixError::DimensionMismatch));
    assert_eq!(Matrix::new(usize::MAX, vec![1i64]), Err(MatrixError::DimensionMismatch));
}

#[test]
fn zero_and_identity_of_integers() {
    assert_eq!(Matrix::<i64>::zero(2).values(), &vec![0i64, 0, 0, 0]);
    assert_eq!(Matrix::<i64>::id(2).values(), &vec![1i64, 0, 0, 1]);
    assert_eq!(Matrix::<i64>::id(3).values(), &vec![1i64, 0, 0, 0, 1, 0, 0, 0, 1]);
    assert_eq!(Matrix::<i64>::zero(0).size(), 0);
    assert_eq!(Matrix::<i64>::id(0).size(), 0);
    assert_eq!(Matrix::<i64>::id(1).values(), &vec![1i64]);
}

#[test]
fn random_integers_lie_in_the_unit_range() {
    let m = Matrix::<i64>::random(40);
    assert_eq!(m.size(), 40);
    assert_eq!(m.values().len(), 1600);
    assert!(m.values().iter().all(|v| -1 <= *v && *v < 1));
    assert!(m.values().iter().any(|v| *v == -1));
    assert!(m.values().iter().any(|v| *v == 0));
}

#[test]
fn get_reads_row_major_offsets() {
    let m = Matrix::new(3, vec![10i64, 11, 12, 20, 21, 22, 30, 31, 32]).unwrap();
    assert_eq!(m.get(0, 0), Ok(10));
    assert_eq!(m.get(0, 2), Ok(12));
    assert_eq!(m.get(1, 0), Ok(20));
    assert_eq!(m.get(2, 1), Ok(31));
    assert_eq!(m.get(2, 2), Ok(32));
}

#[test]
fn get_refuses_an_index_out_of_range() {
    let m = Matrix::new(2, vec![1i64, 2, 3, 4]).unwrap();
    assert_eq!(m.get(2, 0), Err(MatrixError::IndexOutOfRange));
    assert_eq!(m.get(0, 2), Err(MatrixError::IndexOutOfRange));
    assert_eq!(m.get(usize::MAX, usize::MAX), Err(MatrixError::IndexOutOfRange));
    let empty = Matrix::<i64>::zero(0);
    assert_eq!(empty.get(0, 0), Err(MatrixError::IndexOutOfRange));
}

#[test]
fn set_writes_one_cell() {
    let mut m = Matrix::new(2, vec![1i64, 2, 3, 4]).unwrap();
    assert_eq!(m.set(0, 1, 9), Ok(()));
    assert_eq!(m.values(), &vec![1i64, 9, 3, 4]);
    assert_eq!(m.set(1, 0, -7), Ok(()));
    assert_eq!(m.values(), &vec![1i64, 9, -7, 4]);
}

#[test]
fn set_refuses_an_index_out_of_range_and_changes_nothing() {
    let mut m = Matrix::new(2, vec![1i64, 2, 3, 4]).unwrap();
    assert_eq!(m.set(0, 2, 9), Err(MatrixError::IndexOutOfRange));
    assert_eq!(m.set(2, 0, 9), Err(MatrixError::IndexOutOfRange));
    assert_eq!(m.values(), &vec![1i64, 2, 3, 4]);
}

#[test]
fn number_of_blocks_divides_an_aligned_dimension() {
    assert_eq!(Matrix::<i64>::zero(0).number_of_blocks(), Ok(0));
    assert_eq!(Matrix::<i64>::zero(64).number_of_blocks(), Ok(1));
    assert_eq!(Matrix::<i64>::zero(128).number_of_blocks(), Ok(2));
    assert_eq!(BLOCK, 64);
}

#[test]
fn number_of_blocks_refuses_an_unaligned_dimension() {
    assert_eq!(Matrix::<i64>::zero(1).number_of_blocks(), Err(MatrixError::UnalignedSize));
    assert_eq!(Matrix::<i64>::zero(63).number_of_blocks(), Err(MatrixError::UnalignedSize));
    assert_eq!(Matrix::<i64>::zero(100).number_of_blocks(), Err(MatrixError::UnalignedSize));
}

#[test]
fn naive_product_of_two_by_two() {
    let a = Matrix::new(2, vec![1i64, 2, 3, 4]).unwrap();
    let b = Matrix::new(2, vec![4i64, 3, 2, 1]).unwrap();
    assert_eq!(multiply(&a, &b).unwrap().into_values(), vec![8i64, 5, 20, 13]);
}

#[test]
fn naive_product_with_the_identity_of_two() {
    let r = Matrix::new(2, vec![1i64, 2, 3, 4]).unwrap();
    assert_eq!(multiply(&Matrix::id(2), &r).unwrap(), r);
}

#[test]
fn naive_product_wraps() {
    let a = Matrix::new(1, vec![i64::MAX]).unwrap();
    let b = Matrix::new(1, vec![2i64]).unwrap();
    assert_eq!(multiply(&a, &b).unwrap().into_values(), vec![-2i64]);
}

#[test]
fn naive_product_is_not_commutative() {
    let a = Matrix::new(2, vec![1i64, 2, 3, 4]).unwrap();
    let b = Matrix::new(2, vec![0i64, 1, 1, 0]).unwrap();
    assert_eq!(multiply(&a, &b).unwrap().into_values(), vec![2i64, 1, 4, 3]);
    assert_eq!(multiply(&b, &a).unwrap().into_values(), vec![3i64, 4, 1, 2]);
}

#[test]
fn every_strategy_computes_the_product_by_definition() {
    let n = 2 * BLOCK;
    let a = patterned(n, 1);
    let b = patterned(n, 2);
    let expected = by_definition(&a, &b);
    assert_eq!(multiply(&a, &b).unwrap().into_values(), expected);
    assert_eq!(multiply_blocked(&a, &b).unwrap().into_values(), expected);
    assert_eq!(multiply_iter(&a, &b).unwrap().into_values(), expected);
    assert_eq!(multiply_rayon(&a, &b).unwrap().into_values(), expected);
}

#[test]
fn strategies_agree_on_large_integers() {
    let n = BLOCK;
    let mut values = Vec::with_capacity(n * n);
    for p in 0..n * n {
        values.push((p as i64).wrapping_mul(0x1234_5678_9abc_def1).wrapping_add(i64::MAX / 3));
    }
    let a = Matrix::new(n, values).unwrap();
    let b = patterned(n, 5);
    let r = multiply(&a, &b).unwrap();
    assert_eq!(r.values(), &by_definition(&a, &b));
    assert_eq!(r, multiply_blocked(&a, &b).unwrap());
    assert_eq!(r, multiply_iter(&a, &b).unwrap());
    assert_eq!(r, multiply_rayon(&a, &b).unwrap());
}

#[test]
fn identity_is_neutral_under_every_strategy() {
    let n = 3 * BLOCK;
    let identity = Matrix::<i64>::id(n);
    let r = Matrix::<i64>::random(n);
    assert_eq!(multiply(&identity, &r).unwrap(), r);
    assert_eq!(multiply_blocked(&identity, &r).unwrap(), r);
    assert_eq!(multiply_iter(&identity, &r).unwrap(), r);
    assert_eq!(multiply_rayon(&identity, &r).unwrap(), r);
    let p = patterned(BLOCK, 3);
    let small = Matrix::<i64>::id(BLOCK);
    assert_eq!(multiply_blocked(&small, &p).unwrap(), p);
    assert_eq!(multiply_iter(&small, &p).unwrap(), p);
    assert_eq!(multiply_rayon(&small, &p).unwrap(), p);
}

#[test]
fn inputs_are_left_as_they_were() {
    let a = patterned(BLOCK, 1);
    let b = patterned(BLOCK, 2);
    let a_before = a.values().clone();
    let b_before = b.values().clone();
    multiply(&a, &b).unwrap();
    multiply_blocked(&a, &b).unwrap();
    multiply_iter(&a, &b).unwrap();
    multiply_rayon(&a, &b).unwrap();
    assert_eq!(a.values(), &a_before);
    assert_eq!(b.values(), &b_before);
}

#[test]
fn operands_of_different_dimensions_are_refused() {
    let a = patterned(BLOCK, 1);
    let b = patterned(2 * BLOCK, 2);
    assert_eq!(multiply(&a, &b), Err(MatrixError::DimensionMismatch));
    assert_eq!(multiply_blocked(&a, &b), Err(MatrixError::DimensionMismatch));
    assert_eq!(multiply_iter(&a, &b), Err(MatrixError::DimensionMismatch));
    assert_eq!(multiply_rayon(&a, &b), Err(MatrixError::DimensionMismatch));
}

#[test]
fn a_difference_in_dimension_is_reported_before_alignment() {
    let a = patterned(2, 1);
    let b = patterned(3, 2);
    assert_eq!(multiply(&a, &b), Err(MatrixError::DimensionMismatch));
    assert_eq!(multiply_blocked(&a, &b), Err(MatrixError::DimensionMismatch));
    assert_eq!(multiply_iter(&a, &b), Err(MatrixError::DimensionMismatch));
    assert_eq!(multiply_rayon(&a, &b), Err(MatrixError::DimensionMismatch));
}

#[test]
fn an_unaligned_dimension_is_refused_by_the_tiled_strategies_only() {
    for n in [1usize, 2, 63, 65, 100] {
        let a = patterned(n, 1);
        let b = patterned(n, 2);
        assert_eq!(multiply(&a, &b).unwrap().into_values(), by_definition(&a, &b));
        assert_eq!(multiply_blocked(&a, &b), Err(MatrixError::UnalignedSize));
        assert_eq!(multiply_iter(&a, &b), Err(MatrixError::UnalignedSize));
        assert_eq!(multiply_rayon(&a, &b), Err(MatrixError::UnalignedSize));
    }
}

#[test]
fn empty_matrices_multiply_to_the_empty_matrix() {
    let a = Matrix::<i64>::zero(0);
    let b = Matrix::<i64>::zero(0);
    assert_eq!(multiply(&a, &b).unwrap().size(), 0);
    assert_eq!(multiply_blocked(&a, &b).unwrap().size(), 0);
    assert_eq!(multiply_iter(&a, &b).unwrap().size(), 0);
    assert_eq!(multiply_rayon(&a, &b).unwrap().size(), 0);
    assert!(multiply_rayon(&a, &b).unwrap().values().is_empty());
}

#[test]
fn table_of_the_empty_matrix() {
    let m = Matrix::<i64>::zero(0);
    assert_eq!(m.table(&Vec::new()).unwrap(), "┌   ┐ │\n└   ┘\n");
}

#[test]
fn table_of_integers() {
    let m = Matrix::new(2, vec![1i64, -2, 30, 4]).unwrap();
    let fields: Vec<String> = m.values().iter().map(|v| format!("{:5}", v)).collect();
    let expected = "┌              ┐\n│     1    -2  │\n│    30     4  │\n└              ┘\n";
    assert_eq!(m.table(&fields).unwrap(), expected);
}

#[test]
fn table_refuses_a_wrong_number_of_texts() {
    let m = Matrix::new(2, vec![1i64, 2, 3, 4]).unwrap();
    let three = vec![String::from("1"), String::from("2"), String::from("3")];
    assert_eq!(m.table(&three), Err(MatrixError::DimensionMismatch));
    assert_eq!(m.table(&Vec::new()), Err(MatrixError::DimensionMismatch));
    let empty = Matrix::<i64>::zero(0);
    assert_eq!(empty.table(&three), Err(MatrixError::DimensionMismatch));
}
