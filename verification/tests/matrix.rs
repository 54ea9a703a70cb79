use cryptolab::matrix::{
    adjugate_fits, determinant_fits,
    matrix_addition, matrix_addition_module, matrix_adjugate, matrix_cofactor, matrix_determinant,
    matrix_inverse_module, matrix_module, matrix_multiplication_escalar,
    matrix_multiplication_escalar_module, matrix_multiplication_matrix,
    matrix_multiplication_matrix_module, matrix_transposed, matrix_validation,
};

const M0: [i32; 9] = [5, 17, 20, 9, 23, 3, 2, 11, 13];

#[test]
fn validation_accepts_squares_up_to_three() {
    for size in [1usize, 4, 9] {
        assert!(matrix_validation(size));
    }
    for size in [0usize, 2, 3, 5, 8, 16, 25] {
        assert!(!matrix_validation(size));
    }
}

#[test]
fn determinant_by_size() {
    assert_eq!(matrix_determinant(&M0), 503);
    assert_eq!(matrix_determinant(&[0, 1, 2, 3]), -2);
    assert_eq!(matrix_determinant(&[7]), 7);
    assert_eq!(matrix_determinant(&[]), -1);
    assert_eq!(matrix_determinant(&[1, 2, 3]), -1);
    assert_eq!(matrix_determinant(&[1; 16]), -1);
}

#[test]
fn transposed_matrix() {
    assert_eq!(matrix_transposed(&M0), vec![5, 9, 2, 17, 23, 11, 20, 3, 13]);
    assert_eq!(matrix_transposed(&[1, 2]), vec![-1]);
    assert_eq!(matrix_transposed(&[]), vec![-1]);
}

#[test]
fn cofactor_minor() {
    assert_eq!(matrix_cofactor(&M0, 0, 0), vec![23, 3, 11, 13]);
    assert_eq!(matrix_cofactor(&M0, 3, 0), vec![-1]);
    assert_eq!(matrix_cofactor(&[1, 2, 3, 4], -1, 0), vec![2, 4]);
    assert_eq!(matrix_cofactor(&[1, 2, 3, 4], -1, -1), vec![1, 2, 3, 4]);
    assert_eq!(matrix_cofactor(&[1, 2, 3], 0, 0), vec![-1]);
    assert_eq!(matrix_cofactor(&[], -1, -1), vec![-1]);
    assert_eq!(matrix_cofactor(&[7], 0, 0), Vec::<i32>::new());
}

#[test]
fn adjugate_matrix() {
    assert_eq!(matrix_adjugate(&M0), vec![266, -1, -409, -111, 25, 165, 53, -21, -38]);
    assert_eq!(matrix_adjugate(&[1, 2, 3, 5]), vec![5, -2, -3, 1]);
    assert_eq!(matrix_adjugate(&[7]), vec![1]);
    assert_eq!(matrix_adjugate(&[]), vec![-1]);
    assert_eq!(matrix_adjugate(&[1, 2]), vec![-1]);
}

#[test]
fn addition_and_escalar() {
    assert_eq!(matrix_addition(&[1, 2, 3, 4], &[10, 20, 30, 40]), vec![11, 22, 33, 44]);
    assert_eq!(matrix_addition(&[1, 2], &[1]), vec![-1]);
    assert_eq!(matrix_multiplication_escalar(&[1, -2, 3], 3), vec![3, -6, 9]);
}

#[test]
fn product_of_matrices() {
    assert_eq!(
        matrix_multiplication_matrix(&M0, &M0),
        vec![218, 696, 411, 258, 715, 288, 135, 430, 242]
    );
    assert_eq!(matrix_multiplication_matrix(&[1, 2], &[1, 2]), vec![-1]);
    assert_eq!(matrix_multiplication_matrix(&[1, 2, 3, 4], &[1]), vec![-1]);
}

#[test]
fn module_operations() {
    assert_eq!(matrix_module(&[-1, 27, 30, 5], 27), vec![26, 0, 3, 5]);
    assert_eq!(matrix_addition_module(&[20, 20], &[10, 5], 27), vec![3, 25]);
    assert_eq!(matrix_multiplication_escalar_module(&[10, -3], 3, 27), vec![3, 18]);
    assert_eq!(
        matrix_multiplication_matrix_module(&[1, 2, 3, 4], &[5, 6, 7, 8], 10),
        vec![9, 2, 3, 0]
    );
}

#[test]
fn inverse_module_of_three_by_three() {
    let inv = matrix_inverse_module(&M0, 27);
    assert_eq!(inv, vec![22, 19, 22, 3, 11, 24, 19, 21, 20]);
    let product = matrix_multiplication_matrix_module(&inv, &M0, 27);
    assert_eq!(product, vec![1, 0, 0, 0, 1, 0, 0, 0, 1]);
}

#[test]
fn inverse_module_of_two_by_two() {
    assert_eq!(matrix_inverse_module(&[1, 2, 3, 5], 7), vec![2, 2, 3, 6]);
}

#[test]
fn inverse_module_refused() {
    // determinant -2 has no inverse modulo 256
    assert_eq!(matrix_inverse_module(&[0, 1, 2, 3], 256), Vec::<i32>::new());
    // zero determinant
    assert_eq!(matrix_inverse_module(&[1, 2, 2, 4], 7), Vec::<i32>::new());
    // not a square matrix
    assert_eq!(matrix_inverse_module(&[1, 2, 3], 7), Vec::<i32>::new());
}

#[test]
fn determinant_fits_detects_overflow() {
    assert!(determinant_fits(&M0));
    assert!(determinant_fits(&[]));
    assert!(determinant_fits(&[i32::MIN]));
    assert!(determinant_fits(&[1, 2, 3]));
    assert!(determinant_fits(&[46340, 0, 0, 46340]));
    assert!(!determinant_fits(&[46341, 0, 0, 46341]));
    // each product fits but their difference does not
    assert!(!determinant_fits(&[46340, 46340, -46340, 46340]));
    // one diagonal of Sarrus' rule overflows
    assert!(!determinant_fits(&[2000, 0, 0, 0, 2000, 0, 0, 0, 2000]));
    assert!(determinant_fits(&[1000, 0, 0, 0, 1000, 0, 0, 0, 1000]));
    // every diagonal fits, the running sum does not
    assert!(!determinant_fits(&[1200, 1200, 0, 0, 1200, 1200, 1200, 0, 1200]));
    assert!(determinant_fits(&[1000, 1000, 1000, 1000, 1000, 1000, 1000, 1000, 1000]));
    assert_eq!(matrix_determinant(&[1000, 1000, 1000, 1000, 1000, 1000, 1000, 1000, 1000]), 0);
}

#[test]
fn adjugate_fits_detects_overflow() {
    assert!(adjugate_fits(&M0));
    assert!(adjugate_fits(&[1, 2, 3]));
    assert!(adjugate_fits(&[i32::MIN]));
    // the entry -(-2^31) leaves i32
    assert!(!adjugate_fits(&[0, i32::MIN, 0, 0]));
    assert!(adjugate_fits(&[0, i32::MAX, 0, 0]));
    // a 2 x 2 minor overflows
    assert!(!adjugate_fits(&[1, 0, 0, 0, 50000, 0, 0, 0, 50000]));
    assert!(adjugate_fits(&[1, 0, 0, 0, 40000, 0, 0, 0, 40000]));
}

#[test]
fn adjugate_times_matrix_is_determinant_times_identity() {
    for mat in [vec![5], vec![1, 2, 3, 5], M0.to_vec()] {
        let det = matrix_determinant(&mat);
        let adj = matrix_adjugate(&mat);
        let n = match mat.len() { 1 => 1, 4 => 2, _ => 3 };
        let mut det_id = vec![0; mat.len()];
        for i in 0..n {
            det_id[i * n + i] = det;
        }
        assert_eq!(matrix_multiplication_matrix(&mat, &adj), det_id);
        assert_eq!(matrix_multiplication_matrix(&adj, &mat), det_id);
    }
}

#[test]
fn inverse_module_is_two_sided() {
    let inv = matrix_inverse_module(&M0, 27);
    assert_eq!(matrix_multiplication_matrix_module(&M0, &inv, 27), vec![1, 0, 0, 0, 1, 0, 0, 0, 1]);
    assert_eq!(matrix_multiplication_matrix_module(&inv, &M0, 27), vec![1, 0, 0, 0, 1, 0, 0, 0, 1]);
}

#[test]
fn inverse_module_exists_exactly_for_unit_determinant() {
    // determinant 4: a unit modulo 3, not modulo 4 or 6
    assert!(!matrix_inverse_module(&[2, 0, 0, 2], 3).is_empty());
    assert!(matrix_inverse_module(&[2, 0, 0, 2], 4).is_empty());
    assert!(matrix_inverse_module(&[2, 0, 0, 2], 6).is_empty());
    assert_eq!(matrix_inverse_module(&[5], 7), vec![3]);
    assert!(matrix_inverse_module(&[7], 7).is_empty());
}
