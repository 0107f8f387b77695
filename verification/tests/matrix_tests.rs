use multilinear_sumcheck::field::Fe;
use multilinear_sumcheck::matrix::Matrix;

#[test]
fn test_random_matrix() {
    let matrix = Matrix::random(3, 4);
    println!("{:#?}", matrix);
    assert_eq!(matrix.rows, 3);
    assert_eq!(matrix.cols, 4);
    assert_eq!(matrix.values.len(), 3);
    assert!(matrix.values.iter().all(|row| row.len() == 4));
}

#[test]
fn test_matrix_mul() {
    let m: usize = 2;
    let mut values: Vec<Vec<Fe>> = Vec::with_capacity(m);
    let mut row_1: Vec<Fe> = Vec::with_capacity(m);
    row_1.push(Fe::one());
    row_1.push(Fe::zero());
    let mut row_2: Vec<Fe> = Vec::with_capacity(m);
    row_2.push(Fe::zero());
    row_2.push(Fe::one());
    values.push(row_1);
    values.push(row_2);

    let a = Matrix {
        rows: m,
        cols: m,
        values,
    };
    let b = a.clone();

    let res = Matrix::mul(&a, &b);
    assert_eq!(a.values, res.values);
    println!("{:#?}", res);
}

#[test]
fn test_matrix_mul_vec() {
    let m: usize = 2;
    let mut values: Vec<Vec<Fe>> = Vec::with_capacity(m);
    let mut row_1: Vec<Fe> = Vec::with_capacity(m);
    row_1.push(Fe::one());
    row_1.push(Fe::zero());
    let mut row_2: Vec<Fe> = Vec::with_capacity(m);
    row_2.push(Fe::zero());
    row_2.push(Fe::one());
    values.push(row_1.clone());
    values.push(row_2);

    let a = Matrix {
        rows: m,
        cols: m,
        values,
    };

    let res = a.matrix_mul_vec(&row_1);
    assert_eq!(row_1, res);
    println!("{:#?}", res);
}

#[test]
fn test() {
    let n = 2;
    let a = Matrix::random(n, n);
    let b = Matrix::random(n, n);
    let x = vec![Fe::from_u64(3), Fe::from_u64(5)];

    // A*B*x
    let res1 = Matrix::mul(&a, &b).matrix_mul_vec(&x);
    // A*(B*x)
    let res2 = a.matrix_mul_vec(&b.matrix_mul_vec(&x));
    assert_eq!(res1, res2);
}

fn matrix(rows: &[&[u64]]) -> Matrix {
    Matrix {
        rows: rows.len(),
        cols: rows[0].len(),
        values: rows.iter().map(|r| r.iter().map(|v| Fe::from_u64(*v)).collect()).collect(),
    }
}

#[test]
fn matrix_mul_of_rectangular_matrices() {
    // (2 x 3) * (3 x 2)
    let a = matrix(&[&[1, 2, 3], &[4, 5, 6]]);
    let b = matrix(&[&[7, 8], &[9, 10], &[11, 12]]);
    let c = Matrix::mul(&a, &b);
    assert_eq!(c.rows, 2);
    assert_eq!(c.cols, 2);
    assert_eq!(c.values, matrix(&[&[58, 64], &[139, 154]]).values);
}

#[test]
fn matrix_mul_vec_takes_dot_products_of_rows() {
    let a = matrix(&[&[1, 2, 3], &[4, 5, 6]]);
    let x: Vec<Fe> = [1u64, 10, 100].iter().map(|v| Fe::from_u64(*v)).collect();
    let y = a.matrix_mul_vec(&x);
    assert_eq!(y, vec![Fe::from_u64(321), Fe::from_u64(654)]);
}

#[test]
fn vec_mul_is_the_dot_product() {
    let a: Vec<Fe> = [1u64, 2, 3].iter().map(|v| Fe::from_u64(*v)).collect();
    let b: Vec<Fe> = [4u64, 5, 6].iter().map(|v| Fe::from_u64(*v)).collect();
    assert_eq!(Matrix::vec_mul(&a, &b), Fe::from_u64(32));
    assert_eq!(Matrix::vec_mul(&vec![], &vec![]), Fe::zero());
}

#[test]
fn get_columns_reads_down_a_column() {
    let a = matrix(&[&[1, 2, 3], &[4, 5, 6]]);
    assert_eq!(a.get_columns(1), vec![Fe::from_u64(2), Fe::from_u64(5)]);
}

#[test]
fn is_rectangular_compares_every_row() {
    assert!(matrix(&[&[1, 2, 3], &[4, 5, 6]]).is_rectangular());
    let mut ragged = matrix(&[&[1, 2, 3], &[4, 5, 6]]);
    ragged.values[1].pop();
    assert!(!ragged.is_rectangular());
    let mut short = matrix(&[&[1, 2, 3], &[4, 5, 6]]);
    short.rows = 3;
    assert!(!short.is_rectangular());
    assert!(Matrix::random(0, 5).is_rectangular());
}
