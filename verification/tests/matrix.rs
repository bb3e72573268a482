use smolgpt::error::GptError;
use smolgpt::matrix::Matrix;

/// Builds a `w` by `h` matrix from row-major values.
fn build(w: usize, h: usize, vals: &[i64]) -> Matrix {
    assert_eq!(vals.len(), w * h);
    let mut m = Matrix::new_zeroed(w, h);
    for y in 0..h {
        for x in 0..w {
            m.set(x, y, vals[y * w + x]).unwrap();
        }
    }
    m
}

#[test]
fn matrix_mul() {
    let a = build(3, 2, &[1, 2, 3, 4, 5, 6]);
    let b = build(2, 3, &[10, 11, 20, 21, 30, 31]);

    let c = a.mul(&b).unwrap();

    println!("{a:?}");
    println!("{b:?}");
    println!("{c:?}");

    assert_eq!(c, build(2, 2, &[140, 146, 320, 335]));
}

#[test]
fn matrix_add() {
    let a = build(3, 2, &[1, -1, 2, 0, 3, 4]);
    let b = build(3, 2, &[2, -1, 5, 7, 1, 4]);

    println!("{a:?}");

    let c = a.add(&b).unwrap();

    println!("{b:?}");
    println!("{c:?}");

    assert_eq!(c, build(3, 2, &[3, -2, 7, 7, 4, 8]));
}

#[test]
fn vec_dot() {
    let a = build(3, 1, &[1, 2, 3]);
    let b = build(1, 3, &[4, -5, 6]);

    assert_eq!(a.mul(&b).unwrap(), build(1, 1, &[12]));
}

#[test]
fn zeroed_matrix_is_all_zero() {
    let m = Matrix::new_zeroed(3, 4);
    assert_eq!(m.width(), 3);
    assert_eq!(m.height(), 4);
    for y in 0..4 {
        for x in 0..3 {
            assert_eq!(m.get(x, y).unwrap(), 0);
        }
    }
}

#[test]
fn get_out_of_range() {
    let m = Matrix::new_zeroed(2, 2);
    assert_eq!(m.get(2, 0), Err(GptError::IndexOutOfRange));
    assert_eq!(m.get(0, 2), Err(GptError::IndexOutOfRange));
    assert_eq!(m.get(7, 7), Err(GptError::IndexOutOfRange));
}

#[test]
fn set_out_of_range() {
    let mut m = Matrix::new_zeroed(2, 2);
    assert_eq!(m.set(2, 0, 1), Err(GptError::IndexOutOfRange));
    assert_eq!(m.set(0, 5, 1), Err(GptError::IndexOutOfRange));
    // the failed writes left the matrix unchanged
    assert_eq!(m, Matrix::new_zeroed(2, 2));
}

#[test]
fn mul_shape_mismatch() {
    let a = build(3, 2, &[1, 2, 3, 4, 5, 6]);
    let b = build(3, 2, &[1, 2, 3, 4, 5, 6]);
    // a is 3 wide, b is 2 high: inner dimensions differ
    assert_eq!(a.mul(&b), Err(GptError::ShapeMismatch));
}

#[test]
fn add_shape_mismatch() {
    let a = build(3, 2, &[1, 2, 3, 4, 5, 6]);
    let b = build(2, 3, &[1, 2, 3, 4, 5, 6]);
    assert_eq!(a.add(&b), Err(GptError::ShapeMismatch));
}

#[test]
fn add_commutative() {
    let a = build(2, 2, &[5, -3, 0, 9]);
    let b = build(2, 2, &[-1, 4, 2, 2]);
    assert_eq!(a.add(&b).unwrap(), b.add(&a).unwrap());
}

#[test]
fn add_associative() {
    let a = build(2, 2, &[5, -3, 0, 9]);
    let b = build(2, 2, &[-1, 4, 2, 2]);
    let c = build(2, 2, &[10, 20, -30, 40]);
    let left = a.add(&b).unwrap().add(&c).unwrap();
    let right = a.add(&b.add(&c).unwrap()).unwrap();
    assert_eq!(left, right);
}

#[test]
fn transpose_swaps_coordinates() {
    let a = build(3, 2, &[1, 2, 3, 4, 5, 6]);
    let t = a.transpose();
    assert_eq!(t.width(), 2);
    assert_eq!(t.height(), 3);
    assert_eq!(t, build(2, 3, &[1, 4, 2, 5, 3, 6]));
    // transposing twice gives the original back
    assert_eq!(t.transpose(), a);
}

#[test]
fn add_is_elementwise() {
    let a = build(2, 1, &[7, -2]);
    let b = build(2, 1, &[1, 10]);
    let c = a.add(&b).unwrap();
    assert_eq!(c.get(0, 0).unwrap(), 8);
    assert_eq!(c.get(1, 0).unwrap(), 8);
}
