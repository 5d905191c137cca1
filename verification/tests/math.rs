use librender::math::matrix::Matrix;
use librender::math::vector::Vector;

fn vec3(a: i64, b: i64, c: i64) -> Vector<3> {
    Vector::new_from_array([a, b, c])
}

fn mat2(rows: [[i64; 2]; 2]) -> Matrix<2, 2> {
    let mut m = Matrix::<2, 2>::new();
    for i in 0..2 {
        for j in 0..2 {
            m.set(i, j, rows[i][j]);
        }
    }
    m
}

fn mat3(rows: [[i64; 3]; 3]) -> Matrix<3, 3> {
    let mut m = Matrix::<3, 3>::new();
    for i in 0..3 {
        for j in 0..3 {
            m.set(i, j, rows[i][j]);
        }
    }
    m
}

fn mat4(rows: [[i64; 4]; 4]) -> Matrix<4, 4> {
    let mut m = Matrix::<4, 4>::new();
    for i in 0..4 {
        for j in 0..4 {
            m.set(i, j, rows[i][j]);
        }
    }
    m
}

#[test]
fn vector_new_is_zero() {
    let v = Vector::<4>::new();
    for i in 0..4 {
        assert_eq!(v.get(i), 0);
    }
}

#[test]
fn vector_from_vec_takes_prefix() {
    let v: Vector<2> = Vector::new_from_vec(&vec![7, 8, 9]);
    assert_eq!(v.get(0), 7);
    assert_eq!(v.get(1), 8);
}

#[test]
fn vector_embed_pads_with_value() {
    let v = vec3(1, 2, 3);
    let e: Vector<4> = v.embed(9);
    assert_eq!(e.get(0), 1);
    assert_eq!(e.get(1), 2);
    assert_eq!(e.get(2), 3);
    assert_eq!(e.get(3), 9);
}

#[test]
fn vector_project_drops_trailing() {
    let v = Vector::<4>::new_from_array([1, 2, 3, 4]);
    let p: Vector<2> = v.project();
    assert_eq!(p.get(0), 1);
    assert_eq!(p.get(1), 2);
}

#[test]
fn vector_arithmetic() {
    let a = vec3(1, 2, 3);
    let b = vec3(10, 20, 30);
    let s = a.add(&b);
    assert_eq!((s.get(0), s.get(1), s.get(2)), (11, 22, 33));
    let d = b.sub(&a);
    assert_eq!((d.get(0), d.get(1), d.get(2)), (9, 18, 27));
    let k = a.scale(-2);
    assert_eq!((k.get(0), k.get(1), k.get(2)), (-2, -4, -6));
    assert_eq!(a.dot(&b), 140);
}

#[test]
fn vector_cross_matches_hand_computation() {
    let x = vec3(1, 0, 0);
    let y = vec3(0, 1, 0);
    let z = x.cross(&y);
    assert_eq!((z.get(0), z.get(1), z.get(2)), (0, 0, 1));
    let a = vec3(2, 3, 4);
    let b = vec3(5, 6, 7);
    let c = a.cross(&b);
    assert_eq!((c.get(0), c.get(1), c.get(2)), (-3, 6, -3));
}

#[test]
fn matrix_set_get_and_columns() {
    let mut m = Matrix::<2, 3>::new();
    m.set(0, 2, 5);
    m.set(1, 0, -4);
    assert_eq!(m.get(0, 2), 5);
    assert_eq!(m.get(1, 0), -4);
    let col = m.get_col(2);
    assert_eq!(col.get(0), 5);
    assert_eq!(col.get(1), 0);
    let newcol = Vector::<2>::new_from_array([8, 9]);
    m.set_col(1, &newcol);
    assert_eq!(m.get(0, 1), 8);
    assert_eq!(m.get(1, 1), 9);
}

#[test]
fn matrix_transpose_swaps_indices() {
    let m = mat2([[1, 2], [3, 4]]);
    let t = m.transpose();
    assert_eq!(t.get(0, 1), 3);
    assert_eq!(t.get(1, 0), 2);
}

#[test]
fn matrix_add_sub() {
    let a = mat2([[1, 2], [3, 4]]);
    let b = mat2([[10, 20], [30, 40]]);
    let s = a.add(&b);
    assert_eq!(s.get(1, 1), 44);
    let d = b.sub(&a);
    assert_eq!(d.get(0, 0), 9);
}

#[test]
fn matrix_product_matches_hand_computation() {
    let a = mat2([[1, 2], [3, 4]]);
    let b = mat2([[5, 6], [7, 8]]);
    let p = a.mul(&b);
    assert_eq!(p.get(0, 0), 19);
    assert_eq!(p.get(0, 1), 22);
    assert_eq!(p.get(1, 0), 43);
    assert_eq!(p.get(1, 1), 50);
}

#[test]
fn matrix_vector_product() {
    let m = mat2([[1, 2], [3, 4]]);
    let v = Vector::<2>::new_from_array([10, 100]);
    let r = m.mul_vec(&v);
    assert_eq!(r.get(0), 210);
    assert_eq!(r.get(1), 430);
}

#[test]
fn determinant_1x1() {
    let mut m = Matrix::<1, 1>::new();
    m.set(0, 0, -17);
    assert_eq!(m.det(), -17);
}

#[test]
fn determinant_values() {
    assert_eq!(mat2([[3, 7], [1, -4]]).det(), -19);
    assert_eq!(mat3([[6, 1, 1], [4, -2, 5], [2, 8, 7]]).det(), -306);
    let m4 = mat4([[1, 0, 2, -1], [3, 0, 0, 5], [2, 1, 4, -3], [1, 0, 5, 0]]);
    assert_eq!(m4.det(), 30);
}

#[test]
fn determinant_of_singular_matrix_is_zero() {
    assert_eq!(mat3([[1, 2, 3], [2, 4, 6], [7, 8, 9]]).det(), 0);
}

#[test]
fn minor_and_cofactor() {
    let m = mat3([[6, 1, 1], [4, -2, 5], [2, 8, 7]]);
    let minor = m.minor(0, 0);
    assert_eq!(minor.get(0, 0), -2);
    assert_eq!(minor.get(1, 1), 7);
    assert_eq!(m.cofactor(0, 0), -2 * 7 - 5 * 8);
    let m4 = mat4([[1, 0, 2, -1], [3, 0, 0, 5], [2, 1, 4, -3], [1, 0, 5, 0]]);
    let minor4 = m4.minor(2, 1);
    assert_eq!(minor4.get(0, 0), 1);
    assert_eq!(minor4.get(2, 2), 0);
}

#[test]
fn adjugate_times_matrix_is_determinant_identity_2() {
    let m = mat2([[3, 7], [1, -4]]);
    let p = m.mul(&m.adj());
    let det = m.det();
    for i in 0..2 {
        for j in 0..2 {
            assert_eq!(p.get(i, j), if i == j { det } else { 0 });
        }
    }
}

#[test]
fn adjugate_times_matrix_is_determinant_identity_3() {
    let m = mat3([[6, 1, 1], [4, -2, 5], [2, 8, 7]]);
    let p = m.mul(&m.adj());
    let det = m.det();
    for i in 0..3 {
        for j in 0..3 {
            assert_eq!(p.get(i, j), if i == j { det } else { 0 });
        }
    }
}

#[test]
fn adjugate_times_matrix_is_determinant_identity_4() {
    let m = mat4([[1, 0, 2, -1], [3, 0, 0, 5], [2, 1, 4, -3], [1, 0, 5, 0]]);
    let p = m.mul(&m.adj());
    let det = m.det();
    for i in 0..4 {
        for j in 0..4 {
            assert_eq!(p.get(i, j), if i == j { det } else { 0 });
        }
    }
}
