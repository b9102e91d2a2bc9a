use rasterizer::matrix::Matrix4x4;
use rasterizer::obj::{one_based, parse_face_point, parse_index, FacePoint};
use rasterizer::vec::{Vec2, Vec3, Vec4};

fn from_rows(rows: [[i64; 4]; 4]) -> Matrix4x4<i64> {
    let mut m = Matrix4x4::new();
    for (i, row) in rows.iter().enumerate() {
        for (j, v) in row.iter().enumerate() {
            m.set(i, j, *v);
        }
    }
    m
}

fn rows(m: &Matrix4x4<i64>) -> [[i64; 4]; 4] {
    let mut out = [[0i64; 4]; 4];
    for (i, row) in out.iter_mut().enumerate() {
        for (j, v) in row.iter_mut().enumerate() {
            *v = m.get(i, j);
        }
    }
    out
}

fn random_matrix() -> Matrix4x4<i64> {
    let mut m = Matrix4x4::new();
    for i in 0..4 {
        for j in 0..4 {
            m.set(i, j, (rand::random::<u16>() % 2001) as i64 - 1000);
        }
    }
    m
}

const A: [[i64; 4]; 4] = [[1, 2, 3, 4], [5, 6, 7, 8], [9, 10, 11, 12], [13, 14, 15, 16]];
const B: [[i64; 4]; 4] = [[2, 0, 0, 1], [0, 3, 0, 0], [0, 0, -1, 0], [4, 0, 0, 1]];

#[test]
fn new_matrix_is_zero() {
    assert_eq!(rows(&Matrix4x4::new()), [[0; 4]; 4]);
}

#[test]
fn identity_has_ones_on_the_diagonal() {
    assert_eq!(rows(&Matrix4x4::identity()), [[1, 0, 0, 0], [0, 1, 0, 0], [0, 0, 1, 0], [0, 0, 0, 1]]);
}

#[test]
fn get_and_set_address_row_and_column() {
    let mut m = Matrix4x4::new();
    m.set(0, 3, 7);
    assert_eq!(m.get(0, 3), 7);
    assert_eq!(m.get(3, 0), 0);
}

#[test]
fn identity_is_neutral() {
    let a = from_rows(A);
    let id = Matrix4x4::identity();
    assert_eq!(rows(&id.mul(&a)), A);
    assert_eq!(rows(&a.mul(&id)), A);
}

#[test]
fn product_of_known_matrices() {
    let ab = from_rows(A).mul(&from_rows(B));
    assert_eq!(rows(&ab), [[18, 6, -3, 5], [42, 18, -7, 13], [66, 30, -11, 21], [90, 42, -15, 29]]);
}

#[test]
fn product_is_not_commutative() {
    let ab = from_rows(A).mul(&from_rows(B));
    let ba = from_rows(B).mul(&from_rows(A));
    assert_ne!(rows(&ab), rows(&ba));
}

#[test]
fn product_is_associative_on_random_matrices() {
    for _ in 0..50 {
        let (a, b, c) = (random_matrix(), random_matrix(), random_matrix());
        assert_eq!(rows(&a.mul(&b).mul(&c)), rows(&a.mul(&b.mul(&c))));
    }
}

#[test]
fn add_and_sub_are_entrywise() {
    let a = from_rows(A);
    let b = from_rows(B);
    assert_eq!(rows(&a.add(&b)), [[3, 2, 3, 5], [5, 9, 7, 8], [9, 10, 10, 12], [17, 14, 15, 17]]);
    assert_eq!(rows(&a.sub(&b)), [[-1, 2, 3, 3], [5, 3, 7, 8], [9, 10, 12, 12], [9, 14, 15, 15]]);
}

#[test]
fn matrix_times_vector() {
    let v = Vec4 { x: 1, y: -1, z: 2, w: 1 };
    let r = from_rows(A).mul_vec(&v);
    assert_eq!((r.x, r.y, r.z, r.w), (9, 21, 33, 45));
}

#[test]
fn transforming_by_a_product_composes() {
    let v = Vec4 { x: 3, y: 0, z: -2, w: 1 };
    let (a, b) = (from_rows(A), from_rows(B));
    let lhs = a.mul(&b).mul_vec(&v);
    let rhs = a.mul_vec(&b.mul_vec(&v));
    assert_eq!((lhs.x, lhs.y, lhs.z, lhs.w), (rhs.x, rhs.y, rhs.z, rhs.w));
}

#[test]
fn clamp_limits_each_component() {
    let lo = Vec2 { x: 0, y: 0 };
    let hi = Vec2 { x: 10, y: 5 };
    let r = Vec2 { x: -3, y: 7 }.clamp(&lo, &hi);
    assert_eq!((r.x, r.y), (0, 5));
    let r = Vec2 { x: 4, y: 2 }.clamp(&lo, &hi);
    assert_eq!((r.x, r.y), (4, 2));
}

#[test]
fn cross_and_dot() {
    let x = Vec3 { x: 1i128, y: 0, z: 0 };
    let y = Vec3 { x: 0i128, y: 1, z: 0 };
    let z = x.cross(y);
    assert_eq!((z.x, z.y, z.z), (0, 0, 1));
    let a = Vec3 { x: 2i128, y: 3, z: 4 };
    let b = Vec3 { x: 5i128, y: 6, z: 7 };
    let c = a.cross(b);
    assert_eq!((c.x, c.y, c.z), (-3, 6, -3));
    assert_eq!(a.dot(b), 56);
    assert_eq!(c.dot(a), 0);
}

#[test]
fn swizzles_drop_trailing_components() {
    let v3 = Vec3 { x: 1, y: 2, z: 3 }.xy();
    assert_eq!((v3.x, v3.y), (1, 2));
    let v4 = Vec4 { x: 4, y: 5, z: 6, w: 7 }.xy();
    assert_eq!((v4.x, v4.y), (4, 5));
}

#[test]
fn one_based_lookup() {
    let items = vec![10, 20, 30];
    assert_eq!(one_based(&items, 1), Some(10));
    assert_eq!(one_based(&items, 3), Some(30));
    assert_eq!(one_based(&items, 0), None);
    assert_eq!(one_based(&items, 4), None);
}

#[test]
fn index_fields_are_decimal() {
    assert_eq!(parse_index(b"1"), Some(1));
    assert_eq!(parse_index(b"0042"), Some(42));
    assert_eq!(parse_index(usize::MAX.to_string().as_bytes()), Some(usize::MAX));
    assert_eq!(parse_index(format!("{}0", usize::MAX).as_bytes()), None);
    assert_eq!(parse_index(b""), None);
    assert_eq!(parse_index(b"12a"), None);
    assert_eq!(parse_index(b"-3"), None);
    assert_eq!(parse_index(b"99999999999999999999999"), None);
}

#[test]
fn face_corners_have_three_indices() {
    assert_eq!(parse_face_point(b"1/2/3"), Some(FacePoint { vindex: 1, tindex: 2, nindex: 3 }));
    assert_eq!(parse_face_point(b"10/20/30/40"), Some(FacePoint { vindex: 10, tindex: 20, nindex: 30 }));
    assert_eq!(parse_face_point(b"1/2"), None);
    assert_eq!(parse_face_point(b"1//3"), None);
    assert_eq!(parse_face_point(b"1/2/3/"), None);
    assert_eq!(parse_face_point(b"1/x/3"), None);
    assert_eq!(parse_face_point(b""), None);
}
