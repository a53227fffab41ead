//! Componentwise vector algebra over the fixed-point scale.

use pathtracer::vec3::Vec3;

const S: i64 = 65536;

#[test]
fn test_add() {
    let a = Vec3::new(1 * S, 2 * S, 3 * S);
    let b = Vec3::new(1 * S, 2 * S, 3 * S);
    assert!(a.add(b) == Vec3::new(2 * S, 4 * S, 6 * S));
}

#[test]
fn test_neg() {
    let a = Vec3::new(1 * S, -2 * S, 3 * S);
    assert!(a.neg() == Vec3::new(-1 * S, 2 * S, -3 * S));
}

#[test]
fn test_mul() {
    let a = Vec3::new(1 * S, -2 * S, 3 * S);
    let b = Vec3::new(3 * S, -4 * S, 5 * S);
    let c = 3 * S;
    assert!(a.mul(b) == Vec3::new(3 * S, 8 * S, 15 * S));
    assert!(a.scale(c) == Vec3::new(3 * S, -6 * S, 9 * S));
    // Scaling from the left: the constant as a vector, multiplied
    // componentwise, gives the same result.
    assert!(Vec3::new(c, c, c).mul(a) == Vec3::new(3 * S, -6 * S, 9 * S));
}

#[test]
fn test_div() {
    let a = Vec3::new(6 * S, -20 * S, 120 * S);
    let b = Vec3::new(3 * S, -4 * S, 5 * S);
    let c = 2 * S;
    assert!(a.div(b) == Vec3::new(2 * S, 5 * S, 24 * S));
    assert!(a.div_s(c) == Vec3::new(3 * S, -10 * S, 60 * S));
}

#[test]
fn test_length() {
    let a = Vec3::new(3 * S, 4 * S, 0);
    let b = Vec3::new(3 * S, -4 * S, 12 * S);

    assert!(a.length() == 5 * S);
    assert!(b.length() == 13 * S);
}

#[test]
fn test_squared_length() {
    let a = Vec3::new(3 * S, 4 * S, 0);
    let b = Vec3::new(3 * S, -4 * S, 12 * S);
    assert!(a.squared_length() == 25 * S);
    assert!(b.squared_length() == 169 * S);
}

#[test]
fn test_normalized() {
    let a = Vec3::new(4 * S, 0, 0).unit_vector();
    let b = Vec3::new(4 * S, 12 * S, 3 * S).unit_vector();
    assert!(a == Vec3::new(1 * S, 0, 0));
    assert!(a.length() == 1 * S);
    // 4/13, 12/13, 3/13, truncated at the fixed-point scale; the length of
    // the truncated unit vector falls three steps short of one.
    assert!(b == Vec3::new(20164, 60494, 15123));
    assert!(b.length() == 65533);
}

#[test]
fn test_dot() {
    let a = Vec3::new(3 * S, 4 * S, 0);
    let b = Vec3::new(3 * S, -4 * S, 12 * S);
    assert!(a.dot(&b) == -7 * S);
}

#[test]
fn test_cross() {
    let a = Vec3::new(1 * S, 2 * S, 3 * S);
    let b = Vec3::new(1 * S, 5 * S, 7 * S);
    assert!(a.cross(&b) == Vec3::new(-1 * S, -4 * S, 3 * S));
    let a = Vec3::new(-1 * S, -2 * S, 3 * S);
    let b = Vec3::new(4 * S, 0, -8 * S);
    assert!(a.cross(&b) == Vec3::new(16 * S, 4 * S, 8 * S));
}

#[test]
fn normalize_keeps_direction() {
    // The normalized vector is parallel to the original: the cross product
    // sits within rounding distance of zero, against components of order
    // one million.
    let b = Vec3::new(4 * S, 12 * S, 3 * S);
    let ub = b.unit_vector();
    let c = ub.cross(&b);
    assert_eq!(c, Vec3::new(6, 0, -8));
    // Each component sits within the stated tolerance: two steps plus the
    // other two components' magnitudes scaled down by the scale.
    assert!(c.x.abs() * S <= (12 * S as i64).abs() + (3 * S as i64).abs() + 2 * S);
    assert!(c.y.abs() * S <= (3 * S as i64).abs() + (4 * S as i64).abs() + 2 * S);
    assert!(c.z.abs() * S <= (4 * S as i64).abs() + (12 * S as i64).abs() + 2 * S);
}

#[test]
fn add_assign_accumulates() {
    let mut acc = Vec3::zero();
    acc.add_assign(Vec3::new(S, 2 * S, 3 * S));
    acc.add_assign(Vec3::new(S, -S, -3 * S));
    assert_eq!(acc, Vec3::new(2 * S, S, 0));
}
