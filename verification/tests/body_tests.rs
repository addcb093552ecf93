use gravity::body::{Body, Vec2};
use gravity::scalar::{Scalar, SCALE};

#[test]
fn vector_algebra() {
    let a = Vec2::new(Scalar::from_int(3), Scalar::from_int(-1));
    let b = Vec2::new(Scalar::from_int(1), Scalar::from_int(5));
    assert_eq!(a.add(b), Vec2::new(Scalar::from_int(4), Scalar::from_int(4)));
    assert_eq!(a.sub(b), Vec2::new(Scalar::from_int(2), Scalar::from_int(-6)));
    assert_eq!(
        a.scale(Scalar::from_int(-2)),
        Vec2::new(Scalar::from_int(-6), Scalar::from_int(2))
    );
    assert_eq!(Vec2::zero().add(a), a);
}

#[test]
fn vector_norm() {
    let v = Vec2::new(Scalar::from_int(-3), Scalar::from_int(4));
    assert_eq!(v.norm(), Scalar::from_int(5));
    assert_eq!(Vec2::zero().norm(), Scalar::zero());
}

#[test]
fn distance_between_bodies() {
    let a = Body::new(
        Scalar::from_int(1),
        Vec2::new(Scalar::from_int(1), Scalar::from_int(2)),
        Vec2::zero(),
        None,
    );
    let b = Body::new(
        Scalar::from_int(1),
        Vec2::new(Scalar::from_int(4), Scalar::from_int(6)),
        Vec2::zero(),
        Some("other".to_string()),
    );
    assert_eq!(a.distance_from(&b), Scalar::from_int(5));
    assert_eq!(b.distance_from(&a), Scalar::from_int(5));
    assert_eq!(a.distance_from(&a), Scalar::zero());
}

#[test]
fn duplicate_copies_everything() {
    let a = Body::new(
        Scalar::from_ratio(3, 2),
        Vec2::new(Scalar { raw: 17 }, Scalar { raw: -SCALE }),
        Vec2::new(Scalar::zero(), Scalar::from_int(9)),
        Some("copy me".to_string()),
    );
    let c = a.duplicate();
    assert_eq!(a.mass, c.mass);
    assert_eq!(a.pos, c.pos);
    assert_eq!(a.vel, c.vel);
    assert_eq!(a.name, c.name);
}
