use resphys::collision_aabb_aabb;
use resphys::collision_aabb_aabb_manifold;
use resphys::to_fp;
use resphys::Vec2;
use resphys::EPSILON;
use resphys::FP;
use resphys::ONE_BITS;

#[test]
fn todo() {
    assert_eq!(2 + 2, 4);
}

#[test]
fn fp_add_sub_exact() {
    assert_eq!(to_fp(3).add(to_fp(4)), to_fp(7));
    assert_eq!(to_fp(3).sub(to_fp(4)), to_fp(-1));
    assert_eq!(to_fp(-5).neg(), to_fp(5));
    assert_eq!(to_fp(-5).abs(), to_fp(5));
    assert_eq!(EPSILON().bits, 1);
    assert_eq!(FP::one().bits, ONE_BITS);
}

#[test]
fn fp_mul_div_exact() {
    assert_eq!(to_fp(3).mul(to_fp(4)), to_fp(12));
    assert_eq!(to_fp(-3).mul(to_fp(4)), to_fp(-12));
    // 1 / 2 == 0.5, which is one half of the scale factor in raw bits
    assert_eq!(to_fp(1).div(to_fp(2)).bits, ONE_BITS / 2);
    // rounding is toward zero: -1 / 3 == -0.33...3 (truncated)
    assert_eq!(to_fp(-1).div(to_fp(3)).bits, -(ONE_BITS / 3));
    assert_eq!(to_fp(7).div(to_fp(7)), to_fp(1));
}

#[test]
fn fp_saturates_instead_of_wrapping() {
    let top = FP::from_bits(i64::MAX);
    assert_eq!(top.add(FP::one()).bits, i64::MAX);
    let bottom = FP::from_bits(i64::MIN);
    assert_eq!(bottom.sub(FP::one()).bits, i64::MIN);
    assert_eq!(bottom.neg().bits, i64::MAX);
    assert_eq!(bottom.abs().bits, i64::MAX);
}

#[test]
fn fp_comparisons_and_clamp() {
    assert!(to_fp(1).lt(to_fp(2)));
    assert!(to_fp(2).le(to_fp(2)));
    assert_eq!(to_fp(5).min(to_fp(3)), to_fp(3));
    assert_eq!(to_fp(5).max(to_fp(3)), to_fp(5));
    assert_eq!(to_fp(9).clamp(to_fp(0), to_fp(4)), to_fp(4));
    assert_eq!(to_fp(-9).clamp(to_fp(0), to_fp(4)), to_fp(0));
    assert_eq!(to_fp(-7).signum(), to_fp(-1));
    assert_eq!(to_fp(0).signum(), to_fp(0));
    assert_eq!(to_fp(2).signum(), to_fp(1));
}

#[test]
fn fp_sqrt_exact_square() {
    // the square root runs through the fixed-point backend; an identity
    // stub would return 16, not 4
    assert_eq!(to_fp(16).sqrt(), to_fp(4));
    assert_eq!(to_fp(0).sqrt(), to_fp(0));
}

#[test]
fn vector_length_is_euclidean() {
    // 3-4-5 triangle, exact in fixed point
    let v = Vec2::from(3, 4);
    assert_eq!(v.length(), to_fp(5));
    // normalize: 3/5 and 4/5, truncated toward zero
    let n = v.normalized();
    assert_eq!(n.x.bits, 3 * ONE_BITS / 5);
    assert_eq!(n.y.bits, 4 * ONE_BITS / 5);
}

#[test]
fn vector_componentwise_ops() {
    let a = Vec2::from(1, -2);
    let b = Vec2::from(3, 5);
    assert_eq!(a.add(b), Vec2::from(4, 3));
    assert_eq!(a.sub(b), Vec2::from(-2, -7));
    assert_eq!(a.mul(b), Vec2::from(3, -10));
    // 5 / -2 is exactly -2.5 in fixed point
    assert_eq!(b.div(a), Vec2::new(to_fp(3), FP::from_bits(-5 * ONE_BITS / 2)));
    assert_eq!(a.abs(), Vec2::from(1, 2));
    assert_eq!(a.min(b), Vec2::from(1, -2));
    assert_eq!(a.max(b), Vec2::from(3, 5));
    assert_eq!(a.dot(b), to_fp(-7));
    assert_eq!(a.mul_scalar(to_fp(2)), Vec2::from(2, -4));
    assert_eq!(b.div_scalar(to_fp(-1)), Vec2::from(-3, -5));
    assert_eq!(a.add_scalar(to_fp(10)), Vec2::from(11, 8));
    assert_eq!(a.sub_scalar(to_fp(1)), Vec2::from(0, -3));
    assert_eq!(Vec2::splat(to_fp(6)), Vec2::from(6, 6));
    assert_eq!(Vec2::zero(), Vec2::from(0, 0));
    assert_eq!(Vec2::one(), Vec2::from(1, 1));
    assert_eq!(Vec2::unit_x(), Vec2::from(1, 0));
    assert_eq!(Vec2::unit_y(), Vec2::from(0, 1));
    assert_eq!(Vec2::from_int(2, 3), Vec2::new(to_fp(2), to_fp(3)));
}

#[test]
fn vector_accessors() {
    let mut v = Vec2::from(1, 2);
    assert_eq!(v.x(), to_fp(1));
    assert_eq!(v.y(), to_fp(2));
    v.set_x(to_fp(7));
    v.set_y(to_fp(8));
    assert_eq!(v, Vec2::from(7, 8));
    *v.x_mut() = to_fp(9);
    *v.y_mut() = to_fp(10);
    assert_eq!(v, Vec2::from(9, 10));
}

#[test]
fn overlap_is_symmetric() {
    let placements = [
        ((0i64, 0i64), (2i64, 2i64), (3i64, 0i64), (2i64, 2i64)),
        ((0, 0), (2, 2), (10, 10), (2, 2)),
        ((-5, 7), (3, 1), (-4, 7), (2, 2)),
        ((0, 0), (1, 1), (2, 0), (1, 1)),
    ];
    for (al, ah, bl, bh) in placements {
        let a_loc = Vec2::from(al.0, al.1);
        let a_half = Vec2::from(ah.0, ah.1);
        let b_loc = Vec2::from(bl.0, bl.1);
        let b_half = Vec2::from(bh.0, bh.1);
        assert_eq!(
            collision_aabb_aabb(a_loc, a_half, b_loc, b_half),
            collision_aabb_aabb(b_loc, b_half, a_loc, a_half)
        );
    }
}

#[test]
fn touching_boxes_do_not_overlap() {
    // zero gap on the x axis: strict inequality, no overlap
    let a_loc = Vec2::from(0, 0);
    let b_loc = Vec2::from(4, 0);
    let half = Vec2::from(2, 2);
    assert!(!collision_aabb_aabb(a_loc, half, b_loc, half));
    assert!(collision_aabb_aabb_manifold(a_loc, half, b_loc, half).is_none());
    // one increment closer and they overlap
    let closer = Vec2::new(to_fp(4).sub(EPSILON()), to_fp(0));
    assert!(collision_aabb_aabb(a_loc, half, closer, half));
    assert!(collision_aabb_aabb_manifold(a_loc, half, closer, half).is_some());
}

#[test]
fn manifold_present_iff_overlap() {
    let cases = [
        ((0i64, 0i64), (3i64, 0i64)),
        ((0, 0), (5, 0)),
        ((0, 0), (0, 0)),
        ((0, 0), (-3, 2)),
        ((0, 0), (100, 100)),
    ];
    let half = Vec2::from(2, 2);
    for (al, bl) in cases {
        let a_loc = Vec2::from(al.0, al.1);
        let b_loc = Vec2::from(bl.0, bl.1);
        assert_eq!(
            collision_aabb_aabb(a_loc, half, b_loc, half),
            collision_aabb_aabb_manifold(a_loc, half, b_loc, half).is_some()
        );
    }
}

#[test]
fn manifold_contents_exact() {
    let a_loc = Vec2::from(0, 0);
    let b_loc = Vec2::from(3, 0);
    let half = Vec2::from(2, 2);
    let m = collision_aabb_aabb_manifold(a_loc, half, b_loc, half).unwrap();
    let cx = m.first.clone().unwrap();
    let cy = m.second.clone().unwrap();
    // x axis: depth 4 - 3 = 1, normal +x, contact on box a's right edge
    assert_eq!(cx.depth, to_fp(1));
    assert_eq!(cx.normal, Vec2::from(1, 0));
    assert_eq!(cx.contact_point, Vec2::from(2, 0));
    // y axis: depth 4 - 0 = 4, normal +y (tie resolves to positive)
    assert_eq!(cy.depth, to_fp(4));
    assert_eq!(cy.normal, Vec2::from(0, 1));
    assert_eq!(cy.contact_point, Vec2::from(0, 2));
    // the best contact is the x-axis entry, the smaller depth
    let best = m.best_contact();
    assert_eq!(best.depth, to_fp(1));
    assert_eq!(best.normal, Vec2::from(1, 0));
}

#[test]
fn best_contact_depth_within_bound() {
    let half_a = Vec2::from(2, 3);
    let half_b = Vec2::from(4, 1);
    let cases = [(3i64, 1i64), (0, 0), (-5, -3), (5, 3)];
    for (bx, by) in cases {
        let a_loc = Vec2::from(0, 0);
        let b_loc = Vec2::from(bx, by);
        if let Some(m) = collision_aabb_aabb_manifold(a_loc, half_a, b_loc, half_b) {
            let depth = m.best_contact().depth;
            assert!(!depth.is_negative());
            assert!(depth.le(to_fp(2 + 4).min(to_fp(3 + 1))));
        }
    }
}

#[test]
fn shape_carries_half_extents() {
    let aabb = resphys::AABB { half_exts: Vec2::from(3, 5) };
    let shape = aabb.shape();
    assert_eq!(shape.half_extents(), Vec2::from(3, 5));
    assert_eq!(shape, resphys::Shape::AABB(Vec2::from(3, 5)));
}
