//! What a change of sign does to products, sums and dot products.
//!
//! Rounding to nearest treats a number and its opposite alike, so negating
//! the operands negates the result. The one thing that escapes is the sign
//! of a zero sum, which is why sums are compared by value here and not bit
//! by bit.
use vstd::prelude::*;
use vstd::arithmetic::power2::{pow2, lemma_pow2_pos};
use crate::grid::{lemma_round_nearest, round};
use crate::hitable::HitRecord;
use crate::ray::Ray;
use crate::scalar::{Scalar, lemma_grid_compare, ZERO};
use crate::vec3::Vec3;

verus! {

/// Two scalars stand for the same number: both are NaN, or neither is and
/// their values agree. The two zeros stand for the same number.
pub open spec fn same_number(x: Scalar, y: Scalar) -> bool {
    if x.is_nan_spec() || y.is_nan_spec() {
        x.is_nan_spec() && y.is_nan_spec()
    } else {
        x.value() == y.value()
    }
}

/// Scalars that stand for the same number have the same magnitude pattern,
/// and the same sign unless they are zeros.
pub proof fn lemma_same_number(x: Scalar, y: Scalar)
    requires
        same_number(x, y),
        !x.is_nan_spec(),
    ensures
        x.pattern() == y.pattern(),
        x.pattern() != 0 ==> x.sign() == y.sign(),
{
    lemma_grid_compare(x.pattern(), y.pattern());
    lemma_grid_compare(x.pattern(), 0);
    lemma_grid_compare(y.pattern(), 0);
}

/// The opposite of a scalar has the same pattern and the other sign.
pub proof fn lemma_neg(x: Scalar)
    ensures
        x.neg_spec().pattern() == x.pattern(),
        x.neg_spec().sign() == !x.sign(),
        x.neg_spec().is_nan_spec() == x.is_nan_spec(),
        !x.is_nan_spec() ==> x.neg_spec().value() == -x.value(),
{
}

/// A sum or a product that is not NaN has no NaN among its operands.
pub proof fn lemma_nan_spreads(x: Scalar, y: Scalar)
    ensures
        x.is_nan_spec() || y.is_nan_spec() ==> x.add_spec(y).is_nan_spec() && x.mul_spec(
            y,
        ).is_nan_spec(),
{
    reveal(Scalar::add_spec);
    reveal(Scalar::mul_spec);
}

/// Negating the left factor negates the product.
pub proof fn lemma_mul_neg_left(x: Scalar, y: Scalar)
    requires
        !x.mul_spec(y).is_nan_spec(),
    ensures
        x.neg_spec().mul_spec(y) == x.mul_spec(y).neg_spec(),
{
    reveal(Scalar::mul_spec);
    lemma_neg(x);
    lemma_pow2_pos(149);
    lemma_round_nearest(x.magnitude() * y.magnitude(), pow2(149));
    assert(x.neg_spec().magnitude() == x.magnitude());
}

/// Negating the right factor negates the product.
pub proof fn lemma_mul_neg_right(x: Scalar, y: Scalar)
    requires
        !x.mul_spec(y).is_nan_spec(),
    ensures
        x.mul_spec(y.neg_spec()) == x.mul_spec(y).neg_spec(),
{
    reveal(Scalar::mul_spec);
    lemma_neg(y);
    lemma_pow2_pos(149);
    lemma_round_nearest(x.magnitude() * y.magnitude(), pow2(149));
    assert(y.neg_spec().magnitude() == y.magnitude());
}

/// Negating both terms negates the sum, up to the sign of a zero.
pub proof fn lemma_add_neg(x: Scalar, y: Scalar)
    requires
        !x.add_spec(y).is_nan_spec(),
    ensures
        same_number(x.neg_spec().add_spec(y.neg_spec()), x.add_spec(y).neg_spec()),
{
    let r = x.add_spec(y);
    let xn = x.neg_spec();
    let yn = y.neg_spec();
    let rn = xn.add_spec(yn);
    lemma_neg(x);
    lemma_neg(y);
    lemma_neg(r);
    lemma_add_shape(x, y);
    lemma_add_shape(xn, yn);
    if x.is_infinite_spec() || y.is_infinite_spec() {
        assert(rn == r.neg_spec());
    } else {
        let s = x.value() + y.value();
        assert(xn.value() + yn.value() == -s);
        if s == 0 {
            lemma_grid_compare(0, 0);
            assert(rn.value() == 0);
            assert(r.neg_spec().value() == 0);
        } else {
            assert(rn.pattern() == r.pattern());
            assert(rn.sign() == !r.sign());
        }
    }
}

/// The magnitude of an integer.
pub open spec fn magnitude_of(s: int) -> nat {
    if s < 0 {
        (-s) as nat
    } else {
        s as nat
    }
}

/// What a sum is, case by case: its sign and its magnitude pattern.
pub proof fn lemma_add_shape(x: Scalar, y: Scalar)
    ensures
        x.is_nan_spec() || y.is_nan_spec() ==> x.add_spec(y).is_nan_spec(),
        !x.is_nan_spec() && !y.is_nan_spec() && x.is_infinite_spec() && y.is_infinite_spec()
            && x.sign() != y.sign() ==> x.add_spec(y).is_nan_spec(),
        !x.is_nan_spec() && !y.is_nan_spec() && x.is_infinite_spec() && !(y.is_infinite_spec()
            && x.sign() != y.sign()) ==> x.add_spec(y) == x,
        !x.is_nan_spec() && !y.is_nan_spec() && !x.is_infinite_spec() && y.is_infinite_spec()
            ==> x.add_spec(y) == y,
        x.is_finite_spec() && y.is_finite_spec() ==> {
            let s = x.value() + y.value();
            let r = x.add_spec(y);
            &&& r.pattern() <= 0x7f80_0000
            &&& s == 0 ==> r.pattern() == 0 && r.sign() == (x.sign() && y.sign())
            &&& s != 0 ==> r.pattern() == round(magnitude_of(s), 1) && r.sign() == (s < 0)
        },
{
    reveal(Scalar::add_spec);
    let s = x.value() + y.value();
    lemma_round_nearest(magnitude_of(s), 1);
}

/// A sum depends only on the numbers that its terms stand for.
pub proof fn lemma_add_same(x: Scalar, x2: Scalar, y: Scalar, y2: Scalar)
    requires
        same_number(x, x2),
        same_number(y, y2),
    ensures
        same_number(x.add_spec(y), x2.add_spec(y2)),
{
    reveal(Scalar::add_spec);
    if !x.is_nan_spec() && !y.is_nan_spec() {
        lemma_same_number(x, x2);
        lemma_same_number(y, y2);
        lemma_grid_compare(x.pattern(), 0);
        lemma_grid_compare(y.pattern(), 0);
    }
}

/// Turning the first vector round negates the dot product, up to the sign
/// of a zero.
pub proof fn lemma_dot_neg_left(u: Vec3, v: Vec3)
    requires
        !Vec3::dot_spec(u, v).is_nan_spec(),
    ensures
        same_number(Vec3::dot_spec(u.neg_spec(), v), Vec3::dot_spec(u, v).neg_spec()),
{
    let q0 = u.e0.mul_spec(v.e0);
    let q1 = u.e1.mul_spec(v.e1);
    let q2 = u.e2.mul_spec(v.e2);
    let t = q0.add_spec(q1);
    lemma_nan_spreads(t, q2);
    lemma_nan_spreads(q0, q1);
    lemma_mul_neg_left(u.e0, v.e0);
    lemma_mul_neg_left(u.e1, v.e1);
    lemma_mul_neg_left(u.e2, v.e2);
    lemma_add_neg(q0, q1);
    lemma_add_same(q0.neg_spec().add_spec(q1.neg_spec()), t.neg_spec(), q2.neg_spec(), q2.neg_spec());
    lemma_add_neg(t, q2);
    lemma_neg(t.add_spec(q2));
}

/// Turning the second vector round negates the dot product, up to the sign
/// of a zero.
pub proof fn lemma_dot_neg_right(u: Vec3, v: Vec3)
    requires
        !Vec3::dot_spec(u, v).is_nan_spec(),
    ensures
        same_number(Vec3::dot_spec(u, v.neg_spec()), Vec3::dot_spec(u, v).neg_spec()),
{
    let q0 = u.e0.mul_spec(v.e0);
    let q1 = u.e1.mul_spec(v.e1);
    let q2 = u.e2.mul_spec(v.e2);
    let t = q0.add_spec(q1);
    lemma_nan_spreads(t, q2);
    lemma_nan_spreads(q0, q1);
    lemma_mul_neg_right(u.e0, v.e0);
    lemma_mul_neg_right(u.e1, v.e1);
    lemma_mul_neg_right(u.e2, v.e2);
    lemma_add_neg(q0, q1);
    lemma_add_same(q0.neg_spec().add_spec(q1.neg_spec()), t.neg_spec(), q2.neg_spec(), q2.neg_spec());
    lemma_add_neg(t, q2);
    lemma_neg(t.add_spec(q2));
}

/// A direction turned towards a normal makes no obtuse angle with it: the
/// dot product of the two is not below zero. This holds wherever the dot
/// product is a number at all.
pub proof fn lemma_toward_hemisphere(v: Vec3, normal: Vec3)
    requires
        !Vec3::dot_spec(v, normal).is_nan_spec(),
    ensures
        Vec3::dot_spec(Vec3::toward_spec(v, normal), normal).ge_spec(Scalar::lit(ZERO)),
{
    lemma_dot_neg_left(v, normal);
    lemma_neg(Vec3::dot_spec(v, normal));
}

/// The normal of a hit record points against the ray: once the face is set,
/// the dot product of the ray's direction and the normal is not above zero.
/// This holds wherever the dot product with the outward normal is a number
/// at all.
pub proof fn lemma_normal_against_ray(rec: HitRecord, r: Ray, outward_normal: Vec3)
    requires
        !Vec3::dot_spec(r.direction, outward_normal).is_nan_spec(),
    ensures
        Vec3::dot_spec(r.direction, rec.face_normal_spec(r, outward_normal).normal).le_spec(
            Scalar::lit(ZERO),
        ),
        rec.face_normal_spec(r, outward_normal).front_face <==> Vec3::dot_spec(
            r.direction,
            outward_normal,
        ).lt_spec(Scalar::lit(ZERO)),
{
    lemma_dot_neg_right(r.direction, outward_normal);
    lemma_neg(Vec3::dot_spec(r.direction, outward_normal));
}

} // verus!
