//! The arithmetic operators, for scalars and for vectors.
//!
//! Each operator is the method of the same name: `a + b` is `a.add(b)`, and
//! what it gives is what `add_spec` says. Vectors take the operators by value
//! and by reference alike.
use vstd::prelude::*;
use vstd::std_specs::ops::{AddSpecImpl, DivSpecImpl, MulSpecImpl, NegSpecImpl, SubSpecImpl};
use crate::scalar::Scalar;
use crate::vec3::Vec3;

verus! {

impl core::ops::Add<Scalar> for Scalar {
    type Output = Scalar;

    fn add(self, rhs: Scalar) -> (r: Scalar) {
        Scalar::add(self, rhs)
    }
}

impl AddSpecImpl<Scalar> for Scalar {
    open spec fn obeys_add_spec() -> bool {
        true
    }

    open spec fn add_req(self, rhs: Scalar) -> bool {
        true
    }

    open spec fn add_spec(self, rhs: Scalar) -> Scalar {
        Scalar::add_spec(self, rhs)
    }
}

impl core::ops::Sub<Scalar> for Scalar {
    type Output = Scalar;

    fn sub(self, rhs: Scalar) -> (r: Scalar) {
        Scalar::sub(self, rhs)
    }
}

impl SubSpecImpl<Scalar> for Scalar {
    open spec fn obeys_sub_spec() -> bool {
        true
    }

    open spec fn sub_req(self, rhs: Scalar) -> bool {
        true
    }

    open spec fn sub_spec(self, rhs: Scalar) -> Scalar {
        Scalar::sub_spec(self, rhs)
    }
}

impl core::ops::Mul<Scalar> for Scalar {
    type Output = Scalar;

    fn mul(self, rhs: Scalar) -> (r: Scalar) {
        Scalar::mul(self, rhs)
    }
}

impl MulSpecImpl<Scalar> for Scalar {
    open spec fn obeys_mul_spec() -> bool {
        true
    }

    open spec fn mul_req(self, rhs: Scalar) -> bool {
        true
    }

    open spec fn mul_spec(self, rhs: Scalar) -> Scalar {
        Scalar::mul_spec(self, rhs)
    }
}

impl core::ops::Div<Scalar> for Scalar {
    type Output = Scalar;

    fn div(self, rhs: Scalar) -> (r: Scalar) {
        Scalar::div(self, rhs)
    }
}

impl DivSpecImpl<Scalar> for Scalar {
    open spec fn obeys_div_spec() -> bool {
        true
    }

    open spec fn div_req(self, rhs: Scalar) -> bool {
        true
    }

    open spec fn div_spec(self, rhs: Scalar) -> Scalar {
        Scalar::div_spec(self, rhs)
    }
}

impl core::ops::Neg for Scalar {
    type Output = Scalar;

    fn neg(self) -> (r: Scalar) {
        Scalar::neg(self)
    }
}

impl NegSpecImpl for Scalar {
    open spec fn obeys_neg_spec() -> bool {
        true
    }

    open spec fn neg_req(self) -> bool {
        true
    }

    open spec fn neg_spec(self) -> Scalar {
        Scalar::neg_spec(self)
    }
}

impl core::ops::Add<Vec3> for Vec3 {
    type Output = Vec3;

    fn add(self, rhs: Vec3) -> (r: Vec3) {
        Vec3::add(self, rhs)
    }
}

impl AddSpecImpl<Vec3> for Vec3 {
    open spec fn obeys_add_spec() -> bool {
        true
    }

    open spec fn add_req(self, rhs: Vec3) -> bool {
        true
    }

    open spec fn add_spec(self, rhs: Vec3) -> Vec3 {
        Vec3::add_spec(self, rhs)
    }
}

impl core::ops::Add<&Vec3> for Vec3 {
    type Output = Vec3;

    fn add(self, rhs: &Vec3) -> (r: Vec3) {
        Vec3::add(self, *rhs)
    }
}

impl AddSpecImpl<&Vec3> for Vec3 {
    open spec fn obeys_add_spec() -> bool {
        true
    }

    open spec fn add_req(self, rhs: &Vec3) -> bool {
        true
    }

    open spec fn add_spec(self, rhs: &Vec3) -> Vec3 {
        Vec3::add_spec(self, *rhs)
    }
}

impl core::ops::Add<Vec3> for &Vec3 {
    type Output = Vec3;

    fn add(self, rhs: Vec3) -> (r: Vec3) {
        Vec3::add(*self, rhs)
    }
}

impl AddSpecImpl<Vec3> for &Vec3 {
    open spec fn obeys_add_spec() -> bool {
        true
    }

    open spec fn add_req(self, rhs: Vec3) -> bool {
        true
    }

    open spec fn add_spec(self, rhs: Vec3) -> Vec3 {
        Vec3::add_spec(*self, rhs)
    }
}

impl core::ops::Add<&Vec3> for &Vec3 {
    type Output = Vec3;

    fn add(self, rhs: &Vec3) -> (r: Vec3) {
        Vec3::add(*self, *rhs)
    }
}

impl AddSpecImpl<&Vec3> for &Vec3 {
    open spec fn obeys_add_spec() -> bool {
        true
    }

    open spec fn add_req(self, rhs: &Vec3) -> bool {
        true
    }

    open spec fn add_spec(self, rhs: &Vec3) -> Vec3 {
        Vec3::add_spec(*self, *rhs)
    }
}

impl core::ops::Sub<Vec3> for Vec3 {
    type Output = Vec3;

    fn sub(self, rhs: Vec3) -> (r: Vec3) {
        Vec3::sub(self, rhs)
    }
}

impl SubSpecImpl<Vec3> for Vec3 {
    open spec fn obeys_sub_spec() -> bool {
        true
    }

    open spec fn sub_req(self, rhs: Vec3) -> bool {
        true
    }

    open spec fn sub_spec(self, rhs: Vec3) -> Vec3 {
        Vec3::sub_spec(self, rhs)
    }
}

impl core::ops::Sub<&Vec3> for Vec3 {
    type Output = Vec3;

    fn sub(self, rhs: &Vec3) -> (r: Vec3) {
        Vec3::sub(self, *rhs)
    }
}

impl SubSpecImpl<&Vec3> for Vec3 {
    open spec fn obeys_sub_spec() -> bool {
        true
    }

    open spec fn sub_req(self, rhs: &Vec3) -> bool {
        true
    }

    open spec fn sub_spec(self, rhs: &Vec3) -> Vec3 {
        Vec3::sub_spec(self, *rhs)
    }
}

impl core::ops::Sub<Vec3> for &Vec3 {
    type Output = Vec3;

    fn sub(self, rhs: Vec3) -> (r: Vec3) {
        Vec3::sub(*self, rhs)
    }
}

impl SubSpecImpl<Vec3> for &Vec3 {
    open spec fn obeys_sub_spec() -> bool {
        true
    }

    open spec fn sub_req(self, rhs: Vec3) -> bool {
        true
    }

    open spec fn sub_spec(self, rhs: Vec3) -> Vec3 {
        Vec3::sub_spec(*self, rhs)
    }
}

impl core::ops::Sub<&Vec3> for &Vec3 {
    type Output = Vec3;

    fn sub(self, rhs: &Vec3) -> (r: Vec3) {
        Vec3::sub(*self, *rhs)
    }
}

impl SubSpecImpl<&Vec3> for &Vec3 {
    open spec fn obeys_sub_spec() -> bool {
        true
    }

    open spec fn sub_req(self, rhs: &Vec3) -> bool {
        true
    }

    open spec fn sub_spec(self, rhs: &Vec3) -> Vec3 {
        Vec3::sub_spec(*self, *rhs)
    }
}

impl core::ops::Mul<Scalar> for Vec3 {
    type Output = Vec3;

    fn mul(self, rhs: Scalar) -> (r: Vec3) {
        Vec3::mul(self, rhs)
    }
}

impl MulSpecImpl<Scalar> for Vec3 {
    open spec fn obeys_mul_spec() -> bool {
        true
    }

    open spec fn mul_req(self, rhs: Scalar) -> bool {
        true
    }

    open spec fn mul_spec(self, rhs: Scalar) -> Vec3 {
        Vec3::mul_spec(self, rhs)
    }
}

impl core::ops::Mul<Scalar> for &Vec3 {
    type Output = Vec3;

    fn mul(self, rhs: Scalar) -> (r: Vec3) {
        Vec3::mul(*self, rhs)
    }
}

impl MulSpecImpl<Scalar> for &Vec3 {
    open spec fn obeys_mul_spec() -> bool {
        true
    }

    open spec fn mul_req(self, rhs: Scalar) -> bool {
        true
    }

    open spec fn mul_spec(self, rhs: Scalar) -> Vec3 {
        Vec3::mul_spec(*self, rhs)
    }
}

impl core::ops::Div<Scalar> for Vec3 {
    type Output = Vec3;

    fn div(self, rhs: Scalar) -> (r: Vec3) {
        Vec3::div(self, rhs)
    }
}

impl DivSpecImpl<Scalar> for Vec3 {
    open spec fn obeys_div_spec() -> bool {
        true
    }

    open spec fn div_req(self, rhs: Scalar) -> bool {
        true
    }

    open spec fn div_spec(self, rhs: Scalar) -> Vec3 {
        Vec3::div_spec(self, rhs)
    }
}

impl core::ops::Div<Scalar> for &Vec3 {
    type Output = Vec3;

    fn div(self, rhs: Scalar) -> (r: Vec3) {
        Vec3::div(*self, rhs)
    }
}

impl DivSpecImpl<Scalar> for &Vec3 {
    open spec fn obeys_div_spec() -> bool {
        true
    }

    open spec fn div_req(self, rhs: Scalar) -> bool {
        true
    }

    open spec fn div_spec(self, rhs: Scalar) -> Vec3 {
        Vec3::div_spec(*self, rhs)
    }
}

/// The vector scaled by the scalar on its left.
impl core::ops::Mul<Vec3> for Scalar {
    type Output = Vec3;

    fn mul(self, rhs: Vec3) -> (r: Vec3) {
        Vec3::mul(rhs, self)
    }
}

impl MulSpecImpl<Vec3> for Scalar {
    open spec fn obeys_mul_spec() -> bool {
        true
    }

    open spec fn mul_req(self, rhs: Vec3) -> bool {
        true
    }

    open spec fn mul_spec(self, rhs: Vec3) -> Vec3 {
        Vec3::mul_spec(rhs, self)
    }
}

/// The vector scaled by the scalar on its left.
impl core::ops::Mul<&Vec3> for Scalar {
    type Output = Vec3;

    fn mul(self, rhs: &Vec3) -> (r: Vec3) {
        Vec3::mul(*rhs, self)
    }
}

impl MulSpecImpl<&Vec3> for Scalar {
    open spec fn obeys_mul_spec() -> bool {
        true
    }

    open spec fn mul_req(self, rhs: &Vec3) -> bool {
        true
    }

    open spec fn mul_spec(self, rhs: &Vec3) -> Vec3 {
        Vec3::mul_spec(*rhs, self)
    }
}

/// The vector on the right divided by the scalar on the left: each component over the scalar.
impl core::ops::Div<Vec3> for Scalar {
    type Output = Vec3;

    fn div(self, rhs: Vec3) -> (r: Vec3) {
        Vec3::div(rhs, self)
    }
}

impl DivSpecImpl<Vec3> for Scalar {
    open spec fn obeys_div_spec() -> bool {
        true
    }

    open spec fn div_req(self, rhs: Vec3) -> bool {
        true
    }

    open spec fn div_spec(self, rhs: Vec3) -> Vec3 {
        Vec3::div_spec(rhs, self)
    }
}

/// The vector on the right divided by the scalar on the left: each component over the scalar.
impl core::ops::Div<&Vec3> for Scalar {
    type Output = Vec3;

    fn div(self, rhs: &Vec3) -> (r: Vec3) {
        Vec3::div(*rhs, self)
    }
}

impl DivSpecImpl<&Vec3> for Scalar {
    open spec fn obeys_div_spec() -> bool {
        true
    }

    open spec fn div_req(self, rhs: &Vec3) -> bool {
        true
    }

    open spec fn div_spec(self, rhs: &Vec3) -> Vec3 {
        Vec3::div_spec(*rhs, self)
    }
}

impl core::ops::Neg for Vec3 {
    type Output = Vec3;

    fn neg(self) -> (r: Vec3) {
        Vec3::neg(self)
    }
}

impl NegSpecImpl for Vec3 {
    open spec fn obeys_neg_spec() -> bool {
        true
    }

    open spec fn neg_req(self) -> bool {
        true
    }

    open spec fn neg_spec(self) -> Vec3 {
        Vec3::neg_spec(self)
    }
}

} // verus!
