//! Points of the Edwards-BLS12 curve, `-x^2 + y^2 = 1 + 3021 x^2 y^2` over the
//! base field, held by their affine coordinates.
//!
//! The group law is `snarkvm_curves`'; this module names what its functions
//! return and builds the point codec on them: a point travels as its
//! x-coordinate alone and is recovered by trying both signs of y.

use crate::error::EncryptionError;
use crate::field::{field_modulus, FieldElement, Scalar};
use snarkvm_curves::edwards_bls12::{EdwardsAffine, Fq, Fr};
use snarkvm_curves::{AffineCurve, ProjectiveCurve};
use snarkvm_fields::PrimeField;
use snarkvm_utilities::{BigInteger256, BitIteratorBE};
use std::ops::Mul;
use vstd::prelude::*;

verus! {

/// The curve equation holds of `(x, y)`.
pub open spec fn on_curve(x: nat, y: nat) -> bool {
    (y * y - x * x - 1 - 3021 * (x * x) * (y * y)) % (field_modulus() as int) == 0
}

/// The additive inverse of `value` in the base field.
pub open spec fn negated(value: nat) -> nat {
    ((field_modulus() - value) % (field_modulus() as int)) as nat
}

/// The y-coordinate that `from_x_coordinate` finds for `x`: of the two square
/// roots it is the larger one if `greatest`, the smaller one if not. `None`
/// where no point of the curve has this x-coordinate.
pub uninterp spec fn recovered_y(x: nat, greatest: bool) -> Option<nat>;

/// The point `(x, y)` of the curve lies in the subgroup of prime order.
pub uninterp spec fn in_prime_subgroup(x: nat, y: nat) -> bool;

/// The coordinates of `scalar` times the point `(x, y)`, as the double-and-add
/// ladder over the bits of `scalar` computes it.
pub uninterp spec fn ladder_product(x: nat, y: nat, scalar: nat) -> (nat, nat);

/// The coordinates of `scalar` times the point `(x, y)`, as multiplication in
/// extended projective coordinates computes it.
pub uninterp spec fn projective_product(x: nat, y: nat, scalar: nat) -> (nat, nat);

/// A point of the curve.
#[derive(Clone, Copy, Debug, PartialEq, Eq, Hash)]
pub struct CurvePoint {
    pub(crate) x: FieldElement,
    pub(crate) y: FieldElement,
}

impl View for CurvePoint {
    type V = (nat, nat);

    closed spec fn view(&self) -> (nat, nat) {
        (self.x@, self.y@)
    }
}

impl CurvePoint {
    /// Both coordinates are reduced and satisfy the curve equation.
    #[verifier::type_invariant]
    pub open spec fn wf(&self) -> bool {
        &&& self@.0 < field_modulus()
        &&& self@.1 < field_modulus()
        &&& on_curve(self@.0, self@.1)
    }

    /// The point with these coordinates, if they satisfy the curve equation.
    pub fn new(x: FieldElement, y: FieldElement) -> (r: Option<CurvePoint>)
        ensures
            r is Some <==> on_curve(x@, y@),
            r matches Some(p) ==> p@ == (x@, y@) && p.wf(),
    {
        proof {
            use_type_invariant(&x);
            use_type_invariant(&y);
        }
        if coordinates_on_curve(&x, &y) {
            Some(CurvePoint { x, y })
        } else {
            None
        }
    }

    /// The neutral element of the group, `(0, 1)`.
    pub fn zero() -> (r: CurvePoint)
        ensures
            r@ == (0nat, 1nat),
    {
        let x = FieldElement::zero();
        let y = FieldElement::one();
        proof {
            use_type_invariant(&x);
            use_type_invariant(&y);
            assert(on_curve(0, 1)) by (nonlinear_arith);
        }
        CurvePoint { x, y }
    }

    /// The x-coordinate: all that is written down of a point.
    pub fn to_x_coordinate(&self) -> (x: FieldElement)
        ensures
            x@ == self@.0,
    {
        self.x
    }

    /// The y-coordinate.
    pub fn to_y_coordinate(&self) -> (y: FieldElement)
        ensures
            y@ == self@.1,
    {
        self.y
    }

    /// The point of the prime-order subgroup that has x-coordinate `x`. The
    /// larger y is tried first, then the smaller; the first that gives a point
    /// of the subgroup is taken.
    pub fn from_x_coordinate(x: FieldElement) -> (r: Result<CurvePoint, EncryptionError>)
        ensures
            match decoded_point(x@) {
                Some(coordinates) => r matches Ok(p) && p@ == coordinates,
                None => r matches Err(e) && e == EncryptionError::InvalidEncoding,
            },
            r matches Ok(p) ==> p@.0 == x@ && in_prime_subgroup(p@.0, p@.1),
    {
        proof {
            use_type_invariant(&x);
        }
        if let Some(point) = point_from_x_coordinate(&x, true) {
            if point_is_in_correct_subgroup(&point) {
                return Ok(point);
            }
        }
        if let Some(point) = point_from_x_coordinate(&x, false) {
            if point_is_in_correct_subgroup(&point) {
                return Ok(point);
            }
        }
        Err(EncryptionError::InvalidEncoding)
    }
}

/// The point with x-coordinate `x` and the y-coordinate that `greatest`
/// selects, if there is one and it lies in the prime-order subgroup.
pub open spec fn candidate(x: nat, greatest: bool) -> Option<(nat, nat)> {
    match recovered_y(x, greatest) {
        Some(y) => if in_prime_subgroup(x, y) {
            Some((x, y))
        } else {
            None
        },
        None => None,
    }
}

/// The point that the x-coordinate `x` decodes to: the candidate with the
/// larger y if it lies in the subgroup, else the one with the smaller y if
/// that one does; `None` if neither does.
pub open spec fn decoded_point(x: nat) -> Option<(nat, nat)> {
    match candidate(x, true) {
        Some(coordinates) => Some(coordinates),
        None => candidate(x, false),
    }
}

/// `EdwardsAffine::is_on_curve`: whether the curve equation holds of `(x, y)`.
#[verifier::external_body]
pub(crate) fn coordinates_on_curve(x: &FieldElement, y: &FieldElement) -> (r: bool)
    requires
        x.wf(),
        y.wf(),
    ensures
        r == on_curve(x@, y@),
{
    let x = Fq::from_repr(BigInteger256(x.limbs)).unwrap();
    let y = Fq::from_repr(BigInteger256(y.limbs)).unwrap();
    EdwardsAffine::new(x, y).is_on_curve()
}

/// `EdwardsAffine::from_x_coordinate`: a point of the curve with x-coordinate
/// `x`, if there is one. Of the two y-coordinates that go with `x`, each the
/// negative of the other, `greatest` picks the larger number, and its absence
/// the smaller.
#[verifier::external_body]
pub(crate) fn point_from_x_coordinate(x: &FieldElement, greatest: bool) -> (r: Option<CurvePoint>)
    requires
        x.wf(),
    ensures
        r is Some <==> recovered_y(x@, greatest) is Some,
        r matches Some(p) ==> p.wf() && p@.0 == x@ && Some(p@.1) == recovered_y(x@, greatest),
        r matches Some(p) ==> greatest ==> p@.1 >= negated(p@.1),
        r matches Some(p) ==> !greatest ==> p@.1 <= negated(p@.1),
{
    let x = Fq::from_repr(BigInteger256(x.limbs)).unwrap();
    match EdwardsAffine::from_x_coordinate(x, greatest) {
        Some(p) => Some(
            CurvePoint {
                x: FieldElement { limbs: p.x.to_repr().0 },
                y: FieldElement { limbs: p.y.to_repr().0 },
            },
        ),
        None => None,
    }
}

/// `EdwardsAffine::is_in_correct_subgroup_assuming_on_curve`: whether a point
/// of the curve lies in the subgroup of prime order.
#[verifier::external_body]
pub(crate) fn point_is_in_correct_subgroup(p: &CurvePoint) -> (r: bool)
    requires
        p.wf(),
    ensures
        r == in_prime_subgroup(p@.0, p@.1),
{
    let x = Fq::from_repr(BigInteger256(p.x.limbs)).unwrap();
    let y = Fq::from_repr(BigInteger256(p.y.limbs)).unwrap();
    EdwardsAffine::new(x, y).is_in_correct_subgroup_assuming_on_curve()
}

/// `EdwardsAffine::mul_bits` over the bits of `scalar`, most significant set
/// bit first, brought back to affine coordinates: a point of the curve again.
/// On a point of the curve the addition law is complete, so the conversion
/// never divides by zero.
#[verifier::external_body]
pub(crate) fn point_mul_bits(p: &CurvePoint, scalar: &Scalar) -> (r: CurvePoint)
    requires
        p.wf(),
        scalar.wf(),
    ensures
        r.wf(),
        r@ == ladder_product(p@.0, p@.1, scalar@),
{
    let x = Fq::from_repr(BigInteger256(p.x.limbs)).unwrap();
    let y = Fq::from_repr(BigInteger256(p.y.limbs)).unwrap();
    let bits = BitIteratorBE::new_without_leading_zeros(BigInteger256(scalar.limbs));
    let q = EdwardsAffine::new(x, y).mul_bits(bits).into_affine();
    CurvePoint {
        x: FieldElement { limbs: q.x.to_repr().0 },
        y: FieldElement { limbs: q.y.to_repr().0 },
    }
}

/// `EdwardsProjective`'s `*` by a scalar, on the point taken to projective
/// coordinates and brought back: a point of the curve again.
#[verifier::external_body]
pub(crate) fn point_mul_projective(p: &CurvePoint, scalar: &Scalar) -> (r: CurvePoint)
    requires
        p.wf(),
        scalar.wf(),
    ensures
        r.wf(),
        r@ == projective_product(p@.0, p@.1, scalar@),
{
    let x = Fq::from_repr(BigInteger256(p.x.limbs)).unwrap();
    let y = Fq::from_repr(BigInteger256(p.y.limbs)).unwrap();
    let k = Fr::from_repr(BigInteger256(scalar.limbs)).unwrap();
    let q = EdwardsAffine::new(x, y).into_projective().mul(k).into_affine();
    CurvePoint {
        x: FieldElement { limbs: q.x.to_repr().0 },
        y: FieldElement { limbs: q.y.to_repr().0 },
    }
}

} // verus!
