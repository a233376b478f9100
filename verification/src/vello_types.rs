use vstd::prelude::*;

verus! {

/// `vello::Scene`: a recorded fragment of drawing commands. Nothing is assumed
/// of what a value holds: the library owns fragments, lends them out and never
/// looks inside one.
#[verifier::external_type_specification]
#[verifier::external_body]
pub struct ExScene(vello::Scene);

/// `vello::kurbo::Affine`: a 2D affine transform. Nothing is assumed of its
/// coefficients: the library stores a transform and hands it on unchanged.
#[verifier::external_type_specification]
#[verifier::external_body]
pub struct ExAffine(vello::kurbo::Affine);

} // verus!
