//! The errors of making resources.
use vstd::prelude::*;
use vstd::std_specs::convert::FromSpecImpl;

verus! {

/// The error of the `image` crate. Nothing inside it is read here.
#[verifier::external_type_specification]
#[verifier::external_body]
pub struct ExImageError(image::ImageError);

/// The error of the `tobj` crate. Nothing inside it is read here.
#[verifier::external_type_specification]
#[verifier::external_body]
pub struct ExLoadError(tobj::LoadError);

pub type ResourcesResult<T> = Result<T, ResourcesError>;

/// Why a resource could not be made from what was fetched.
#[derive(Debug)]
pub enum ResourcesError {
    ImageError(image::ImageError),
    LoadModelError(tobj::LoadError),
}

impl From<image::ImageError> for ResourcesError {
    fn from(e: image::ImageError) -> (error: Self) {
        Self::ImageError(e)
    }
}

impl FromSpecImpl<image::ImageError> for ResourcesError {
    open spec fn obeys_from_spec() -> bool {
        true
    }

    open spec fn from_spec(e: image::ImageError) -> Self {
        Self::ImageError(e)
    }
}

impl From<tobj::LoadError> for ResourcesError {
    fn from(e: tobj::LoadError) -> (error: Self) {
        Self::LoadModelError(e)
    }
}

impl FromSpecImpl<tobj::LoadError> for ResourcesError {
    open spec fn obeys_from_spec() -> bool {
        true
    }

    open spec fn from_spec(e: tobj::LoadError) -> Self {
        Self::LoadModelError(e)
    }
}

} // verus!
