//! Pictures as textures.
use crate::resources::error::ResourcesError;
use crate::resources::error::ResourcesResult;
use vstd::prelude::*;

verus! {

/// A picture as a texture: its pixels, four bytes each, and its width and height.
#[derive(Debug)]
pub struct Image {
    diffuse_rgba: Vec<u8>,
    /// (width, height) of image texture
    size: (u32, u32),
}

impl Image {
    pub closed spec fn spec_size(&self) -> (u32, u32) {
        self.size
    }

    /// The bytes of the pixels, row after row.
    pub closed spec fn pixels(&self) -> Seq<u8> {
        self.diffuse_rgba@
    }

    pub fn new(diffuse_rgba: Vec<u8>, dimensions: (u32, u32)) -> (image: Self)
        ensures
            image.size() == dimensions,
            image.pixels() == diffuse_rgba@,
    {
        Self { diffuse_rgba, size: dimensions }
    }

    /// The texture of a picture from what a decoder made of its file: the
    /// bytes of the pixels with the width and the height, or the decoder's error.
    pub fn from_decoded(outcome: Result<(Vec<u8>, (u32, u32)), image::ImageError>) -> (ans:
        ResourcesResult<Self>)
        ensures
            match outcome {
                Ok((pixels, size)) => ans is Ok && ans->Ok_0.pixels() == pixels@
                    && ans->Ok_0.size() == size,
                Err(e) => ans is Err && ans->Err_0 == ResourcesError::ImageError(e),
            },
    {
        match outcome {
            Ok((diffuse_rgba, size)) => Ok(Self { diffuse_rgba, size }),
            Err(e) => Err(ResourcesError::from(e)),
        }
    }

    /// (width, height) of image texture
    #[verifier::when_used_as_spec(spec_size)]
    pub fn size(&self) -> (size: (u32, u32))
        ensures
            size == self.spec_size(),
    {
        self.size
    }

    /// The bytes of the pixels, row after row.
    pub fn diffuse_rgba(&self) -> (bytes: &Vec<u8>)
        ensures
            bytes@ == self.pixels(),
    {
        &self.diffuse_rgba
    }
}

impl Clone for Image {
    fn clone(&self) -> (image: Self)
        ensures
            image.size() == self.size(),
            image.pixels() == self.pixels(),
    {
        Self { diffuse_rgba: self.diffuse_rgba.clone(), size: (self.size.0, self.size.1) }
    }
}

} // verus!
