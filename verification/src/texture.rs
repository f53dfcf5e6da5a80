use vstd::prelude::*;

verus! {

/// A rectangular crop of a texture image, in integer pixel coordinates:
/// the image it crops, the top-left corner `(u, v)`, and the crop size.
/// Computing the rectangle from UV coordinates and performing the crop
/// are image-library work and live with the caller; this type carries
/// the result as plain values.
#[derive(Debug, Clone, PartialEq, Eq)]
pub struct CroppedTexture {
    pub image_path: String,
    pub u: u32,
    pub v: u32,
    pub width: u32,
    pub height: u32,
}

impl CroppedTexture {
    /// The crop's right edge, one past the last column it covers.
    pub fn right(&self) -> (r: u64)
        ensures
            r == self.u + self.width,
    {
        self.u as u64 + self.width as u64
    }

    /// The crop's bottom edge, one past the last row it covers.
    pub fn bottom(&self) -> (r: u64)
        ensures
            r == self.v + self.height,
    {
        self.v as u64 + self.height as u64
    }
}

} // verus!
