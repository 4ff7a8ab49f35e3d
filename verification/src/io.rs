use crate::color::Rgba8;
use crate::view::ViewExtent;
use vstd::prelude::*;

verus! {

/// Description of an archive.
#[derive(Debug)]
pub struct Manifest {
    pub extent: ViewExtent,
}

/// The layers of a view, frame by frame, with its manifest.
#[derive(Debug)]
pub struct Archive {
    pub layers: Vec<Vec<Vec<Rgba8>>>,
    pub manifest: Manifest,
}

/// An image read from its raw RGBA bytes: width, height and pixels.
pub fn load_image(width: u32, height: u32, buffer: &[u8]) -> (r: (u32, u32, Vec<Rgba8>))
    requires
        buffer@.len() % 4 == 0,
    ensures
        r.0 == width,
        r.1 == height,
        crate::color::rgba_bytes(r.2@) == buffer@,
{
    (width, height, Rgba8::align(buffer))
}

} // verus!
