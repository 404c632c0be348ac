//! Texture model: a decoded pixel buffer uploaded to a device image.
//!
//! Image file decoding is a host concern; the host hands the decoded RGBA
//! pixels and their dimensions in.  The model records what the device
//! image holds; views and samplers are realised host-side.

use vstd::prelude::*;

verus! {

/// A decoded RGBA8 pixel buffer with its dimensions, as uploaded to the
/// device.
pub struct Texture {
    width: u32,
    height: u32,
    pixels: Vec<u8>,
}

impl Texture {
    /// Width in pixels.
    pub closed spec fn width_spec(&self) -> u32 {
        self.width
    }

    /// Height in pixels.
    pub closed spec fn height_spec(&self) -> u32 {
        self.height
    }

    /// The uploaded RGBA8 bytes, four per pixel.
    pub closed spec fn pixels_spec(&self) -> Seq<u8> {
        self.pixels@
    }

    /// Four bytes per pixel.
    pub open spec fn wf(&self) -> bool {
        self.pixels_spec().len() == 4 * self.width_spec() * self.height_spec()
    }

    /// Wraps a decoded RGBA8 pixel buffer; the host uploads the same bytes
    /// to its device image.
    pub fn from_pixels(width: u32, height: u32, pixels: Vec<u8>) -> (r: Texture)
        requires
            pixels@.len() == 4 * width * height,
        ensures
            r.width_spec() == width,
            r.height_spec() == height,
            r.pixels_spec() == pixels@,
            r.wf(),
    {
        Texture { width, height, pixels }
    }

    /// The dimensions of the texture, in pixels.
    pub fn get_texture_size(&self) -> (r: (u32, u32))
        ensures
            r.0 == self.width_spec(),
            r.1 == self.height_spec(),
    {
        (self.width, self.height)
    }

    /// The uploaded RGBA8 bytes.
    pub fn get_pixels(&self) -> (r: &Vec<u8>)
        ensures
            r@ == self.pixels_spec(),
    {
        &self.pixels
    }
}

} // verus!
