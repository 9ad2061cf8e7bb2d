//! Images flowing between image nodes: RGB or single-channel float pixels (held
//! as IEEE-754 bit patterns) and integer label images, each with its size.

use vstd::prelude::*;
use crate::assets::{decimal, decimal_chars};
use crate::attribute_values::extend_values;
use crate::text::string_from_chars;

verus! {

/// An image: three float channels per pixel, one float channel, or one integer
/// label per pixel.
#[derive(Debug)]
pub enum ImageData {
    RgbF32 { width: u32, height: u32, data: Vec<u32> },
    R32F { width: u32, height: u32, data: Vec<u32> },
    R32U { width: u32, height: u32, data: Vec<u32> },
}

/// The width of an image.
pub open spec fn image_width(i: ImageData) -> u32 {
    match i {
        ImageData::RgbF32 { width, .. } => width,
        ImageData::R32F { width, .. } => width,
        ImageData::R32U { width, .. } => width,
    }
}

/// The height of an image.
pub open spec fn image_height(i: ImageData) -> u32 {
    match i {
        ImageData::RgbF32 { height, .. } => height,
        ImageData::R32F { height, .. } => height,
        ImageData::R32U { height, .. } => height,
    }
}

/// The message for data of length `len` that does not fit a `width` by `height`
/// image of the given kind.
pub open spec fn size_mismatch(kind: Seq<char>, len: nat, width: u32, height: u32) -> Seq<char> {
    kind + " image data length "@ + decimal(len) + " does not match "@ + decimal(width as nat) + "x"@
        + decimal(height as nat)
}

/// The message for data of the wrong length.
fn mismatch_message(kind: &str, len: usize, width: u32, height: u32) -> (r: String)
    ensures
        r@ == size_mismatch(kind@, len as nat, width, height),
{
    let mut out: Vec<char> = crate::text::chars_of(kind);
    let part1 = crate::text::chars_of(" image data length ");
    extend_values(&mut out, part1.as_slice());
    let n = decimal_chars(len);
    extend_values(&mut out, n.as_slice());
    let part2 = crate::text::chars_of(" does not match ");
    extend_values(&mut out, part2.as_slice());
    let w = decimal_chars(width as usize);
    extend_values(&mut out, w.as_slice());
    let part3 = crate::text::chars_of("x");
    extend_values(&mut out, part3.as_slice());
    let h = decimal_chars(height as usize);
    extend_values(&mut out, h.as_slice());
    string_from_chars(out.as_slice())
}

impl ImageData {
    /// The width in pixels.
    pub fn width(&self) -> (w: u32)
        ensures
            w == image_width(*self),
    {
        match self {
            ImageData::RgbF32 { width, .. } => *width,
            ImageData::R32F { width, .. } => *width,
            ImageData::R32U { width, .. } => *width,
        }
    }

    /// The height in pixels.
    pub fn height(&self) -> (h: u32)
        ensures
            h == image_height(*self),
    {
        match self {
            ImageData::RgbF32 { height, .. } => *height,
            ImageData::R32F { height, .. } => *height,
            ImageData::R32U { height, .. } => *height,
        }
    }

    /// The number of pixels, or the largest `usize` where it does not fit.
    pub fn len(&self) -> (n: usize)
        ensures
            n == (if image_width(*self) * image_height(*self) <= usize::MAX {
                (image_width(*self) * image_height(*self)) as usize
            } else {
                usize::MAX
            }),
    {
        match (self.width() as usize).checked_mul(self.height() as usize) {
            Some(n) => n,
            None => usize::MAX,
        }
    }

    /// Whether the image has no pixel.
    pub fn is_empty(&self) -> (r: bool)
        ensures
            r == (image_width(*self) * image_height(*self) == 0),
    {
        self.len() == 0
    }

    /// The RGB pixels (three bit patterns each) and the size, for an RGB image.
    pub fn rgb_data(&self) -> (r: Option<(&[u32], u32, u32)>)
        ensures
            match *self {
                ImageData::RgbF32 { width, height, data } => r matches Some(t) && t.0@ == data@ && t.1 == width && t.2 == height,
                _ => r is None,
            },
    {
        match self {
            ImageData::RgbF32 { width, height, data } => Some((data.as_slice(), *width, *height)),
            _ => None,
        }
    }

    /// The float pixels (bit patterns) and the size, for a single-channel float image.
    pub fn depth_data(&self) -> (r: Option<(&[u32], u32, u32)>)
        ensures
            match *self {
                ImageData::R32F { width, height, data } => r matches Some(t) && t.0@ == data@ && t.1 == width && t.2 == height,
                _ => r is None,
            },
    {
        match self {
            ImageData::R32F { width, height, data } => Some((data.as_slice(), *width, *height)),
            _ => None,
        }
    }

    /// The labels and the size, for a label image.
    pub fn seg_data(&self) -> (r: Option<(&[u32], u32, u32)>)
        ensures
            match *self {
                ImageData::R32U { width, height, data } => r matches Some(t) && t.0@ == data@ && t.1 == width && t.2 == height,
                _ => r is None,
            },
    {
        match self {
            ImageData::R32U { width, height, data } => Some((data.as_slice(), *width, *height)),
            _ => None,
        }
    }

    /// Whether two images have the same width and height.
    pub fn same_size(&self, other: &ImageData) -> (r: bool)
        ensures
            r == (image_width(*self) == image_width(*other) && image_height(*self) == image_height(*other)),
    {
        self.width() == other.width() && self.height() == other.height()
    }

    /// An RGB image of the given size, when `data` holds three values per pixel.
    pub fn from_rgb(width: u32, height: u32, data: Vec<u32>) -> (r: Result<ImageData, String>)
        requires
            width * height * 3 <= usize::MAX,
        ensures
            data@.len() == width * height * 3 ==> (r matches Ok(ImageData::RgbF32 { width: w, height: h, data: d })
                && w == width && h == height && d@ == data@),
            data@.len() != width * height * 3 ==> (r matches Err(msg) && msg@ == size_mismatch("RGB"@, data@.len(), width, height)),
    {
        assert(width * height <= width * height * 3) by (nonlinear_arith);
        let expected = width as usize * height as usize * 3;
        if data.len() != expected {
            return Err(mismatch_message("RGB", data.len(), width, height));
        }
        Ok(ImageData::RgbF32 { width, height, data })
    }

    /// A single-channel float image of the given size, when `data` holds one value per pixel.
    pub fn from_depth(width: u32, height: u32, data: Vec<u32>) -> (r: Result<ImageData, String>)
        requires
            width * height <= usize::MAX,
        ensures
            data@.len() == width * height ==> (r matches Ok(ImageData::R32F { width: w, height: h, data: d })
                && w == width && h == height && d@ == data@),
            data@.len() != width * height ==> (r matches Err(msg) && msg@ == size_mismatch("Depth"@, data@.len(), width, height)),
    {
        let expected = width as usize * height as usize;
        if data.len() != expected {
            return Err(mismatch_message("Depth", data.len(), width, height));
        }
        Ok(ImageData::R32F { width, height, data })
    }

    /// A label image of the given size, when `data` holds one label per pixel.
    pub fn from_seg(width: u32, height: u32, data: Vec<u32>) -> (r: Result<ImageData, String>)
        requires
            width * height <= usize::MAX,
        ensures
            data@.len() == width * height ==> (r matches Ok(ImageData::R32U { width: w, height: h, data: d })
                && w == width && h == height && d@ == data@),
            data@.len() != width * height ==> (r matches Err(msg) && msg@ == size_mismatch("Segmentation"@, data@.len(), width, height)),
    {
        let expected = width as usize * height as usize;
        if data.len() != expected {
            return Err(mismatch_message("Segmentation", data.len(), width, height));
        }
        Ok(ImageData::R32U { width, height, data })
    }
}

} // verus!
