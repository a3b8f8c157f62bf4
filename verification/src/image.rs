//! The settings of an image, checked once before anything is rendered.
use crate::color;
use crate::color::header_text;
use crate::render::Pixel;
use vstd::prelude::*;

verus! {

/// Why settings are refused.
#[derive(Clone, Copy, Debug, PartialEq, Eq, Structural)]
pub enum ImageError {
    /// The width is zero.
    NoWidth,
    /// The height is zero.
    NoHeight,
    /// The number of samples for each pixel is zero.
    NoSamples,
}

/// The settings of an image, as plain numbers.
pub struct ImageView {
    pub width: nat,
    pub height: nat,
    pub samples_per_pixel: nat,
    pub max_depth: int,
}

/// What [`Image::new`] returns: the first of the three errors that
/// applies, or the settings.
pub open spec fn checked_settings(
    width: u32,
    height: u32,
    samples_per_pixel: u32,
    max_depth: i32,
) -> Result<ImageView, ImageError> {
    if width == 0 {
        Err(ImageError::NoWidth)
    } else if height == 0 {
        Err(ImageError::NoHeight)
    } else if samples_per_pixel == 0 {
        Err(ImageError::NoSamples)
    } else {
        Ok(
            ImageView {
                width: width as nat,
                height: height as nat,
                samples_per_pixel: samples_per_pixel as nat,
                max_depth: max_depth as int,
            },
        )
    }
}

/// The settings of an image: its width and height in pixels, the number
/// of samples for each pixel, and the number of scatterings through which
/// a ray is followed. None of the first three is zero.
#[derive(Clone, Copy, Debug)]
pub struct Image {
    width: u32,
    height: u32,
    samples_per_pixel: u32,
    max_depth: i32,
}

impl View for Image {
    type V = ImageView;

    closed spec fn view(&self) -> ImageView {
        ImageView {
            width: self.width as nat,
            height: self.height as nat,
            samples_per_pixel: self.samples_per_pixel as nat,
            max_depth: self.max_depth as int,
        }
    }
}

impl Image {
    #[verifier::type_invariant]
    spec fn inv(self) -> bool {
        self.width > 0 && self.height > 0 && self.samples_per_pixel > 0
    }

    /// The settings, if the width, the height and the number of samples
    /// are not zero.
    pub fn new(width: u32, height: u32, samples_per_pixel: u32, max_depth: i32) -> (r: Result<
        Self,
        ImageError,
    >)
        ensures
            match r {
                Ok(image) => checked_settings(width, height, samples_per_pixel, max_depth) == Ok::<
                    ImageView,
                    ImageError,
                >(image@),
                Err(e) => checked_settings(width, height, samples_per_pixel, max_depth) == Err::<
                    ImageView,
                    ImageError,
                >(e),
            },
    {
        if width == 0 {
            Err(ImageError::NoWidth)
        } else if height == 0 {
            Err(ImageError::NoHeight)
        } else if samples_per_pixel == 0 {
            Err(ImageError::NoSamples)
        } else {
            Ok(Image { width, height, samples_per_pixel, max_depth })
        }
    }

    /// The width in pixels.
    pub fn width(&self) -> (r: u32)
        ensures
            r == self@.width,
            r > 0,
    {
        proof {
            use_type_invariant(self);
        }
        self.width
    }

    /// The height in pixels.
    pub fn height(&self) -> (r: u32)
        ensures
            r == self@.height,
            r > 0,
    {
        proof {
            use_type_invariant(self);
        }
        self.height
    }

    /// The number of samples for each pixel.
    pub fn samples_per_pixel(&self) -> (r: u32)
        ensures
            r == self@.samples_per_pixel,
            r > 0,
    {
        proof {
            use_type_invariant(self);
        }
        self.samples_per_pixel
    }

    /// The number of scatterings through which a ray is followed.
    pub fn max_depth(&self) -> (r: i32)
        ensures
            r == self@.max_depth,
    {
        self.max_depth
    }

    /// The pixel in column `i` from the left and row `j` from the bottom.
    pub fn pixel(&self, i: u32, j: u32) -> (r: Pixel)
        ensures
            r == (Pixel { i, j, width: self@.width as u32, height: self@.height as u32 }),
    {
        Pixel { i, j, width: self.width, height: self.height }
    }

    /// The header of the image as a plain PPM file.
    pub fn header(&self) -> (r: Vec<u8>)
        ensures
            r@ == header_text(self@.width, self@.height),
    {
        color::ppm_header(self.width, self.height)
    }
}

} // verus!
