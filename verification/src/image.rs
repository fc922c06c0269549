//! The render target.

use vstd::prelude::*;

verus! {

/// Size of the raster, number of samples averaged into each pixel, and the
/// number of intersections that a single light path may use.
///
/// All four are positive. The type keeps that as its invariant, so every
/// `Image` that a program holds is valid.
#[derive(Debug, Clone, Copy)]
pub struct Image {
    width: usize,
    height: usize,
    samples_per_pixel: usize,
    max_depth: usize,
}

impl Image {
    pub closed spec fn spec_width(&self) -> usize {
        self.width
    }

    pub closed spec fn spec_height(&self) -> usize {
        self.height
    }

    pub closed spec fn spec_samples_per_pixel(&self) -> usize {
        self.samples_per_pixel
    }

    pub closed spec fn spec_max_depth(&self) -> usize {
        self.max_depth
    }

    /// Whether all four numbers are positive.
    pub open spec fn valid(&self) -> bool {
        &&& self.width() > 0
        &&& self.height() > 0
        &&& self.samples_per_pixel() > 0
        &&& self.max_depth() > 0
    }

    #[verifier::type_invariant]
    spec fn always_valid(self) -> bool {
        self.valid()
    }

    /// A target of `width` by `height` pixels, each the average of
    /// `samples_per_pixel` paths of at most `max_depth` intersections.
    pub fn new(width: usize, height: usize, samples_per_pixel: usize, max_depth: usize) -> (image: Image)
        requires
            width > 0,
            height > 0,
            samples_per_pixel > 0,
            max_depth > 0,
        ensures
            image.valid(),
            image.width() == width,
            image.height() == height,
            image.samples_per_pixel() == samples_per_pixel,
            image.max_depth() == max_depth,
    {
        Image { width, height, samples_per_pixel, max_depth }
    }

    #[verifier::when_used_as_spec(spec_width)]
    pub fn width(&self) -> (width: usize)
        ensures
            self.valid(),
            width == self.width(),
    {
        proof {
            use_type_invariant(self);
        }
        self.width
    }

    #[verifier::when_used_as_spec(spec_height)]
    pub fn height(&self) -> (height: usize)
        ensures
            self.valid(),
            height == self.height(),
    {
        proof {
            use_type_invariant(self);
        }
        self.height
    }

    #[verifier::when_used_as_spec(spec_samples_per_pixel)]
    pub fn samples_per_pixel(&self) -> (samples: usize)
        ensures
            self.valid(),
            samples == self.samples_per_pixel(),
    {
        proof {
            use_type_invariant(self);
        }
        self.samples_per_pixel
    }

    #[verifier::when_used_as_spec(spec_max_depth)]
    pub fn max_depth(&self) -> (depth: usize)
        ensures
            self.valid(),
            depth == self.max_depth(),
    {
        proof {
            use_type_invariant(self);
        }
        self.max_depth
    }
}

} // verus!
