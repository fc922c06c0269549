//! The discrete core of a Monte-Carlo path tracer.
//!
//! A path tracer turns a scene of spheres and a camera into a raster image
//! by following random light paths through every pixel. The colours,
//! directions and distances of such a render are real numbers, and the
//! caller computes them. This library holds the decisions that surround
//! that arithmetic, and proves them:
//!
//! - [`image`]: the size of the raster, the samples drawn for each pixel
//!   and the budget of each path;
//! - [`render`]: the order in which pixels are sampled and written, and
//!   the header of the raster text;
//! - [`color`] and [`numeral`]: the line of text of a finished pixel;
//! - [`ray`]: the budget of a light path and the way it ends;
//! - [`hittable`]: the search for the nearest hit among the surfaces of a
//!   scene;
//! - [`sphere`]: the choice between the two roots of a sphere.

pub mod color;
pub mod hittable;
pub mod image;
pub mod numeral;
pub mod ray;
pub mod render;
pub mod sphere;

pub use crate::image::Image;
pub use crate::render::Renderer;
