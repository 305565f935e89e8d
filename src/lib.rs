//! Integer lattice rasterization of circles, cylinders, boxes and spheres.
use vstd::prelude::*;

pub mod position;
pub mod circle;
pub mod prism;
pub mod sphere;

pub use position::Position;
pub use circle::{circle, cyl};
pub use prism::{rec_prism, hrec_prism};
pub use sphere::sphere;

verus! {

} // verus!
