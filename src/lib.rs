//! Evolves sets of coloured triangles towards a reference image: candidates
//! are rendered with exact source-over compositing, shrunk by tile averaging
//! and scored by squared error; a population keeps the fittest and mutates.

pub mod color;
pub mod gene;
pub mod geometry;
pub mod image;
pub mod population;
pub mod rng;

pub use color::{Color, Pixel};
pub use gene::Gene;
pub use geometry::{BBox, Barycentric, Point, Triangle};
pub use image::{Fitness, RandomImage, GENE_COUNT};
pub use population::{Population, REFERENCE_LEN, REFERENCE_SIDE};
