//! Normalisation of object photographs onto a fixed-size white canvas:
//! foreground detection, aspect-preserving scale-to-fit and centred
//! compositing.

pub mod canvas;
pub mod detect;
pub mod error;
pub mod grid;
pub mod imaging;
pub mod pipeline;
pub mod scale;

pub use canvas::{composite, CanvasSpec};
pub use detect::{image_boundbox, detect_foreground, BoundingBox, Detection};
pub use error::NormalizeError;
pub use grid::{GrayGrid, GridView, Rgba, RgbaGrid};
pub use pipeline::process_image;
pub use scale::scale_to_fit;
