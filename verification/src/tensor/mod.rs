//! Views of flat columns as boxes of numbers.
pub mod image;
pub mod image_laws;
pub mod shape;
pub mod view;
pub mod view_laws;

pub use crate::tensor::image::ImageView;
pub use crate::tensor::view::TensorView;
