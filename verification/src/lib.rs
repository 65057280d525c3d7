//! A verified collage builder: images arranged in one row or one column,
//! with margins, spacing, a background color and optional aspect
//! preservation, composed onto a single canvas and encoded as PNG.

pub mod color;
pub mod confirm;
pub mod img;
pub mod layout;
pub mod naming;
pub mod options;
pub mod pathsort;
pub mod pipeline;

pub use color::Color;
pub use color::ColorError;
pub use color::hex_to_color;
pub use pipeline::make_collage;
pub use pipeline::prepare_image;
pub use pipeline::CollageError;
pub use img::Img;
pub use options::Options;
pub use options::Orientation;
