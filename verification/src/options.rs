//! The resolved configuration of a collage run.

use vstd::prelude::*;
use crate::color::Color;

verus! {

/// How the images are arranged: stacked in a column or placed in a row.
#[derive(Clone, Copy, Debug, PartialEq, Eq, Structural)]
pub enum Orientation {
    /// Images stacked vertically, sharing the target width.
    Portrait,
    /// Images placed side by side, sharing the target height.
    Landscape,
}

/// Configuration of a collage run, built once from user input.
///
/// Margins and spacing are pixel counts; a missing target width or height
/// means the first image's dimension is used.
#[derive(Clone, Copy, Debug, PartialEq, Eq, Structural)]
pub struct Options {
    pub image_width: Option<u32>,
    pub image_height: Option<u32>,
    pub orientation: Orientation,
    pub top_margin: u32,
    pub left_margin: u32,
    pub spacing: u32,
    pub background_color: Color,
    pub preserve_aspect_ratio: bool,
}

} // verus!
