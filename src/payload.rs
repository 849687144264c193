use vstd::prelude::*;

verus! {

/// Baseline position of a free text item, in micrometres.
#[derive(Clone, Copy, PartialEq, Eq, Structural, Debug)]
pub struct TextPositions {
    pub x: i32,
    pub y: i32,
}

/// A free text item; `font_size` is given in micrometres.
pub struct TextInfo {
    pub position: TextPositions,
    pub text: String,
    pub font_size: u32,
}

pub struct TextArray {
    pub arr: Vec<TextInfo>,
}

/// Size of a rectangle, in micrometres.
#[derive(Clone, Copy, PartialEq, Eq, Structural, Debug)]
pub struct Dimensions {
    pub height: i32,
    pub width: i32,
}

/// Bottom-left corner of a rectangle, in micrometres.
#[derive(Clone, Copy, PartialEq, Eq, Structural, Debug)]
pub struct Position {
    pub x: i32,
    pub y: i32,
}

/// A rectangle outline with rounded corners; the border width is a stroke
/// width in millipoints, the radius is in micrometres.
#[derive(Clone, Copy, PartialEq, Eq, Structural, Debug)]
pub struct Rectangle {
    pub border_width: u32,
    pub dimensions: Dimensions,
    pub position: Position,
    pub border_radius: u32,
}

pub struct RectangleArray {
    pub arr: Vec<Rectangle>,
}

/// A line segment from (`x`, `y`) spanning `width` horizontally or `height`
/// vertically, in micrometres, stroked `thickness` millipoints wide.
#[derive(Clone, Copy, PartialEq, Eq, Structural, Debug)]
pub struct LineDim {
    pub x: i32,
    pub y: i32,
    pub width: i32,
    pub height: i32,
    pub thickness: u32,
}

pub struct LineArray {
    pub arr: Vec<LineDim>,
}

} // verus!
