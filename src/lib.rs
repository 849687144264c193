//! Page layout engine for a single-page vector document: glyph-width
//! measurement, greedy word wrapping with alignment, grid composition of text
//! blocks, rounded-rectangle outlines and axis-aligned line segments.
//!
//! All lengths are integers in micrometres, with the page origin at the
//! bottom-left corner and Y growing upward. Font sizes of wrapped text are
//! in millipoints; free text items give theirs in micrometres. Rendering
//! produces an ordered list of draw operations, which a document backend
//! replays.

pub mod ops;
pub mod metrics;
pub mod words;
pub mod document;
pub mod wrap;
pub mod payload;
pub mod shapes;
pub mod layout;
pub mod laws;

pub use document::PdfDocumentWrapper;
pub use layout::LayoutError;
pub use metrics::FontMetrics;
pub use ops::{DrawOp, PathPoint, Point};
pub use payload::{
    Dimensions,
    LineArray,
    LineDim,
    Position,
    Rectangle,
    RectangleArray,
    TextArray,
    TextInfo,
    TextPositions,
};
pub use wrap::{TextAlignment, WrappedTextParams};
