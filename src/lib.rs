//! Flame-graph rendering: folded stack lines in, an SVG document out.
use vstd::prelude::*;

pub mod counts;
pub mod text;
pub mod parse;
pub mod merge;
pub mod order;
pub mod format;
pub mod options;
pub mod color;
pub mod layout;
pub mod tooltip;
pub mod svg;
pub mod render;
pub mod laws;

pub use crate::counts::{FrameWidthSource, SampleCount};
pub use crate::options::{Direction, Options, TextTruncateDirection};
pub use crate::parse::is_diff_case;
pub use crate::render::{plan, render_svg, Graph, Plan, RenderError, Warning};

verus! {

} // verus!
