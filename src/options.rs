//! Rendering options.
use vstd::prelude::*;
use vstd::string::StringExecFns;
use crate::counts::FrameWidthSource;

verus! {

/// The direction the plot grows.
#[derive(Debug, Clone, Copy, PartialEq, Eq, Structural, Default)]
pub enum Direction {
    /// Stacks grow from the bottom up; the `all` frame is at the bottom.
    #[default]
    Straight,
    /// Stacks grow from the top down; the `all` frame is at the top.
    Inverted,
}

/// Which side of a label is cut when it does not fit.
#[derive(Debug, Clone, Copy, PartialEq, Eq, Structural, Default)]
pub enum TextTruncateDirection {
    #[default]
    Left,
    Right,
}

/// Configuration of a flame graph. Lengths are in pixels; `min_width_ppm`
/// is the narrowest frame drawn, in millionths of the total width (one
/// hundredth of a percent is 100); `font_width_milli` is the width of a
/// character in thousandths of the font size.
#[derive(Debug)]
pub struct Options {
    pub title: String,
    pub subtitle: Option<String>,
    pub notes: String,
    pub image_width: Option<u32>,
    pub frame_height: u32,
    pub min_width_ppm: u64,
    pub font_type: String,
    pub font_size: u32,
    pub font_width_milli: u32,
    pub count_name: String,
    pub name_type: String,
    pub direction: Direction,
    pub text_truncate_direction: TextTruncateDirection,
    pub negate_differentials: bool,
    pub pretty_xml: bool,
    pub no_sort: bool,
    pub reverse_stack_order: bool,
    /// Leave out the interactive script and stylesheet.
    pub no_javascript: bool,
    /// The interactive script embedded in the document.
    pub script: String,
    /// The stylesheet embedded in the document.
    pub style: String,
    /// The two colours of the background gradient.
    pub bgcolor1: String,
    pub bgcolor2: String,
    pub uicolor: String,
    pub search_color: String,
    /// Outline colour of the rectangles; none when `None`.
    pub stroke_color: Option<String>,
    pub color_diffusion: bool,
    pub flame_chart: bool,
    pub base: Vec<String>,
    pub include_children: bool,
    pub frame_width_source: FrameWidthSource,
    pub detailed_tooltips: bool,
    pub normalize: bool,
}

/// Default width of the image when none is given.
pub const DEFAULT_IMAGE_WIDTH: u32 = 1200;

/// Height above the frames: title, subtitle and, when inverted, the details line.
pub open spec fn ypad_top(font_size: nat, subtitle: bool, dir: Direction) -> nat {
    let sub = if subtitle { font_size * 2 } else { 0 };
    if dir == Direction::Straight {
        font_size * 3 + sub
    } else {
        font_size * 4 + sub + 4
    }
}

/// Height below the frames.
pub open spec fn ypad_bottom(font_size: nat, dir: Direction) -> nat {
    if dir == Direction::Straight {
        font_size * 2 + 10
    } else {
        font_size + 10
    }
}

impl Options {
    /// Padding above the frames, title and subtitle included.
    pub fn ypad1(&self) -> (r: u64)
        ensures
            r == ypad_top(self.font_size as nat, self.subtitle is Some, self.direction),
    {
        let fs = self.font_size as u64;
        let sub: u64 = if self.subtitle.is_some() {
            fs * 2
        } else {
            0
        };
        if self.direction == Direction::Straight {
            fs * 3 + sub
        } else {
            fs * 4 + sub + 4
        }
    }

    /// Padding below the frames, labels included.
    pub fn ypad2(&self) -> (r: u64)
        ensures
            r == ypad_bottom(self.font_size as nat, self.direction),
    {
        let fs = self.font_size as u64;
        if self.direction == Direction::Straight {
            fs * 2 + 10
        } else {
            fs + 10
        }
    }

    /// Width of the image, the default when none is set.
    pub fn width(&self) -> (r: u32)
        ensures
            r == match self.image_width {
                Some(w) => w,
                None => DEFAULT_IMAGE_WIDTH,
            },
    {
        match self.image_width {
            Some(w) => w,
            None => DEFAULT_IMAGE_WIDTH,
        }
    }
}

impl Default for Options {
    fn default() -> (r: Options)
        ensures
            r.subtitle is None,
            r.image_width is None,
            r.frame_height == 16,
            r.min_width_ppm == 100,
            r.font_size == 12,
            r.font_width_milli == 590,
            r.direction == Direction::Straight,
            r.text_truncate_direction == TextTruncateDirection::Left,
            !r.negate_differentials && !r.pretty_xml && !r.no_sort && !r.reverse_stack_order,
            !r.no_javascript && !r.color_diffusion && !r.flame_chart && !r.include_children,
            !r.detailed_tooltips && !r.normalize,
            r.base@.len() == 0,
            r.frame_width_source == FrameWidthSource::After,
            r.title@ == "Flame Graph"@,
            r.count_name@ == "samples"@,
            r.name_type@ == "Function:"@,
            r.font_type@ == "monospace"@,
            r.notes@.len() == 0,
            r.stroke_color is None,
            r.bgcolor1@ == "#eeeeee"@,
            r.bgcolor2@ == "#eeeeb0"@,
            r.uicolor@ == "#000000"@,
            r.search_color@ == "#e600e6"@,
            r.script@.len() == 0,
            r.style@.len() == 0,
    {
        Options {
            title: String::from_str("Flame Graph"),
            subtitle: None,
            notes: String::new(),
            image_width: None,
            frame_height: 16,
            min_width_ppm: 100,
            font_type: String::from_str("monospace"),
            font_size: 12,
            font_width_milli: 590,
            count_name: String::from_str("samples"),
            name_type: String::from_str("Function:"),
            direction: Direction::Straight,
            text_truncate_direction: TextTruncateDirection::Left,
            negate_differentials: false,
            pretty_xml: false,
            no_sort: false,
            reverse_stack_order: false,
            no_javascript: false,
            script: String::new(),
            style: String::new(),
            bgcolor1: String::from_str("#eeeeee"),
            bgcolor2: String::from_str("#eeeeb0"),
            uicolor: String::from_str("#000000"),
            search_color: String::from_str("#e600e6"),
            stroke_color: None,
            color_diffusion: false,
            flame_chart: false,
            base: Vec::new(),
            include_children: false,
            frame_width_source: FrameWidthSource::After,
            detailed_tooltips: false,
            normalize: false,
        }
    }
}

} // verus!
