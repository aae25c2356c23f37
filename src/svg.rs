//! The SVG document: chrome around a container of frame elements.
use vstd::prelude::*;
use vstd::string::{StrSliceExecFns, StringExecFns};
use crate::color::{max1, Rgb};
use crate::counts::MAX_SAMPLES;
use crate::format::{append, decimal, decimal_text, escape_text, fixed, fixed_text, xml_escape};
use crate::merge::TimedFrame;
use crate::options::{Direction, Options, TextTruncateDirection};
use crate::text::{chars_of, push_char, string_of};
use crate::tooltip::{deannotate, deannotated};

verus! {

/// A line break and indentation to `level` in pretty mode; nothing otherwise.
pub open spec fn nl(pretty: bool, level: nat) -> Seq<char> {
    if pretty {
        seq!['\n'] + Seq::new(2 * level, |i: int| ' ')
    } else {
        Seq::empty()
    }
}

/// ` name="value"`.
pub open spec fn attr(name: Seq<char>, value: Seq<char>) -> Seq<char> {
    " "@ + name + "=\""@ + value + "\""@
}

pub open spec fn rgb_text(c: Rgb) -> Seq<char> {
    "rgb("@ + decimal(c.r as nat) + ","@ + decimal(c.g as nat) + ","@ + decimal(c.b as nat) + ")"@
}

/// `n / 2` in decimal, with `.5` when `n` is odd.
pub open spec fn half_text(n: nat) -> Seq<char> {
    if n % 2 == 1 {
        decimal(n / 2) + ".5"@
    } else {
        decimal(n / 2)
    }
}

/// Top and bottom of the row of depth `d`, with one pixel between rows.
pub open spec fn row_y(d: nat, height: nat, fh: nat, pad1: nat, pad2: nat, dir: Direction) -> (int, int) {
    if dir == Direction::Straight {
        (height - pad2 - (d + 1) * fh + 1, height - pad2 - d * fh)
    } else {
        ((pad1 + d * fh) as int, (pad1 + (d + 1) * fh) as int - 1)
    }
}

/// The label drawn in a frame `w` out of `total` wide: as many characters
/// of `name` as fit at `font_size * font_width_milli / 1000` pixels each
/// across `image_width` pixels, cut with `..` on the side `dir` names, and
/// nothing when fewer than three fit.
pub open spec fn label_of(name: Seq<char>, w: nat, total: nat, image_width: nat, font_size: nat, fwm: nat, dir: TextTruncateDirection) -> Seq<char> {
    if font_size == 0 || fwm == 0 {
        name
    } else {
        let fit = (w * image_width * 1000 / (max1(total as int) * font_size) as nat) / fwm;
        if fit < 3 {
            Seq::empty()
        } else if name.len() < fit {
            name
        } else if dir == TextTruncateDirection::Right {
            name.subrange(0, fit - 2) + ".."@
        } else {
            ".."@ + name.subrange(name.len() - (fit - 2), name.len() as int)
        }
    }
}

/// The geometry and text of one frame element.
pub struct FrameGeometry {
    pub x: Seq<char>,
    pub y1: nat,
    pub width: Seq<char>,
    pub height: nat,
    pub fg_x: nat,
    pub fg_w: nat,
    pub text_x: Seq<char>,
    pub text_y: Seq<char>,
    pub label: Seq<char>,
}

/// Everything about the page that the frame elements depend on.
#[derive(Debug, Clone, Copy)]
pub struct Page {
    pub image_width: u32,
    pub image_height: u128,
    pub frame_height: u32,
    pub font_size: u32,
    pub font_width_milli: u32,
    pub pad1: u64,
    pub pad2: u64,
    pub direction: Direction,
    pub truncate: TextTruncateDirection,
    pub pretty: bool,
    pub total: u64,
}

pub open spec fn geometry(f: TimedFrame, p: Page) -> FrameGeometry {
    let v = max1(p.total as int) as nat;
    let (y1, y2) = row_y(f.depth as nat, p.image_height as nat, p.frame_height as nat, p.pad1 as nat, p.pad2 as nat, p.direction);
    let w = (f.end_time - f.start_time) as nat;
    FrameGeometry {
        x: fixed((100 * f.start_time) as nat, v, 4),
        y1: y1 as nat,
        width: fixed(100 * w, v, 4),
        height: (y2 - y1) as nat,
        fg_x: f.start_time as nat,
        fg_w: w,
        text_x: fixed((100 * f.start_time * p.image_width + 300 * v) as nat, (v * p.image_width) as nat, 4),
        text_y: half_text((y1 + y2 + 6) as nat),
        label: label_of(deannotated(f.function@), w, p.total as nat, p.image_width as nat, p.font_size as nat, p.font_width_milli as nat, p.truncate),
    }
}

/// The `<rect>` element of a frame.
pub open spec fn rect_part(g: FrameGeometry, fill: Rgb) -> Seq<char> {
    "<rect"@ + attr("x"@, g.x + "%"@) + attr("y"@, decimal(g.y1)) + attr("width"@, g.width + "%"@)
        + attr("height"@, decimal(g.height)) + attr("fill"@, rgb_text(fill)) + attr("fg:x"@, decimal(g.fg_x))
        + attr("fg:w"@, decimal(g.fg_w)) + "/>"@
}

/// The `<text>` element of a frame.
pub open spec fn text_part(g: FrameGeometry) -> Seq<char> {
    "<text"@ + attr("x"@, g.text_x + "%"@) + attr("y"@, g.text_y) + ">"@ + xml_escape(g.label) + "</text>"@
}

/// The `<g>` element of one frame.
pub open spec fn frame_element(g: FrameGeometry, title: Seq<char>, fill: Rgb, pretty: bool) -> Seq<char> {
    nl(pretty, 2) + "<g>"@ + nl(pretty, 3) + "<title>"@ + xml_escape(title) + "</title>"@ + nl(pretty, 3)
        + rect_part(g, fill) + nl(pretty, 3) + text_part(g) + nl(pretty, 2) + "</g>"@
}

/// The page is laid out for frames of depth at most `depth_max`.
pub open spec fn page_ok(p: Page, depth_max: nat) -> bool {
    &&& p.frame_height >= 1
    &&& p.image_height == (depth_max + 1) * p.frame_height + p.pad1 + p.pad2
    &&& p.pad1 >= 4 || p.direction == Direction::Straight
    &&& p.total <= MAX_SAMPLES
}

/// Appends ` name="value"`.
pub fn push_attr(s: &mut String, name: &str, value: &str)
    ensures
        final(s)@ == old(s)@ + attr(name@, value@),
{
    append(s, " ");
    append(s, name);
    append(s, "=\"");
    append(s, value);
    append(s, "\"");
}

/// Appends a line break and indentation in pretty mode.
pub fn push_nl(s: &mut String, pretty: bool, level: usize)
    requires
        level <= 8,
    ensures
        final(s)@ == old(s)@ + nl(pretty, level as nat),
{
    if pretty {
        let ghost s0 = s@;
        push_char(s, '\n');
        let mut i: usize = 0;
        while i < 2 * level
            invariant
                level <= 8,
                i <= 2 * level,
                s@ == s0 + seq!['\n'] + Seq::new(i as nat, |k: int| ' '),
            decreases 2 * level - i,
        {
            push_char(s, ' ');
            i = i + 1;
            assert(s@ =~= s0 + seq!['\n'] + Seq::new(i as nat, |k: int| ' '));
        }
        assert(s@ =~= s0 + nl(pretty, level as nat));
    } else {
        assert(s@ =~= s@ + nl(pretty, level as nat));
    }
}

fn push_decimal(s: &mut String, n: u128)
    ensures
        final(s)@ == old(s)@ + decimal(n as nat),
{
    let d = decimal_text(n);
    append(s, d.as_str());
}

fn rgb_string(c: Rgb) -> (r: String)
    ensures
        r@ == rgb_text(c),
{
    let mut s = String::from_str("rgb(");
    push_decimal(&mut s, c.r as u128);
    append(&mut s, ",");
    push_decimal(&mut s, c.g as u128);
    append(&mut s, ",");
    push_decimal(&mut s, c.b as u128);
    append(&mut s, ")");
    s
}

/// `label_of` as characters.
pub fn label(name: &Vec<char>, w: u64, total: u64, image_width: u32, font_size: u32, fwm: u32, dir: TextTruncateDirection) -> (r: Vec<char>)
    ensures
        r@ == label_of(name@, w as nat, total as nat, image_width as nat, font_size as nat, fwm as nat, dir),
{
    if font_size == 0 || fwm == 0 {
        return crate::text::copy_range(name, 0, name.len());
    }
    let v: u128 = if total < 1 { 1 } else { total as u128 };
    proof {
        assert(w * image_width <= 0x1_0000_0000_0000_0000 * 0x1_0000_0000) by (nonlinear_arith)
            requires w <= 0x1_0000_0000_0000_0000, image_width <= 0x1_0000_0000;
        assert(v * font_size <= 0x1_0000_0000_0000_0000 * 0x1_0000_0000) by (nonlinear_arith)
            requires v <= 0x1_0000_0000_0000_0000, font_size <= 0x1_0000_0000;
        assert(v * font_size >= 1) by (nonlinear_arith)
            requires v >= 1, font_size >= 1;
    }
    let fit128 = ((w as u128) * (image_width as u128) * 1000 / (v * (font_size as u128))) / (fwm as u128);
    let n = name.len();
    if fit128 < 3 {
        return Vec::new();
    }
    if (n as u128) < fit128 {
        return crate::text::copy_range(name, 0, n);
    }
    let keep = (fit128 - 2) as usize;
    match dir {
        TextTruncateDirection::Right => {
            let mut r = crate::text::copy_range(name, 0, keep);
            r.push('.');
            r.push('.');
            proof {
                reveal_strlit("..");
            }
            assert(r@ =~= name@.subrange(0, keep as int) + ".."@);
            r
        },
        TextTruncateDirection::Left => {
            let tail = crate::text::copy_range(name, n - keep, n);
            let mut r: Vec<char> = Vec::new();
            r.push('.');
            r.push('.');
            let mut i: usize = 0;
            while i < tail.len()
                invariant
                    i <= tail@.len(),
                    r@ == seq!['.', '.'] + tail@.subrange(0, i as int),
                decreases tail@.len() - i,
            {
                r.push(tail[i]);
                i = i + 1;
                assert(r@ =~= seq!['.', '.'] + tail@.subrange(0, i as int));
            }
            proof {
                reveal_strlit("..");
            }
            assert(r@ =~= ".."@ + name@.subrange(n - keep, n as int));
            r
        },
    }
}

/// Top and bottom of the row of a frame.
fn rows(p: &Page, depth: usize, depth_max: usize) -> (r: (u128, u128))
    requires
        page_ok(*p, depth_max as nat),
        depth <= depth_max,
    ensures
        r.0 == row_y(depth as nat, p.image_height as nat, p.frame_height as nat, p.pad1 as nat, p.pad2 as nat, p.direction).0,
        r.1 == row_y(depth as nat, p.image_height as nat, p.frame_height as nat, p.pad1 as nat, p.pad2 as nat, p.direction).1,
        r.0 <= r.1 <= p.image_height,
        p.image_height <= 0x1_0000_0000_0000_0000_0000_0000_0000,
{
    let d = depth as u128;
    let fh = p.frame_height as u128;
    proof {
        assert((depth_max + 1) * fh <= 0x1_0000_0000_0000_0000 * 0x1_0000_0000) by (nonlinear_arith)
            requires depth_max + 1 <= 0x1_0000_0000_0000_0000, fh <= 0x1_0000_0000;
        assert((d + 1) * fh <= (depth_max + 1) * fh) by (nonlinear_arith)
            requires d <= depth_max;
        assert((d + 1) * fh == d * fh + fh) by (nonlinear_arith);
    }
    match p.direction {
        Direction::Straight => {
            (p.image_height - p.pad2 as u128 - (d + 1) * fh + 1, p.image_height - p.pad2 as u128 - d * fh)
        },
        Direction::Inverted => {
            (p.pad1 as u128 + d * fh, p.pad1 as u128 + (d + 1) * fh - 1)
        },
    }
}

fn rect_string(f: &TimedFrame, fill: Rgb, p: &Page, y1: u128, y2: u128) -> (out: String)
    requires
        f.start_time <= f.end_time <= p.total <= MAX_SAMPLES,
        y1 <= y2,
        y1 == geometry(*f, *p).y1,
        y2 - y1 == geometry(*f, *p).height,
    ensures
        out@ == rect_part(geometry(*f, *p), fill),
{
    let v: u128 = if p.total < 1 { 1 } else { p.total as u128 };
    let w = f.end_time - f.start_time;
    let mut buf = String::from_str("<rect");
    let out = &mut buf;
    let mut x = fixed_text(100 * (f.start_time as u128), v, 4);
    append(&mut x, "%");
    push_attr(out, "x", x.as_str());
    let y = decimal_text(y1);
    push_attr(out, "y", y.as_str());
    let mut wt = fixed_text(100 * (w as u128), v, 4);
    append(&mut wt, "%");
    push_attr(out, "width", wt.as_str());
    let h = decimal_text(y2 - y1);
    push_attr(out, "height", h.as_str());
    let fill_text = rgb_string(fill);
    push_attr(out, "fill", fill_text.as_str());
    let fx = decimal_text(f.start_time as u128);
    push_attr(out, "fg:x", fx.as_str());
    let fw = decimal_text(w as u128);
    push_attr(out, "fg:w", fw.as_str());
    append(out, "/>");
    buf
}

fn text_string(f: &TimedFrame, p: &Page, y1: u128, y2: u128) -> (out: String)
    requires
        f.start_time <= f.end_time <= p.total <= MAX_SAMPLES,
        y1 <= y2 <= 0x1_0000_0000_0000_0000_0000_0000_0000,
        geometry(*f, *p).text_y == half_text((y1 + y2 + 6) as nat),
    ensures
        out@ == text_part(geometry(*f, *p)),
{
    let v: u128 = if p.total < 1 { 1 } else { p.total as u128 };
    let w = f.end_time - f.start_time;
    let mut buf = String::from_str("<text");
    let out = &mut buf;
    let iw = p.image_width as u128;
    proof {
        assert(100 * f.start_time * iw <= 0x10_0000_0000_0000 * 100 * 0x1_0000_0000) by (nonlinear_arith)
            requires f.start_time <= 0x10_0000_0000_0000, iw <= 0x1_0000_0000;
        assert(v * iw <= 0x10_0000_0000_0000 * 0x1_0000_0000) by (nonlinear_arith)
            requires v <= 0x10_0000_0000_0000, iw <= 0x1_0000_0000;
    }
    let mut tx = fixed_text(100 * (f.start_time as u128) * iw + 300 * v, v * iw, 4);
    append(&mut tx, "%");
    push_attr(out, "x", tx.as_str());
    let sum = y1 + y2 + 6;
    let mut ty = decimal_text(sum / 2);
    if sum % 2 == 1 {
        append(&mut ty, ".5");
    }
    push_attr(out, "y", ty.as_str());
    append(out, ">");
    let cs = chars_of(f.function.as_str());
    let dn = deannotate(&cs);
    let lab = label(&dn, w, p.total, p.image_width, p.font_size, p.font_width_milli, p.truncate);
    let lab_s = string_of(&lab);
    let le = escape_text(lab_s.as_str());
    append(out, le.as_str());
    append(out, "</text>");
    buf
}

/// `nl(pretty, level)` as a string.
pub fn nl_string(pretty: bool, level: usize) -> (r: String)
    requires
        level <= 8,
    ensures
        r@ == nl(pretty, level as nat),
{
    let mut s = String::new();
    push_nl(&mut s, pretty, level);
    assert(s@ =~= nl(pretty, level as nat));
    s
}

/// Appends the `<g>` element of frame `f`.
pub fn write_frame(out: &mut String, f: &TimedFrame, title: &String, fill: Rgb, p: &Page, depth_max: usize)
    requires
        page_ok(*p, depth_max as nat),
        f.depth <= depth_max,
        f.start_time <= f.end_time <= p.total,
    ensures
        final(out)@ == old(out)@ + frame_element(geometry(*f, *p), title@, fill, p.pretty),
{
    let (y1, y2) = rows(p, f.depth, depth_max);
    let rect = rect_string(f, fill, p, y1, y2);
    let text = text_string(f, p, y1, y2);
    let t = escape_text(title.as_str());
    let n2 = nl_string(p.pretty, 2);
    let n3 = nl_string(p.pretty, 3);
    let mut e = nl_string(p.pretty, 2);
    append(&mut e, "<g>");
    append(&mut e, n3.as_str());
    append(&mut e, "<title>");
    append(&mut e, t.as_str());
    append(&mut e, "</title>");
    append(&mut e, n3.as_str());
    append(&mut e, rect.as_str());
    append(&mut e, n3.as_str());
    append(&mut e, text.as_str());
    append(&mut e, n2.as_str());
    append(&mut e, "</g>");
    append(out, e.as_str());
}

/// What the chrome of the document shows.
pub struct Chrome {
    pub width: nat,
    pub height: nat,
    pub total: nat,
    pub font_size: nat,
    pub pad2: nat,
    pub direction: Direction,
    pub truncate_right: bool,
    pub pretty: bool,
    pub title: Seq<char>,
    pub subtitle: Option<Seq<char>>,
    pub notes: Seq<char>,
    pub name_type: Seq<char>,
    pub font_type: Seq<char>,
    pub uicolor: Seq<char>,
    pub search_color: Seq<char>,
    pub stroke: Option<Seq<char>>,
    pub bg1: Seq<char>,
    pub bg2: Seq<char>,
    pub style: Seq<char>,
    pub script: Seq<char>,
}

pub open spec fn sat_sub(a: nat, b: nat) -> nat {
    if a >= b { (a - b) as nat } else { 0 }
}

/// Baseline of the details and matched-count lines.
pub open spec fn details_y(c: Chrome) -> nat {
    if c.direction == Direction::Straight {
        sat_sub(c.height, c.font_size)
    } else {
        c.font_size * 3
    }
}

/// The prologue and the opening `<svg>` tag.
pub open spec fn svg_open(c: Chrome) -> Seq<char> {
    "<?xml version=\"1.0\" standalone=\"no\"?>"@ + nl(c.pretty, 0)
        + "<!DOCTYPE svg PUBLIC \"-//W3C//DTD SVG 1.1//EN\" \"http://www.w3.org/Graphics/SVG/1.1/DTD/svg11.dtd\">"@
        + nl(c.pretty, 0) + "<svg version=\"1.1\""@ + attr("width"@, decimal(c.width)) + attr("height"@, decimal(c.height))
        + attr("onload"@, "init(evt)"@) + attr("viewBox"@, "0 0 "@ + decimal(c.width) + " "@ + decimal(c.height))
        + " xmlns=\"http://www.w3.org/2000/svg\" xmlns:xlink=\"http://www.w3.org/1999/xlink\" xmlns:fg=\"urn:flamegraph:fg\">"@
}

/// The background gradient.
pub open spec fn svg_defs(c: Chrome) -> Seq<char> {
    nl(c.pretty, 1) + "<defs>"@ + nl(c.pretty, 2)
        + "<linearGradient id=\"background\" y1=\"0\" y2=\"1\" x1=\"0\" x2=\"0\">"@ + nl(c.pretty, 3) + "<stop"@
        + attr("stop-color"@, xml_escape(c.bg1)) + " offset=\"5%\"/>"@ + nl(c.pretty, 3) + "<stop"@
        + attr("stop-color"@, xml_escape(c.bg2)) + " offset=\"95%\"/>"@ + nl(c.pretty, 2) + "</linearGradient>"@
        + nl(c.pretty, 1) + "</defs>"@
}

/// The settings the stylesheet and the script read, ahead of their static parts.
pub open spec fn style_params(c: Chrome) -> Seq<char> {
    "text { font-family:"@ + c.font_type + "; font-size:"@ + decimal(c.font_size) + "px; fill:"@ + c.uicolor
        + "; } "@ + match c.stroke {
        Some(k) => "rect { stroke:"@ + k + "; stroke-width:1; } "@,
        None => ""@,
    }
}

pub open spec fn script_params(c: Chrome) -> Seq<char> {
    "var nametype = '"@ + c.name_type + "'; var fontsize = "@ + decimal(c.font_size) + "; var xpad = 10; var inverted = "@
        + (if c.direction == Direction::Inverted { "true"@ } else { "false"@ }) + "; var searchcolor = '"@
        + c.search_color + "'; var truncate_text_right = "@ + (if c.truncate_right { "true"@ } else { "false"@ })
        + ";\n"@
}

pub open spec fn svg_style_script(c: Chrome) -> Seq<char> {
    nl(c.pretty, 1) + "<style type=\"text/css\">"@ + xml_escape(style_params(c) + c.style) + "</style>"@
        + nl(c.pretty, 1) + "<script type=\"text/ecmascript\">"@ + xml_escape(script_params(c) + c.script)
        + "</script>"@
}

/// Background, title, subtitle, details, buttons, matched-count label and notes.
pub open spec fn svg_texts(c: Chrome) -> Seq<char> {
    let top = decimal(c.font_size * 2);
    nl(c.pretty, 1) + "<rect x=\"0\" y=\"0\" width=\"100%\""@ + attr("height"@, decimal(c.height))
        + " fill=\"url(#background)\"/>"@ + nl(c.pretty, 1) + "<text id=\"title\" x=\"50.0000%\""@ + attr("y"@, top)
        + ">"@ + xml_escape(c.title) + "</text>"@ + match c.subtitle {
        Some(t) => nl(c.pretty, 1) + "<text id=\"subtitle\" x=\"50.0000%\""@ + attr("y"@, decimal(c.font_size * 4))
            + ">"@ + xml_escape(t) + "</text>"@,
        None => ""@,
    } + nl(c.pretty, 1) + "<text id=\"details\" x=\"10\""@ + attr("y"@, decimal(details_y(c))) + "> </text>"@
        + nl(c.pretty, 1) + "<text id=\"unzoom\" class=\"hide\" x=\"10\""@ + attr("y"@, top) + ">Reset Zoom</text>"@
        + nl(c.pretty, 1) + "<text id=\"search\""@ + attr("x"@, decimal(sat_sub(c.width, 110))) + attr("y"@, top)
        + ">Search</text>"@ + nl(c.pretty, 1) + "<text id=\"matched\""@ + attr("x"@, decimal(sat_sub(c.width, 110)))
        + attr("y"@, decimal(details_y(c))) + "> </text>"@ + nl(c.pretty, 1) + "<text id=\"notes\" x=\"10\""@
        + attr("y"@, decimal(c.height)) + ">"@ + xml_escape(c.notes) + "</text>"@
}

/// The opening tag of the frame container.
pub open spec fn frames_open(c: Chrome) -> Seq<char> {
    nl(c.pretty, 1) + "<svg id=\"frames\""@ + attr("x"@, decimal(10)) + attr("width"@, decimal(sat_sub(c.width, 20)))
        + attr("total_samples"@, decimal(c.total)) + ">"@
}

/// Everything of the document before the first frame element.
pub open spec fn chrome_text(c: Chrome) -> Seq<char> {
    svg_open(c) + svg_defs(c) + svg_style_script(c) + svg_texts(c) + frames_open(c)
}

/// Everything after the last frame element.
pub open spec fn closing_text(pretty: bool) -> Seq<char> {
    nl(pretty, 1) + "</svg>"@ + nl(pretty, 0) + "</svg>"@ + nl(pretty, 0)
}

/// The chrome of a document for `opt`, an image `width` by `height`, and `total` samples.
pub open spec fn chrome_of(opt: Options, width: nat, height: nat, total: nat) -> Chrome {
    Chrome {
        width,
        height,
        total,
        font_size: opt.font_size as nat,
        pad2: crate::options::ypad_bottom(opt.font_size as nat, opt.direction),
        direction: opt.direction,
        truncate_right: opt.text_truncate_direction == TextTruncateDirection::Right,
        pretty: opt.pretty_xml,
        title: opt.title@,
        subtitle: match opt.subtitle {
            Some(t) => Some(t@),
            None => None,
        },
        notes: opt.notes@,
        name_type: opt.name_type@,
        font_type: opt.font_type@,
        uicolor: opt.uicolor@,
        search_color: opt.search_color@,
        stroke: match opt.stroke_color {
            Some(k) => Some(k@),
            None => None,
        },
        bg1: opt.bgcolor1@,
        bg2: opt.bgcolor2@,
        style: if opt.no_javascript { Seq::empty() } else { opt.style@ },
        script: if opt.no_javascript { Seq::empty() } else { opt.script@ },
    }
}

fn dec_string(n: u128) -> (r: String)
    ensures
        r@ == decimal(n as nat),
{
    decimal_text(n)
}

fn svg_open_string(width: u32, height: u128, pretty: bool) -> (r: String)
    ensures
        forall|c: Chrome| c.width == width && c.height == height && c.pretty == pretty ==> r@ == svg_open(c),
{
    let mut s = String::from_str("<?xml version=\"1.0\" standalone=\"no\"?>");
    let n0 = nl_string(pretty, 0);
    append(&mut s, n0.as_str());
    append(&mut s, "<!DOCTYPE svg PUBLIC \"-//W3C//DTD SVG 1.1//EN\" \"http://www.w3.org/Graphics/SVG/1.1/DTD/svg11.dtd\">");
    append(&mut s, n0.as_str());
    append(&mut s, "<svg version=\"1.1\"");
    let w = dec_string(width as u128);
    let h = dec_string(height);
    push_attr(&mut s, "width", w.as_str());
    push_attr(&mut s, "height", h.as_str());
    push_attr(&mut s, "onload", "init(evt)");
    let mut vb = String::from_str("0 0 ");
    append(&mut vb, w.as_str());
    append(&mut vb, " ");
    append(&mut vb, h.as_str());
    push_attr(&mut s, "viewBox", vb.as_str());
    append(&mut s, " xmlns=\"http://www.w3.org/2000/svg\" xmlns:xlink=\"http://www.w3.org/1999/xlink\" xmlns:fg=\"urn:flamegraph:fg\">");
    s
}

fn svg_defs_string(opt: &Options) -> (r: String)
    ensures
        forall|c: Chrome| c.pretty == opt.pretty_xml && c.bg1 == opt.bgcolor1@ && c.bg2 == opt.bgcolor2@ ==> r@ == svg_defs(c),
{
    let p = opt.pretty_xml;
    let mut s = nl_string(p, 1);
    let n1 = nl_string(p, 1);
    let n2 = nl_string(p, 2);
    let n3 = nl_string(p, 3);
    append(&mut s, "<defs>");
    append(&mut s, n2.as_str());
    append(&mut s, "<linearGradient id=\"background\" y1=\"0\" y2=\"1\" x1=\"0\" x2=\"0\">");
    append(&mut s, n3.as_str());
    append(&mut s, "<stop");
    let b1 = escape_text(opt.bgcolor1.as_str());
    push_attr(&mut s, "stop-color", b1.as_str());
    append(&mut s, " offset=\"5%\"/>");
    append(&mut s, n3.as_str());
    append(&mut s, "<stop");
    let b2 = escape_text(opt.bgcolor2.as_str());
    push_attr(&mut s, "stop-color", b2.as_str());
    append(&mut s, " offset=\"95%\"/>");
    append(&mut s, n2.as_str());
    append(&mut s, "</linearGradient>");
    append(&mut s, n1.as_str());
    append(&mut s, "</defs>");
    s
}

fn style_params_string(opt: &Options) -> (r: String)
    ensures
        forall|c: Chrome|
            c.font_type == opt.font_type@ && c.font_size == opt.font_size && c.uicolor == opt.uicolor@
                && c.stroke == (match opt.stroke_color {
                Some(k) => Some(k@),
                None => None,
            }) ==> r@ == style_params(c),
{
    let mut s = String::from_str("text { font-family:");
    append(&mut s, opt.font_type.as_str());
    append(&mut s, "; font-size:");
    let fs = dec_string(opt.font_size as u128);
    append(&mut s, fs.as_str());
    append(&mut s, "px; fill:");
    append(&mut s, opt.uicolor.as_str());
    append(&mut s, "; } ");
    match &opt.stroke_color {
        Some(k) => {
            let mut t = String::from_str("rect { stroke:");
            append(&mut t, k.as_str());
            append(&mut t, "; stroke-width:1; } ");
            append(&mut s, t.as_str());
        },
        None => {
            append(&mut s, "");
        },
    }
    s
}

fn script_params_string(opt: &Options) -> (r: String)
    ensures
        forall|c: Chrome|
            c.name_type == opt.name_type@ && c.font_size == opt.font_size && c.direction == opt.direction
                && c.search_color == opt.search_color@ && c.truncate_right == (opt.text_truncate_direction
                == TextTruncateDirection::Right) ==> r@ == script_params(c),
{
    let mut s = String::from_str("var nametype = '");
    append(&mut s, opt.name_type.as_str());
    append(&mut s, "'; var fontsize = ");
    let fs = dec_string(opt.font_size as u128);
    append(&mut s, fs.as_str());
    append(&mut s, "; var xpad = 10; var inverted = ");
    if opt.direction == Direction::Inverted {
        append(&mut s, "true");
    } else {
        append(&mut s, "false");
    }
    append(&mut s, "; var searchcolor = '");
    append(&mut s, opt.search_color.as_str());
    append(&mut s, "'; var truncate_text_right = ");
    if opt.text_truncate_direction == TextTruncateDirection::Right {
        append(&mut s, "true");
    } else {
        append(&mut s, "false");
    }
    append(&mut s, ";\n");
    s
}

fn svg_style_script_string(opt: &Options) -> (r: String)
    ensures
        forall|c: Chrome|
            c == chrome_of(*opt, c.width, c.height, c.total) ==> r@ == svg_style_script(c),
{
    let p = opt.pretty_xml;
    let mut s = nl_string(p, 1);
    let n1 = nl_string(p, 1);
    append(&mut s, "<style type=\"text/css\">");
    let mut st = style_params_string(opt);
    let ghost st0 = st@;
    if !opt.no_javascript {
        append(&mut st, opt.style.as_str());
    }
    let ste = escape_text(st.as_str());
    append(&mut s, ste.as_str());
    append(&mut s, "</style>");
    append(&mut s, n1.as_str());
    append(&mut s, "<script type=\"text/ecmascript\">");
    let mut sc = script_params_string(opt);
    let ghost sc0 = sc@;
    if !opt.no_javascript {
        append(&mut sc, opt.script.as_str());
    }
    let sce = escape_text(sc.as_str());
    append(&mut s, sce.as_str());
    append(&mut s, "</script>");
    proof {
        assert forall|c: Chrome| c == chrome_of(*opt, c.width, c.height, c.total) implies s@ == svg_style_script(c) by {
            assert(st@ =~= style_params(c) + c.style);
            assert(sc@ =~= script_params(c) + c.script);
        }
    }
    s
}

fn svg_texts_string(opt: &Options, width: u32, height: u128) -> (r: String)
    requires
        height <= 0x1_0000_0000_0000_0000_0000_0000_0000,
    ensures
        forall|c: Chrome|
            c == chrome_of(*opt, width as nat, height as nat, c.total) ==> r@ == svg_texts(c),
{
    let p = opt.pretty_xml;
    let n1 = nl_string(p, 1);
    let fs = opt.font_size as u128;
    let top = dec_string(fs * 2);
    let hs = dec_string(height);
    let dy: u128 = if opt.direction == Direction::Straight {
        if height >= fs { height - fs } else { 0 }
    } else {
        fs * 3
    };
    let dys = dec_string(dy);
    let sx: u128 = if width >= 110 { width as u128 - 110 } else { 0 };
    let sxs = dec_string(sx);
    let mut s = nl_string(p, 1);
    append(&mut s, "<rect x=\"0\" y=\"0\" width=\"100%\"");
    push_attr(&mut s, "height", hs.as_str());
    append(&mut s, " fill=\"url(#background)\"/>");
    append(&mut s, n1.as_str());
    append(&mut s, "<text id=\"title\" x=\"50.0000%\"");
    push_attr(&mut s, "y", top.as_str());
    append(&mut s, ">");
    let te = escape_text(opt.title.as_str());
    append(&mut s, te.as_str());
    append(&mut s, "</text>");
    match &opt.subtitle {
        Some(t) => {
            let mut u = nl_string(p, 1);
            append(&mut u, "<text id=\"subtitle\" x=\"50.0000%\"");
            let y4 = dec_string(fs * 4);
            push_attr(&mut u, "y", y4.as_str());
            append(&mut u, ">");
            let ue = escape_text(t.as_str());
            append(&mut u, ue.as_str());
            append(&mut u, "</text>");
            append(&mut s, u.as_str());
        },
        None => {
            append(&mut s, "");
        },
    }
    append(&mut s, n1.as_str());
    append(&mut s, "<text id=\"details\" x=\"10\"");
    push_attr(&mut s, "y", dys.as_str());
    append(&mut s, "> </text>");
    append(&mut s, n1.as_str());
    append(&mut s, "<text id=\"unzoom\" class=\"hide\" x=\"10\"");
    push_attr(&mut s, "y", top.as_str());
    append(&mut s, ">Reset Zoom</text>");
    append(&mut s, n1.as_str());
    append(&mut s, "<text id=\"search\"");
    push_attr(&mut s, "x", sxs.as_str());
    push_attr(&mut s, "y", top.as_str());
    append(&mut s, ">Search</text>");
    append(&mut s, n1.as_str());
    append(&mut s, "<text id=\"matched\"");
    push_attr(&mut s, "x", sxs.as_str());
    push_attr(&mut s, "y", dys.as_str());
    append(&mut s, "> </text>");
    append(&mut s, n1.as_str());
    append(&mut s, "<text id=\"notes\" x=\"10\"");
    push_attr(&mut s, "y", hs.as_str());
    append(&mut s, ">");
    let ne = escape_text(opt.notes.as_str());
    append(&mut s, ne.as_str());
    append(&mut s, "</text>");
    s
}

fn frames_open_string(pretty: bool, width: u32, total: u64) -> (r: String)
    ensures
        forall|c: Chrome| c.pretty == pretty && c.width == width && c.total == total ==> r@ == frames_open(c),
{
    let mut s = nl_string(pretty, 1);
    append(&mut s, "<svg id=\"frames\"");
    let x = dec_string(10);
    push_attr(&mut s, "x", x.as_str());
    let w: u128 = if width >= 20 { width as u128 - 20 } else { 0 };
    let ws = dec_string(w);
    push_attr(&mut s, "width", ws.as_str());
    let ts = dec_string(total as u128);
    push_attr(&mut s, "total_samples", ts.as_str());
    append(&mut s, ">");
    s
}

/// `chrome_text(chrome_of(opt, width, height, total))` as a string.
pub fn chrome_string(opt: &Options, width: u32, height: u128, total: u64) -> (r: String)
    requires
        height <= 0x1_0000_0000_0000_0000_0000_0000_0000,
    ensures
        r@ == chrome_text(chrome_of(*opt, width as nat, height as nat, total as nat)),
{
    let ghost c = chrome_of(*opt, width as nat, height as nat, total as nat);
    let mut s = svg_open_string(width, height, opt.pretty_xml);
    let d = svg_defs_string(opt);
    append(&mut s, d.as_str());
    let st = svg_style_script_string(opt);
    append(&mut s, st.as_str());
    let t = svg_texts_string(opt, width, height);
    append(&mut s, t.as_str());
    let f = frames_open_string(opt.pretty_xml, width, total);
    append(&mut s, f.as_str());
    s
}

/// `closing_text(pretty)` as a string.
pub fn closing_string(pretty: bool) -> (r: String)
    ensures
        r@ == closing_text(pretty),
{
    let mut s = nl_string(pretty, 1);
    append(&mut s, "</svg>");
    let n0 = nl_string(pretty, 0);
    append(&mut s, n0.as_str());
    append(&mut s, "</svg>");
    append(&mut s, n0.as_str());
    s
}

/// The document drawn when no line parsed: the chrome without frames and an error message.
pub open spec fn error_document(opt: Options) -> Seq<char> {
    let w = match opt.image_width {
        Some(w) => w as nat,
        None => crate::options::DEFAULT_IMAGE_WIDTH as nat,
    };
    let c = chrome_of(opt, w, (opt.font_size * 5) as nat, 0);
    svg_open(c) + svg_defs(c) + svg_style_script(c) + nl(c.pretty, 1) + "<text x=\"50.0000%\""@
        + attr("y"@, decimal(c.font_size * 2)) + ">ERROR: No valid input provided to flamegraph</text>"@
        + nl(c.pretty, 0) + "</svg>"@ + nl(c.pretty, 0)
}

/// The document drawn when no line parsed.
pub fn error_svg(opt: &Options) -> (r: String)
    ensures
        r@ == error_document(*opt),
{
    let width = opt.width();
    let height = (opt.font_size as u128) * 5;
    let mut s = svg_open_string(width, height, opt.pretty_xml);
    let d = svg_defs_string(opt);
    append(&mut s, d.as_str());
    let st = svg_style_script_string(opt);
    append(&mut s, st.as_str());
    let n1 = nl_string(opt.pretty_xml, 1);
    append(&mut s, n1.as_str());
    append(&mut s, "<text x=\"50.0000%\"");
    let y = dec_string((opt.font_size as u128) * 2);
    push_attr(&mut s, "y", y.as_str());
    append(&mut s, ">ERROR: No valid input provided to flamegraph</text>");
    let n0 = nl_string(opt.pretty_xml, 0);
    append(&mut s, n0.as_str());
    append(&mut s, "</svg>");
    append(&mut s, n0.as_str());
    proof {
        let c = chrome_of(*opt, width as nat, height as nat, 0);
        assert(st@ == svg_style_script(c));
    }
    s
}

} // verus!
