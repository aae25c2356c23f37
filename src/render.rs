//! The rendering pass: input lines to a laid-out graph, and a graph to SVG text.
use vstd::prelude::*;
use crate::color::{abs, counts_ok, bounds_deltas, fill_of, frame_fill, DeltaMax, Rgb};
use crate::counts::{SampleCount, MAX_SAMPLES};
use crate::layout::{delta_maxima, height_of, image_height, is_depth_max, is_pruned, prune};
use crate::merge::{any_fractional, counts_within, frame_views, frames_sized, merged, nested, merge_frames, siblings_ordered, single_root, sum_counts, valid_lines, TimedFrame};
use crate::format::append;
use crate::options::{ypad_bottom, ypad_top, Options};
use crate::svg::{chrome_of, chrome_string, chrome_text, closing_string, closing_text, frame_element, geometry, page_ok, write_frame, Page};
use crate::tooltip::{tooltip, tooltip_of};
use crate::order::{line_le, base_cut, cut_at_base, lex_le, reverse_all, reverse_lines, reversed_line, sort_lines};
use crate::parse::{kept, tidy_line};
use crate::text::{chars_of, trim, views};

verus! {

/// A non-fatal condition reported once per render.
#[derive(Debug, Clone, Copy, PartialEq, Eq, Structural)]
pub enum Warning {
    /// Some count had a non-zero fractional part, which was cut off.
    FractionalSamples,
    /// This many lines did not parse and were left out.
    IgnoredLines(usize),
    /// `no_sort` has no effect when stacks are reversed.
    NoSortIgnored,
}

/// Why a render failed.
#[derive(Debug, Clone, Copy, PartialEq, Eq, Structural)]
pub enum RenderError {
    /// No line parsed.
    InvalidData,
    /// The totals exceed `MAX_SAMPLES`.
    TooManySamples,
    /// Under `no_sort`, a line sorts before the line given just before it.
    UnsortedInput,
}

/// The options take the lines in the order given, and ask that order to be sorted.
pub open spec fn order_trusted(opt: Options) -> bool {
    opt.no_sort && !opt.reverse_stack_order && !opt.flame_chart
}

/// Each line sorts no earlier than the one before it.
pub open spec fn in_order(ls: Seq<Seq<char>>) -> bool {
    forall|i: int| 0 <= i < ls.len() - 1 ==> lex_le(#[trigger] ls[i], ls[i + 1])
}

/// The lines kept by tidying, trimmed.
pub open spec fn tidy_all(ls: Seq<Seq<char>>) -> Seq<Seq<char>>
    decreases ls.len(),
{
    if ls.len() == 0 {
        Seq::empty()
    } else {
        let r = tidy_all(ls.drop_last());
        let t = trim(ls.last());
        if kept(t) {
            r.push(t)
        } else {
            r
        }
    }
}

/// The lines that `base_cut` keeps, cut.
pub open spec fn cut_all(ls: Seq<Seq<char>>, diff: bool, base: Seq<Seq<char>>) -> Seq<Seq<char>>
    decreases ls.len(),
{
    if ls.len() == 0 {
        Seq::empty()
    } else {
        let r = cut_all(ls.drop_last(), diff, base);
        match base_cut(ls.last(), diff, base) {
            Some(t) => r.push(t),
            None => r,
        }
    }
}

/// `out` holds the lines of `input`, sorted.
pub open spec fn sorted_perm(out: Seq<Seq<char>>, input: Seq<Seq<char>>) -> bool {
    &&& out.to_multiset() == input.to_multiset()
    &&& forall|i: int, j: int| 0 <= i < j < out.len() ==> lex_le(#[trigger] out[i], #[trigger] out[j])
}

pub open spec fn base_views(opt: Options) -> Seq<Seq<char>> {
    opt.base@.map_values(|s: String| s@)
}

/// The order in which the tidy lines `t` are merged under `opt`. A flame
/// chart keeps the input's time order (reversed), whatever the other options
/// say; stack reversal and base symbols sort; `no_sort` takes the lines as given.
pub open spec fn arranged(out: Seq<Seq<char>>, t: Seq<Seq<char>>, opt: Options, diff: bool) -> bool {
    if opt.flame_chart {
        out == t.reverse()
    } else if opt.reverse_stack_order {
        sorted_perm(out, t.map_values(|l: Seq<char>| reversed_line(l)))
    } else if opt.no_sort {
        out == t
    } else if opt.base@.len() == 0 {
        sorted_perm(out, t)
    } else {
        sorted_perm(out, cut_all(t, diff, base_views(opt)))
    }
}

/// The tidy lines of `lines`.
pub fn tidy_lines(lines: &Vec<String>) -> (r: Vec<Vec<char>>)
    ensures
        views(r@) == tidy_all(lines@.map_values(|s: String| s@)),
{
    let ghost ls = lines@.map_values(|s: String| s@);
    let mut r: Vec<Vec<char>> = Vec::new();
    let mut i: usize = 0;
    while i < lines.len()
        invariant
            ls == lines@.map_values(|s: String| s@),
            i <= lines@.len(),
            views(r@) == tidy_all(ls.subrange(0, i as int)),
        decreases lines@.len() - i,
    {
        let cs = chars_of(lines[i].as_str());
        let ghost pre = ls.subrange(0, i as int);
        let ghost next = ls.subrange(0, i + 1);
        assert(next.drop_last() =~= pre);
        assert(next.last() == cs@);
        match tidy_line(&cs) {
            Some(t) => {
                let ghost old_r = views(r@);
                r.push(t);
                assert(views(r@) =~= old_r.push(trim(cs@)));
            },
            None => {},
        }
        i = i + 1;
    }
    assert(ls.subrange(0, lines@.len() as int) =~= ls);
    r
}

/// Puts the tidy lines in merge order (see `arranged`).
pub fn arrange(t: Vec<Vec<char>>, opt: &Options, diff: bool) -> (r: Vec<Vec<char>>)
    ensures
        arranged(views(r@), views(t@), *opt, diff),
{
    if opt.flame_chart {
        reverse_lines(&t)
    } else if opt.reverse_stack_order {
        let mut out = reverse_all(&t);
        sort_lines(&mut out);
        out
    } else if opt.no_sort {
        t
    } else if opt.base.len() == 0 {
        let mut out = t;
        sort_lines(&mut out);
        out
    } else {
        let mut base: Vec<Vec<char>> = Vec::new();
        let mut k: usize = 0;
        while k < opt.base.len()
            invariant
                k <= opt.base@.len(),
                views(base@) == base_views(*opt).subrange(0, k as int),
            decreases opt.base@.len() - k,
        {
            let ghost old_base = views(base@);
            let b = chars_of(opt.base[k].as_str());
            assert(base_views(*opt)[k as int] == opt.base@[k as int]@);
            base.push(b);
            assert(views(base@) =~= old_base.push(b@));
            assert(views(base@) =~= base_views(*opt).subrange(0, k + 1));
            k = k + 1;
        }
        assert(base_views(*opt).subrange(0, opt.base@.len() as int) =~= base_views(*opt));
        let ghost bs = views(base@);
        let mut out: Vec<Vec<char>> = Vec::new();
        let mut i: usize = 0;
        while i < t.len()
            invariant
                i <= t@.len(),
                bs == views(base@),
                views(out@) == cut_all(views(t@).subrange(0, i as int), diff, bs),
            decreases t@.len() - i,
        {
            let ghost pre = views(t@).subrange(0, i as int);
            let ghost next = views(t@).subrange(0, i + 1);
            assert(next.drop_last() =~= pre);
            match cut_at_base(&t[i], diff, &base) {
                Some(c) => {
                    let ghost old_out = views(out@);
                    out.push(c);
                    assert(views(out@) =~= old_out.push(c@));
                },
                None => {},
            }
            i = i + 1;
        }
        assert(views(t@).subrange(0, t@.len() as int) =~= views(t@));
        sort_lines(&mut out);
        out
    }
}

/// A graph ready to be drawn: all merged frames, the indices of those wide
/// enough to draw, and the page they are drawn on.
pub struct Graph {
    pub frames: Vec<TimedFrame>,
    pub kept: Vec<usize>,
    pub total: SampleCount,
    pub depth_max: usize,
    pub image_height: u128,
    pub delta_max: DeltaMax,
    pub diff: bool,
}

/// The outcome of the aggregation pass.
pub struct Plan {
    /// The tidy lines in the order they were merged.
    pub lines: Vec<Vec<char>>,
    pub warnings: Vec<Warning>,
    pub graph: Result<Graph, RenderError>,
}

/// The graph is consistent with its options and its own frames.
pub open spec fn graph_ok(g: Graph, opt: Options) -> bool {
    &&& g.total.before <= MAX_SAMPLES && g.total.after <= MAX_SAMPLES && g.total.visual <= MAX_SAMPLES
    &&& frames_sized(g.frames@, g.total.visual as nat)
    &&& siblings_ordered(g.frames@)
    &&& single_root(g.frames@, g.total.visual as nat)
    &&& counts_within(g.frames@, g.total)
    &&& nested(g.frames@)
    &&& is_pruned(g.kept@, g.frames@, g.total.visual as nat, opt.min_width_ppm as nat)
    &&& is_depth_max(g.depth_max, g.kept@, g.frames@)
    &&& g.image_height == height_of(g.depth_max as nat, opt.frame_height as nat, opt.font_size as nat, opt.subtitle is Some, opt.direction)
    &&& bounds_deltas(g.delta_max, g.frames@, g.total)
    &&& g.delta_max.self_delta <= MAX_SAMPLES && g.delta_max.total_delta <= MAX_SAMPLES
    &&& g.delta_max.self_share <= crate::color::max1(g.total.after as int) * crate::color::max1(g.total.before as int)
    &&& g.delta_max.total_share <= crate::color::max1(g.total.after as int) * crate::color::max1(g.total.before as int)
}

/// The warnings of a render of the merged lines `ls`, in the order given:
/// the ignored `no_sort` option, a cut fractional count, lines left out.
/// Only the first is given when the input is refused as unsorted or the
/// totals are too large.
pub open spec fn expected_warnings(opt: Options, ls: Seq<Seq<char>>, diff: bool) -> Seq<Warning> {
    let ns = if opt.reverse_stack_order && opt.no_sort { seq![Warning::NoSortIgnored] } else { Seq::empty() };
    if (order_trusted(opt) && !in_order(ls)) || crate::merge::too_many(sum_counts(ls, diff, opt.frame_width_source)) {
        ns
    } else {
        let fr = if any_fractional(ls, diff) { seq![Warning::FractionalSamples] } else { Seq::empty() };
        let n = ls.len() - valid_lines(ls, diff);
        let ig = if n > 0 { seq![Warning::IgnoredLines(n as usize)] } else { Seq::empty() };
        ns + fr + ig
    }
}

/// Prunes the merged frames and sizes the image.
fn finish_graph(opt: &Options, frames: Vec<TimedFrame>, total: SampleCount, diff: bool) -> (g: Graph)
    requires
        total.before <= MAX_SAMPLES && total.after <= MAX_SAMPLES && total.visual <= MAX_SAMPLES,
        frames_sized(frames@, total.visual as nat),
        siblings_ordered(frames@),
        single_root(frames@, total.visual as nat),
        counts_within(frames@, total),
        nested(frames@),
    ensures
        graph_ok(g, *opt),
        g.frames == frames,
        g.total == total,
        g.diff == diff,
{
    assert forall|i: int| 0 <= i < frames@.len() implies counts_ok(#[trigger] frames@[i].self_count, total)
        && counts_ok(frames@[i].total_count, total) by {
        assert(frames@[i].total_count.before <= total.before);
    }
    let delta_max = delta_maxima(&frames, &total);
    assert forall|i: int| 0 <= i < frames@.len() implies #[trigger] frames@[i].start_time <= frames@[i].end_time
        <= total.visual by {
        assert(frames@[i].start_time <= frames@[i].end_time);
    }
    let (kept, depth_max) = prune(&frames, total.visual, opt.min_width_ppm);
    let h = image_height(opt, depth_max);
    Graph { frames, kept, total, depth_max, image_height: h, delta_max, diff }
}

/// Whether the lines are in order (see `in_order`).
pub fn lines_in_order(v: &Vec<Vec<char>>) -> (r: bool)
    ensures
        r == in_order(views(v@)),
{
    let ghost ls = views(v@);
    let mut i: usize = 1;
    while i < v.len()
        invariant
            ls == views(v@),
            1 <= i,
            forall|j: int| 0 <= j < i - 1 && j < ls.len() - 1 ==> lex_le(#[trigger] ls[j], ls[j + 1]),
        decreases v@.len() - i,
    {
        if !line_le(&v[i - 1], &v[i]) {
            assert(!lex_le(ls[i - 1], ls[(i - 1) + 1]));
            return false;
        }
        i = i + 1;
    }
    true
}

/// Aggregates folded-stack `lines` (two counts per line when `diff`) into a
/// graph: tidies them, puts them in merge order, merges them, computes the
/// delta maxima over all frames, prunes frames narrower than
/// `opt.min_width_ppm`, and sizes the image.
///
/// Under `no_sort` (without stack reversal or a flame chart) the lines are
/// merged in the order given, and that order must be sorted: input with a
/// line that sorts before the one just before it is refused with
/// `UnsortedInput`.
///
/// Totals are held exactly, so that every percentage and coordinate is
/// computed without rounding in 128-bit arithmetic; a graph whose total in
/// either dataset or in the width metric exceeds `MAX_SAMPLES` (2^52
/// samples) is refused with `TooManySamples`.
pub fn plan(opt: &Options, lines: &Vec<String>, diff: bool) -> (r: Plan)
    ensures
        arranged(views(r.lines@), tidy_all(lines@.map_values(|s: String| s@)), *opt, diff),
        ({
            let ls = views(r.lines@);
            let t = sum_counts(ls, diff, opt.frame_width_source);
            match r.graph {
                Err(RenderError::UnsortedInput) => order_trusted(*opt) && !in_order(ls),
                Err(RenderError::TooManySamples) => (order_trusted(*opt) ==> in_order(ls)) && crate::merge::too_many(t),
                Err(RenderError::InvalidData) => (order_trusted(*opt) ==> in_order(ls)) && !crate::merge::too_many(t)
                    && valid_lines(ls, diff) == 0,
                Ok(g) => {
                    &&& order_trusted(*opt) ==> in_order(ls)
                    &&& !crate::merge::too_many(t) && valid_lines(ls, diff) > 0
                    &&& g.total.before == t.0 && g.total.after == t.1 && g.total.visual == t.2
                    &&& g.diff == diff
                    &&& graph_ok(g, *opt)
                    &&& g.frames@.len() > 0
                    &&& frame_views(g.frames@) == merged(ls, diff, opt.flame_chart, opt.frame_width_source)
                },
            }
        }),
        r.warnings@ == expected_warnings(*opt, views(r.lines@), diff),
        (opt.reverse_stack_order && opt.no_sort) <==> r.warnings@.contains(Warning::NoSortIgnored),
{
    let mut warnings: Vec<Warning> = Vec::new();
    if opt.reverse_stack_order && opt.no_sort {
        warnings.push(Warning::NoSortIgnored);
    }
    let tidy = tidy_lines(lines);
    let arranged_lines = arrange(tidy, opt, diff);
    if opt.no_sort && !opt.reverse_stack_order && !opt.flame_chart && !lines_in_order(&arranged_lines) {
        proof {
            assert(warnings@.len() == 0);
            assert(warnings@ =~= expected_warnings(*opt, views(arranged_lines@), diff));
        }
        return Plan { lines: arranged_lines, warnings, graph: Err(RenderError::UnsortedInput) };
    }
    let merged = merge_frames(&arranged_lines, diff, opt.flame_chart, opt.frame_width_source);
    let m = match merged {
        Err(_) => {
            proof {
                if opt.reverse_stack_order && opt.no_sort {
                    assert(warnings@[0] == Warning::NoSortIgnored);
                } else {
                    assert(warnings@.len() == 0);
                }
                assert(warnings@ =~= expected_warnings(*opt, views(arranged_lines@), diff));
            }
            return Plan { lines: arranged_lines, warnings, graph: Err(RenderError::TooManySamples) };
        },
        Ok(m) => m,
    };
    let ghost w0 = warnings@;
    if m.fractional {
        warnings.push(Warning::FractionalSamples);
    }
    if m.ignored > 0 {
        warnings.push(Warning::IgnoredLines(m.ignored));
    }
    proof {
        let ls = views(arranged_lines@);
        let ns = if opt.reverse_stack_order && opt.no_sort { seq![Warning::NoSortIgnored] } else { Seq::<Warning>::empty() };
        let fr = if any_fractional(ls, diff) { seq![Warning::FractionalSamples] } else { Seq::<Warning>::empty() };
        let n = ls.len() - valid_lines(ls, diff);
        let ig = if n > 0 { seq![Warning::IgnoredLines(n as usize)] } else { Seq::<Warning>::empty() };
        assert(w0 =~= ns);
        assert(warnings@ =~= ns + fr + ig);
        if opt.reverse_stack_order && opt.no_sort {
            assert(w0[0] == Warning::NoSortIgnored);
            assert(warnings@[0] == Warning::NoSortIgnored);
        } else {
            assert(w0.len() == 0);
            assert forall|k: int| 0 <= k < warnings@.len() implies warnings@[k] != Warning::NoSortIgnored by {}
        }
    }
    let total = match m.total {
        None => {
            return Plan { lines: arranged_lines, warnings, graph: Err(RenderError::InvalidData) };
        },
        Some(t) => t,
    };
    let graph = finish_graph(opt, m.frames, total, diff);
    Plan { lines: arranged_lines, warnings, graph: Ok(graph) }
}

/// The page on which the frames of `g` are drawn.
pub open spec fn page_of(opt: Options, g: Graph) -> Page {
    Page {
        image_width: match opt.image_width {
            Some(w) => w,
            None => crate::options::DEFAULT_IMAGE_WIDTH,
        },
        image_height: g.image_height,
        frame_height: opt.frame_height,
        font_size: opt.font_size,
        font_width_milli: opt.font_width_milli,
        pad1: ypad_top(opt.font_size as nat, opt.subtitle is Some, opt.direction) as u64,
        pad2: ypad_bottom(opt.font_size as nat, opt.direction) as u64,
        direction: opt.direction,
        truncate: opt.text_truncate_direction,
        pretty: opt.pretty_xml,
        total: g.total.visual,
    }
}

/// The element of the `j`-th drawn frame, `pick` being the palette's colour for it.
pub open spec fn element(opt: Options, g: Graph, pick: Rgb, j: int) -> Seq<char> {
    let f = g.frames@[g.kept@[j] as int];
    frame_element(
        geometry(f, page_of(opt, g)),
        tooltip_of(f, g.total, g.diff, opt.count_name@, opt.frame_width_source, opt.detailed_tooltips, opt.include_children, opt.normalize, opt.negate_differentials),
        fill_of(f, g.total, g.delta_max, g.diff, opt.color_diffusion, opt.include_children, opt.normalize, opt.negate_differentials, pick),
        opt.pretty_xml,
    )
}

/// `start` followed by the elements of the first `n` drawn frames.
pub open spec fn with_elements(start: Seq<char>, opt: Options, g: Graph, picks: Seq<Rgb>, n: int) -> Seq<char>
    decreases n,
{
    if n <= 0 {
        start
    } else {
        with_elements(start, opt, g, picks, n - 1) + element(opt, g, picks[n - 1], n - 1)
    }
}

/// The whole document: the chrome, one element per drawn frame, the closing tags.
pub open spec fn document(opt: Options, g: Graph, picks: Seq<Rgb>) -> Seq<char> {
    let p = page_of(opt, g);
    let c = chrome_of(opt, p.image_width as nat, g.image_height as nat, g.total.visual as nat);
    with_elements(chrome_text(c), opt, g, picks, g.kept@.len() as int) + closing_text(opt.pretty_xml)
}

/// Whether the colour of `f` comes from the palette: no other colour rule applies.
pub open spec fn palette_decides(opt: Options, diff: bool, f: TimedFrame) -> bool {
    !(f.function@ == seq!['-', '-'] || f.function@ == seq!['-']) && !opt.color_diffusion && !diff
}

/// Whether the palette has to pick the colour of drawn frame `j` of `g`.
pub fn needs_palette(opt: &Options, g: &Graph, j: usize) -> (r: bool)
    requires
        j < g.kept@.len(),
        forall|k: int| 0 <= k < g.kept@.len() ==> #[trigger] g.kept@[k] < g.frames@.len(),
    ensures
        r == palette_decides(*opt, g.diff, g.frames@[g.kept@[j as int] as int]),
{
    let f = &g.frames[g.kept[j]];
    let cs = chars_of(f.function.as_str());
    let dashes = (cs.len() == 2 && cs[0] == '-' && cs[1] == '-') || (cs.len() == 1 && cs[0] == '-');
    proof {
        if cs@.len() == 2 && cs@[0] == '-' && cs@[1] == '-' {
            assert(f.function@ =~= seq!['-', '-']);
        }
        if cs@.len() == 1 && cs@[0] == '-' {
            assert(f.function@ =~= seq!['-']);
        }
    }
    !dashes && !opt.color_diffusion && !g.diff
}

/// Appends the element of the `j`-th drawn frame of `g`.
#[verifier::rlimit(50)]
fn draw_frame(out: &mut String, opt: &Options, g: &Graph, pick: Rgb, j: usize, page: &Page)
    requires
        graph_ok(*g, *opt),
        opt.frame_height >= 1,
        *page == page_of(*opt, *g),
        page_ok(*page, g.depth_max as nat),
        j < g.kept@.len(),
    ensures
        final(out)@ == old(out)@ + element(*opt, *g, pick, j as int),
{
    let i = g.kept[j];
    assert(i < g.frames@.len());
    let f = &g.frames[i];
    assert(f.depth <= g.depth_max);
    assert(f.start_time <= f.end_time <= g.total.visual);
    assert(f.total_count.before <= g.total.before);
    let title = tooltip(
        f,
        &g.total,
        g.diff,
        &opt.count_name,
        opt.frame_width_source,
        opt.detailed_tooltips,
        opt.include_children,
        opt.normalize,
        opt.negate_differentials,
    );
    assert(abs(f.self_count.after - f.self_count.before) <= g.delta_max.self_delta);
    let fill = frame_fill(
        f,
        &g.total,
        &g.delta_max,
        g.diff,
        opt.color_diffusion,
        opt.include_children,
        opt.normalize,
        opt.negate_differentials,
        pick,
    );
    write_frame(out, f, &title, fill, page, g.depth_max);
}

/// Writes the SVG document of `g`; `picks[j]` is the palette's colour for
/// the `j`-th drawn frame, used only where `palette_decides`.
#[verifier::rlimit(100)]
pub fn render_svg(opt: &Options, g: &Graph, picks: &Vec<Rgb>) -> (r: String)
    requires
        graph_ok(*g, *opt),
        opt.frame_height >= 1,
        picks@.len() == g.kept@.len(),
    ensures
        r@ == document(*opt, *g, picks@),
{
    let width = opt.width();
    let pad1 = opt.ypad1();
    let pad2 = opt.ypad2();
    let page = Page {
        image_width: width,
        image_height: g.image_height,
        frame_height: opt.frame_height,
        font_size: opt.font_size,
        font_width_milli: opt.font_width_milli,
        pad1,
        pad2,
        direction: opt.direction,
        truncate: opt.text_truncate_direction,
        pretty: opt.pretty_xml,
        total: g.total.visual,
    };
    assert(page == page_of(*opt, *g));
    proof {
        assert(g.image_height <= 0x1_0000_0000_0000_0000_0000_0000_0000) by (nonlinear_arith)
            requires
                g.image_height == (g.depth_max + 1) * opt.frame_height + pad1 + pad2,
                g.depth_max + 1 <= 0x1_0000_0000_0000_0000,
                opt.frame_height <= 0x1_0000_0000,
                pad1 <= 0x10_0000_0000_0000,
                pad2 <= 0x10_0000_0000_0000,
        ;
    }
    let mut out = chrome_string(opt, width, g.image_height, g.total.visual);
    let ghost start = out@;
    let mut j: usize = 0;
    while j < g.kept.len()
        invariant
            graph_ok(*g, *opt),
            opt.frame_height >= 1,
            picks@.len() == g.kept@.len(),
            page == page_of(*opt, *g),
            page_ok(page, g.depth_max as nat),
            j <= g.kept@.len(),
            out@ == with_elements(start, *opt, *g, picks@, j as int),
        decreases g.kept@.len() - j,
    {
        draw_frame(&mut out, opt, g, picks[j], j, &page);
        j = j + 1;
    }
    let close = closing_string(opt.pretty_xml);
    append(&mut out, close.as_str());
    out
}

} // verus!
