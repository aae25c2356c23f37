use flamegraph_svg::color::Rgb;
use flamegraph_svg::format::{decimal_text, escape_text, fixed_text, grouped_text};
use flamegraph_svg::merge::merge_frames;
use flamegraph_svg::order::{cut_at_base, reverse_stack_line};
use flamegraph_svg::parse::parse_line_counts;
use flamegraph_svg::render::tidy_lines;
use flamegraph_svg::svg::error_svg;
use flamegraph_svg::tooltip::deannotate;
use flamegraph_svg::{
    is_diff_case, plan, render_svg, Direction, FrameWidthSource, Options, RenderError, Warning,
};

fn chars(s: &str) -> Vec<char> {
    s.chars().collect()
}

fn lines(s: &str) -> Vec<String> {
    s.lines().map(|l| l.to_string()).collect()
}

/// Renders `input` with palette colour grey for every frame the palette decides.
fn render(opt: &Options, input: &str) -> Result<String, RenderError> {
    let diff = is_diff_case(input);
    let p = plan(opt, &lines(input), diff);
    match p.graph {
        Ok(g) => {
            let picks = vec![Rgb { r: 1, g: 2, b: 3 }; g.kept.len()];
            Ok(render_svg(opt, &g, &picks))
        }
        Err(e) => Err(e),
    }
}

#[test]
fn top_ypadding_adjusts_for_subtitle() {
    let height_without_subtitle = Options::default().ypad1();
    let mut with = Options::default();
    with.subtitle = Some(String::from("hello!"));
    let height_with_subtitle = with.ypad1();
    assert!(height_with_subtitle > height_without_subtitle);
}

#[test]
fn ypadding_adjust_for_inverted_mode() {
    let regular = Options::default();
    let mut inverted = Options::default();
    inverted.direction = Direction::Inverted;
    assert!(inverted.ypad1() > regular.ypad1());
    assert!(inverted.ypad2() < regular.ypad2());
}

#[test]
fn padding_values() {
    let mut o = Options::default();
    assert_eq!(o.ypad1(), 36);
    assert_eq!(o.ypad2(), 34);
    o.direction = Direction::Inverted;
    o.subtitle = Some("s".to_string());
    assert_eq!(o.ypad1(), 12 * 4 + 24 + 4);
    assert_eq!(o.ypad2(), 22);
}

#[test]
fn width_sources() {
    assert_eq!(FrameWidthSource::Before.apply(3, 7), 3);
    assert_eq!(FrameWidthSource::After.apply(3, 7), 7);
    assert_eq!(FrameWidthSource::Difference.apply(3, 7), 4);
    assert_eq!(FrameWidthSource::Difference.apply(9, 2), 7);
    assert_eq!(FrameWidthSource::Common.apply(3, 7), 3);
    assert_eq!(FrameWidthSource::AllSamples.apply(3, 7), 10);
    assert_eq!(FrameWidthSource::Max.apply(3, 7), 7);
    assert_eq!(FrameWidthSource::default(), FrameWidthSource::After);
}

#[test]
fn parse_single_and_diff() {
    let l = parse_line_counts(&chars("a;b;c 10"), false).unwrap();
    assert_eq!((l.frames_end, l.before, l.after, l.fractional), (5, 10, 10, false));
    let l = parse_line_counts(&chars("f  10 20"), true).unwrap();
    assert_eq!((l.frames_end, l.before, l.after), (1, 10, 20));
    assert!(parse_line_counts(&chars("f 10"), true).is_none());
    assert!(parse_line_counts(&chars("f x"), false).is_none());
    assert!(parse_line_counts(&chars("10"), false).is_none());
    assert!(parse_line_counts(&chars("f 1."), false).is_none());
    let l = parse_line_counts(&chars("[u8; 8] 3"), false).unwrap();
    assert_eq!(l.frames_end, 7);
}

#[test]
fn parse_fractions() {
    let l = parse_line_counts(&chars("x 1.5"), false).unwrap();
    assert_eq!((l.after, l.fractional), (1, true));
    let l = parse_line_counts(&chars("x 2.000"), false).unwrap();
    assert_eq!((l.after, l.fractional), (2, false));
}

#[test]
fn parse_overflowing_count() {
    assert!(parse_line_counts(&chars("x 18446744073709551616"), false).is_none());
    let l = parse_line_counts(&chars("x 18446744073709551615"), false).unwrap();
    assert_eq!(l.after, u64::MAX);
}

#[test]
fn diff_detection() {
    assert!(is_diff_case("# c\n\na;b 1 2\nc 3\n"));
    assert!(!is_diff_case("a;b 1\nc 3 4\n"));
    assert!(!is_diff_case("junk\n"));
    assert!(!is_diff_case(""));
}

#[test]
fn deannotation() {
    assert_eq!(deannotate(&chars("foo_[k]")), chars("foo"));
    assert_eq!(deannotate(&chars("foo_[j]")), chars("foo"));
    assert_eq!(deannotate(&chars("foo_[x]")), chars("foo_[x]"));
    assert_eq!(deannotate(&chars("_[i]")), chars(""));
}

#[test]
fn tidying() {
    let t = tidy_lines(&lines("  a 1  \n\n# comment\n#x 2\n"));
    assert_eq!(t, vec![chars("a 1"), chars("#x 2")]);
}

#[test]
fn reversing_a_stack() {
    assert_eq!(reverse_stack_line(&chars("a;b;c 10")), chars("c;b;a 10"));
    assert_eq!(reverse_stack_line(&chars("a;b 1 2")), chars("b;a 1 2"));
    assert_eq!(reverse_stack_line(&chars("a;b 1.5")), chars("b;a 1.5"));
}

#[test]
fn cutting_at_base() {
    let base = vec![chars("Final")];
    assert_eq!(
        cut_at_base(&chars("a;Final;b;Final;c 3"), false, &base),
        Some(chars("Final;c 3"))
    );
    assert_eq!(cut_at_base(&chars("Final;c 3"), false, &base), Some(chars("Final;c 3")));
    assert_eq!(cut_at_base(&chars("a;c 3"), false, &base), None);
}

#[test]
fn single_stack_frames() {
    let m = merge_frames(&vec![chars("a;b;c 10")], false, false, FrameWidthSource::After).unwrap();
    let got: Vec<(String, usize, u64, u64)> = m
        .frames
        .iter()
        .map(|f| (f.function.clone(), f.depth, f.start_time, f.end_time))
        .collect();
    assert_eq!(
        got,
        vec![
            ("c".to_string(), 3, 0, 10),
            ("b".to_string(), 2, 0, 10),
            ("a".to_string(), 1, 0, 10),
            ("".to_string(), 0, 0, 10)
        ]
    );
    assert_eq!(m.total.unwrap().visual, 10);
}

#[test]
fn two_stacks_frames() {
    let m = merge_frames(&vec![chars("a;b 3"), chars("a;c 7")], false, false, FrameWidthSource::After)
        .unwrap();
    let got: Vec<(String, usize, u64, u64)> = m
        .frames
        .iter()
        .map(|f| (f.function.clone(), f.depth, f.start_time, f.end_time))
        .collect();
    assert_eq!(
        got,
        vec![
            ("b".to_string(), 2, 0, 3),
            ("c".to_string(), 2, 3, 10),
            ("a".to_string(), 1, 0, 10),
            ("".to_string(), 0, 0, 10)
        ]
    );
    let svg = render(&Options::default(), "a;b 3\na;c 7\n").unwrap();
    assert!(svg.contains("x=\"0.0000%\" y=\"37\" width=\"30.0000%\""));
    assert!(svg.contains("x=\"30.0000%\" y=\"37\" width=\"70.0000%\""));
    assert!(svg.contains("<title>all (10 samples, 100%)</title>"));
    assert!(svg.contains("<title>b (3 samples, 30.00%)</title>"));
}

#[test]
fn flame_chart_keeps_leaves_apart() {
    let m = merge_frames(&vec![chars("a;b 1"), chars("a;b 1")], false, true, FrameWidthSource::After)
        .unwrap();
    let leaves = m.frames.iter().filter(|f| f.depth == 2).count();
    assert_eq!(leaves, 2);
    let m = merge_frames(&vec![chars("a;b 1"), chars("a;b 1")], false, false, FrameWidthSource::After)
        .unwrap();
    let leaves = m.frames.iter().filter(|f| f.depth == 2).count();
    assert_eq!(leaves, 1);
}

#[test]
fn depth_zero_width_is_total() {
    let m = merge_frames(
        &vec![chars("a 1"), chars("a;b 2"), chars("c;d;e 4"), chars("junk")],
        false,
        false,
        FrameWidthSource::After,
    )
    .unwrap();
    let root: u64 = m.frames.iter().filter(|f| f.depth == 0).map(|f| f.end_time - f.start_time).sum();
    assert_eq!(root, 7);
    assert_eq!(m.ignored, 1);
    for d in 1..4 {
        let mut same: Vec<_> = m.frames.iter().filter(|f| f.depth == d).collect();
        same.sort_by_key(|f| f.start_time);
        for w in same.windows(2) {
            assert!(w[0].end_time <= w[1].start_time);
        }
    }
}

#[test]
fn fractional_input() {
    let opt = Options::default();
    let p = plan(&opt, &lines("x 1.5\n"), false);
    let g = p.graph.as_ref().ok().unwrap();
    assert_eq!(g.total.visual, 1);
    assert_eq!(g.frames.len(), 2);
    let n = p.warnings.iter().filter(|w| **w == Warning::FractionalSamples).count();
    assert_eq!(n, 1);
}

#[test]
fn fractional_warning_once() {
    let opt = Options::default();
    let p = plan(&opt, &lines("x 1.5\ny 2.5\nz 3.0\n"), false);
    let n = p.warnings.iter().filter(|w| **w == Warning::FractionalSamples).count();
    assert_eq!(n, 1);
    let p = plan(&opt, &lines("x 1.0\ny 2.00\n"), false);
    assert!(!p.warnings.contains(&Warning::FractionalSamples));
}

#[test]
fn ignored_lines_warning() {
    let opt = Options::default();
    let p = plan(&opt, &lines("x 1\nbad\nalso bad\n"), false);
    assert_eq!(p.warnings, vec![Warning::IgnoredLines(2)]);
}

#[test]
fn no_sort_warning() {
    let mut opt = Options::default();
    opt.no_sort = true;
    opt.reverse_stack_order = true;
    let p = plan(&opt, &lines("a;b 1\n"), false);
    assert!(p.warnings.contains(&Warning::NoSortIgnored));
}

#[test]
fn empty_input() {
    let opt = Options::default();
    let p = plan(&opt, &lines(""), false);
    assert_eq!(p.graph.err(), Some(RenderError::InvalidData));
    let svg = error_svg(&opt);
    assert!(svg.contains("ERROR: No valid input provided to flamegraph"));
    assert!(svg.contains("height=\"60\""));
}

#[test]
fn too_many_samples() {
    let opt = Options::default();
    let p = plan(&opt, &lines("a 4503599627370496\nb 1\n"), false);
    assert_eq!(p.graph.err(), Some(RenderError::TooManySamples));
    let p = plan(&opt, &lines("a 4503599627370496\n"), false);
    assert!(p.graph.is_ok());
}

#[test]
fn diff_colours_and_widths() {
    let opt = Options::default();
    let input = "f 10 20\ng 5 0\n";
    assert!(is_diff_case(input));
    let p = plan(&opt, &lines(input), true);
    let g = p.graph.as_ref().ok().unwrap();
    assert_eq!(g.total.visual, 20);
    let names: Vec<String> = g.kept.iter().map(|i| g.frames[*i].function.clone()).collect();
    assert_eq!(names, vec!["f".to_string(), "".to_string()]);
    assert_eq!(g.delta_max.self_delta, 10);
    let svg = render(&opt, input).unwrap();
    assert!(svg.contains("width=\"100.0000%\" height=\"15\" fill=\"rgb(255,100,100)\""));
    assert!(!svg.contains("<title>g"));
}

#[test]
fn diff_negated_is_blue() {
    let mut opt = Options::default();
    opt.negate_differentials = true;
    let svg = render(&opt, "f 10 20\ng 5 0\n").unwrap();
    assert!(svg.contains("fill=\"rgb(100,100,255)\""));
}

#[test]
fn normalized_delta_ignores_scale_of_first_dataset() {
    let mut opt = Options::default();
    opt.normalize = true;
    let a = render(&opt, "f 10 20\ng 10 0\n").unwrap();
    let b = render(&opt, "f 20 20\ng 20 0\n").unwrap();
    let ta = a.split("<title>f").nth(1).unwrap().split("</title>").next().unwrap().to_string();
    let tb = b.split("<title>f").nth(1).unwrap().split("</title>").next().unwrap().to_string();
    assert_eq!(ta, " (20 samples, 100.00%; +50.00%)");
    assert_eq!(ta, tb);
}

#[test]
fn raw_delta_ignores_common_scale() {
    let opt = Options::default();
    let a = render(&opt, "f 10 20\ng 10 0\n").unwrap();
    let b = render(&opt, "f 30 60\ng 30 0\n").unwrap();
    let ta = a.split("<title>f").nth(1).unwrap().split("</title>").next().unwrap().to_string();
    let tb = b.split("<title>f").nth(1).unwrap().split("</title>").next().unwrap().to_string();
    assert_eq!(ta, " (20 samples, 100.00%; +50.00%)");
    assert_eq!(tb, " (60 samples, 100.00%; +50.00%)");
}

#[test]
fn detailed_tooltip_lists_both_datasets() {
    let mut opt = Options::default();
    opt.frame_width_source = FrameWidthSource::Max;
    let svg = render(&opt, "f 10 20\n").unwrap();
    assert!(svg.contains(
        "<title>f\nSelf:\n\tBefore:\t(10 samples, 100.00%)\n\tAfter:\t(20 samples, 100.00%)\n\tChange:\t0.00%pt\nTotal:"
    ));
    assert!(svg.contains("Visual Width:\t(20 samples, 100.00%)</title>"));
}

#[test]
fn reversed_unsorted_equals_sorted_reversed() {
    let mut rev = Options::default();
    rev.reverse_stack_order = true;
    let a = render(&rev, "c;b;a 1\nd;a 2\n").unwrap();
    let b = render(&Options::default(), "a;d 2\na;b;c 1\n").unwrap();
    assert_eq!(a, b);
}

#[test]
fn rendering_is_repeatable() {
    let opt = Options::default();
    let a = render(&opt, "a;b 1\na;c 2\n").unwrap();
    let b = render(&opt, "a;b 1\na;c 2\n").unwrap();
    assert_eq!(a, b);
}

#[test]
fn narrow_frames_are_pruned() {
    let opt = Options::default();
    let p = plan(&opt, &lines("a 1\nb 100000\n"), false);
    let g = p.graph.as_ref().ok().unwrap();
    let names: Vec<String> = g.kept.iter().map(|i| g.frames[*i].function.clone()).collect();
    assert_eq!(names, vec!["b".to_string(), "".to_string()]);
}

#[test]
fn image_height_formula() {
    let opt = Options::default();
    let p = plan(&opt, &lines("a;b;c 10\n"), false);
    let g = p.graph.as_ref().ok().unwrap();
    assert_eq!(g.depth_max, 3);
    assert_eq!(g.image_height, 4 * 16 + 36 + 34);
    let svg = render(&opt, "a;b;c 10\n").unwrap();
    assert!(svg.contains("height=\"134\""));
}

#[test]
fn base_symbol_cuts_stacks() {
    let mut opt = Options::default();
    opt.base = vec!["m".to_string()];
    let p = plan(&opt, &lines("x;m;y 1\nz 2\nm;w 3\n"), false);
    assert_eq!(p.lines, vec![chars("m;w 3"), chars("m;y 1")]);
}

#[test]
fn flame_chart_reverses_order() {
    let mut opt = Options::default();
    opt.flame_chart = true;
    let p = plan(&opt, &lines("b 1\na 2\n"), false);
    assert_eq!(p.lines, vec![chars("a 2"), chars("b 1")]);
}

#[test]
fn labels_are_truncated() {
    let mut opt = Options::default();
    opt.image_width = Some(120);
    let svg = render(&opt, "abcdefghijklmnopqrstuvwxyz 1\n").unwrap();
    assert!(svg.contains(">..mnopqrstuvwxyz</text>"));
    opt.text_truncate_direction = flamegraph_svg::TextTruncateDirection::Right;
    let svg = render(&opt, "abcdefghijklmnopqrstuvwxyz 1\n").unwrap();
    assert!(svg.contains(">abcdefghijklmn..</text>"));
}

#[test]
fn grey_frames() {
    let svg = render(&Options::default(), "a;- 1\na;-- 1\n").unwrap();
    assert!(svg.contains("fill=\"rgb(200,200,200)\""));
    assert!(svg.contains("fill=\"rgb(160,160,160)\""));
    assert!(svg.contains("fill=\"rgb(1,2,3)\""));
}

#[test]
fn colour_diffusion() {
    let mut opt = Options::default();
    opt.color_diffusion = true;
    let svg = render(&opt, "a 1\nb 3\n").unwrap();
    assert!(svg.contains("fill=\"rgb(255,100,100)\""));
    assert!(svg.contains("fill=\"rgb(255,120,120)\""));
}

#[test]
fn pretty_output_is_indented() {
    let mut opt = Options::default();
    opt.pretty_xml = true;
    let svg = render(&opt, "a 1\n").unwrap();
    assert!(svg.contains("\n    <g>\n      <title>a (1 samples, 100.00%)</title>"));
}

#[test]
fn title_is_escaped() {
    let mut opt = Options::default();
    opt.title = "Test <& ' \"".to_string();
    let svg = render(&opt, "a 1\n").unwrap();
    assert!(svg.contains(">Test &lt;&amp; &apos; &quot;</text>"));
}

#[test]
fn number_text() {
    assert_eq!(decimal_text(0), "0");
    assert_eq!(decimal_text(1234567), "1234567");
    assert_eq!(grouped_text(1234567), "1,234,567");
    assert_eq!(grouped_text(999), "999");
    assert_eq!(fixed_text(1, 3, 4), "0.3333");
    assert_eq!(fixed_text(2, 3, 2), "0.67");
    assert_eq!(fixed_text(5, 0, 2), "0.00");
    assert_eq!(escape_text("a<b>&'\"\r"), "a&lt;b&gt;&amp;&apos;&quot;&#13;");
}

#[test]
fn thousands_in_tooltips() {
    let svg = render(&Options::default(), "a 1234\n").unwrap();
    assert!(svg.contains("<title>a (1,234 samples, 100.00%)</title>"));
}

#[test]
fn reversing_twice_restores_a_line() {
    for l in ["a;b;c 10", "x;[u8; 8];y 1 2", "a;;b 3.25"] {
        let once = reverse_stack_line(&chars(l));
        assert_eq!(reverse_stack_line(&once), chars(l));
    }
}

#[test]
fn frames_lie_within_parents() {
    let opt = Options::default();
    let p = plan(&opt, &lines("a;b 1\na 2\na;c;d 3\ne 4\n"), false);
    let g = p.graph.as_ref().ok().unwrap();
    for f in g.frames.iter().filter(|f| f.depth > 0) {
        assert!(g.frames.iter().any(|q| q.depth + 1 == f.depth
            && q.start_time <= f.start_time
            && f.end_time <= q.end_time));
    }
}

#[test]
fn flamegraph_no_sort_should_return_error_on_unsorted_input() {
    let mut opt = Options::default();
    opt.no_sort = true;
    let p = plan(&opt, &lines("b 1\na 1\n"), false);
    assert_eq!(p.graph.err(), Some(RenderError::UnsortedInput));
    let p = plan(&opt, &lines("a 1\nb 1\n"), false);
    assert!(p.graph.is_ok());
    opt.no_sort = false;
    let p = plan(&opt, &lines("b 1\na 1\n"), false);
    assert!(p.graph.is_ok());
}

#[test]
fn flame_chart_wins_over_reversal() {
    let mut opt = Options::default();
    opt.flame_chart = true;
    opt.reverse_stack_order = true;
    let p = plan(&opt, &lines("b;x 1\na;y 2\n"), false);
    assert_eq!(p.lines, vec![chars("a;y 2"), chars("b;x 1")]);
}
