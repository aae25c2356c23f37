//! Properties that hold of every graph the library builds.
use vstd::prelude::*;
use crate::color::{abs, max1, share_delta_num};
use crate::counts::SampleCount;
use crate::format::{fixed, pow10};
use crate::tooltip::{delta_text, share_change};
use vstd::arithmetic::div_mod::lemma_div_multiples_vanish_quotient;
use crate::layout::wide_enough;
use crate::counts::FrameWidthSource;
use crate::merge::{close_to, close_top_spec, common_from, line_stack, open_rest, open_spec, step, MergeState};
use crate::parse::parse_line;
use crate::merge::{frames_sized, siblings_ordered, single_root, within_parent, TimedFrame};
use crate::options::Options;
use crate::render::{graph_ok, Graph};
use crate::order::{frames_end, reversed_line};
use crate::parse::{digit_run, last_space_at, take_count, token_shape};

use crate::text::{dec_value, is_digit, is_ws, join_with, lead_ws, lemma_split_nonempty, split_on, trim};
use crate::tooltip::pct_text;

verus! {

/// Sum of the widths of the frames of `fs` at depth `d`.
pub open spec fn width_at_depth(fs: Seq<TimedFrame>, d: nat) -> int
    decreases fs.len(),
{
    if fs.len() == 0 {
        0
    } else {
        width_at_depth(fs.drop_last(), d) + if fs.last().depth == d {
            fs.last().end_time - fs.last().start_time
        } else {
            0
        }
    }
}

/// Frames at the same depth have ordered, non-overlapping ranges: of two
/// siblings the one merged first ends no later than the other starts.
pub proof fn siblings_do_not_overlap(fs: Seq<TimedFrame>, total: nat, i: int, j: int)
    requires
        frames_sized(fs, total),
        siblings_ordered(fs),
        0 <= i < j < fs.len(),
        fs[i].depth == fs[j].depth,
    ensures
        fs[i].start_time <= fs[i].end_time <= fs[j].start_time <= fs[j].end_time,
{
    assert(fs[i].start_time <= fs[i].end_time);
    assert(fs[j].start_time <= fs[j].end_time);
}

/// Every frame of a graph but its root lies within a frame one level above it.
pub proof fn frames_lie_within_parents(g: Graph, opt: Options, i: int)
    requires
        graph_ok(g, opt),
        0 <= i < g.frames@.len(),
        g.frames@[i].depth > 0,
    ensures
        exists|j: int|
            0 <= j < g.frames@.len() && g.frames@[j].depth + 1 == g.frames@[i].depth && g.frames@[j].start_time
                <= g.frames@[i].start_time && g.frames@[i].end_time <= g.frames@[j].end_time,
{
    let j = choose|j: int| 0 <= j < g.frames@.len() && within_parent(g.frames@, i, j);
    assert(within_parent(g.frames@, i, j));
}

proof fn lemma_no_root_width(fs: Seq<TimedFrame>)
    requires
        forall|i: int| 0 <= i < fs.len() ==> #[trigger] fs[i].depth > 0,
    ensures
        width_at_depth(fs, 0) == 0,
    decreases fs.len(),
{
    if fs.len() > 0 {
        assert forall|i: int| 0 <= i < fs.drop_last().len() implies #[trigger] fs.drop_last()[i].depth > 0 by {
            assert(fs.drop_last()[i] == fs[i]);
        }
        lemma_no_root_width(fs.drop_last());
        assert(fs[fs.len() - 1].depth > 0);
    }
}

/// The widths of the depth-0 frames add up to the overall total in the width metric.
pub proof fn root_widths_sum_to_total(fs: Seq<TimedFrame>, total: nat)
    requires
        frames_sized(fs, total),
        single_root(fs, total),
        fs.len() > 0,
    ensures
        width_at_depth(fs, 0) == total,
{
    let rest = fs.drop_last();
    assert forall|i: int| 0 <= i < rest.len() implies #[trigger] rest[i].depth > 0 by {
        assert(rest[i] == fs[i]);
    }
    lemma_no_root_width(rest);
}

/// Every drawn frame is at least `min_width_ppm` millionths of the total wide.
pub proof fn drawn_frames_are_wide_enough(g: Graph, opt: Options, j: int)
    requires
        graph_ok(g, opt),
        0 <= j < g.kept@.len(),
    ensures
        wide_enough(g.frames@[g.kept@[j] as int], g.total.visual as nat, opt.min_width_ppm as nat),
{
}

/// The image is `depth_max + 1` rows of frames high, plus the top and bottom padding.
pub proof fn image_height_counts_rows(g: Graph, opt: Options)
    requires
        graph_ok(g, opt),
    ensures
        g.image_height == (g.depth_max + 1) * opt.frame_height + crate::options::ypad_top(
            opt.font_size as nat,
            opt.subtitle is Some,
            opt.direction,
        ) + crate::options::ypad_bottom(opt.font_size as nat, opt.direction),
        forall|j: int| 0 <= j < g.kept@.len() ==> g.frames@[#[trigger] g.kept@[j] as int].depth <= g.depth_max,
{
}

/// The root's percentage reads exactly `100%` whenever it rounds to `100.00`.
pub proof fn root_share_reads_hundred(n: nat, total: nat)
    requires
        fixed(100 * n, total, 2) == "100.00"@,
    ensures
        pct_text(n, total, true) == "100%"@,
{
}

/// Without normalisation the percent-point delta `(after - before) / total_after`
/// is unchanged when both datasets are scaled by the same factor `k`.
pub proof fn raw_delta_scale_invariant(a: nat, b: nat, ta: nat, k: nat)
    requires
        k >= 1,
        ta >= 1,
    ensures
        (k * a - k * b) * max1(ta as int) == (a - b) * max1((k * ta) as int),
{
    assert((k * ta) >= 1) by (nonlinear_arith)
        requires k >= 1, ta >= 1;
    assert((k * a - k * b) * ta == (a - b) * (k * ta)) by (nonlinear_arith);
}

/// With normalisation the change of share `after/total_after - before/total_before`
/// is unchanged when the first dataset is scaled by `k`.
pub proof fn share_delta_invariant_scaling_before(a: nat, b: nat, ta: nat, tb: nat, k: nat)
    requires
        k >= 1,
        ta >= 1,
        tb >= 1,
    ensures
        share_delta_num(a as int, (k * b) as int, ta as int, (k * tb) as int) * (max1(ta as int) * max1(tb as int))
            == share_delta_num(a as int, b as int, ta as int, tb as int) * (max1(ta as int) * max1((k * tb) as int)),
{
    assert((k * tb) >= 1) by (nonlinear_arith)
        requires k >= 1, tb >= 1;
    assert((a * (k * tb) - (k * b) * ta) * (ta * tb) == (a * tb - b * ta) * (ta * (k * tb))) by (nonlinear_arith);
}

/// With normalisation the change of share is unchanged when the second dataset is scaled by `k`.
pub proof fn share_delta_invariant_scaling_after(a: nat, b: nat, ta: nat, tb: nat, k: nat)
    requires
        k >= 1,
        ta >= 1,
        tb >= 1,
    ensures
        share_delta_num((k * a) as int, b as int, (k * ta) as int, tb as int) * (max1(ta as int) * max1(tb as int))
            == share_delta_num(a as int, b as int, ta as int, tb as int) * (max1((k * ta) as int) * max1(tb as int)),
{
    assert((k * ta) >= 1) by (nonlinear_arith)
        requires k >= 1, ta >= 1;
    assert(((k * a) * tb - b * (k * ta)) * (ta * tb) == (a * tb - b * ta) * ((k * ta) * tb)) by (nonlinear_arith);
}

/// The frames of a stack in reverse order, joined again with `;`.
pub open spec fn reverse_frames(f: Seq<char>) -> Seq<char> {
    join_with(split_on(f, ';').reverse(), ';')
}

proof fn lemma_split_no_sep(s: Seq<char>, sep: char)
    ensures
        forall|i: int, j: int|
            0 <= i < split_on(s, sep).len() && 0 <= j < split_on(s, sep)[i].len() ==> #[trigger] split_on(
                s,
                sep,
            )[i][j] != sep,
    decreases s.len(),
{
    lemma_split_nonempty(s, sep);
    if s.len() > 0 {
        lemma_split_no_sep(s.drop_last(), sep);
        lemma_split_nonempty(s.drop_last(), sep);
        let rest = split_on(s.drop_last(), sep);
        let p = split_on(s, sep);
        assert forall|i: int, j: int| 0 <= i < p.len() && 0 <= j < p[i].len() implies #[trigger] p[i][j] != sep by {
            if s.last() == sep {
                if i < rest.len() {
                    assert(p[i] == rest[i]);
                }
            } else {
                if i < rest.len() - 1 {
                    assert(p[i] == rest[i]);
                } else {
                    assert(p[i] == rest.last().push(s.last()));
                    if j < rest.last().len() {
                        assert(rest[rest.len() - 1][j] != sep);
                    }
                }
            }
        }
    }
}

proof fn lemma_join_split(s: Seq<char>, sep: char)
    ensures
        join_with(split_on(s, sep), sep) == s,
    decreases s.len(),
{
    lemma_split_nonempty(s, sep);
    if s.len() == 0 {
        assert(join_with(split_on(s, sep), sep) =~= s);
    } else {
        let rest = split_on(s.drop_last(), sep);
        lemma_join_split(s.drop_last(), sep);
        lemma_split_nonempty(s.drop_last(), sep);
        let p = split_on(s, sep);
        if s.last() == sep {
            assert(p.drop_last() =~= rest);
            assert(join_with(p, sep) =~= s);
        } else {
            if rest.len() == 1 {
                assert(join_with(p, sep) =~= s);
            } else {
                assert(p.drop_last() =~= rest.drop_last());
                assert(join_with(p, sep) =~= join_with(rest, sep).push(s.last()));
                assert(join_with(p, sep) =~= s);
            }
        }
    }
}

/// `split_on(t + x)` when `x` holds no separator: `x` extends the last piece.
proof fn lemma_split_append(t: Seq<char>, x: Seq<char>, sep: char)
    requires
        forall|j: int| 0 <= j < x.len() ==> x[j] != sep,
    ensures
        split_on(t + x, sep) == split_on(t, sep).update(
            split_on(t, sep).len() - 1,
            split_on(t, sep).last() + x,
        ),
    decreases x.len(),
{
    lemma_split_nonempty(t, sep);
    let p = split_on(t, sep);
    if x.len() == 0 {
        assert(t + x =~= t);
        assert(p.update(p.len() - 1, p.last() + x) =~= p);
    } else {
        lemma_split_append(t, x.drop_last(), sep);
        assert((t + x).drop_last() =~= t + x.drop_last());
        assert((t + x).last() == x.last());
        let q = split_on(t + x.drop_last(), sep);
        assert(x.last() != sep);
        assert(split_on(t + x, sep) == q.update(q.len() - 1, q.last().push(x.last())));
        assert(q.len() == p.len());
        assert(q.last() == p.last() + x.drop_last());
        assert(q.last().push(x.last()) =~= p.last() + x);
        assert(q.update(q.len() - 1, q.last().push(x.last())) =~= p.update(p.len() - 1, p.last() + x));
    }
}

proof fn lemma_split_join(p: Seq<Seq<char>>, sep: char)
    requires
        p.len() >= 1,
        forall|i: int, j: int| 0 <= i < p.len() && 0 <= j < p[i].len() ==> #[trigger] p[i][j] != sep,
    ensures
        split_on(join_with(p, sep), sep) == p,
    decreases p.len(),
{
    if p.len() == 1 {
        lemma_split_append(Seq::empty(), p[0], sep);
        assert(Seq::<char>::empty() + p[0] =~= p[0]);
        assert(split_on(Seq::<char>::empty(), sep) =~= seq![Seq::<char>::empty()]);
        assert(p =~= seq![Seq::<char>::empty() + p[0]]);
    } else {
        let q = p.drop_last();
        assert forall|i: int, j: int| 0 <= i < q.len() && 0 <= j < q[i].len() implies #[trigger] q[i][j] != sep by {
            assert(q[i] == p[i]);
        }
        lemma_split_join(q, sep);
        let t = join_with(q, sep).push(sep);
        assert(t.drop_last() =~= join_with(q, sep));
        assert(split_on(t, sep) == q.push(Seq::empty()));
        assert forall|j: int| 0 <= j < p.last().len() implies p.last()[j] != sep by {
            assert(p[p.len() - 1][j] != sep);
        }
        lemma_split_append(t, p.last(), sep);
        assert(Seq::<char>::empty() + p.last() =~= p.last());
        assert(q.push(Seq::empty()).update(q.len() as int, Seq::<char>::empty() + p.last()) =~= p);
    }
}

/// Reversing the frames of a stack twice gives the stack back.
pub proof fn reversing_frames_twice(f: Seq<char>)
    ensures
        reverse_frames(reverse_frames(f)) == f,
{
    let p = split_on(f, ';');
    lemma_split_nonempty(f, ';');
    lemma_split_no_sep(f, ';');
    let r = p.reverse();
    assert forall|i: int, j: int| 0 <= i < r.len() && 0 <= j < r[i].len() implies #[trigger] r[i][j] != ';' by {
        assert(r[i] == p[p.len() - 1 - i]);
        assert(p[p.len() - 1 - i][j] != ';');
    }
    lemma_split_join(r, ';');
    assert(r.reverse() =~= p);
    lemma_join_split(f, ';');
}

/// `t` is a count token whose value fits in 64 bits.
pub open spec fn count_token(t: Seq<char>) -> bool {
    exists|d: int| token_shape(t, d) && dec_value(t.subrange(0, d)) <= u64::MAX
}

/// No character of `s` is whitespace.
pub open spec fn no_ws(s: Seq<char>) -> bool {
    forall|i: int| 0 <= i < s.len() ==> !is_ws(#[trigger] s[i])
}

proof fn lemma_split_pieces_no_ws(s: Seq<char>, sep: char)
    requires
        no_ws(s),
    ensures
        forall|i: int| 0 <= i < split_on(s, sep).len() ==> no_ws(#[trigger] split_on(s, sep)[i]),
    decreases s.len(),
{
    lemma_split_nonempty(s, sep);
    if s.len() > 0 {
        let rest = split_on(s.drop_last(), sep);
        assert(no_ws(s.drop_last()));
        lemma_split_pieces_no_ws(s.drop_last(), sep);
        lemma_split_nonempty(s.drop_last(), sep);
        let p = split_on(s, sep);
        assert forall|i: int| 0 <= i < p.len() implies no_ws(#[trigger] p[i]) by {
            if s.last() == sep {
                if i < rest.len() {
                    assert(p[i] == rest[i]);
                } else {
                    assert(p[i] =~= Seq::<char>::empty());
                }
            } else {
                if i < rest.len() - 1 {
                    assert(p[i] == rest[i]);
                } else {
                    assert(p[i] == rest.last().push(s.last()));
                    assert(no_ws(rest[rest.len() - 1]));
                    assert(!is_ws(s[s.len() - 1]));
                }
            }
        }
    }
}

proof fn lemma_join_no_ws(p: Seq<Seq<char>>, sep: char)
    requires
        !is_ws(sep),
        forall|i: int| 0 <= i < p.len() ==> no_ws(#[trigger] p[i]),
    ensures
        no_ws(join_with(p, sep)),
    decreases p.len(),
{
    if p.len() > 1 {
        assert forall|i: int| 0 <= i < p.drop_last().len() implies no_ws(#[trigger] p.drop_last()[i]) by {
            assert(p.drop_last()[i] == p[i]);
        }
        lemma_join_no_ws(p.drop_last(), sep);
        assert(no_ws(p[p.len() - 1]));
        let j = join_with(p, sep);
        assert(j == join_with(p.drop_last(), sep).push(sep) + p.last());
        assert forall|i: int| 0 <= i < j.len() implies !is_ws(#[trigger] j[i]) by {
            let a = join_with(p.drop_last(), sep);
            if i < a.len() {
                assert(j[i] == a[i]);
            } else if i == a.len() {
                assert(j[i] == sep);
            } else {
                assert(j[i] == p.last()[i - a.len() - 1]);
            }
        }
    } else if p.len() == 1 {
        assert(no_ws(p[0]));
    }
}

proof fn lemma_join_nonempty(p: Seq<Seq<char>>, sep: char)
    requires
        p.len() >= 2 || (p.len() == 1 && p[0].len() > 0),
    ensures
        join_with(p, sep).len() > 0,
{
}

/// The count read from `f + ' ' + t`, when `f` does not end in whitespace and `t` is a count.
proof fn lemma_take_after(f: Seq<char>, t: Seq<char>)
    requires
        f.len() > 0,
        !is_ws(f.last()),
        count_token(t),
    ensures
        take_count(f + seq![' '] + t) matches Some((h, v, fr)) && h == f.len(),
{
    let s = f + seq![' '] + t;
    let k = f.len() as int;
    let d = choose|d: int| token_shape(t, d) && dec_value(t.subrange(0, d)) <= u64::MAX;
    assert(last_space_at(s, k)) by {
        assert(s[k] == ' ');
        assert forall|j: int| k < j < s.len() implies s[j] != ' ' by {
            assert(s[j] == t[j - k - 1]);
            let q = j - k - 1;
            if q < d {
                assert(is_digit(t[q]));
            } else if q == d {
                assert(t[q] == '.');
            } else {
                assert(is_digit(t[q]));
            }
        }
    }
    let kk = choose|kk: int| last_space_at(s, kk);
    assert(kk == k) by {
        if kk < k {
            assert(s[k] != ' ');
        } else if kk > k {
            assert(s[kk] != ' ');
        }
    }
    assert(s.subrange(k + 1, s.len() as int) =~= t);
    let dd = choose|dd: int| digit_run(t, dd);
    assert(dd == d) by {
        if dd < d {
            assert(is_digit(t[dd]));
        } else if d < dd {
            assert(is_digit(t[d]));
        }
    }
    assert(s.subrange(0, k) =~= f);
}

proof fn lemma_count_ends_in_digit(t: Seq<char>)
    requires
        count_token(t),
    ensures
        t.len() > 0 && is_digit(t.last()),
{
    let d = choose|d: int| token_shape(t, d) && dec_value(t.subrange(0, d)) <= u64::MAX;
    if d == t.len() {
        assert(is_digit(t[d - 1]));
    } else {
        assert(is_digit(t[t.len() - 1]));
    }
}

proof fn lemma_no_space_no_count(f: Seq<char>)
    requires
        no_ws(f),
    ensures
        take_count(f) is None,
{
    assert forall|k: int| !last_space_at(f, k) by {
        if 0 <= k < f.len() {
            assert(!is_ws(f[k]));
        }
    }
}

/// The frame part of `f + c`, `c` being one or two counts after single spaces.
proof fn lemma_frames_end(f: Seq<char>, c: Seq<char>, t1: Seq<char>, t2: Option<Seq<char>>)
    requires
        f.len() > 0,
        no_ws(f),
        count_token(t1),
        c == match t2 {
            None => seq![' '] + t1,
            Some(u) => seq![' '] + t1 + seq![' '] + u,
        },
        t2 matches Some(u) ==> count_token(u),
    ensures
        frames_end(f + c) == f.len(),
{
    match t2 {
        None => {
            assert(f + c =~= f + seq![' '] + t1);
            assert(!is_ws(f[f.len() - 1]));
            lemma_take_after(f, t1);
            let h1 = f.len();
            assert((f + c).subrange(0, h1 as int) =~= f);
            lemma_no_space_no_count(f);
        },
        Some(u) => {
            let g = f + seq![' '] + t1;
            lemma_count_ends_in_digit(t1);
            assert(g.last() == t1.last());
            lemma_take_after(g, u);
            assert(f + c =~= g + seq![' '] + u);
            let h1 = g.len();
            assert((f + c).subrange(0, h1 as int) =~= g);
            assert(!is_ws(f[f.len() - 1]));
            lemma_take_after(f, t1);
        },
    }
}

/// One or two counts, each after a single space.
pub open spec fn counts_suffix(t1: Seq<char>, t2: Option<Seq<char>>) -> Seq<char> {
    match t2 {
        None => seq![' '] + t1,
        Some(u) => seq![' '] + t1 + seq![' '] + u,
    }
}

proof fn lemma_trim_id(s: Seq<char>)
    requires
        s.len() > 0,
        !is_ws(s[0]),
        !is_ws(s.last()),
    ensures
        trim(s) == s,
{
    assert(lead_ws(s) == 0);
    assert(s.subrange(0, s.len() as int) =~= s);
}

proof fn lemma_reverse_frames_shape(f: Seq<char>)
    requires
        f.len() > 0,
        no_ws(f),
    ensures
        reverse_frames(f).len() > 0,
        no_ws(reverse_frames(f)),
{
    let p = split_on(f, ';');
    lemma_split_nonempty(f, ';');
    lemma_split_pieces_no_ws(f, ';');
    let r = p.reverse();
    assert forall|i: int| 0 <= i < r.len() implies no_ws(#[trigger] r[i]) by {
        assert(r[i] == p[p.len() - 1 - i]);
    }
    lemma_join_no_ws(r, ';');
    if p.len() == 1 {
        lemma_join_split(f, ';');
        assert(join_with(p, ';') == p[0]);
        assert(r[0] == p[0]);
    }
    lemma_join_nonempty(r, ';');
}

proof fn lemma_counts_end_in_digit(t1: Seq<char>, t2: Option<Seq<char>>)
    requires
        count_token(t1),
        t2 matches Some(u) ==> count_token(u),
    ensures
        counts_suffix(t1, t2).len() > 0,
        !is_ws(counts_suffix(t1, t2).last()),
{
    lemma_count_ends_in_digit(t1);
    match t2 {
        Some(u) => {
            lemma_count_ends_in_digit(u);
            assert(counts_suffix(t1, t2).last() == u.last());
        },
        None => {
            assert(counts_suffix(t1, t2).last() == t1.last());
        },
    }
}

/// One reversal of such a line reverses its frames and keeps its counts.
#[verifier::rlimit(50)]
proof fn lemma_reverse_once(f: Seq<char>, t1: Seq<char>, t2: Option<Seq<char>>)
    requires
        f.len() > 0,
        no_ws(f),
        count_token(t1),
        t2 matches Some(u) ==> count_token(u),
    ensures
        reversed_line(f + counts_suffix(t1, t2)) == reverse_frames(f) + counts_suffix(t1, t2),
{
    let c = counts_suffix(t1, t2);
    let l = f + c;
    lemma_frames_end(f, c, t1, t2);
    assert(l.subrange(0, f.len() as int) =~= f);
    assert(l.subrange(f.len() as int, l.len() as int) =~= c);
    assert(!is_ws(f[0]));
    assert(!is_ws(f[f.len() - 1]));
    lemma_trim_id(f);
    let f2 = reverse_frames(f);
    lemma_reverse_frames_shape(f);
    lemma_counts_end_in_digit(t1, t2);
    let l2 = f2 + c;
    assert(l2[0] == f2[0]);
    assert(!is_ws(f2[0]));
    assert(l2.last() == c.last());
    lemma_trim_id(l2);
}

/// Reversing the stack of a line twice gives the line back, for a line of
/// frames without whitespace followed by one or two counts after single spaces.
pub proof fn reversing_a_line_twice(f: Seq<char>, t1: Seq<char>, t2: Option<Seq<char>>)
    requires
        f.len() > 0,
        no_ws(f),
        count_token(t1),
        t2 matches Some(u) ==> count_token(u),
    ensures
        reversed_line(reversed_line(f + counts_suffix(t1, t2))) == f + counts_suffix(t1, t2),
{
    lemma_reverse_once(f, t1, t2);
    lemma_reverse_frames_shape(f);
    lemma_reverse_once(reverse_frames(f), t1, t2);
    reversing_frames_twice(f);
}

proof fn lemma_fixed_scale(n: nat, d: nat, p: nat, k: nat)
    requires
        k >= 1,
        d >= 1,
    ensures
        fixed(k * n, k * d, p) == fixed(n, d, p),
{
    let sc = pow10(p);
    let a = 2 * n * sc + d;
    let dd = 2 * d;
    assert(2 * (k * n) * sc + k * d == k * a) by (nonlinear_arith)
        requires a == 2 * n * sc + d;
    assert(2 * (k * d) == k * dd) by (nonlinear_arith)
        requires dd == 2 * d;
    assert(k * d >= 1) by (nonlinear_arith)
        requires k >= 1, d >= 1;
    lemma_div_multiples_vanish_quotient(k as int, a as int, dd as int);
}

proof fn lemma_delta_text_scale(num: int, den: nat, k: nat)
    requires
        k >= 1,
        den >= 1,
    ensures
        delta_text(k * num, k * den) == delta_text(num, den),
{
    if num >= 0 {
        assert(k * num >= 0) by (nonlinear_arith)
            requires k >= 1, num >= 0;
        assert(num > 0 ==> k * num > 0) by (nonlinear_arith)
            requires k >= 1;
        assert(abs(k * num) == k * abs(num));
    } else {
        assert(k * num < 0) by (nonlinear_arith)
            requires k >= 1, num < 0;
        assert(-(k * num) == k * (-num)) by (nonlinear_arith);
        assert(abs(k * num) == k * abs(num));
    }
    let m = abs(num);
    assert(100 * (k * m) == k * (100 * m)) by (nonlinear_arith);
    lemma_fixed_scale((100 * abs(num)) as nat, den, 2, k);
}

/// With normalisation, the percent-point change shown in a tooltip is the
/// same when the first dataset is scaled by `k`, for a frame's count `c`
/// within totals `t`.
pub proof fn normalized_tooltip_delta_ignores_scale_of_first_dataset(c: SampleCount, t: SampleCount, k: nat)
    requires
        k >= 1,
        t.before >= 1,
        t.after >= 1,
        k * t.before <= u64::MAX,
        c.before <= t.before,
    ensures
        ({
            let c2 = SampleCount { before: (k * c.before) as u64, ..c };
            let t2 = SampleCount { before: (k * t.before) as u64, ..t };
            let (n1, d1) = share_change(c, t, true);
            let (n2, d2) = share_change(c2, t2, true);
            delta_text(n2, d2) == delta_text(n1, d1)
        }),
{
    let c2 = SampleCount { before: (k * c.before) as u64, ..c };
    let t2 = SampleCount { before: (k * t.before) as u64, ..t };
    assert(k * c.before <= k * t.before) by (nonlinear_arith)
        requires c.before <= t.before;
    assert(k * t.before >= 1) by (nonlinear_arith)
        requires k >= 1, t.before >= 1;
    let (n1, d1) = share_change(c, t, true);
    let (n2, d2) = share_change(c2, t2, true);
    share_delta_invariant_scaling_before(c.after as nat, c.before as nat, t.after as nat, t.before as nat, k);
    assert(n2 == k * n1) by (nonlinear_arith)
        requires
            n2 == c.after * (k * t.before) - (k * c.before) * t.after,
            n1 == c.after * t.before - c.before * t.after,
    ;
    assert(d2 == k * d1) by (nonlinear_arith)
        requires
            d2 == t.after * (k * t.before),
            d1 == t.after * t.before,
    ;
    assert(d1 >= 1) by (nonlinear_arith)
        requires d1 == t.after * t.before, t.after >= 1, t.before >= 1;
    lemma_delta_text_scale(n1, d1, k);
}

/// Without normalisation, the percent-point change shown in a tooltip is the
/// same when both datasets are scaled by `k`.
pub proof fn raw_tooltip_delta_ignores_common_scale(c: SampleCount, t: SampleCount, k: nat)
    requires
        k >= 1,
        t.after >= 1,
        k * t.after <= u64::MAX,
        k * t.before <= u64::MAX,
        c.before <= t.before,
        c.after <= t.after,
    ensures
        ({
            let c2 = SampleCount { before: (k * c.before) as u64, after: (k * c.after) as u64, ..c };
            let t2 = SampleCount { before: (k * t.before) as u64, after: (k * t.after) as u64, ..t };
            let (n1, d1) = share_change(c, t, false);
            let (n2, d2) = share_change(c2, t2, false);
            delta_text(n2, d2) == delta_text(n1, d1)
        }),
{
    assert(k * c.before <= k * t.before) by (nonlinear_arith)
        requires c.before <= t.before;
    assert(k * c.after <= k * t.after) by (nonlinear_arith)
        requires c.after <= t.after;
    assert(k * t.after >= 1) by (nonlinear_arith)
        requires k >= 1, t.after >= 1;
    let c2 = SampleCount { before: (k * c.before) as u64, after: (k * c.after) as u64, ..c };
    let t2 = SampleCount { before: (k * t.before) as u64, after: (k * t.after) as u64, ..t };
    let (n1, d1) = share_change(c, t, false);
    let (n2, d2) = share_change(c2, t2, false);
    assert(n2 == k * n1) by (nonlinear_arith)
        requires n2 == k * c.after - k * c.before, n1 == c.after - c.before;
    lemma_delta_text_scale(n1, d1, k);
}

/// The four sequences of open frames have one entry per open frame.
pub open spec fn state_wf(s: MergeState) -> bool {
    s.names.len() == s.starts.len() && s.starts.len() == s.selfs.len() && s.selfs.len() == s.totals.len()
}

proof fn lemma_close_to_shape(s: MergeState, p: nat)
    requires
        state_wf(s),
    ensures
        state_wf(close_to(s, p)),
        close_to(s, p).tot == s.tot,
        close_to(s, p).names.len() == if s.names.len() > p { p } else { s.names.len() },
    decreases s.names.len(),
{
    if s.names.len() > p {
        lemma_close_to_shape(close_top_spec(s), p);
    }
}

proof fn lemma_open_rest_shape(s: MergeState, stack: Seq<Seq<char>>)
    requires
        state_wf(s),
        s.names.len() < stack.len(),
    ensures
        state_wf(open_rest(s, stack)),
        open_rest(s, stack).tot == s.tot,
        open_rest(s, stack).names.len() == stack.len(),
        open_rest(s, stack).names.last() == stack.last(),
        open_rest(s, stack).starts.last() == s.tot.visual,
    decreases stack.len() - s.names.len(),
{
    let o = open_spec(s, stack[s.names.len() as int]);
    if o.names.len() < stack.len() {
        lemma_open_rest_shape(o, stack);
    } else {
        assert(open_rest(o, stack) == o);
    }
}

/// In flame-chart mode every parsed line opens a leaf of its own: after the
/// line, the deepest open frame is the line's leaf and starts where the
/// line's interval starts, the cursor before the line.
pub proof fn flame_chart_line_opens_its_leaf(s: MergeState, l: Seq<char>, diff: bool, src: FrameWidthSource)
    requires
        state_wf(s),
        parse_line(l, diff) is Some,
    ensures
        ({
            let (h, b, a, f) = parse_line(l, diff)->0;
            let stack = line_stack(l, h);
            let s2 = step(s, l, diff, true, src);
            &&& s2.names.len() == stack.len()
            &&& s2.names.last() == stack.last()
            &&& s2.starts.last() == s.tot.visual
        }),
{
    let (h, b, a, f) = parse_line(l, diff)->0;
    let stack = line_stack(l, h);
    lemma_split_nonempty(l.subrange(0, h as int), ';');
    let p0 = common_from(s.names, stack, 0);
    let p = if p0 >= stack.len() { (stack.len() - 1) as nat } else { p0 };
    lemma_close_to_shape(s, p);
    let s1 = close_to(s, p);
    lemma_open_rest_shape(s1, stack);
}

/// The root is drawn whenever the narrowest width drawn is at most the
/// whole graph: some drawn frame is the depth-0 frame spanning `[0, total)`.
pub proof fn root_is_drawn(g: Graph, opt: Options)
    requires
        graph_ok(g, opt),
        g.frames@.len() > 0,
        opt.min_width_ppm <= 1_000_000,
    ensures
        exists|j: int|
            0 <= j < g.kept@.len() && g.frames@[#[trigger] g.kept@[j] as int].depth == 0
                && g.frames@[g.kept@[j] as int].start_time == 0
                && g.frames@[g.kept@[j] as int].end_time == g.total.visual,
{
    let r = g.frames@.len() - 1;
    let f = g.frames@[r];
    assert(f.end_time - f.start_time == g.total.visual);
    assert(opt.min_width_ppm * g.total.visual <= 1_000_000 * g.total.visual) by (nonlinear_arith)
        requires opt.min_width_ppm <= 1_000_000;
    assert(wide_enough(f, g.total.visual as nat, opt.min_width_ppm as nat));
    let j = choose|j: int| 0 <= j < g.kept@.len() && g.kept@[j] == r;
    assert(g.frames@[g.kept@[j] as int] == f);
}

/// The frame one level above a drawn frame is drawn too: it is at least as wide.
pub proof fn parents_of_drawn_frames_are_drawn(g: Graph, opt: Options, k: int)
    requires
        graph_ok(g, opt),
        0 <= k < g.kept@.len(),
        g.frames@[g.kept@[k] as int].depth > 0,
    ensures
        exists|j: int, p: int|
            0 <= j < g.kept@.len() && p == g.kept@[j] && within_parent(g.frames@, g.kept@[k] as int, p),
{
    let i = g.kept@[k] as int;
    let p = choose|p: int| 0 <= p < g.frames@.len() && within_parent(g.frames@, i, p);
    let fi = g.frames@[i];
    let fp = g.frames@[p];
    assert(fi.start_time <= fi.end_time);
    assert(fp.start_time <= fp.end_time);
    assert(fi.end_time - fi.start_time <= fp.end_time - fp.start_time);
    assert(wide_enough(fi, g.total.visual as nat, opt.min_width_ppm as nat));
    assert((fp.end_time - fp.start_time) * 1_000_000 >= (fi.end_time - fi.start_time) * 1_000_000) by (nonlinear_arith)
        requires fi.end_time - fi.start_time <= fp.end_time - fp.start_time;
    assert(wide_enough(fp, g.total.visual as nat, opt.min_width_ppm as nat));
    let j = choose|j: int| 0 <= j < g.kept@.len() && g.kept@[j] == p;
    assert(within_parent(g.frames@, g.kept@[k] as int, g.kept@[j] as int));
}

} // verus!
