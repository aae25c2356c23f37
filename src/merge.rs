//! The merger: folds an ordered sequence of stacks into timed frames.
use vstd::prelude::*;
use crate::counts::{width_of, FrameWidthSource, SampleCount, MAX_SAMPLES};
use crate::parse::{parse_line, parse_line_counts};
use crate::text::{copy_all, split_on, split_range, string_of, views};

verus! {

/// The counts `(before, after, visual)` of one line, or `None` when it does not parse.
pub open spec fn line_counts(l: Seq<char>, diff: bool, src: FrameWidthSource) -> Option<(nat, nat, nat)> {
    match parse_line(l, diff) {
        None => None,
        Some((h, b, a, f)) => Some((b, a, if diff { width_of(src, b as int, a as int) as nat } else { a })),
    }
}

/// Sum of the counts of the lines that parse.
pub open spec fn sum_counts(ls: Seq<Seq<char>>, diff: bool, src: FrameWidthSource) -> (nat, nat, nat)
    decreases ls.len(),
{
    if ls.len() == 0 {
        (0, 0, 0)
    } else {
        let r = sum_counts(ls.drop_last(), diff, src);
        match line_counts(ls.last(), diff, src) {
            None => r,
            Some((b, a, v)) => (r.0 + b, r.1 + a, r.2 + v),
        }
    }
}

/// Number of lines that parse.
pub open spec fn valid_lines(ls: Seq<Seq<char>>, diff: bool) -> nat
    decreases ls.len(),
{
    if ls.len() == 0 {
        0
    } else {
        valid_lines(ls.drop_last(), diff) + if parse_line(ls.last(), diff) is Some { 1nat } else { 0nat }
    }
}

/// Some line that parses had a non-zero fractional count.
pub open spec fn any_fractional(ls: Seq<Seq<char>>, diff: bool) -> bool
    decreases ls.len(),
{
    if ls.len() == 0 {
        false
    } else {
        any_fractional(ls.drop_last(), diff) || match parse_line(ls.last(), diff) {
            Some((h, b, a, f)) => f,
            None => false,
        }
    }
}

/// The totals exceed what a graph may hold.
pub open spec fn too_many(t: (nat, nat, nat)) -> bool {
    t.0 > MAX_SAMPLES || t.1 > MAX_SAMPLES || t.2 > MAX_SAMPLES
}

/// An aggregated frame with its range `[start_time, end_time)` in the width metric.
#[derive(Debug)]
pub struct TimedFrame {
    pub function: String,
    pub depth: usize,
    pub start_time: u64,
    pub end_time: u64,
    pub self_count: SampleCount,
    pub total_count: SampleCount,
}

/// What the merger returns.
#[derive(Debug)]
pub struct Merged {
    pub frames: Vec<TimedFrame>,
    /// Overall totals; `None` when no line parsed.
    pub total: Option<SampleCount>,
    /// Lines that did not parse.
    pub ignored: usize,
    /// Some parsed count had a non-zero fractional part.
    pub fractional: bool,
}

/// The totals went past `MAX_SAMPLES`.
#[derive(Debug, Clone, Copy, PartialEq, Eq, Structural)]
pub struct TooManySamples;

/// Every frame's width equals its total in the width metric and lies within `[0, total]`.
pub open spec fn frames_sized(fs: Seq<TimedFrame>, total: nat) -> bool {
    forall|i: int|
        0 <= i < fs.len() ==> {
            &&& #[trigger] fs[i].start_time <= fs[i].end_time
            &&& fs[i].end_time <= total
            &&& fs[i].end_time - fs[i].start_time == fs[i].total_count.visual
        }
}

/// Frames at the same depth come in time order and do not overlap.
pub open spec fn siblings_ordered(fs: Seq<TimedFrame>) -> bool {
    forall|i: int, j: int|
        0 <= i < j < fs.len() && #[trigger] fs[i].depth == #[trigger] fs[j].depth ==> fs[i].end_time
            <= fs[j].start_time
}

/// Frame `j` is one level above frame `i` and its range covers `i`'s.
pub open spec fn within_parent(fs: Seq<TimedFrame>, i: int, j: int) -> bool {
    &&& fs[j].depth + 1 == fs[i].depth
    &&& fs[j].start_time <= fs[i].start_time
    &&& fs[i].end_time <= fs[j].end_time
}

/// Every frame but a root lies within a frame one level above it.
pub open spec fn nested(fs: Seq<TimedFrame>) -> bool {
    forall|i: int|
        0 <= i < fs.len() && #[trigger] fs[i].depth > 0 ==> exists|j: int|
            0 <= j < fs.len() && within_parent(fs, i, j)
}

/// Every closed frame but a root lies within a closed frame one level
/// above it, or starts no earlier than the open frame one level above it.
spec fn parents_ok(fs: Seq<TimedFrame>, starts: Seq<u64>) -> bool {
    forall|i: int|
        0 <= i < fs.len() && #[trigger] fs[i].depth > 0 ==> (fs[i].depth - 1 < starts.len() && starts[fs[i].depth
            - 1] <= fs[i].start_time) || exists|j: int| 0 <= j < fs.len() && within_parent(fs, i, j)
}

/// Every frame's counts lie within the totals `t`, self within total.
pub open spec fn counts_within(fs: Seq<TimedFrame>, t: SampleCount) -> bool {
    forall|i: int|
        0 <= i < fs.len() ==> {
            &&& (#[trigger] fs[i]).total_count.before <= t.before
            &&& fs[i].total_count.after <= t.after
            &&& fs[i].self_count.before <= fs[i].total_count.before
            &&& fs[i].self_count.after <= fs[i].total_count.after
            &&& fs[i].self_count.visual <= fs[i].total_count.visual
        }
}

/// The one depth-0 frame is the last one and spans `[0, total)`; there is
/// none when `fs` is empty.
pub open spec fn single_root(fs: Seq<TimedFrame>, total: nat) -> bool {
    fs.len() > 0 ==> {
        &&& fs.last().depth == 0
        &&& fs.last().start_time == 0
        &&& fs.last().end_time == total
        &&& fs.last().function@ == Seq::<char>::empty()
        &&& forall|i: int| 0 <= i < fs.len() - 1 ==> #[trigger] fs[i].depth > 0
    }
}

/// A frame as plain values.
pub struct FrameView {
    pub function: Seq<char>,
    pub depth: usize,
    pub start_time: u64,
    pub end_time: u64,
    pub self_count: SampleCount,
    pub total_count: SampleCount,
}

pub open spec fn frame_view(f: TimedFrame) -> FrameView {
    FrameView {
        function: f.function@,
        depth: f.depth,
        start_time: f.start_time,
        end_time: f.end_time,
        self_count: f.self_count,
        total_count: f.total_count,
    }
}

pub open spec fn frame_views(fs: Seq<TimedFrame>) -> Seq<FrameView> {
    fs.map_values(|f: TimedFrame| frame_view(f))
}

/// The merger between two lines: the frames closed so far, the open
/// frames (names, start times, self and total counts, root first), and
/// the totals so far, whose width is the time cursor.
pub struct MergeState {
    pub closed: Seq<FrameView>,
    pub names: Seq<Seq<char>>,
    pub starts: Seq<u64>,
    pub selfs: Seq<SampleCount>,
    pub totals: Seq<SampleCount>,
    pub tot: SampleCount,
}

pub open spec fn zero_count() -> SampleCount {
    SampleCount { before: 0, after: 0, visual: 0 }
}

pub open spec fn plus(a: SampleCount, c: SampleCount) -> SampleCount {
    SampleCount {
        before: (a.before + c.before) as u64,
        after: (a.after + c.after) as u64,
        visual: (a.visual + c.visual) as u64,
    }
}

/// Closing the deepest open frame at the cursor.
pub open spec fn close_top_spec(s: MergeState) -> MergeState {
    let n = s.names.len() - 1;
    MergeState {
        closed: s.closed.push(
            FrameView {
                function: s.names[n],
                depth: n as usize,
                start_time: s.starts[n],
                end_time: s.tot.visual,
                self_count: s.selfs[n],
                total_count: s.totals[n],
            },
        ),
        names: s.names.drop_last(),
        starts: s.starts.drop_last(),
        selfs: s.selfs.drop_last(),
        totals: s.totals.drop_last(),
        tot: s.tot,
    }
}

/// Closing open frames, deepest first, until `p` are left open.
pub open spec fn close_to(s: MergeState, p: nat) -> MergeState
    decreases s.names.len(),
{
    if s.names.len() > p {
        close_to(close_top_spec(s), p)
    } else {
        s
    }
}

/// Opening a frame named `name` at the cursor, with zero counts.
pub open spec fn open_spec(s: MergeState, name: Seq<char>) -> MergeState {
    MergeState {
        names: s.names.push(name),
        starts: s.starts.push(s.tot.visual),
        selfs: s.selfs.push(zero_count()),
        totals: s.totals.push(zero_count()),
        ..s
    }
}

/// Opening the frames of `stack` deeper than the open ones.
pub open spec fn open_rest(s: MergeState, stack: Seq<Seq<char>>) -> MergeState
    decreases stack.len() - s.names.len(),
{
    if s.names.len() < stack.len() {
        open_rest(open_spec(s, stack[s.names.len() as int]), stack)
    } else {
        s
    }
}

/// Adding a line's count to every open frame's total, to the deepest one's
/// self count, and to the totals.
pub open spec fn attribute_spec(s: MergeState, c: SampleCount) -> MergeState {
    MergeState {
        totals: s.totals.map_values(|t: SampleCount| plus(t, c)),
        selfs: s.selfs.update(s.selfs.len() - 1, plus(s.selfs.last(), c)),
        tot: plus(s.tot, c),
        ..s
    }
}

/// Length of the common prefix of `a` and `b`, counting from `i`.
pub open spec fn common_from(a: Seq<Seq<char>>, b: Seq<Seq<char>>, i: nat) -> nat
    decreases a.len() - i,
{
    if i < a.len() && i < b.len() && a[i as int] == b[i as int] {
        common_from(a, b, i + 1)
    } else {
        i
    }
}

/// The stack of a line whose frame part has length `h`: the root, then its frames.
pub open spec fn line_stack(l: Seq<char>, h: nat) -> Seq<Seq<char>> {
    seq![Seq::<char>::empty()] + split_on(l.subrange(0, h as int), ';')
}

/// The count a parsed line adds, in the chosen metric.
pub open spec fn line_count(b: nat, a: nat, diff: bool, src: FrameWidthSource) -> SampleCount {
    SampleCount {
        before: b as u64,
        after: a as u64,
        visual: (if diff { width_of(src, b as int, a as int) as nat } else { a }) as u64,
    }
}

/// One line of input: frames deeper than the prefix shared with the open
/// frames close, the rest of the line's stack opens at the cursor, and the
/// count is attributed. In flame-chart mode the line's leaf always opens anew.
pub open spec fn step(s: MergeState, l: Seq<char>, diff: bool, flame_chart: bool, src: FrameWidthSource) -> MergeState {
    match parse_line(l, diff) {
        None => s,
        Some((h, b, a, f)) => {
            let stack = line_stack(l, h);
            let p0 = common_from(s.names, stack, 0);
            let p = if flame_chart && p0 >= stack.len() { (stack.len() - 1) as nat } else { p0 };
            attribute_spec(open_rest(close_to(s, p), stack), line_count(b, a, diff, src))
        },
    }
}

pub open spec fn initial_state() -> MergeState {
    MergeState {
        closed: Seq::empty(),
        names: Seq::empty(),
        starts: Seq::empty(),
        selfs: Seq::empty(),
        totals: Seq::empty(),
        tot: zero_count(),
    }
}

/// The merger after the lines `ls`.
pub open spec fn run(ls: Seq<Seq<char>>, diff: bool, flame_chart: bool, src: FrameWidthSource) -> MergeState
    decreases ls.len(),
{
    if ls.len() == 0 {
        initial_state()
    } else {
        step(run(ls.drop_last(), diff, flame_chart, src), ls.last(), diff, flame_chart, src)
    }
}

/// The timed frames of `ls`, in the order they close.
pub open spec fn merged(ls: Seq<Seq<char>>, diff: bool, flame_chart: bool, src: FrameWidthSource) -> Seq<FrameView> {
    close_to(run(ls, diff, flame_chart, src), 0).closed
}

/// The open frames: their names, start times and running counts.
struct OpenFrames {
    names: Vec<Vec<char>>,
    starts: Vec<u64>,
    selfs: Vec<SampleCount>,
    totals: Vec<SampleCount>,
}

/// The open frames are consistent with the cursor `tot.visual` and the totals `tot`.
spec fn open_ok(o: OpenFrames, tot: SampleCount) -> bool {
    &&& o.names@.len() == o.starts@.len()
    &&& o.starts@.len() == o.selfs@.len()
    &&& o.selfs@.len() == o.totals@.len()
    &&& o.starts@.len() > 0 ==> o.starts@[0] == 0 && o.names@[0]@ == Seq::<char>::empty()
    &&& (forall|j: int|
        #![trigger o.totals@[j]]
        0 <= j < o.totals@.len() ==> {
            &&& tot.visual - o.starts@[j] == o.totals@[j].visual
            &&& o.totals@[j].before <= tot.before
            &&& o.totals@[j].after <= tot.after
            &&& o.selfs@[j].before <= o.totals@[j].before
            &&& o.selfs@[j].after <= o.totals@[j].after
            &&& o.selfs@[j].visual <= o.totals@[j].visual
        })
    &&& (forall|j: int, k: int|
        0 <= j < k < o.starts@.len() ==> #[trigger] o.starts@[j] <= #[trigger] o.starts@[k])
}

/// The merger state that the open and closed frames and the totals make up.
spec fn state_of(o: OpenFrames, fs: Seq<TimedFrame>, tot: SampleCount) -> MergeState {
    MergeState {
        closed: frame_views(fs),
        names: views(o.names@),
        starts: o.starts@,
        selfs: o.selfs@,
        totals: o.totals@,
        tot,
    }
}

/// The closed frames are consistent with the open ones and the cursor.
spec fn closed_ok(fs: Seq<TimedFrame>, starts: Seq<u64>, now: nat) -> bool {
    &&& frames_sized(fs, now)
    &&& siblings_ordered(fs)
    &&& forall|f: int|
        0 <= f < fs.len() && #[trigger] fs[f].depth < starts.len() ==> fs[f].end_time
            <= starts[fs[f].depth as int]
}

proof fn lemma_no_valid_zero(ls: Seq<Seq<char>>, diff: bool, src: FrameWidthSource)
    requires
        valid_lines(ls, diff) == 0,
    ensures
        sum_counts(ls, diff, src) == (0nat, 0nat, 0nat),
    decreases ls.len(),
{
    if ls.len() > 0 {
        lemma_no_valid_zero(ls.drop_last(), diff, src);
    }
}

proof fn lemma_sum_mono(ls: Seq<Seq<char>>, diff: bool, src: FrameWidthSource, i: int)
    requires
        0 <= i <= ls.len(),
    ensures
        sum_counts(ls.subrange(0, i), diff, src).0 <= sum_counts(ls, diff, src).0,
        sum_counts(ls.subrange(0, i), diff, src).1 <= sum_counts(ls, diff, src).1,
        sum_counts(ls.subrange(0, i), diff, src).2 <= sum_counts(ls, diff, src).2,
    decreases ls.len() - i,
{
    if i < ls.len() {
        assert(ls.subrange(0, i) =~= ls.drop_last().subrange(0, i));
        lemma_sum_mono(ls.drop_last(), diff, src, i);
    } else {
        assert(ls.subrange(0, i) =~= ls);
    }
}

pub fn same_chars(a: &Vec<char>, b: &Vec<char>) -> (r: bool)
    ensures
        r == (a@ == b@),
{
    if a.len() != b.len() {
        return false;
    }
    let mut i: usize = 0;
    while i < a.len()
        invariant
            a@.len() == b@.len(),
            i <= a@.len(),
            forall|j: int| 0 <= j < i ==> a@[j] == b@[j],
        decreases a@.len() - i,
    {
        if a[i] != b[i] {
            return false;
        }
        i = i + 1;
    }
    assert(a@ =~= b@);
    true
}

/// Closes the deepest open frame at time `tot.visual`, appending it to `frames`.
fn close_top(open: &mut OpenFrames, frames: &mut Vec<TimedFrame>, tot: SampleCount)
    requires
        old(open).starts@.len() > 0,
        open_ok(*old(open), tot),
        closed_ok(old(frames)@, old(open).starts@, tot.visual as nat),
        counts_within(old(frames)@, tot),
        parents_ok(old(frames)@, old(open).starts@),
    ensures
        open_ok(*final(open), tot),
        closed_ok(final(frames)@, final(open).starts@, tot.visual as nat),
        counts_within(final(frames)@, tot),
        parents_ok(final(frames)@, final(open).starts@),
        final(open).starts@ == old(open).starts@.drop_last(),
        final(frames)@.len() == old(frames)@.len() + 1,
        final(frames)@.drop_last() == old(frames)@,
        final(frames)@.last().depth == old(open).starts@.len() - 1,
        final(frames)@.last().start_time == old(open).starts@.last(),
        final(frames)@.last().end_time == tot.visual,
        final(frames)@.last().function@ == old(open).names@.last()@,
        state_of(*final(open), final(frames)@, tot) == close_top_spec(state_of(*old(open), old(frames)@, tot)),
{
    let name = open.names.pop().unwrap();
    let start = open.starts.pop().unwrap();
    let self_count = open.selfs.pop().unwrap();
    let total_count = open.totals.pop().unwrap();
    let depth = open.starts.len();
    let function = string_of(&name);
    let ghost before = frames@;
    frames.push(
        TimedFrame { function, depth, start_time: start, end_time: tot.visual, self_count, total_count },
    );
    proof {
        let n = before.len() as int;
        assert(frames@.drop_last() =~= before);
        let so = state_of(*old(open), before, tot);
        let sn = state_of(*open, frames@, tot);
        let sc = close_top_spec(so);
        assert(old(open).names@.last() == name);
        assert(frame_views(frames@) =~= sc.closed) by {
            assert forall|k: int| 0 <= k < frames@.len() implies #[trigger] frame_views(frames@)[k] == sc.closed[k] by {
                if k < n {
                    assert(frames@[k] == before[k]);
                }
            }
        }
        assert(sn.names =~= sc.names);
        assert(sn.starts =~= sc.starts);
        assert(sn.selfs =~= sc.selfs);
        assert(sn.totals =~= sc.totals);
        assert forall|f: int| 0 <= f < frames@.len() implies {
            &&& #[trigger] frames@[f].start_time <= frames@[f].end_time
            &&& frames@[f].end_time <= tot.visual
            &&& frames@[f].end_time - frames@[f].start_time == frames@[f].total_count.visual
        } by {
            if f < n {
                assert(frames@[f] == before[f]);
            } else {
                assert(old(open).totals@[depth as int] == total_count);
            }
        }
        assert forall|a: int, b: int|
            0 <= a < b < frames@.len() && #[trigger] frames@[a].depth == #[trigger] frames@[b].depth
            implies frames@[a].end_time <= frames@[b].start_time by {
            assert(frames@[a] == before[a]);
            if b < n {
                assert(frames@[b] == before[b]);
            }
        }
        assert forall|f: int| 0 <= f < frames@.len() implies {
            &&& (#[trigger] frames@[f]).total_count.before <= tot.before
            &&& frames@[f].total_count.after <= tot.after
            &&& frames@[f].self_count.before <= frames@[f].total_count.before
            &&& frames@[f].self_count.after <= frames@[f].total_count.after
            &&& frames@[f].self_count.visual <= frames@[f].total_count.visual
        } by {
            if f < n {
                assert(frames@[f] == before[f]);
            } else {
                assert(old(open).totals@[depth as int] == total_count);
                assert(old(open).selfs@[depth as int] == self_count);
            }
        }
        assert forall|f: int|
            0 <= f < frames@.len() && #[trigger] frames@[f].depth < open.starts@.len() implies frames@[f].end_time
                <= open.starts@[frames@[f].depth as int] by {
            assert(frames@[f] == before[f]);
            assert(open.starts@[frames@[f].depth as int] == old(open).starts@[frames@[f].depth as int]);
        }
        assert forall|j: int| 0 <= j < open.totals@.len() implies {
            &&& open.starts@[j] <= tot.visual
            &&& tot.visual - open.starts@[j] == (#[trigger] open.totals@[j]).visual
            &&& open.totals@[j].before <= tot.before
            &&& open.totals@[j].after <= tot.after
            &&& open.selfs@[j].before <= open.totals@[j].before
            &&& open.selfs@[j].after <= open.totals@[j].after
            &&& open.selfs@[j].visual <= open.totals@[j].visual
        } by {
            assert(open.totals@[j] == old(open).totals@[j]);
        }
        assert forall|j: int, k: int| 0 <= j < k < open.starts@.len() implies #[trigger] open.starts@[j]
            <= #[trigger] open.starts@[k] by {
            assert(open.starts@[j] == old(open).starts@[j]);
            assert(open.starts@[k] == old(open).starts@[k]);
        }
        let fs = frames@;
        let ss = open.starts@;
        assert forall|i: int| 0 <= i < fs.len() && #[trigger] fs[i].depth > 0 implies (fs[i].depth - 1 < ss.len()
            && ss[fs[i].depth - 1] <= fs[i].start_time) || exists|j: int| 0 <= j < fs.len() && within_parent(fs, i, j) by {
            if i < n {
                assert(fs[i] == before[i]);
                if fs[i].depth - 1 < old(open).starts@.len() && old(open).starts@[fs[i].depth - 1] <= fs[i].start_time {
                    if fs[i].depth - 1 < ss.len() {
                        assert(ss[fs[i].depth - 1] == old(open).starts@[fs[i].depth - 1]);
                    } else {
                        assert(fs[i].depth - 1 == depth);
                        assert(fs[i].end_time <= tot.visual);
                        assert(within_parent(fs, i, n));
                    }
                } else {
                    let j = choose|j: int| 0 <= j < before.len() && within_parent(before, i, j);
                    assert(fs[j] == before[j]);
                    assert(within_parent(fs, i, j));
                }
            } else {
                assert(depth > 0);
                assert(ss[depth - 1] == old(open).starts@[depth - 1]);
                assert(old(open).starts@[depth - 1] <= old(open).starts@[depth as int]);
            }
        }
    }
}

/// Opens a frame named `name` at time `tot.visual`, with zero counts.
fn open_frame(open: &mut OpenFrames, frames: &Vec<TimedFrame>, name: Vec<char>, tot: SampleCount)
    requires
        open_ok(*old(open), tot),
        closed_ok(frames@, old(open).starts@, tot.visual as nat),
        old(open).starts@.len() == 0 ==> tot.visual == 0 && name@ == Seq::<char>::empty(),
        parents_ok(frames@, old(open).starts@),
    ensures
        open_ok(*final(open), tot),
        closed_ok(frames@, final(open).starts@, tot.visual as nat),
        parents_ok(frames@, final(open).starts@),
        final(open).starts@.len() == old(open).starts@.len() + 1,
        state_of(*final(open), frames@, tot) == open_spec(state_of(*old(open), frames@, tot), name@),
{
    let ghost o = *open;
    let ghost nm = name@;
    open.names.push(name);
    open.starts.push(tot.visual);
    open.selfs.push(SampleCount::zero());
    open.totals.push(SampleCount::zero());
    proof {
        let n = o.starts@.len() as int;
        assert forall|j: int| 0 <= j < open.totals@.len() implies {
            &&& open.starts@[j] <= tot.visual
            &&& tot.visual - open.starts@[j] == (#[trigger] open.totals@[j]).visual
            &&& open.totals@[j].before <= tot.before
            &&& open.totals@[j].after <= tot.after
            &&& open.selfs@[j].before <= open.totals@[j].before
            &&& open.selfs@[j].after <= open.totals@[j].after
            &&& open.selfs@[j].visual <= open.totals@[j].visual
        } by {
            if j < n {
                assert(open.totals@[j] == o.totals@[j]);
                assert(open.starts@[j] == o.starts@[j]);
                assert(open.selfs@[j] == o.selfs@[j]);
                assert(o.starts@[j] <= tot.visual);
            } else {
                assert(open.starts@[j] == tot.visual);
            }
        }
        assert forall|j: int, k: int| 0 <= j < k < open.starts@.len() implies #[trigger] open.starts@[j]
            <= #[trigger] open.starts@[k] by {
            assert(open.starts@[j] == o.starts@[j]);
            assert(o.totals@[j].visual >= 0);
            if k < n {
                assert(open.starts@[k] == o.starts@[k]);
            }
        }
        assert forall|f: int|
            0 <= f < frames@.len() && #[trigger] frames@[f].depth < open.starts@.len() implies frames@[f].end_time
                <= open.starts@[frames@[f].depth as int] by {
            assert(frames@[f].start_time <= frames@[f].end_time);
            if frames@[f].depth < n {
                assert(open.starts@[frames@[f].depth as int] == o.starts@[frames@[f].depth as int]);
            }
        }
        assert forall|i: int| 0 <= i < frames@.len() && #[trigger] frames@[i].depth > 0 implies (frames@[i].depth - 1
            < open.starts@.len() && open.starts@[frames@[i].depth - 1] <= frames@[i].start_time) || exists|j: int|
            0 <= j < frames@.len() && within_parent(frames@, i, j) by {
            if frames@[i].depth - 1 < n {
                assert(open.starts@[frames@[i].depth - 1] == o.starts@[frames@[i].depth - 1]);
            }
        }
        let so = open_spec(state_of(o, frames@, tot), nm);
        assert(views(open.names@) =~= so.names);
        assert(open.starts@ =~= so.starts);
        assert(open.selfs@ =~= so.selfs);
        assert(open.totals@ =~= so.totals);
        if n == 0 {
            assert(open.names@[0] == name);
            assert(open.starts@[0] == tot.visual);
        } else {
            assert(open.names@[0] == o.names@[0]);
            assert(open.starts@[0] == o.starts@[0]);
        }
    }
}

/// Adds `c` to the totals of all open frames and to the self count of the deepest.
fn attribute(open: &mut OpenFrames, frames: &Vec<TimedFrame>, c: SampleCount, tot: SampleCount) -> (r: SampleCount)
    requires
        old(open).starts@.len() > 0,
        open_ok(*old(open), tot),
        closed_ok(frames@, old(open).starts@, tot.visual as nat),
        counts_within(frames@, tot),
        parents_ok(frames@, old(open).starts@),
        c.before + tot.before <= MAX_SAMPLES,
        c.after + tot.after <= MAX_SAMPLES,
        c.visual + tot.visual <= MAX_SAMPLES,
    ensures
        r.before == tot.before + c.before,
        r.after == tot.after + c.after,
        r.visual == tot.visual + c.visual,
        open_ok(*final(open), r),
        closed_ok(frames@, final(open).starts@, r.visual as nat),
        counts_within(frames@, r),
        parents_ok(frames@, final(open).starts@),
        final(open).starts@ == old(open).starts@,
        state_of(*final(open), frames@, r) == attribute_spec(state_of(*old(open), frames@, tot), c),
{
    let ghost o = *open;
    let n = open.totals.len();
    let mut j: usize = 0;
    while j < n
        invariant
            n == o.totals@.len(),
            open.totals@.len() == n,
            open.names == o.names,
            open.starts == o.starts,
            open.selfs == o.selfs,
            open_ok(o, tot),
            c.before + tot.before <= MAX_SAMPLES,
            c.after + tot.after <= MAX_SAMPLES,
            c.visual + tot.visual <= MAX_SAMPLES,
            j <= n,
            forall|k: int|
                0 <= k < j ==> {
                    &&& (#[trigger] open.totals@[k]).before == o.totals@[k].before + c.before
                    &&& open.totals@[k].after == o.totals@[k].after + c.after
                    &&& open.totals@[k].visual == o.totals@[k].visual + c.visual
                },
            forall|k: int| j <= k < n ==> #[trigger] open.totals@[k] == o.totals@[k],
        decreases n - j,
    {
        let t = open.totals[j];
        assert(t == o.totals@[j as int]);
        let t2 = t.add(&c);
        open.totals.set(j, t2);
        j = j + 1;
    }
    let last = n - 1;
    assert(o.totals@[last as int].before >= 0);
    let s = open.selfs[last];
    let s2 = s.add(&c);
    open.selfs.set(last, s2);
    let r = tot.add(&c);
    proof {
        let sa = attribute_spec(state_of(o, frames@, tot), c);
        assert(open.totals@ =~= sa.totals) by {
            assert forall|k: int| 0 <= k < open.totals@.len() implies #[trigger] open.totals@[k] == sa.totals[k] by {
                assert(o.totals@[k].visual >= 0);
            }
        }
        assert(open.selfs@ =~= sa.selfs);
        assert(r == sa.tot);
        assert forall|j: int| 0 <= j < open.totals@.len() implies {
            &&& open.starts@[j] <= r.visual
            &&& r.visual - open.starts@[j] == (#[trigger] open.totals@[j]).visual
            &&& open.totals@[j].before <= r.before
            &&& open.totals@[j].after <= r.after
            &&& open.selfs@[j].before <= open.totals@[j].before
            &&& open.selfs@[j].after <= open.totals@[j].after
            &&& open.selfs@[j].visual <= open.totals@[j].visual
        } by {
            assert(o.totals@[j].visual >= 0);
            assert(open.starts@[j] == o.starts@[j]);
            if j != last {
                assert(open.selfs@[j] == o.selfs@[j]);
            } else {
                assert(open.selfs@[j] == s2);
            }
        }
        assert forall|f: int|
            0 <= f < frames@.len() && #[trigger] frames@[f].depth < open.starts@.len() implies frames@[f].end_time
                <= open.starts@[frames@[f].depth as int] by {
        }
        assert forall|j: int, k: int| 0 <= j < k < open.starts@.len() implies #[trigger] open.starts@[j]
            <= #[trigger] open.starts@[k] by {
        }
    }
    r
}

/// Folds `lines` (tidy folded-stack lines, already in merge order) into timed
/// frames. Each line's stack is the synthetic root `""` followed by its
/// `;`-separated frames. In flame-chart mode every line opens a leaf frame
/// of its own.
#[verifier::rlimit(100)]
pub fn merge_frames(lines: &Vec<Vec<char>>, diff: bool, flame_chart: bool, src: FrameWidthSource) -> (r: Result<Merged, TooManySamples>)
    ensures
        ({
            let ls = crate::text::views(lines@);
            let t = sum_counts(ls, diff, src);
            match r {
                Err(_) => too_many(t),
                Ok(m) => {
                    &&& !too_many(t)
                    &&& m.ignored == ls.len() - valid_lines(ls, diff)
                    &&& m.fractional == any_fractional(ls, diff)
                    &&& (valid_lines(ls, diff) == 0 <==> m.total is None)
                    &&& (m.total is None <==> m.frames@.len() == 0)
                    &&& (m.total matches Some(c) ==> c.before == t.0 && c.after == t.1 && c.visual == t.2)
                    &&& frames_sized(m.frames@, t.2)
                    &&& siblings_ordered(m.frames@)
                    &&& single_root(m.frames@, t.2)
                    &&& (m.total matches Some(c) ==> counts_within(m.frames@, c))
                    &&& nested(m.frames@)
                    &&& frame_views(m.frames@) == merged(ls, diff, flame_chart, src)
                },
            }
        }),
{
    let ghost ls = crate::text::views(lines@);
    let mut frames: Vec<TimedFrame> = Vec::new();
    let mut open = OpenFrames { names: Vec::new(), starts: Vec::new(), selfs: Vec::new(), totals: Vec::new() };
    let mut tot = SampleCount::zero();
    let mut ignored: usize = 0;
    let mut fractional = false;
    let mut i: usize = 0;
    assert(ls.subrange(0, 0) =~= Seq::<Seq<char>>::empty());
    proof {
        let st = state_of(open, frames@, tot);
        assert(st.closed =~= Seq::<FrameView>::empty());
        assert(st.names =~= Seq::<Seq<char>>::empty());
        assert(st.starts =~= Seq::<u64>::empty());
        assert(st.selfs =~= Seq::<SampleCount>::empty());
        assert(st.totals =~= Seq::<SampleCount>::empty());
        assert(st == initial_state());
    }
    while i < lines.len()
        invariant
            ls == crate::text::views(lines@),
            i <= lines@.len(),
            ({
                let pre = ls.subrange(0, i as int);
                let t = sum_counts(pre, diff, src);
                &&& tot.before == t.0 && tot.after == t.1 && tot.visual == t.2
                &&& !too_many(t)
                &&& ignored == i - valid_lines(pre, diff)
                &&& fractional == any_fractional(pre, diff)
                &&& (valid_lines(pre, diff) == 0 <==> open.starts@.len() == 0)
                &&& (valid_lines(pre, diff) == 0 ==> t == (0nat, 0nat, 0nat))
            }),
            open.starts@.len() == 0 ==> frames@.len() == 0,
            open_ok(open, tot),
            closed_ok(frames@, open.starts@, tot.visual as nat),
            counts_within(frames@, tot),
            parents_ok(frames@, open.starts@),
            forall|f: int| 0 <= f < frames@.len() ==> #[trigger] frames@[f].depth > 0,
            state_of(open, frames@, tot) == run(ls.subrange(0, i as int), diff, flame_chart, src),
        decreases lines@.len() - i,
    {
        let line = &lines[i];
        let ghost pre = ls.subrange(0, i as int);
        let ghost next = ls.subrange(0, i + 1);
        assert(next.drop_last() =~= pre);
        assert(next.last() == line@);
        let ghost s0 = state_of(open, frames@, tot);
        match parse_line_counts(line, diff) {
            None => {
                ignored = ignored + 1;
            },
            Some(lc) => {
                if lc.before > MAX_SAMPLES - tot.before || lc.after > MAX_SAMPLES - tot.after {
                    proof {
                        lemma_sum_mono(ls, diff, src, i + 1);
                    }
                    return Err(TooManySamples);
                }
                let vis = if diff {
                    src.apply(lc.before, lc.after)
                } else {
                    lc.after
                };
                if vis > MAX_SAMPLES - tot.visual {
                    proof {
                        lemma_sum_mono(ls, diff, src, i + 1);
                    }
                    return Err(TooManySamples);
                }
                let c = SampleCount { before: lc.before, after: lc.after, visual: vis };
                // the stack: the root, then the line's frames
                let pieces = split_range(line, 0, lc.frames_end, ';');
                proof {
                    crate::text::lemma_split_nonempty(line@.subrange(0, lc.frames_end as int), ';');
                }
                let mut stack: Vec<Vec<char>> = Vec::new();
                stack.push(Vec::new());
                let mut q: usize = 0;
                assert(views(stack@) =~= seq![Seq::<char>::empty()] + views(pieces@).subrange(0, 0));
                while q < pieces.len()
                    invariant
                        q <= pieces@.len(),
                        stack@.len() == q + 1,
                        stack@[0]@ == Seq::<char>::empty(),
                        views(stack@) == seq![Seq::<char>::empty()] + views(pieces@).subrange(0, q as int),
                    decreases pieces@.len() - q,
                {
                    let ghost before = views(stack@);
                    let piece = copy_all(&pieces[q]);
                    stack.push(piece);
                    q = q + 1;
                    assert(views(stack@) =~= before.push(piece@));
                    assert(views(stack@) =~= seq![Seq::<char>::empty()] + views(pieces@).subrange(0, q as int));
                }
                assert(views(pieces@).subrange(0, pieces@.len() as int) =~= views(pieces@));
                let ghost stk = views(stack@);
                assert(stk == line_stack(line@, lc.frames_end as nat));
                // the prefix shared with the open frames
                let mut p: usize = 0;
                while p < open.names.len() && p < stack.len() && same_chars(&open.names[p], &stack[p])
                    invariant
                        p <= open.names@.len(),
                        p <= stack@.len(),
                        stk == views(stack@),
                        common_from(views(open.names@), stk, 0) == common_from(views(open.names@), stk, p as nat),
                    decreases stack@.len() - p,
                {
                    assert(views(open.names@)[p as int] == stk[p as int]);
                    p = p + 1;
                }
                assert(common_from(views(open.names@), stk, p as nat) == p);
                let ghost p0 = p as nat;
                assert(p0 == common_from(s0.names, stk, 0));
                if open.names.len() > 0 && p == 0 {
                    assert(open.names@[0]@ == stack@[0]@);
                    assert(false);
                }
                if flame_chart && p >= stack.len() {
                    p = stack.len() - 1;
                }
                // close the frames deeper than the shared prefix
                while open.starts.len() > p
                    invariant
                        open.starts@.len() > 0 ==> p >= 1,
                        open.starts@.len() == 0 ==> tot.visual == 0,
                        close_to(state_of(open, frames@, tot), p as nat) == close_to(s0, p as nat),
                        stack@.len() >= 2,
                        open_ok(open, tot),
                        closed_ok(frames@, open.starts@, tot.visual as nat),
                        counts_within(frames@, tot),
                        parents_ok(frames@, open.starts@),
                        forall|f: int| 0 <= f < frames@.len() ==> #[trigger] frames@[f].depth > 0,
                    decreases open.starts@.len(),
                {
                    let ghost before = frames@;
                    close_top(&mut open, &mut frames, tot);
                    proof {
                        assert forall|f: int| 0 <= f < frames@.len() implies #[trigger] frames@[f].depth > 0 by {
                            if f < before.len() {
                                assert(frames@[f] == before[f]);
                            }
                        }
                    }
                }
                let ghost s1 = close_to(s0, p as nat);
                assert(state_of(open, frames@, tot) == s1);
                // open the new frames
                let mut d: usize = open.starts.len();
                while d < stack.len()
                    invariant
                        open.starts@.len() == d,
                        d <= stack@.len(),
                        stack@[0]@ == Seq::<char>::empty(),
                        d == 0 ==> tot.visual == 0,
                        open_ok(open, tot),
                        closed_ok(frames@, open.starts@, tot.visual as nat),
                        parents_ok(frames@, open.starts@),
                        stk == views(stack@),
                        open_rest(state_of(open, frames@, tot), stk) == open_rest(s1, stk),
                    decreases stack@.len() - d,
                {
                    let name = copy_all(&stack[d]);
                    assert(name@ == stk[d as int]);
                    assert(d == 0 ==> name@ == Seq::<char>::empty());
                    open_frame(&mut open, &frames, name, tot);
                    d = d + 1;
                }
                let ghost s2 = open_rest(s1, stk);
                assert(state_of(open, frames@, tot) == s2);
                tot = attribute(&mut open, &frames, c, tot);
                if lc.fractional {
                    fractional = true;
                }
                proof {
                    match parse_line(line@, diff) {
                        Some((hh, bb, aa, ff)) => {
                            assert(hh == lc.frames_end && bb == lc.before && aa == lc.after);
                            assert(c == line_count(bb, aa, diff, src));
                            assert(state_of(open, frames@, tot) == step(s0, line@, diff, flame_chart, src));
                        },
                        None => {
                            assert(false);
                        },
                    }
                }
            },
        }
        i = i + 1;
    }
    assert(ls.subrange(0, lines@.len() as int) =~= ls);
    let ghost sr = run(ls, diff, flame_chart, src);
    let any = open.starts.len() > 0;
    if any {
        while open.starts.len() > 1
            invariant
                open.starts@.len() >= 1,
                open_ok(open, tot),
                closed_ok(frames@, open.starts@, tot.visual as nat),
                counts_within(frames@, tot),
                parents_ok(frames@, open.starts@),
                forall|f: int| 0 <= f < frames@.len() ==> #[trigger] frames@[f].depth > 0,
                close_to(state_of(open, frames@, tot), 0) == close_to(sr, 0),
            decreases open.starts@.len(),
        {
            let ghost before = frames@;
            close_top(&mut open, &mut frames, tot);
            proof {
                assert forall|f: int| 0 <= f < frames@.len() implies #[trigger] frames@[f].depth > 0 by {
                    if f < before.len() {
                        assert(frames@[f] == before[f]);
                    }
                }
            }
        }
        let ghost before = frames@;
        let ghost o = open;
        let ghost sb = state_of(open, frames@, tot);
        assert(close_to(sb, 0) == close_to(close_top_spec(sb), 0));
        close_top(&mut open, &mut frames, tot);
        proof {
            let sn = state_of(open, frames@, tot);
            assert(sn == close_top_spec(sb));
            assert(sn.names.len() == 0);
            assert(close_to(sn, 0) == sn);
            assert(sn == close_to(sr, 0));
            assert forall|f: int| 0 <= f < frames@.len() - 1 implies #[trigger] frames@[f].depth > 0 by {
                assert(frames@[f] == before[f]);
            }
        }
    }
    assert(open.starts@.len() == 0 ==> nested(frames@));
    proof {
        if !any {
            assert(state_of(open, frames@, tot) == sr);
            assert(close_to(sr, 0) == sr);
        }
    }
    assert(frame_views(frames@) == merged(ls, diff, flame_chart, src));
    let total = if any {
        Some(tot)
    } else {
        None
    };
    Ok(Merged { frames, total, ignored, fractional })
}

} // verus!
