//! Layout: pruning narrow frames, the image height, and the global delta maxima.
use vstd::prelude::*;
use crate::color::{abs, abs_diff, bounds_deltas, counts_ok, share_delta_abs, share_delta_num, DeltaMax};
use crate::counts::{SampleCount, MAX_SAMPLES};
use crate::merge::TimedFrame;
use crate::options::{ypad_bottom, ypad_top, Options};

verus! {

/// A frame at least `min_ppm` millionths of the total wide; every frame
/// when the total is 0.
pub open spec fn wide_enough(f: TimedFrame, total: nat, min_ppm: nat) -> bool {
    (f.end_time - f.start_time) * 1_000_000 >= min_ppm * total
}

/// `kept` lists, in order, exactly the indices of the frames of `fs` that are wide enough.
pub open spec fn is_pruned(kept: Seq<usize>, fs: Seq<TimedFrame>, total: nat, min_ppm: nat) -> bool {
    &&& forall|j: int| 0 <= j < kept.len() ==> #[trigger] kept[j] < fs.len()
    &&& forall|j: int| 0 <= j < kept.len() ==> wide_enough(fs[#[trigger] kept[j] as int], total, min_ppm)
    &&& forall|j: int, k: int| 0 <= j < k < kept.len() ==> #[trigger] kept[j] < #[trigger] kept[k]
    &&& forall|i: int|
        0 <= i < fs.len() && wide_enough(#[trigger] fs[i], total, min_ppm) ==> exists|j: int|
            0 <= j < kept.len() && kept[j] == i
}

/// `d` is the largest depth among the kept frames, 0 when none is kept.
pub open spec fn is_depth_max(d: usize, kept: Seq<usize>, fs: Seq<TimedFrame>) -> bool {
    &&& forall|j: int| 0 <= j < kept.len() ==> fs[#[trigger] kept[j] as int].depth <= d
    &&& kept.len() == 0 ==> d == 0
    &&& kept.len() > 0 ==> exists|j: int| 0 <= j < kept.len() && fs[#[trigger] kept[j] as int].depth == d
}

/// Height of the image: the frame rows of depths `0..=depth_max` and the padding.
pub open spec fn height_of(depth_max: nat, frame_height: nat, font_size: nat, subtitle: bool, dir: crate::options::Direction) -> nat {
    (depth_max + 1) * frame_height + ypad_top(font_size, subtitle, dir) + ypad_bottom(font_size, dir)
}

/// The indices of the frames at least `min_ppm` millionths of `total` wide,
/// and the largest depth among them.
pub fn prune(fs: &Vec<TimedFrame>, total: u64, min_ppm: u64) -> (r: (Vec<usize>, usize))
    requires
        total <= MAX_SAMPLES,
        forall|i: int| 0 <= i < fs@.len() ==> #[trigger] fs@[i].start_time <= fs@[i].end_time <= total,
    ensures
        is_pruned(r.0@, fs@, total as nat, min_ppm as nat),
        is_depth_max(r.1, r.0@, fs@),
{
    let mut kept: Vec<usize> = Vec::new();
    let mut dmax: usize = 0;
    let mut i: usize = 0;
    while i < fs.len()
        invariant
            i <= fs@.len(),
            total <= MAX_SAMPLES,
            forall|k: int| 0 <= k < fs@.len() ==> #[trigger] fs@[k].start_time <= fs@[k].end_time <= total,
            forall|j: int| 0 <= j < kept@.len() ==> #[trigger] kept@[j] < i,
            forall|j: int| 0 <= j < kept@.len() ==> wide_enough(fs@[#[trigger] kept@[j] as int], total as nat, min_ppm as nat),
            forall|j: int, k: int| 0 <= j < k < kept@.len() ==> #[trigger] kept@[j] < #[trigger] kept@[k],
            forall|m: int|
                0 <= m < i && wide_enough(#[trigger] fs@[m], total as nat, min_ppm as nat) ==> exists|j: int|
                    0 <= j < kept@.len() && kept@[j] == m,
            forall|j: int| 0 <= j < kept@.len() ==> fs@[#[trigger] kept@[j] as int].depth <= dmax,
            kept@.len() == 0 ==> dmax == 0,
            kept@.len() > 0 ==> exists|j: int| 0 <= j < kept@.len() && fs@[#[trigger] kept@[j] as int].depth == dmax,
        decreases fs@.len() - i,
    {
        let f = &fs[i];
        let w = (f.end_time - f.start_time) as u128;
        proof {
            assert(w * 1_000_000 <= 0x1_0000_0000_0000_0000 * 1_000_000) by (nonlinear_arith)
                requires w <= 0x1_0000_0000_0000_0000;
            assert(min_ppm * total <= 0x1_0000_0000_0000_0000 * 0x10_0000_0000_0000) by (nonlinear_arith)
                requires min_ppm <= 0x1_0000_0000_0000_0000, total <= 0x10_0000_0000_0000;
        }
        if w * 1_000_000 >= (min_ppm as u128) * (total as u128) {
            let ghost old_kept = kept@;
            let ghost old_dmax = dmax;
            kept.push(i);
            if kept.len() == 1 || f.depth > dmax {
                dmax = f.depth;
            }
            proof {
                let n = old_kept.len() as int;
                assert(kept@[n] == i);
                assert forall|m: int|
                    0 <= m < i + 1 && wide_enough(#[trigger] fs@[m], total as nat, min_ppm as nat) implies exists|j: int|
                        0 <= j < kept@.len() && kept@[j] == m by {
                    if m < i {
                        let j0 = choose|j: int| 0 <= j < old_kept.len() && old_kept[j] == m;
                        assert(kept@[j0] == m);
                    } else {
                        assert(kept@[n] == m);
                    }
                }
                assert forall|j: int| 0 <= j < kept@.len() implies fs@[#[trigger] kept@[j] as int].depth <= dmax by {
                    if j < n {
                        assert(kept@[j] == old_kept[j]);
                    }
                }
                if dmax == f.depth {
                    assert(fs@[kept@[n] as int].depth == dmax);
                } else {
                    let j0 = choose|j: int| 0 <= j < old_kept.len() && fs@[#[trigger] old_kept[j] as int].depth == old_dmax;
                    assert(kept@[j0] == old_kept[j0]);
                }
            }
        }
        i = i + 1;
    }
    (kept, dmax)
}

/// The global delta maxima over `fs`.
pub fn delta_maxima(fs: &Vec<TimedFrame>, t: &SampleCount) -> (m: DeltaMax)
    requires
        forall|i: int|
            0 <= i < fs@.len() ==> counts_ok(#[trigger] fs@[i].self_count, *t) && counts_ok(
                fs@[i].total_count,
                *t,
            ),
    ensures
        bounds_deltas(m, fs@, *t),
        m.self_delta <= MAX_SAMPLES,
        m.total_delta <= MAX_SAMPLES,
        m.self_share <= crate::color::max1(t.after as int) * crate::color::max1(t.before as int),
        m.total_share <= crate::color::max1(t.after as int) * crate::color::max1(t.before as int),
{
    let mut m = DeltaMax { self_delta: 0, total_delta: 0, self_share: 0, total_share: 0 };
    let mut i: usize = 0;
    let ghost den = crate::color::max1(t.after as int) * crate::color::max1(t.before as int);
    while i < fs.len()
        invariant
            i <= fs@.len(),
            den == crate::color::max1(t.after as int) * crate::color::max1(t.before as int),
            forall|k: int|
                0 <= k < fs@.len() ==> counts_ok(#[trigger] fs@[k].self_count, *t) && counts_ok(
                    fs@[k].total_count,
                    *t,
                ),
            bounds_deltas(m, fs@.subrange(0, i as int), *t),
            m.self_delta <= MAX_SAMPLES,
            m.total_delta <= MAX_SAMPLES,
            m.self_share <= den,
            m.total_share <= den,
        decreases fs@.len() - i,
    {
        let f = &fs[i];
        let sd = abs_diff(f.self_count.after, f.self_count.before);
        let td = abs_diff(f.total_count.after, f.total_count.before);
        let ss = share_delta_abs(f.self_count.after, f.self_count.before, t.after, t.before);
        let ts = share_delta_abs(f.total_count.after, f.total_count.before, t.after, t.before);
        let ghost old_m = m;
        let ghost pre = fs@.subrange(0, i as int);
        let ghost next = fs@.subrange(0, i + 1);
        if i == 0 || sd > m.self_delta {
            m.self_delta = sd;
        }
        if i == 0 || td > m.total_delta {
            m.total_delta = td;
        }
        if i == 0 || ss > m.self_share {
            m.self_share = ss;
        }
        if i == 0 || ts > m.total_share {
            m.total_share = ts;
        }
        proof {
            assert(next[i as int] == *f);
            assert forall|k: int| 0 <= k < next.len() implies {
                &&& abs(#[trigger] next[k].self_count.after - next[k].self_count.before) <= m.self_delta
                &&& abs(next[k].total_count.after - next[k].total_count.before) <= m.total_delta
                &&& abs(share_delta_num(next[k].self_count.after as int, next[k].self_count.before as int, t.after as int, t.before as int)) <= m.self_share
                &&& abs(share_delta_num(next[k].total_count.after as int, next[k].total_count.before as int, t.after as int, t.before as int)) <= m.total_share
            } by {
                if k < i {
                    assert(next[k] == pre[k]);
                }
            }
            let last = i as int;
            if i == 0 {
                assert(abs(next[last].self_count.after - next[last].self_count.before) == m.self_delta);
                assert(abs(next[last].total_count.after - next[last].total_count.before) == m.total_delta);
                assert(abs(share_delta_num(next[last].self_count.after as int, next[last].self_count.before as int, t.after as int, t.before as int)) == m.self_share);
                assert(abs(share_delta_num(next[last].total_count.after as int, next[last].total_count.before as int, t.after as int, t.before as int)) == m.total_share);
            } else {
                if m.self_delta == sd {
                    assert(abs(next[last].self_count.after - next[last].self_count.before) == m.self_delta);
                } else {
                    let k = choose|k: int| 0 <= k < pre.len() && abs(#[trigger] pre[k].self_count.after - pre[k].self_count.before) == old_m.self_delta;
                    assert(next[k] == pre[k]);
                }
                if m.total_delta == td {
                    assert(abs(next[last].total_count.after - next[last].total_count.before) == m.total_delta);
                } else {
                    let k = choose|k: int| 0 <= k < pre.len() && abs(#[trigger] pre[k].total_count.after - pre[k].total_count.before) == old_m.total_delta;
                    assert(next[k] == pre[k]);
                }
                if m.self_share == ss {
                    assert(abs(share_delta_num(next[last].self_count.after as int, next[last].self_count.before as int, t.after as int, t.before as int)) == m.self_share);
                } else {
                    let k = choose|k: int| 0 <= k < pre.len() && abs(share_delta_num(#[trigger] pre[k].self_count.after as int, pre[k].self_count.before as int, t.after as int, t.before as int)) == old_m.self_share;
                    assert(next[k] == pre[k]);
                }
                if m.total_share == ts {
                    assert(abs(share_delta_num(next[last].total_count.after as int, next[last].total_count.before as int, t.after as int, t.before as int)) == m.total_share);
                } else {
                    let k = choose|k: int| 0 <= k < pre.len() && abs(share_delta_num(#[trigger] pre[k].total_count.after as int, pre[k].total_count.before as int, t.after as int, t.before as int)) == old_m.total_share;
                    assert(next[k] == pre[k]);
                }
            }
        }
        i = i + 1;
    }
    assert(fs@.subrange(0, fs@.len() as int) =~= fs@);
    m
}

/// `height_of` for the options and `depth_max`.
pub fn image_height(opt: &Options, depth_max: usize) -> (r: u128)
    ensures
        r == height_of(depth_max as nat, opt.frame_height as nat, opt.font_size as nat, opt.subtitle is Some, opt.direction),
{
    proof {
        assert((depth_max + 1) * opt.frame_height <= 0x1_0000_0000_0000_0000 * 0x1_0000_0000) by (nonlinear_arith)
            requires depth_max + 1 <= 0x1_0000_0000_0000_0000, opt.frame_height <= 0x1_0000_0000;
    }
    (depth_max as u128 + 1) * (opt.frame_height as u128) + (opt.ypad1() as u128) + (opt.ypad2() as u128)
}

} // verus!
