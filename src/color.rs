//! Colours of the rectangles, and the differential deltas behind them.
use vstd::prelude::*;
use vstd::string::StrSliceExecFns;
use crate::counts::SampleCount;
use crate::merge::TimedFrame;

verus! {

#[derive(Debug, Clone, Copy, PartialEq, Eq, Structural)]
pub struct Rgb {
    pub r: u8,
    pub g: u8,
    pub b: u8,
}

/// Colour of frames named `--`: very dark grey.
pub open spec fn vdgrey() -> Rgb {
    Rgb { r: 160, g: 160, b: 160 }
}

/// Colour of frames named `-`: dark grey.
pub open spec fn dgrey() -> Rgb {
    Rgb { r: 200, g: 200, b: 200 }
}

pub open spec fn max1(x: int) -> int {
    if x < 1 { 1 } else { x }
}

/// Numerator of `x/ta - y/tb` over `max1(ta) * max1(tb)`: the change of a
/// share between the two datasets, a dataset with no samples counting as 0.
pub open spec fn share_delta_num(x: int, y: int, ta: int, tb: int) -> int {
    x * max1(tb) - y * max1(ta)
}

pub open spec fn abs(x: int) -> int {
    if x < 0 { -x } else { x }
}

/// `v` clamped to `[-m, m]`.
pub open spec fn clamp(v: int, m: int) -> int {
    if v > m { m } else if v < -m { -m } else { v }
}

/// The diverging red-blue scale: more samples red, fewer blue, none white.
pub open spec fn scale_color(v: int, max: int) -> Rgb {
    if v == 0 {
        Rgb { r: 250, g: 250, b: 250 }
    } else if v > 0 {
        let c = (100 + 150 * (max - v) / max) as u8;
        Rgb { r: 255, g: c, b: c }
    } else {
        let c = (100 + 150 * (max + v) / max) as u8;
        Rgb { r: c, g: c, b: 255 }
    }
}

/// Largest magnitudes of the deltas over all frames, used to scale colours.
#[derive(Debug, Clone, Copy, PartialEq, Eq, Structural)]
pub struct DeltaMax {
    /// Largest `|self.after - self.before|`.
    pub self_delta: u64,
    /// Largest `|total.after - total.before|`.
    pub total_delta: u64,
    /// Largest `|share_delta_num|` of self counts.
    pub self_share: u128,
    /// Largest `|share_delta_num|` of total counts.
    pub total_share: u128,
}

pub open spec fn counts_ok(c: SampleCount, t: SampleCount) -> bool {
    c.before <= t.before && c.after <= t.after && t.before <= crate::counts::MAX_SAMPLES && t.after
        <= crate::counts::MAX_SAMPLES
}

/// `m` bounds the deltas of every frame, and is 0 when there are none.
pub open spec fn bounds_deltas(m: DeltaMax, fs: Seq<TimedFrame>, t: SampleCount) -> bool {
    &&& forall|i: int|
        0 <= i < fs.len() ==> {
            &&& abs(#[trigger] fs[i].self_count.after - fs[i].self_count.before) <= m.self_delta
            &&& abs(fs[i].total_count.after - fs[i].total_count.before) <= m.total_delta
            &&& abs(share_delta_num(fs[i].self_count.after as int, fs[i].self_count.before as int, t.after as int, t.before as int)) <= m.self_share
            &&& abs(share_delta_num(fs[i].total_count.after as int, fs[i].total_count.before as int, t.after as int, t.before as int)) <= m.total_share
        }
    &&& fs.len() == 0 ==> m.self_delta == 0 && m.total_delta == 0 && m.self_share == 0 && m.total_share == 0
    &&& fs.len() > 0 ==> {
        &&& exists|i: int| 0 <= i < fs.len() && abs(#[trigger] fs[i].self_count.after - fs[i].self_count.before) == m.self_delta
        &&& exists|i: int| 0 <= i < fs.len() && abs(#[trigger] fs[i].total_count.after - fs[i].total_count.before) == m.total_delta
        &&& exists|i: int| 0 <= i < fs.len() && abs(share_delta_num(#[trigger] fs[i].self_count.after as int, fs[i].self_count.before as int, t.after as int, t.before as int)) == m.self_share
        &&& exists|i: int| 0 <= i < fs.len() && abs(share_delta_num(#[trigger] fs[i].total_count.after as int, fs[i].total_count.before as int, t.after as int, t.before as int)) == m.total_share
    }
}

pub fn abs_diff(a: u64, b: u64) -> (r: u64)
    ensures
        r == abs(a - b),
{
    if a >= b { a - b } else { b - a }
}

/// `|share_delta_num(x, y, ta, tb)|`.
pub fn share_delta_abs(x: u64, y: u64, ta: u64, tb: u64) -> (r: u128)
    requires
        x <= ta <= crate::counts::MAX_SAMPLES,
        y <= tb <= crate::counts::MAX_SAMPLES,
    ensures
        r == abs(share_delta_num(x as int, y as int, ta as int, tb as int)),
        r <= max1(ta as int) * max1(tb as int),
{
    let ta1: u128 = if ta < 1 { 1 } else { ta as u128 };
    let tb1: u128 = if tb < 1 { 1 } else { tb as u128 };
    proof {
        assert(x * tb1 <= ta1 * tb1) by (nonlinear_arith)
            requires x <= ta1;
        assert(y * ta1 <= ta1 * tb1) by (nonlinear_arith)
            requires y <= tb1;
        assert(ta1 * tb1 <= 0x10_0000_0000_0000 * 0x10_0000_0000_0000) by (nonlinear_arith)
            requires ta1 <= 0x10_0000_0000_0000, tb1 <= 0x10_0000_0000_0000;
    }
    let p = x as u128 * tb1;
    let q = y as u128 * ta1;
    if p >= q { p - q } else { q - p }
}

/// Integer square root: the largest `r` with `r * r <= n`.
pub fn isqrt(n: u64) -> (r: u64)
    requires
        n <= 4_000_000,
    ensures
        r * r <= n < (r + 1) * (r + 1),
{
    let mut r: u64 = 0;
    loop
        invariant
            r * r <= n <= 4_000_000,
            r <= 2000,
        ensures
            r * r <= n < (r + 1) * (r + 1),
        decreases 2000 - r,
    {
        if r == 2000 {
            assert((r + 1) * (r + 1) > 4_000_000) by (nonlinear_arith)
                requires r == 2000;
            break;
        }
        assert((r + 1) * (r + 1) <= 2001 * 2001) by (nonlinear_arith)
            requires r < 2000;
        let s = (r + 1) * (r + 1);
        if s > n {
            break;
        }
        r = r + 1;
    }
    r
}

/// The diverging scale for a value already clamped to `[-max, max]`.
pub fn color_scale(v: i64, max: u64) -> (r: Rgb)
    requires
        -(max as int) <= v <= max,
        max <= 0x10_0000_0000_0000,
    ensures
        r == scale_color(v as int, max as int),
{
    if v == 0 {
        Rgb { r: 250, g: 250, b: 250 }
    } else if v > 0 {
        let num: u128 = 150 * (max as u128 - v as u128);
        proof {
            assert(150 * (max as int - v as int) / (max as int) <= 150) by (nonlinear_arith)
                requires max >= v > 0;
            assert(0 <= 150 * (max as int - v as int) / (max as int)) by (nonlinear_arith)
                requires max >= v > 0;
        }
        let c = (100 + num / max as u128) as u8;
        Rgb { r: 255, g: c, b: c }
    } else {
        let num: u128 = 150 * (max as u128 - (-(v as i128)) as u128);
        proof {
            assert(150 * (max as int + v as int) / (max as int) <= 150) by (nonlinear_arith)
                requires max >= -v, v < 0;
            assert(0 <= 150 * (max as int + v as int) / (max as int)) by (nonlinear_arith)
                requires max >= -v, v < 0;
        }
        let c = (100 + num / max as u128) as u8;
        Rgb { r: c, g: c, b: 255 }
    }
}

/// Heat of a frame that is `width` out of `total` wide: `sqrt(width / total)`
/// scaled to `[0, 2000]` and rounded down.
pub open spec fn diffusion_value(width: nat, total: nat) -> int {
    let n = 4_000_000 * (width as int) / max1(total as int);
    choose|r: int| is_isqrt(r, n)
}

/// `r` is the integer square root of `n`.
pub open spec fn is_isqrt(r: int, n: int) -> bool {
    0 <= r && r * r <= n < (r + 1) * (r + 1)
}

/// The colour-scale value of a diff frame, and the bound it is clamped to.
pub open spec fn diff_value(f: TimedFrame, t: SampleCount, m: DeltaMax, include_children: bool, normalize: bool) -> (int, int) {
    let c = if include_children { f.total_count } else { f.self_count };
    if normalize {
        let num = share_delta_num(c.after as int, c.before as int, t.after as int, t.before as int);
        let den = max1(t.after as int) * max1(t.before as int);
        let mag = 10000 * abs(num) / den;
        let mx = if include_children { m.total_share } else { m.self_share };
        (if num < 0 { -mag } else { mag }, 10000 * mx / den)
    } else {
        (c.after - c.before, if include_children { m.total_delta as int } else { m.self_delta as int })
    }
}

/// The colour of a frame, by the first rule that applies: grey for `--` and
/// `-`, heat by width under colour diffusion, the clamped delta of a diff
/// frame, else `palette` (the palette collaborator's pick for the name).
pub open spec fn fill_of(
    f: TimedFrame,
    t: SampleCount,
    m: DeltaMax,
    diff: bool,
    diffusion: bool,
    include_children: bool,
    normalize: bool,
    negate: bool,
    palette: Rgb,
) -> Rgb {
    if f.function@ == seq!['-', '-'] {
        vdgrey()
    } else if f.function@ == seq!['-'] {
        dgrey()
    } else if diffusion {
        scale_color(diffusion_value((f.end_time - f.start_time) as nat, t.visual as nat), 2000)
    } else if diff {
        let (v, mx) = diff_value(f, t, m, include_children, normalize);
        let v2 = if negate { -v } else { v };
        scale_color(clamp(v2, mx), mx)
    } else {
        palette
    }
}

fn is_dashes(s: &String, n: usize) -> (r: bool)
    requires
        n == 1 || n == 2,
    ensures
        r == (s@ == Seq::new(n as nat, |i: int| '-')),
{
    let l = s.as_str().unicode_len();
    if l != n {
        return false;
    }
    let mut i: usize = 0;
    while i < n
        invariant
            l == n,
            s@.len() == n,
            i <= n,
            forall|j: int| 0 <= j < i ==> s@[j] == '-',
        decreases n - i,
    {
        if s.as_str().get_char(i) != '-' {
            return false;
        }
        i = i + 1;
    }
    assert(s@ =~= Seq::new(n as nat, |i: int| '-'));
    true
}

/// The colour-scale value of a normalised diff count and its bound, in
/// hundredths of a percent of the shares.
fn normalized_value(c: &SampleCount, t: &SampleCount, mx_share: u128) -> (r: (i64, u64))
    requires
        counts_ok(*c, *t),
        mx_share <= max1(t.after as int) * max1(t.before as int),
    ensures
        ({
            let num = share_delta_num(c.after as int, c.before as int, t.after as int, t.before as int);
            let den = max1(t.after as int) * max1(t.before as int);
            let mag = 10000 * abs(num) / den;
            &&& r.0 == (if num < 0 { -mag } else { mag })
            &&& r.1 == 10000 * mx_share / den
            &&& abs(num) <= mx_share ==> -(r.1 as int) <= r.0 <= r.1
        }),
        r.1 <= 10000,
        -10000 <= r.0 <= 10000,
{
    let ta1: u128 = if t.after < 1 { 1 } else { t.after as u128 };
    let tb1: u128 = if t.before < 1 { 1 } else { t.before as u128 };
    proof {
        assert(ta1 * tb1 <= 0x10_0000_0000_0000 * 0x10_0000_0000_0000) by (nonlinear_arith)
            requires ta1 <= 0x10_0000_0000_0000, tb1 <= 0x10_0000_0000_0000;
        assert(ta1 * tb1 >= 1) by (nonlinear_arith)
            requires ta1 >= 1, tb1 >= 1;
        assert(c.after * tb1 <= ta1 * tb1) by (nonlinear_arith)
            requires c.after <= ta1;
        assert(c.before * ta1 <= ta1 * tb1) by (nonlinear_arith)
            requires c.before <= tb1;
    }
    let den = ta1 * tb1;
    let a = share_delta_abs(c.after, c.before, t.after, t.before);
    proof {
        assert(10000 * (a as int) / (den as int) <= 10000) by (nonlinear_arith)
            requires a <= den, den >= 1;
        assert(10000 * (mx_share as int) / (den as int) <= 10000) by (nonlinear_arith)
            requires mx_share <= den, den >= 1;
        assert(10000 * (a as int) / (den as int) <= 10000 * (mx_share as int) / (den as int) || a > mx_share) by (nonlinear_arith)
            requires den >= 1;
    }
    let mag = (10000 * a / den) as i64;
    let negative = (c.after as u128) * tb1 < (c.before as u128) * ta1;
    (if negative { -mag } else { mag }, (10000 * mx_share / den) as u64)
}

/// The colour of one frame (see `fill_of`).
pub fn frame_fill(
    f: &TimedFrame,
    t: &SampleCount,
    m: &DeltaMax,
    diff: bool,
    diffusion: bool,
    include_children: bool,
    normalize: bool,
    negate: bool,
    palette: Rgb,
) -> (r: Rgb)
    requires
        f.start_time <= f.end_time <= t.visual <= crate::counts::MAX_SAMPLES,
        counts_ok(f.self_count, *t),
        counts_ok(f.total_count, *t),
        abs(f.self_count.after - f.self_count.before) <= m.self_delta,
        abs(f.total_count.after - f.total_count.before) <= m.total_delta,
        abs(share_delta_num(f.self_count.after as int, f.self_count.before as int, t.after as int, t.before as int)) <= m.self_share,
        abs(share_delta_num(f.total_count.after as int, f.total_count.before as int, t.after as int, t.before as int)) <= m.total_share,
        m.self_delta <= crate::counts::MAX_SAMPLES,
        m.total_delta <= crate::counts::MAX_SAMPLES,
        m.self_share <= max1(t.after as int) * max1(t.before as int),
        m.total_share <= max1(t.after as int) * max1(t.before as int),
    ensures
        r == fill_of(*f, *t, *m, diff, diffusion, include_children, normalize, negate, palette),
{
    assert(seq!['-', '-'] =~= Seq::new(2, |i: int| '-'));
    assert(seq!['-'] =~= Seq::new(1, |i: int| '-'));
    if is_dashes(&f.function, 2) {
        return Rgb { r: 160, g: 160, b: 160 };
    }
    if is_dashes(&f.function, 1) {
        return Rgb { r: 200, g: 200, b: 200 };
    }
    if diffusion {
        let tv: u128 = if t.visual < 1 { 1 } else { t.visual as u128 };
        let w: u128 = (f.end_time - f.start_time) as u128;
        proof {
            assert(4_000_000 * (w as int) / (tv as int) <= 4_000_000) by (nonlinear_arith)
                requires w <= tv, tv >= 1;
        }
        let n = (4_000_000 * w / tv) as u64;
        let v = isqrt(n);
        proof {
            let n2 = 4_000_000 * (((f.end_time - f.start_time) as nat) as int) / max1(t.visual as int);
            assert(n2 == n);
            assert(is_isqrt(v as int, n2));
            let c = choose|r: int| is_isqrt(r, n2);
            assert(c == v) by {
                if c < v {
                    assert((c + 1) * (c + 1) <= v * v) by (nonlinear_arith)
                        requires c + 1 <= v, c >= 0;
                } else if c > v {
                    assert((v + 1) * (v + 1) <= c * c) by (nonlinear_arith)
                        requires v + 1 <= c, v >= 0;
                }
            }
            assert(v <= 2000) by (nonlinear_arith)
                requires v * v <= 4_000_000, v >= 0;
        }
        return color_scale(v as i64, 2000);
    }
    if !diff {
        return palette;
    }
    let c = if include_children { f.total_count } else { f.self_count };
    let (v, mx): (i64, u64) = if normalize {
        let mx_share = if include_children { m.total_share } else { m.self_share };
        normalized_value(&c, t, mx_share)
    } else {
        let d = (c.after as i64) - (c.before as i64);
        (d, if include_children { m.total_delta } else { m.self_delta })
    };
    let v2 = if negate { -v } else { v };
    let v3 = if v2 > mx as i64 {
        mx as i64
    } else if v2 < -(mx as i64) {
        -(mx as i64)
    } else {
        v2
    };
    color_scale(v3, mx)
}

} // verus!
