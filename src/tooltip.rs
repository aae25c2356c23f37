//! Frame labels and tooltip text.
use vstd::prelude::*;
use vstd::string::{StrSliceExecFns, StringExecFns};
use crate::color::{abs, max1, share_delta_num};
use crate::counts::{FrameWidthSource, SampleCount, MAX_SAMPLES};
use crate::format::{append, fixed, fixed_text, grouped, grouped_text};
use crate::merge::TimedFrame;
use crate::text::{chars_of, string_of};

verus! {

/// `f` without a trailing `_[k]`, `_[w]`, `_[i]` or `_[j]` annotation.
pub open spec fn deannotated(f: Seq<char>) -> Seq<char> {
    if f.len() >= 4 && f[f.len() - 4] == '_' && f[f.len() - 3] == '[' && (f[f.len() - 2] == 'k'
        || f[f.len() - 2] == 'w' || f[f.len() - 2] == 'i' || f[f.len() - 2] == 'j') && f[f.len()
        - 1] == ']' {
        f.subrange(0, f.len() - 4)
    } else {
        f
    }
}

/// The synthetic root frame.
pub open spec fn is_all(f: TimedFrame) -> bool {
    f.function@.len() == 0 && f.depth == 0
}

/// The name shown for a frame: `all` for the root, else the deannotated name.
pub open spec fn display_name(f: TimedFrame) -> Seq<char> {
    if is_all(f) {
        "all"@
    } else {
        deannotated(f.function@)
    }
}

/// `n` out of `total` as a percentage with two decimals; exactly `100%` for
/// the root when that rounds to `100.00`.
pub open spec fn pct_text(n: nat, total: nat, all: bool) -> Seq<char> {
    let p = fixed(100 * n, total, 2);
    if all && p == "100.00"@ {
        "100%"@
    } else {
        p + "%"@
    }
}

/// `"N count_name, P%"`, `N` with thousands separators.
pub open spec fn count_text(n: nat, total: nat, count_name: Seq<char>, all: bool) -> Seq<char> {
    grouped(n) + " "@ + count_name + ", "@ + pct_text(n, total, all)
}

/// A signed ratio `num / den` in percent, two decimals, with its sign.
pub open spec fn delta_text(num: int, den: nat) -> Seq<char> {
    let sign = if num < 0 { "-"@ } else if num > 0 { "+"@ } else { ""@ };
    sign + fixed((100 * abs(num)) as nat, den, 2) + "%"@
}

/// Change of a count's share between the datasets, as `(num, den)` of a fraction.
pub open spec fn share_change(c: SampleCount, t: SampleCount, normalize: bool) -> (int, nat) {
    if normalize {
        (share_delta_num(c.after as int, c.before as int, t.after as int, t.before as int),
            (max1(t.after as int) * max1(t.before as int)) as nat)
    } else {
        (c.after - c.before, max1(t.after as int) as nat)
    }
}

/// The detailed tooltip lists both datasets' self and total counts.
pub open spec fn detailed(src: FrameWidthSource, asked: bool) -> bool {
    asked || !(src == FrameWidthSource::Before || src == FrameWidthSource::After)
}

/// Tooltip of a single-count frame.
pub open spec fn single_tooltip(f: TimedFrame, t: SampleCount, count_name: Seq<char>) -> Seq<char> {
    display_name(f) + " ("@ + count_text(f.total_count.after as nat, t.after as nat, count_name, is_all(f))
        + ")"@
}

/// Tooltip of a diff frame when the width comes from one dataset.
pub open spec fn brief_tooltip(
    f: TimedFrame,
    t: SampleCount,
    count_name: Seq<char>,
    src: FrameWidthSource,
    include_children: bool,
    normalize: bool,
    negate: bool,
) -> Seq<char> {
    let (n, total) = if src == FrameWidthSource::After {
        (f.total_count.after, t.after)
    } else {
        (f.total_count.before, t.before)
    };
    let c = if include_children { f.total_count } else { f.self_count };
    let (num, den) = share_change(c, t, normalize);
    let d = delta_text(if negate { -num } else { num }, den);
    let ct = count_text(n as nat, total as nat, count_name, is_all(f));
    if is_all(f) {
        display_name(f) + " ("@ + ct + ")"@
    } else {
        display_name(f) + " ("@ + ct + "; "@ + d + ")"@
    }
}

/// Tooltip of a diff frame that lists both datasets.
pub open spec fn detailed_tooltip(f: TimedFrame, t: SampleCount, count_name: Seq<char>) -> Seq<char> {
    let all = is_all(f);
    let s = f.self_count;
    let c = f.total_count;
    let (sn, sd) = share_change(s, t, true);
    let (tn, td) = share_change(c, t, true);
    display_name(f) + "\nSelf:\n\tBefore:\t("@ + count_text(s.before as nat, t.before as nat, count_name, all)
        + ")\n\tAfter:\t("@ + count_text(s.after as nat, t.after as nat, count_name, all)
        + ")\n\tChange:\t"@ + delta_text(sn, sd) + "pt\nTotal:\n\tBefore:\t("@
        + count_text(c.before as nat, t.before as nat, count_name, all) + ")\n\tAfter:\t("@
        + count_text(c.after as nat, t.after as nat, count_name, all) + ")\n\tChange:\t"@
        + delta_text(tn, td) + "pt\n\nVisual Width:\t("@
        + count_text(c.visual as nat, t.visual as nat, count_name, all) + ")"@
}

/// The tooltip of a frame.
pub open spec fn tooltip_of(
    f: TimedFrame,
    t: SampleCount,
    diff: bool,
    count_name: Seq<char>,
    src: FrameWidthSource,
    asked: bool,
    include_children: bool,
    normalize: bool,
    negate: bool,
) -> Seq<char> {
    if !diff {
        single_tooltip(f, t, count_name)
    } else if detailed(src, asked) {
        detailed_tooltip(f, t, count_name)
    } else {
        brief_tooltip(f, t, count_name, src, include_children, normalize, negate)
    }
}

/// Strips a trailing `_[k]`, `_[w]`, `_[i]` or `_[j]` from a name.
pub fn deannotate(f: &Vec<char>) -> (r: Vec<char>)
    ensures
        r@ == deannotated(f@),
{
    let n = f.len();
    if n >= 4 && f[n - 4] == '_' && f[n - 3] == '[' && (f[n - 2] == 'k' || f[n - 2] == 'w' || f[n
        - 2] == 'i' || f[n - 2] == 'j') && f[n - 1] == ']' {
        crate::text::copy_range(f, 0, n - 4)
    } else {
        crate::text::copy_range(f, 0, n)
    }
}

/// `display_name` as a string.
pub fn name_of(f: &TimedFrame) -> (r: String)
    ensures
        r@ == display_name(*f),
{
    if f.depth == 0 && f.function.as_str().unicode_len() == 0 {
        String::from_str("all")
    } else {
        let cs = chars_of(f.function.as_str());
        let d = deannotate(&cs);
        string_of(&d)
    }
}

/// `pct_text` as a string.
pub fn pct_string(n: u64, total: u64, all: bool) -> (r: String)
    ensures
        r@ == pct_text(n as nat, total as nat, all),
{
    let p = fixed_text(100 * (n as u128), total as u128, 2);
    let hundred = String::from_str("100.00");
    if all && p == hundred {
        String::from_str("100%")
    } else {
        let mut p = p;
        append(&mut p, "%");
        p
    }
}

/// `count_text` as a string.
pub fn count_string(n: u64, total: u64, count_name: &String, all: bool) -> (r: String)
    ensures
        r@ == count_text(n as nat, total as nat, count_name@, all),
{
    let mut s = grouped_text(n);
    append(&mut s, " ");
    append(&mut s, count_name.as_str());
    append(&mut s, ", ");
    let p = pct_string(n, total, all);
    append(&mut s, p.as_str());
    s
}

/// `delta_text` as a string, for a numerator given by sign and magnitude.
pub fn delta_string(negative: bool, mag: u128, den: u128) -> (r: String)
    requires
        mag <= 0x100_0000_0000_0000_0000_0000_0000,
        den <= 0x1_0000_0000_0000_0000_0000_0000_0000,
    ensures
        r@ == delta_text(if negative { -(mag as int) } else { mag as int }, den as nat),
{
    let mut s = String::new();
    if negative && mag > 0 {
        append(&mut s, "-");
    } else if mag > 0 {
        append(&mut s, "+");
    } else {
        append(&mut s, "");
    }
    let v = fixed_text(100 * mag, den, 2);
    append(&mut s, v.as_str());
    append(&mut s, "%");
    s
}

/// The share change of `c` as sign, magnitude and denominator.
fn share_change_parts(c: &SampleCount, t: &SampleCount, normalize: bool) -> (r: (bool, u128, u128))
    requires
        c.before <= t.before <= MAX_SAMPLES,
        c.after <= t.after <= MAX_SAMPLES,
    ensures
        ({
            let (num, den) = share_change(*c, *t, normalize);
            &&& (if r.0 { -(r.1 as int) } else { r.1 as int }) == num
            &&& r.2 == den
            &&& r.1 <= 0x100_0000_0000_0000_0000_0000_0000
            &&& r.2 <= 0x100_0000_0000_0000_0000_0000_0000
        }),
{
    if normalize {
        let mag = crate::color::share_delta_abs(c.after, c.before, t.after, t.before);
        let ta1: u128 = if t.after < 1 { 1 } else { t.after as u128 };
        let tb1: u128 = if t.before < 1 { 1 } else { t.before as u128 };
        proof {
            assert(ta1 * tb1 <= 0x10_0000_0000_0000 * 0x10_0000_0000_0000) by (nonlinear_arith)
                requires ta1 <= 0x10_0000_0000_0000, tb1 <= 0x10_0000_0000_0000;
            assert(c.after * tb1 <= ta1 * tb1) by (nonlinear_arith)
                requires c.after <= ta1;
            assert(c.before * ta1 <= ta1 * tb1) by (nonlinear_arith)
                requires c.before <= tb1;
        }
        let negative = (c.after as u128) * tb1 < (c.before as u128) * ta1;
        (negative, mag, ta1 * tb1)
    } else {
        let ta1: u128 = if t.after < 1 { 1 } else { t.after as u128 };
        if c.after >= c.before {
            (false, (c.after - c.before) as u128, ta1)
        } else {
            (true, (c.before - c.after) as u128, ta1)
        }
    }
}

/// The tooltip of one frame (see `tooltip_of`).
pub fn tooltip(
    f: &TimedFrame,
    t: &SampleCount,
    diff: bool,
    count_name: &String,
    src: FrameWidthSource,
    asked: bool,
    include_children: bool,
    normalize: bool,
    negate: bool,
) -> (r: String)
    requires
        f.self_count.before <= f.total_count.before <= t.before <= MAX_SAMPLES,
        f.self_count.after <= f.total_count.after <= t.after <= MAX_SAMPLES,
        f.total_count.visual <= t.visual,
    ensures
        r@ == tooltip_of(*f, *t, diff, count_name@, src, asked, include_children, normalize, negate),
{
    let all = f.depth == 0 && f.function.as_str().unicode_len() == 0;
    let mut s = name_of(f);
    if !diff {
        append(&mut s, " (");
        let ct = count_string(f.total_count.after, t.after, count_name, all);
        append(&mut s, ct.as_str());
        append(&mut s, ")");
        return s;
    }
    let is_detailed = asked || !(src == FrameWidthSource::Before || src == FrameWidthSource::After);
    if is_detailed {
        let sc = &f.self_count;
        let tc = &f.total_count;
        let (sneg, smag, sden) = share_change_parts(sc, t, true);
        let (tneg, tmag, tden) = share_change_parts(tc, t, true);
        append(&mut s, "\nSelf:\n\tBefore:\t(");
        let x = count_string(sc.before, t.before, count_name, all);
        append(&mut s, x.as_str());
        append(&mut s, ")\n\tAfter:\t(");
        let x = count_string(sc.after, t.after, count_name, all);
        append(&mut s, x.as_str());
        append(&mut s, ")\n\tChange:\t");
        let x = delta_string(sneg, smag, sden);
        append(&mut s, x.as_str());
        append(&mut s, "pt\nTotal:\n\tBefore:\t(");
        let x = count_string(tc.before, t.before, count_name, all);
        append(&mut s, x.as_str());
        append(&mut s, ")\n\tAfter:\t(");
        let x = count_string(tc.after, t.after, count_name, all);
        append(&mut s, x.as_str());
        append(&mut s, ")\n\tChange:\t");
        let x = delta_string(tneg, tmag, tden);
        append(&mut s, x.as_str());
        append(&mut s, "pt\n\nVisual Width:\t(");
        let x = count_string(tc.visual, t.visual, count_name, all);
        append(&mut s, x.as_str());
        append(&mut s, ")");
        return s;
    }
    let (n, total) = if src == FrameWidthSource::After {
        (f.total_count.after, t.after)
    } else {
        (f.total_count.before, t.before)
    };
    let c = if include_children { &f.total_count } else { &f.self_count };
    let (neg, mag, den) = share_change_parts(c, t, normalize);
    let neg2 = if negate { !neg } else { neg };
    let d = delta_string(neg2, mag, den);
    let ct = count_string(n, total, count_name, all);
    append(&mut s, " (");
    append(&mut s, ct.as_str());
    if !all {
        append(&mut s, "; ");
        append(&mut s, d.as_str());
    }
    append(&mut s, ")");
    s
}

} // verus!
