//! Folded-stack line parsing: counts are found from the right of a line.
use vstd::prelude::*;
use crate::text::{
    chars_of, copy_range, dec_value, digit_value, is_digit, split_on, split_range, trim, trim_end_at,
    trim_end_len, trim_start_at, views,
};

verus! {

/// `k` is the position of the last space of `s`.
pub open spec fn last_space_at(s: Seq<char>, k: int) -> bool {
    0 <= k < s.len() && s[k] == ' ' && forall|j: int| k < j < s.len() ==> s[j] != ' '
}

/// `d` is the length of the run of digits that starts `t`.
pub open spec fn digit_run(t: Seq<char>, d: int) -> bool {
    &&& 0 <= d <= t.len()
    &&& forall|j: int| 0 <= j < d ==> is_digit(t[j])
    &&& d == t.len() || !is_digit(t[d])
}

/// `t` is `DIGIT+ ('.' DIGIT+)?`, its integer digits being `t[..d]`.
pub open spec fn token_shape(t: Seq<char>, d: int) -> bool {
    &&& digit_run(t, d)
    &&& d > 0
    &&& d == t.len() || (t[d] == '.' && d + 1 < t.len() && forall|j: int|
        d < j < t.len() ==> is_digit(#[trigger] t[j]))
}

/// The digits after the integer part of `t` are not all zero.
pub open spec fn frac_nonzero(t: Seq<char>, d: int) -> bool {
    exists|j: int| d < j < t.len() && t[j] != '0'
}

/// A count read from the right end of `s`: the length of what stands before
/// it (trailing whitespace removed), its integer value, and whether a
/// non-zero fractional part was cut off. `None` when the last token is no count.
pub open spec fn take_count(s: Seq<char>) -> Option<(nat, nat, bool)> {
    if exists|k: int| last_space_at(s, k) {
        let k = choose|k: int| last_space_at(s, k);
        let t = s.subrange(k + 1, s.len() as int);
        let d = choose|d: int| digit_run(t, d);
        if token_shape(t, d) && dec_value(t.subrange(0, d)) <= u64::MAX {
            Some((trim_end_len(s.subrange(0, k)), dec_value(t.subrange(0, d)), frac_nonzero(t, d)))
        } else {
            None
        }
    } else {
        None
    }
}

/// `take_count` once the last space `k` and the digit run `d` are known.
pub open spec fn count_at(s: Seq<char>, k: int, d: int) -> Option<(nat, nat, bool)> {
    let t = s.subrange(k + 1, s.len() as int);
    if token_shape(t, d) && dec_value(t.subrange(0, d)) <= u64::MAX {
        Some((trim_end_len(s.subrange(0, k)), dec_value(t.subrange(0, d)), frac_nonzero(t, d)))
    } else {
        None
    }
}

/// A parsed line: the length of its frame part, its two counts (equal in
/// single-count mode), and whether a non-zero fraction was cut off.
pub open spec fn parse_line(s: Seq<char>, diff: bool) -> Option<(nat, nat, nat, bool)> {
    match take_count(s) {
        None => None,
        Some((h1, v1, f1)) => {
            if !diff {
                if h1 > 0 {
                    Some((h1, v1, v1, f1))
                } else {
                    None
                }
            } else {
                match take_count(s.subrange(0, h1 as int)) {
                    None => None,
                    Some((h2, v2, f2)) => {
                        if h2 > 0 {
                            Some((h2, v2, v1, f1 || f2))
                        } else {
                            None
                        }
                    },
                }
            }
        },
    }
}

/// A line kept by tidying: not empty and not a `"# "` comment.
pub open spec fn kept(t: Seq<char>) -> bool {
    t.len() > 0 && !(t.len() >= 2 && t[0] == '#' && t[1] == ' ')
}

/// Whether the first tidy line that parses at all parses with two counts.
pub open spec fn detect_diff(ls: Seq<Seq<char>>) -> bool
    decreases ls.len(),
{
    if ls.len() == 0 {
        false
    } else {
        let t = trim(ls[0]);
        if kept(t) && parse_line(t, true) is Some {
            true
        } else if kept(t) && parse_line(t, false) is Some {
            false
        } else {
            detect_diff(ls.drop_first())
        }
    }
}

/// The counts of one line, as `parse_line` describes them.
#[derive(Debug, Clone, Copy, PartialEq, Eq, Structural)]
pub struct LineCount {
    /// Length of the frame part at the start of the line.
    pub frames_end: usize,
    pub before: u64,
    pub after: u64,
    /// A non-zero fractional part was cut off.
    pub fractional: bool,
}

proof fn lemma_last_space_unique(s: Seq<char>, a: int, b: int)
    requires
        last_space_at(s, a),
        last_space_at(s, b),
    ensures
        a == b,
{
}

proof fn lemma_digit_run_unique(t: Seq<char>, a: int, b: int)
    requires
        digit_run(t, a),
        digit_run(t, b),
    ensures
        a == b,
{
    if a < b {
        assert(is_digit(t[a]));
    } else if b < a {
        assert(is_digit(t[b]));
    }
}

proof fn lemma_dec_value_step(t: Seq<char>, i: int)
    requires
        0 <= i < t.len(),
    ensures
        dec_value(t.subrange(0, i + 1)) == dec_value(t.subrange(0, i)) * 10 + digit_value(t[i]),
{
    assert(t.subrange(0, i + 1).drop_last() =~= t.subrange(0, i));
}

proof fn lemma_dec_value_mono(t: Seq<char>, i: int, j: int)
    requires
        0 <= i <= j <= t.len(),
    ensures
        dec_value(t.subrange(0, i)) <= dec_value(t.subrange(0, j)),
    decreases j - i,
{
    if i < j {
        lemma_dec_value_mono(t, i, j - 1);
        lemma_dec_value_step(t, j - 1);
    }
}

pub fn is_digit_char(c: char) -> (r: bool)
    ensures
        r == is_digit(c),
{
    '0' <= c && c <= '9'
}

/// Reads the count at the right end of `s[..hi]`.
pub fn take_count_at(s: &Vec<char>, hi: usize) -> (r: Option<(usize, u64, bool)>)
    requires
        hi <= s@.len(),
    ensures
        match take_count(s@.subrange(0, hi as int)) {
            None => r is None,
            Some((h, v, f)) => r == Some((h as usize, v as u64, f)) && h <= hi && v <= u64::MAX,
        },
{
    let ghost sl = s@.subrange(0, hi as int);
    // the last space
    let mut j: usize = hi;
    while j > 0 && s[j - 1] != ' '
        invariant
            j <= hi <= s@.len(),
            sl == s@.subrange(0, hi as int),
            forall|m: int| j <= m < hi ==> sl[m] != ' ',
        decreases j,
    {
        j = j - 1;
    }
    if j == 0 {
        assert(!exists|k: int| last_space_at(sl, k));
        return None;
    }
    let k: usize = j - 1;
    assert(last_space_at(sl, k as int));
    proof {
        let kk = choose|kk: int| last_space_at(sl, kk);
        lemma_last_space_unique(sl, k as int, kk);
    }
    let ghost t = sl.subrange(k + 1, hi as int);
    // the run of integer digits
    let mut d: usize = k + 1;
    while d < hi && is_digit_char(s[d])
        invariant
            k + 1 <= d <= hi <= s@.len(),
            sl == s@.subrange(0, hi as int),
            t == sl.subrange(k + 1, hi as int),
            forall|m: int| 0 <= m < d - (k + 1) ==> is_digit(t[m]),
        decreases hi - d,
    {
        d = d + 1;
    }
    let ghost dd = d - (k + 1);
    assert(digit_run(t, dd));
    proof {
        let cd = choose|cd: int| digit_run(t, cd);
        lemma_digit_run_unique(t, dd, cd);
    }
    assert(take_count(sl) == count_at(sl, k as int, dd));
    if d == k + 1 {
        return None;
    }
    let mut frac = false;
    if d < hi {
        if s[d] != '.' || d + 1 >= hi {
            return None;
        }
        let mut m: usize = d + 1;
        while m < hi
            invariant
                k + 1 < d,
                d + 1 <= m <= hi <= s@.len(),
                sl == s@.subrange(0, hi as int),
                t == sl.subrange(k + 1, hi as int),
                t.len() == hi - (k + 1),
                dd == d - (k + 1),
                digit_run(t, dd),
                t[dd] == '.',
                take_count(sl) == count_at(sl, k as int, dd),
                forall|q: int| dd < q < m - (k + 1) ==> is_digit(#[trigger] t[q]),
                frac == exists|q: int| dd < q < m - (k + 1) && t[q] != '0',
            decreases hi - m,
        {
            if !is_digit_char(s[m]) {
                assert(s@[m as int] == t[m - (k + 1)]);
                assert(!is_digit(t[m - (k + 1)]));
                assert(!token_shape(t, dd));
                assert(count_at(sl, k as int, dd) is None);
                return None;
            }
            let ghost before_frac = frac;
            assert(s@[m as int] == t[m - (k + 1)]);
            if s[m] != '0' {
                frac = true;
                assert(t[m - (k + 1)] != '0');
            }
            m = m + 1;
            assert(frac == exists|q: int| dd < q < m - (k + 1) && t[q] != '0') by {
                if before_frac {
                    let q0 = choose|q: int| dd < q < m - 1 - (k + 1) && t[q] != '0';
                    assert(dd < q0 < m - (k + 1) && t[q0] != '0');
                }
                if frac {
                } else {
                    assert forall|q: int| dd < q < m - (k + 1) implies t[q] == '0' by {
                        if q < m - 1 - (k + 1) {
                        } else {
                            assert(q == m - 1 - (k + 1));
                        }
                    }
                }
            }
        }
        assert(token_shape(t, dd));
    } else {
        assert(token_shape(t, dd));
        assert(!frac_nonzero(t, dd));
    }
    // the value of the integer digits
    let mut v: u64 = 0;
    let mut i: usize = k + 1;
    assert(t.subrange(0, 0) =~= Seq::<char>::empty());
    while i < d
        invariant
            k + 1 <= i <= d <= hi <= s@.len(),
            sl == s@.subrange(0, hi as int),
            t == sl.subrange(k + 1, hi as int),
            dd == d - (k + 1),
            digit_run(t, dd),
            take_count(sl) == count_at(sl, k as int, dd),
            v == dec_value(t.subrange(0, i - (k + 1))),
        decreases d - i,
    {
        let c = s[i];
        assert(c == t[i - (k + 1)]);
        let dig: u64 = (c as u32 - '0' as u32) as u64;
        proof {
            lemma_dec_value_step(t, i - (k + 1));
        }
        if v > (u64::MAX - dig) / 10 {
            proof {
                lemma_dec_value_mono(t, i - (k + 1) + 1, dd);
                assert(digit_value(t[i - (k + 1)]) == dig);
                assert(v * 10 + dig > u64::MAX) by (nonlinear_arith)
                    requires
                        v > (u64::MAX - dig) / 10,
                        dig <= 9,
                ;
            }
            return None;
        }
        proof {
            assert(v * 10 + dig <= u64::MAX) by (nonlinear_arith)
                requires
                    v <= (u64::MAX - dig) / 10,
                    dig <= 9,
            ;
        }
        v = v * 10 + dig;
        i = i + 1;
    }
    let h = trim_end_at(s, 0, k);
    assert(sl.subrange(0, k as int) =~= s@.subrange(0, k as int));
    Some((h, v, frac))
}

/// Parses one tidy line in single-count (`diff == false`) or two-count mode.
pub fn parse_line_counts(s: &Vec<char>, diff: bool) -> (r: Option<LineCount>)
    ensures
        match parse_line(s@, diff) {
            None => r is None,
            Some((h, b, a, f)) => r == Some(
                LineCount { frames_end: h as usize, before: b as u64, after: a as u64, fractional: f },
            ) && h <= s.len() && b <= u64::MAX && a <= u64::MAX,
        },
{
    assert(s@.subrange(0, s@.len() as int) =~= s@);
    match take_count_at(s, s.len()) {
        None => None,
        Some((h1, v1, f1)) => {
            if !diff {
                if h1 > 0 {
                    Some(LineCount { frames_end: h1, before: v1, after: v1, fractional: f1 })
                } else {
                    None
                }
            } else {
                match take_count_at(s, h1) {
                    None => None,
                    Some((h2, v2, f2)) => {
                        if h2 > 0 {
                            Some(LineCount { frames_end: h2, before: v2, after: v1, fractional: f1 || f2 })
                        } else {
                            None
                        }
                    },
                }
            }
        },
    }
}

/// `s` trimmed, or `None` when the trimmed line is empty or a `"# "` comment.
pub fn tidy_line(s: &Vec<char>) -> (r: Option<Vec<char>>)
    ensures
        kept(trim(s@)) ==> r is Some && r->0@ == trim(s@),
        !kept(trim(s@)) ==> r is None,
{
    let lo = trim_start_at(s, 0, s.len());
    assert(s@.subrange(0, s@.len() as int) =~= s@);
    let hi = trim_end_at(s, lo, s.len());
    assert(trim(s@) =~= s@.subrange(lo as int, hi as int));
    let t = copy_range(s, lo, hi);
    if t.len() == 0 || (t.len() >= 2 && t[0] == '#' && t[1] == ' ') {
        None
    } else {
        Some(t)
    }
}

/// Whether `input` holds two-count lines: its first tidy line that parses
/// at all parses with two counts.
pub fn is_diff_case(input: &str) -> (r: bool)
    ensures
        r == detect_diff(split_on(input@, '\n')),
{
    let cs = chars_of(input);
    let lines = split_range(&cs, 0, cs.len(), '\n');
    assert(cs@.subrange(0, cs@.len() as int) =~= cs@);
    let ghost ls = views(lines@);
    assert(ls == split_on(input@, '\n'));
    assert(ls.subrange(0, ls.len() as int) =~= ls);
    let mut i: usize = 0;
    while i < lines.len()
        invariant
            i <= lines@.len(),
            ls == views(lines@),
            ls == split_on(input@, '\n'),
            detect_diff(ls) == detect_diff(ls.subrange(i as int, ls.len() as int)),
        decreases lines@.len() - i,
    {
        let ghost rest = ls.subrange(i as int, ls.len() as int);
        assert(rest[0] == lines@[i as int]@);
        assert(rest.drop_first() =~= ls.subrange(i + 1, ls.len() as int));
        match tidy_line(&lines[i]) {
            Some(t) => {
                if parse_line_counts(&t, true).is_some() {
                    assert(detect_diff(rest));
                    return true;
                }
                if parse_line_counts(&t, false).is_some() {
                    assert(!detect_diff(rest));
                    return false;
                }
            },
            None => {},
        }
        i = i + 1;
    }
    assert(ls.subrange(i as int, ls.len() as int) =~= Seq::<Seq<char>>::empty());
    false
}

} // verus!
