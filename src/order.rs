//! The transforms applied before merging: stack reversal, base-symbol
//! filtering, flame-chart order and sorting.
use vstd::prelude::*;
use str_stack::StrStack;
use crate::parse::{parse_line, take_count, take_count_at};
use crate::text::{
    copy_range, join_with, split_on, split_range, trim, trim_end_at, trim_start_at, views,
};

verus! {

#[verifier::external_type_specification]
#[verifier::external_body]
pub struct ExStrStack(StrStack);

/// The strings held by a string stack, oldest first.
pub uninterp spec fn stack_strings(s: StrStack) -> Seq<Seq<char>>;

/// Relies on `StrStack::new`: a stack holding no string.
#[verifier::external_body]
fn new_stack() -> (r: StrStack)
    ensures
        stack_strings(r) == Seq::<Seq<char>>::empty(),
{
    StrStack::new()
}

/// Relies on `StrStack::push`: `s` goes on top; its index is returned.
#[verifier::external_body]
fn push_string(st: &mut StrStack, s: &str) -> (r: usize)
    ensures
        stack_strings(*final(st)) == stack_strings(*old(st)).push(s@),
        r == stack_strings(*old(st)).len(),
{
    st.push(s)
}

/// Relies on `StrStack::len`: the number of strings held.
#[verifier::external_body]
fn stack_len(st: &StrStack) -> (r: usize)
    ensures
        r == stack_strings(*st).len(),
{
    st.len()
}

/// Relies on `StrStack`'s `Index<usize>`: the string at index `i`.
#[verifier::external_body]
fn stack_get(st: &StrStack, i: usize) -> (r: String)
    requires
        i < stack_strings(*st).len(),
    ensures
        r@ == stack_strings(*st)[i as int],
{
    st[i].to_string()
}

/// The lines reversed one by one, kept on a string stack and read back in order.
pub fn reverse_all(t: &Vec<Vec<char>>) -> (r: Vec<Vec<char>>)
    ensures
        views(r@) == views(t@).map_values(|l: Seq<char>| reversed_line(l)),
{
    let mut st = new_stack();
    let mut i: usize = 0;
    while i < t.len()
        invariant
            i <= t@.len(),
            stack_strings(st) == views(t@).subrange(0, i as int).map_values(|l: Seq<char>| reversed_line(l)),
        decreases t@.len() - i,
    {
        let ghost before = stack_strings(st);
        let rl = reverse_stack_line(&t[i]);
        let rs = crate::text::string_of(&rl);
        assert(views(t@)[i as int] == t@[i as int]@);
        push_string(&mut st, rs.as_str());
        assert(stack_strings(st) =~= views(t@).subrange(0, i + 1).map_values(|l: Seq<char>| reversed_line(l)));
        i = i + 1;
    }
    assert(views(t@).subrange(0, t@.len() as int) =~= views(t@));
    let n = stack_len(&st);
    let mut out: Vec<Vec<char>> = Vec::new();
    let mut j: usize = 0;
    while j < n
        invariant
            n == stack_strings(st).len(),
            j <= n,
            views(out@) == stack_strings(st).subrange(0, j as int),
        decreases n - j,
    {
        let s = stack_get(&st, j);
        let cs = crate::text::chars_of(s.as_str());
        let ghost before = views(out@);
        out.push(cs);
        assert(views(out@) =~= before.push(cs@));
        assert(views(out@) =~= stack_strings(st).subrange(0, j + 1));
        j = j + 1;
    }
    assert(stack_strings(st).subrange(0, n as int) =~= stack_strings(st));
    out
}

/// Where the frame part of `s` ends: before up to two counts at its right end.
pub open spec fn frames_end(s: Seq<char>) -> nat {
    match take_count(s) {
        None => s.len(),
        Some((h1, v1, f1)) => match take_count(s.subrange(0, h1 as int)) {
            None => h1,
            Some((h2, v2, f2)) => h2,
        },
    }
}

/// `s` with the order of its frames reversed and its counts kept.
pub open spec fn reversed_line(s: Seq<char>) -> Seq<char> {
    let fe = frames_end(s) as int;
    trim(join_with(split_on(trim(s.subrange(0, fe)), ';').reverse(), ';') + s.subrange(fe, s.len() as int))
}

/// Byte-wise (equivalently, code-point-wise) order of two lines, as `str` compares them.
pub open spec fn lex_le(a: Seq<char>, b: Seq<char>) -> bool
    decreases a.len(),
{
    if a.len() == 0 {
        true
    } else if b.len() == 0 {
        false
    } else if a[0] != b[0] {
        (a[0] as u32) < (b[0] as u32)
    } else {
        lex_le(a.drop_first(), b.drop_first())
    }
}

/// Start of piece `m` of `p` in the text that `p` was split from.
pub open spec fn piece_offset(p: Seq<Seq<char>>, m: int) -> int
    decreases m,
{
    if m <= 0 {
        0
    } else {
        piece_offset(p, m - 1) + p[m - 1].len() + 1
    }
}

proof fn lemma_offset_prefix(pa: Seq<Seq<char>>, pb: Seq<Seq<char>>, m: int)
    requires
        0 <= m <= pa.len(),
        m <= pb.len(),
        forall|i: int| 0 <= i < m ==> pa[i] == pb[i],
    ensures
        piece_offset(pa, m) == piece_offset(pb, m),
    decreases m,
{
    if m > 0 {
        lemma_offset_prefix(pa, pb, m - 1);
    }
}

proof fn lemma_offset_mono(p: Seq<Seq<char>>, m: int, n: int)
    requires
        0 <= m <= n <= p.len(),
    ensures
        piece_offset(p, m) + (n - m) <= piece_offset(p, n),
    decreases n - m,
{
    if m < n {
        lemma_offset_mono(p, m, n - 1);
    }
}

proof fn lemma_split_offsets(s: Seq<char>, sep: char)
    ensures
        piece_offset(split_on(s, sep), split_on(s, sep).len() as int) == s.len() + 1,
    decreases s.len(),
{
    crate::text::lemma_split_nonempty(s, sep);
    let p = split_on(s, sep);
    if s.len() == 0 {
        assert(p.len() == 1);
        assert(piece_offset(p, 0) == 0);
    } else {
        let rest = split_on(s.drop_last(), sep);
        lemma_split_offsets(s.drop_last(), sep);
        crate::text::lemma_split_nonempty(s.drop_last(), sep);
        if s.last() == sep {
            lemma_offset_prefix(p, rest, rest.len() as int);
        } else {
            lemma_offset_prefix(p, rest, rest.len() - 1);
            assert(piece_offset(rest, rest.len() as int) == piece_offset(rest, rest.len() - 1)
                + rest[rest.len() - 1].len() + 1);
        }
    }
}

/// The line cut to start at its right-most frame named in `base`; `None`
/// when no frame is. A line that does not parse is kept as it is.
pub open spec fn base_cut(s: Seq<char>, diff: bool, base: Seq<Seq<char>>) -> Option<Seq<char>> {
    match parse_line(s, diff) {
        None => Some(s),
        Some((h, b, a, f)) => {
            let p = split_on(s.subrange(0, h as int), ';');
            if exists|m: int| 0 <= m < p.len() && base.contains(p[m]) {
                let m = choose|m: int|
                    0 <= m < p.len() && base.contains(p[m]) && forall|n: int|
                        m < n < p.len() ==> !base.contains(#[trigger] p[n]);
                Some(s.subrange(piece_offset(p, m), s.len() as int))
            } else {
                None
            }
        },
    }
}

/// Joins `p` with `;`.
fn join_semi(p: &Vec<Vec<char>>) -> (r: Vec<char>)
    ensures
        r@ == join_with(views(p@), ';'),
{
    let mut r: Vec<char> = Vec::new();
    let mut m: usize = 0;
    while m < p.len()
        invariant
            m <= p@.len(),
            r@ == join_with(views(p@).subrange(0, m as int), ';'),
        decreases p@.len() - m,
    {
        let ghost prev = r@;
        if m > 0 {
            r.push(';');
        }
        let piece = &p[m];
        let mut q: usize = 0;
        let ghost mid = r@;
        while q < piece.len()
            invariant
                q <= piece@.len(),
                r@ == mid + piece@.subrange(0, q as int),
            decreases piece@.len() - q,
        {
            r.push(piece[q]);
            q = q + 1;
            assert(r@ =~= mid + piece@.subrange(0, q as int));
        }
        proof {
            let v = views(p@);
            let next = v.subrange(0, m + 1);
            assert(next.drop_last() =~= v.subrange(0, m as int));
            assert(next.last() == piece@);
            assert(piece@.subrange(0, piece@.len() as int) =~= piece@);
            if m == 0 {
                assert(next =~= seq![piece@]);
                assert(r@ =~= piece@);
            } else {
                assert(r@ =~= prev.push(';') + piece@);
            }
        }
        m = m + 1;
    }
    assert(views(p@).subrange(0, p@.len() as int) =~= views(p@));
    r
}

/// The pieces in reverse order.
fn reverse_pieces(p: Vec<Vec<char>>) -> (r: Vec<Vec<char>>)
    ensures
        views(r@) == views(p@).reverse(),
{
    let mut r: Vec<Vec<char>> = Vec::new();
    let mut m: usize = p.len();
    while m > 0
        invariant
            m <= p@.len(),
            r@.len() == p@.len() - m,
            forall|j: int| 0 <= j < r@.len() ==> #[trigger] r@[j]@ == p@[p@.len() - 1 - j]@,
        decreases m,
    {
        m = m - 1;
        r.push(p[m].clone());
    }
    assert(views(r@) =~= views(p@).reverse());
    r
}

/// Reverses the order of the frames of one tidy line.
pub fn reverse_stack_line(s: &Vec<char>) -> (r: Vec<char>)
    ensures
        r@ == reversed_line(s@),
{
    assert(s@.subrange(0, s@.len() as int) =~= s@);
    let fe = match take_count_at(s, s.len()) {
        None => s.len(),
        Some((h1, v1, f1)) => match take_count_at(s, h1) {
            None => h1,
            Some((h2, v2, f2)) => h2,
        },
    };
    let lo = trim_start_at(s, 0, fe);
    let hi = trim_end_at(s, lo, fe);
    proof {
        assert(s@.subrange(0, fe as int).subrange(0, fe as int) =~= s@.subrange(0, fe as int));
        assert(s@.subrange(0, fe as int).subrange(lo as int, fe as int) =~= s@.subrange(lo as int, fe as int));
        assert(trim(s@.subrange(0, fe as int)) =~= s@.subrange(lo as int, hi as int));
    }
    let pieces = split_range(s, lo, hi, ';');
    let rev = reverse_pieces(pieces);
    let mut joined = join_semi(&rev);
    let ghost j0 = joined@;
    let mut q: usize = fe;
    while q < s.len()
        invariant
            fe <= q <= s@.len(),
            joined@ == j0 + s@.subrange(fe as int, q as int),
        decreases s@.len() - q,
    {
        joined.push(s[q]);
        q = q + 1;
        assert(joined@ =~= j0 + s@.subrange(fe as int, q as int));
    }
    let a = trim_start_at(&joined, 0, joined.len());
    let b = trim_end_at(&joined, a, joined.len());
    proof {
        let u = joined@;
        assert(u.subrange(0, u.len() as int) =~= u);
        assert(trim(u) =~= u.subrange(a as int, b as int));
    }
    copy_range(&joined, a, b)
}

fn contains_line(base: &Vec<Vec<char>>, x: &Vec<char>) -> (r: bool)
    ensures
        r == views(base@).contains(x@),
{
    let mut i: usize = 0;
    while i < base.len()
        invariant
            i <= base@.len(),
            forall|j: int| 0 <= j < i ==> base@[j]@ != x@,
        decreases base@.len() - i,
    {
        if crate::merge::same_chars(&base[i], x) {
            assert(views(base@)[i as int] == x@);
            return true;
        }
        i = i + 1;
    }
    assert forall|j: int| 0 <= j < views(base@).len() implies views(base@)[j] != x@ by {
        assert(base@[j]@ != x@);
    }
    false
}

/// Cuts one tidy line at its right-most base frame (see `base_cut`).
pub fn cut_at_base(s: &Vec<char>, diff: bool, base: &Vec<Vec<char>>) -> (r: Option<Vec<char>>)
    ensures
        match base_cut(s@, diff, views(base@)) {
            None => r is None,
            Some(t) => r is Some && r->0@ == t,
        },
{
    match crate::parse::parse_line_counts(s, diff) {
        None => Some(copy_range_all(s)),
        Some(lc) => {
            let h = lc.frames_end;
            proof {
                match parse_line(s@, diff) {
                    Some((hh, bb, aa, ff)) => {
                        assert(hh == h);
                    },
                    None => {
                        assert(false);
                    },
                }
            }
            let p = split_range(s, 0, h, ';');
            let ghost ps = views(p@);
            let ghost bs = views(base@);
            let mut m: usize = p.len();
            let mut found = false;
            while m > 0 && !found
                invariant
                    m <= p@.len(),
                    ps == views(p@),
                    bs == views(base@),
                    found ==> m < p@.len() && bs.contains(ps[m as int]),
                    forall|n: int| m < n < p@.len() ==> !bs.contains(#[trigger] ps[n]),
                    !found ==> forall|n: int| m <= n < p@.len() ==> !bs.contains(#[trigger] ps[n]),
                decreases m + if found { 0int } else { 1int },
            {
                let cand = m - 1;
                if contains_line(base, &p[cand]) {
                    found = true;
                    m = cand;
                } else {
                    m = cand;
                }
            }
            if !found {
                assert(!exists|k: int| 0 <= k < ps.len() && bs.contains(ps[k]));
                assert(ps == split_on(s@.subrange(0, h as int), ';'));
                return None;
            }
            assert(exists|k: int| 0 <= k < ps.len() && bs.contains(ps[k]));
            // the offset of piece m
            proof {
                lemma_split_offsets(s@.subrange(0, h as int), ';');
                lemma_offset_mono(ps, m as int + 1, ps.len() as int);
            }
            let mut off: usize = 0;
            let mut k: usize = 0;
            while k < m
                invariant
                    k <= m < p@.len(),
                    ps == views(p@),
                    off == piece_offset(ps, k as int),
                    h <= s@.len(),
                    piece_offset(ps, m as int) <= h,
                decreases m - k,
            {
                proof {
                    lemma_offset_mono(ps, k as int + 1, m as int);
                }
                assert(p@[k as int]@.len() == ps[k as int].len());
                off = off + p[k].len() + 1;
                k = k + 1;
            }
            proof {
                let mm = choose|mm: int|
                    0 <= mm < ps.len() && bs.contains(ps[mm]) && forall|n: int|
                        mm < n < ps.len() ==> !bs.contains(#[trigger] ps[n]);
                assert(0 <= m < ps.len() && bs.contains(ps[m as int]) && forall|n: int|
                    m < n < ps.len() ==> !bs.contains(#[trigger] ps[n]));
                if mm < m {
                    assert(!bs.contains(ps[m as int]));
                } else if m < mm {
                    assert(!bs.contains(ps[mm]));
                }
                assert(mm == m);
                assert(ps == split_on(s@.subrange(0, h as int), ';'));
                assert(base_cut(s@, diff, bs) == Some(s@.subrange(off as int, s@.len() as int)));
            }
            Some(copy_range(s, off, s.len()))
        },
    }
}

fn copy_range_all(s: &Vec<char>) -> (r: Vec<char>)
    ensures
        r@ == s@,
{
    let r = copy_range(s, 0, s.len());
    assert(s@.subrange(0, s@.len() as int) =~= s@);
    r
}

/// Sorts lines in place, byte-wise.
///
/// Relies on `slice::sort_unstable`: the result is a permutation of the input
/// in ascending order of `Vec<char>`'s `Ord`, which compares lexicographically
/// by code point.
#[verifier::external_body]
pub fn sort_lines(v: &mut Vec<Vec<char>>)
    ensures
        views(final(v)@).to_multiset() == views(old(v)@).to_multiset(),
        forall|i: int, j: int|
            0 <= i < j < final(v)@.len() ==> lex_le(#[trigger] final(v)@[i]@, #[trigger] final(v)@[j]@),
{
    v.sort_unstable()
}

/// The lines in reverse order.
pub fn reverse_lines(v: &Vec<Vec<char>>) -> (r: Vec<Vec<char>>)
    ensures
        views(r@) == views(v@).reverse(),
{
    let mut r: Vec<Vec<char>> = Vec::new();
    let mut m: usize = v.len();
    while m > 0
        invariant
            m <= v@.len(),
            r@.len() == v@.len() - m,
            forall|j: int| 0 <= j < r@.len() ==> #[trigger] r@[j]@ == v@[v@.len() - 1 - j]@,
        decreases m,
    {
        m = m - 1;
        r.push(copy_range_all(&v[m]));
    }
    assert(views(r@) =~= views(v@).reverse());
    r
}

/// Whether `a` sorts no later than `b` (see `lex_le`).
pub fn line_le(a: &Vec<char>, b: &Vec<char>) -> (r: bool)
    ensures
        r == lex_le(a@, b@),
{
    let mut i: usize = 0;
    assert(a@.subrange(0, a@.len() as int) =~= a@);
    assert(b@.subrange(0, b@.len() as int) =~= b@);
    while i < a.len() && i < b.len() && a[i] == b[i]
        invariant
            i <= a@.len(),
            i <= b@.len(),
            lex_le(a@, b@) == lex_le(a@.subrange(i as int, a@.len() as int), b@.subrange(i as int, b@.len() as int)),
        decreases a@.len() - i,
    {
        let ghost sa = a@.subrange(i as int, a@.len() as int);
        let ghost sb = b@.subrange(i as int, b@.len() as int);
        assert(sa.drop_first() =~= a@.subrange(i + 1, a@.len() as int));
        assert(sb.drop_first() =~= b@.subrange(i + 1, b@.len() as int));
        assert(sa[0] == sb[0]);
        i = i + 1;
    }
    let ghost sa = a@.subrange(i as int, a@.len() as int);
    let ghost sb = b@.subrange(i as int, b@.len() as int);
    if i == a.len() {
        assert(sa.len() == 0);
        true
    } else if i == b.len() {
        assert(sb.len() == 0);
        false
    } else {
        assert(sa[0] == a@[i as int] && sb[0] == b@[i as int]);
        (a[i] as u32) < (b[i] as u32)
    }
}

} // verus!
