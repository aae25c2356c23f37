//! Text of numbers and escaped strings.
use vstd::prelude::*;
use vstd::string::StringExecFns;
use crate::text::push_char;

verus! {

pub open spec fn digit_char(d: nat) -> char {
    if d == 0 { '0' } else if d == 1 { '1' } else if d == 2 { '2' } else if d == 3 { '3' } else if d
        == 4 { '4' } else if d == 5 { '5' } else if d == 6 { '6' } else if d == 7 { '7' } else if d
        == 8 { '8' } else { '9' }
}

/// Decimal digits of `n`, without leading zeros.
pub open spec fn decimal(n: nat) -> Seq<char>
    decreases n,
{
    if n < 10 {
        seq![digit_char(n)]
    } else {
        decimal(n / 10).push(digit_char(n % 10))
    }
}

/// `decimal(n)` with zeros in front, up to `width` characters.
pub open spec fn zero_pad(n: nat, width: nat) -> Seq<char> {
    let d = decimal(n);
    if d.len() >= width {
        d
    } else {
        Seq::new((width - d.len()) as nat, |i: int| '0') + d
    }
}

/// Decimal digits of `n` with a `,` between each group of three, as the
/// English locale writes them.
pub open spec fn grouped(n: nat) -> Seq<char>
    decreases n,
{
    if n < 1000 {
        decimal(n)
    } else {
        grouped(n / 1000) + seq![','] + zero_pad(n % 1000, 3)
    }
}

pub open spec fn pow10(p: nat) -> nat
    decreases p,
{
    if p == 0 {
        1
    } else {
        10 * pow10((p - 1) as nat)
    }
}

/// `num / den` rounded half up to `places` decimals, as text; `0` when `den` is `0`.
pub open spec fn fixed(num: nat, den: nat, places: nat) -> Seq<char> {
    let scale = pow10(places);
    let q = if den == 0 { 0 } else { (2 * num * scale + den) / (2 * den) };
    decimal(q / scale) + seq!['.'] + zero_pad(q % scale, places)
}

pub open spec fn escape_char(c: char) -> Seq<char> {
    if c == '<' {
        seq!['&', 'l', 't', ';']
    } else if c == '>' {
        seq!['&', 'g', 't', ';']
    } else if c == '&' {
        seq!['&', 'a', 'm', 'p', ';']
    } else if c == '\'' {
        seq!['&', 'a', 'p', 'o', 's', ';']
    } else if c == '"' {
        seq!['&', 'q', 'u', 'o', 't', ';']
    } else if c == '\r' {
        seq!['&', '#', '1', '3', ';']
    } else {
        seq![c]
    }
}

/// `s` with the XML special characters replaced by entities.
pub open spec fn xml_escape(s: Seq<char>) -> Seq<char>
    decreases s.len(),
{
    if s.len() == 0 {
        Seq::empty()
    } else {
        xml_escape(s.drop_last()) + escape_char(s.last())
    }
}

/// Relies on `itoa::Buffer::format`: the decimal digits of an unsigned integer.
#[verifier::external_body]
pub fn decimal_text(n: u128) -> (r: String)
    ensures
        r@ == decimal(n as nat),
{
    itoa::Buffer::new().format(n).to_string()
}

/// Relies on `num_format::Buffer::write_formatted` with `Locale::en`:
/// digits grouped by three with `,` between the groups.
#[verifier::external_body]
pub fn grouped_text(n: u64) -> (r: String)
    ensures
        r@ == grouped(n as nat),
{
    let mut buf = num_format::Buffer::default();
    buf.write_formatted(&n, &num_format::Locale::en);
    buf.as_str().to_string()
}

/// Relies on `quick_xml::escape::escape`: replaces `<`, `>`, `&`, `'`, `"`
/// and carriage return by their entities.
#[verifier::external_body]
pub fn escape_text(s: &str) -> (r: String)
    ensures
        r@ == xml_escape(s@),
{
    quick_xml::escape::escape(s).into_owned()
}

/// Appends `t` to `s`.
pub fn append(s: &mut String, t: &str)
    ensures
        final(s)@ == old(s)@ + t@,
{
    s.append(t);
}

/// `zero_pad(n, width)` as a string.
pub fn zero_pad_text(n: u128, width: usize) -> (r: String)
    ensures
        r@ == zero_pad(n as nat, width as nat),
{
    let d = decimal_text(n);
    let len = d.unicode_len();
    let mut r = String::new();
    if len < width {
        let mut i: usize = 0;
        while i < width - len
            invariant
                len < width,
                i <= width - len,
                r@ == Seq::new(i as nat, |k: int| '0'),
            decreases width - len - i,
        {
            push_char(&mut r, '0');
            i = i + 1;
            assert(r@ =~= Seq::new(i as nat, |k: int| '0'));
        }
    }
    r.append(d.as_str());
    r
}

/// `fixed(num, den, places)` as a string.
pub fn fixed_text(num: u128, den: u128, places: u32) -> (r: String)
    requires
        places == 2 || places == 4,
        num <= 0x1_0000_0000_0000_0000_0000_0000_0000,
        den <= 0x1_0000_0000_0000_0000_0000_0000_0000,
    ensures
        r@ == fixed(num as nat, den as nat, places as nat),
{
    let scale: u128 = if places == 2 {
        100
    } else {
        10000
    };
    proof {
        reveal_with_fuel(pow10, 5);
        assert(pow10(2) == 100);
        assert(pow10(4) == 10000);
    }
    let q: u128 = if den == 0 {
        0
    } else {
        assert(2 * num * scale + den <= 0x1_0000_0000_0000_0000_0000_0000_0000 * 20_000 + 0x1_0000_0000_0000_0000_0000_0000_0000) by (nonlinear_arith)
            requires
                num <= 0x1_0000_0000_0000_0000_0000_0000_0000,
                den <= 0x1_0000_0000_0000_0000_0000_0000_0000,
                scale <= 10000,
        ;
        assert(2 * num <= 2 * 0x1_0000_0000_0000_0000_0000_0000_0000);
        assert(2 * num * scale <= 0x1_0000_0000_0000_0000_0000_0000_0000 * 20_000) by (nonlinear_arith)
            requires
                num <= 0x1_0000_0000_0000_0000_0000_0000_0000,
                scale <= 10000,
        ;
        (2 * num * scale + den) / (2 * den)
    };
    let mut r = decimal_text(q / scale);
    push_char(&mut r, '.');
    let frac = zero_pad_text(q % scale, places as usize);
    r.append(frac.as_str());
    r
}

} // verus!
