//! Decimal text of numbers and small string helpers.
use vstd::prelude::*;

verus! {

/// The character of a decimal digit.
pub open spec fn digit_char(d: nat) -> char {
    if d == 0 { '0' }
    else if d == 1 { '1' }
    else if d == 2 { '2' }
    else if d == 3 { '3' }
    else if d == 4 { '4' }
    else if d == 5 { '5' }
    else if d == 6 { '6' }
    else if d == 7 { '7' }
    else if d == 8 { '8' }
    else { '9' }
}

fn digit_str(d: u64) -> (r: &'static str)
    requires
        d < 10,
    ensures
        r@ == seq![digit_char(d as nat)],
{
    proof {
        reveal_strlit("0");
        reveal_strlit("1");
        reveal_strlit("2");
        reveal_strlit("3");
        reveal_strlit("4");
        reveal_strlit("5");
        reveal_strlit("6");
        reveal_strlit("7");
        reveal_strlit("8");
        reveal_strlit("9");
    }
    match d {
        0 => "0",
        1 => "1",
        2 => "2",
        3 => "3",
        4 => "4",
        5 => "5",
        6 => "6",
        7 => "7",
        8 => "8",
        _ => "9",
    }
}

/// The decimal text of `n`, without leading zeros.
pub open spec fn decimal_text(n: nat) -> Seq<char>
    decreases n,
{
    if n < 10 {
        seq![digit_char(n)]
    } else {
        decimal_text(n / 10) + seq![digit_char(n % 10)]
    }
}

/// Return the decimal text of `n`.
pub fn decimal(n: u64) -> (r: String)
    ensures
        r@ == decimal_text(n as nat),
    decreases n,
{
    if n < 10 {
        String::from_str(digit_str(n))
    } else {
        let mut s = decimal(n / 10);
        s.append(digit_str(n % 10));
        s
    }
}

/// The last `len` decimal digits of `n`, leading zeros kept.
pub open spec fn padded_digits(n: nat, len: nat) -> Seq<char>
    decreases len,
{
    if len == 0 {
        Seq::empty()
    } else {
        padded_digits(n / 10, (len - 1) as nat) + seq![digit_char(n % 10)]
    }
}

fn padded(n: u64, len: u32) -> (r: String)
    ensures
        r@ == padded_digits(n as nat, len as nat),
    decreases len,
{
    if len == 0 {
        String::new()
    } else {
        let mut s = padded(n / 10, len - 1);
        s.append(digit_str(n % 10));
        s
    }
}

/// A fraction of `len` digits with its trailing zeros dropped: the digits
/// left and their number.
pub open spec fn trimmed(n: nat, len: nat) -> (nat, nat)
    decreases len,
{
    if len > 0 && n % 10 == 0 {
        trimmed(n / 10, (len - 1) as nat)
    } else {
        (n, len)
    }
}

/// Coordinate units in a degree.
pub const UNITS_PER_DEGREE: u64 = 10_000_000;

/// The text of a coordinate given in units of 1e-7 degree, in degrees: a
/// minus sign if it is negative, the whole degrees, then a point and the
/// fraction without its trailing zeros, if it has one (`450100000` is
/// `45.01`, `-40000000` is `-4`).
pub open spec fn coordinate_text(v: int) -> Seq<char> {
    let m = if v < 0 { -v } else { v };
    let sign = if v < 0 { "-"@ } else { Seq::empty() };
    let whole = decimal_text((m / UNITS_PER_DEGREE as int) as nat);
    let (f, len) = trimmed((m % UNITS_PER_DEGREE as int) as nat, 7);
    if len == 0 {
        sign + whole
    } else {
        sign + whole + "."@ + padded_digits(f, len)
    }
}

/// Return the text of a coordinate given in units of 1e-7 degree (see
/// `coordinate_text`).
pub fn coordinate(v: i64) -> (r: String)
    requires
        v > i64::MIN,
    ensures
        r@ == coordinate_text(v as int),
{
    let m: u64 = if v < 0 { (-v) as u64 } else { v as u64 };
    let mut out = if v < 0 { String::from_str("-") } else { String::new() };
    let whole = decimal(m / UNITS_PER_DEGREE);
    out.append(whole.as_str());
    let mut f: u64 = m % UNITS_PER_DEGREE;
    let mut len: u32 = 7;
    while len > 0 && f % 10 == 0
        invariant
            len <= 7,
            trimmed(f as nat, len as nat) == trimmed((m % UNITS_PER_DEGREE) as nat, 7),
        decreases len,
    {
        f = f / 10;
        len = len - 1;
    }
    if len > 0 {
        out.append(".");
        let digits = padded(f, len);
        out.append(digits.as_str());
    }
    out
}

/// `s` with its line breaks taken out.
pub open spec fn without_newlines(s: Seq<char>) -> Seq<char>
    decreases s.len(),
{
    if s.len() == 0 {
        Seq::empty()
    } else if s.last() == '\n' {
        without_newlines(s.drop_last())
    } else {
        without_newlines(s.drop_last()).push(s.last())
    }
}

/// Return `s` with its line breaks taken out.
pub fn remove_newlines(s: &str) -> (r: String)
    ensures
        r@ == without_newlines(s@),
{
    let n = s.unicode_len();
    let mut out = String::new();
    let mut i: usize = 0;
    while i < n
        invariant
            n == s@.len(),
            i <= n,
            out@ == without_newlines(s@.subrange(0, i as int)),
        decreases n - i,
    {
        let c = s.get_char(i);
        assert(s@.subrange(0, i + 1).drop_last() =~= s@.subrange(0, i as int));
        if c != '\n' {
            let one = s.substring_char(i, i + 1);
            assert(one@ =~= seq![c]);
            out.append(one);
        }
        i = i + 1;
    }
    assert(s@.subrange(0, n as int) =~= s@);
    out
}

} // verus!
