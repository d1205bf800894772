//! Small verified numeric helpers shared by the rest of the crate:
//! decimal rendering of unsigned integers (with zero padding) and an
//! exact integer square root.

use vstd::prelude::*;

verus! {

/// The character for one decimal digit value.
pub open spec fn digit_char(d: int) -> char {
    if d == 0 {
        '0'
    } else if d == 1 {
        '1'
    } else if d == 2 {
        '2'
    } else if d == 3 {
        '3'
    } else if d == 4 {
        '4'
    } else if d == 5 {
        '5'
    } else if d == 6 {
        '6'
    } else if d == 7 {
        '7'
    } else if d == 8 {
        '8'
    } else {
        '9'
    }
}

/// The digit value of a decimal digit character; meaningful only on '0'..'9'.
pub open spec fn digit_val(c: char) -> int {
    if c == '0' {
        0
    } else if c == '1' {
        1
    } else if c == '2' {
        2
    } else if c == '3' {
        3
    } else if c == '4' {
        4
    } else if c == '5' {
        5
    } else if c == '6' {
        6
    } else if c == '7' {
        7
    } else if c == '8' {
        8
    } else {
        9
    }
}

/// Whether a character is a decimal digit.
pub open spec fn is_dec_digit(c: char) -> bool {
    c == '0' || c == '1' || c == '2' || c == '3' || c == '4' || c == '5' || c == '6' || c == '7'
        || c == '8' || c == '9'
}

pub broadcast proof fn lemma_digit_char_val(c: char)
    requires
        is_dec_digit(c),
    ensures
        #[trigger] digit_char(digit_val(c)) == c,
        0 <= digit_val(c) < 10,
{
}

pub broadcast proof fn lemma_digit_val_char(d: int)
    requires
        0 <= d < 10,
    ensures
        #[trigger] digit_val(digit_char(d)) == d,
        is_dec_digit(digit_char(d)),
{
}

/// The decimal digit characters of a non-negative integer, most significant
/// first, with no leading zeros (a single '0' for zero).
pub open spec fn dec_digits(n: int) -> Seq<char>
    recommends
        n >= 0,
    decreases n,
{
    if n < 10 {
        seq![digit_char(n)]
    } else {
        dec_digits(n / 10).push(digit_char(n % 10))
    }
}

proof fn lemma_dec_digits_len(n: int)
    requires
        n >= 0,
    ensures
        dec_digits(n).len() >= 1,
        n < 10 <==> dec_digits(n).len() == 1,
        n < 100 <==> dec_digits(n).len() <= 2,
        n < 1000 <==> dec_digits(n).len() <= 3,
    decreases n,
{
    if n >= 10 {
        lemma_dec_digits_len(n / 10);
    }
}

/// `s` left-padded with '0' characters up to width `w` (unchanged if already
/// at least that wide).
pub open spec fn zero_pad(s: Seq<char>, w: int) -> Seq<char> {
    if s.len() >= w {
        s
    } else {
        Seq::new((w - s.len()) as nat, |i: int| '0') + s
    }
}

fn digit_to_str(d: u64) -> (s: &'static str)
    requires
        d < 10,
    ensures
        s@ == seq![digit_char(d as int)],
{
    let s: &'static str = if d == 0 {
        "0"
    } else if d == 1 {
        "1"
    } else if d == 2 {
        "2"
    } else if d == 3 {
        "3"
    } else if d == 4 {
        "4"
    } else if d == 5 {
        "5"
    } else if d == 6 {
        "6"
    } else if d == 7 {
        "7"
    } else if d == 8 {
        "8"
    } else {
        "9"
    };
    proof {
        reveal_strlit("0");
        reveal_strlit("1");
        reveal_strlit("2");
        reveal_strlit("3");
        reveal_strlit("4");
        reveal_strlit("5");
        reveal_strlit("6");
        reveal_strlit("7");
        reveal_strlit("8");
        reveal_strlit("9");
        assert(s@ =~= seq![digit_char(d as int)]);
    }
    s
}

/// Renders `n` in decimal, without padding.
pub fn u64_to_dec_string(n: u64) -> (s: String)
    ensures
        s@ == dec_digits(n as int),
    decreases n,
{
    if n < 10 {
        String::from_str(digit_to_str(n))
    } else {
        let mut s = u64_to_dec_string(n / 10);
        s.append(digit_to_str(n % 10));
        proof {
            assert(s@ =~= dec_digits(n as int));
        }
        s
    }
}

/// Renders `n` in decimal, left-padded with zeros to at least `width`
/// characters.
pub fn u64_to_padded_string(n: u64, width: usize) -> (s: String)
    ensures
        s@ == zero_pad(dec_digits(n as int), width as int),
{
    let d = u64_to_dec_string(n);
    let len = d.as_str().unicode_len();
    if len >= width {
        return d;
    }
    let mut s = String::new();
    let mut i: usize = 0;
    while i < width - len
        invariant
            len < width,
            i <= width - len,
            s@ =~= Seq::new(i as nat, |k: int| '0'),
        decreases width - len - i,
    {
        s.append(digit_to_str(0));
        i = i + 1;
        proof {
            assert(s@ =~= Seq::new(i as nat, |k: int| '0'));
        }
    }
    s.append(d.as_str());
    proof {
        assert(s@ =~= zero_pad(dec_digits(n as int), width as int));
    }
    s
}

/// Signed division rounding toward zero, as machine division does.
pub open spec fn div_trunc(a: int, b: int) -> int
    recommends
        b > 0,
{
    if a >= 0 {
        a / b
    } else {
        -((-a) / b)
    }
}

/// The (unique) integer square root: the largest `r` with `r * r <= x`.
pub open spec fn spec_isqrt(x: int) -> int {
    choose|r: int| 0 <= r && #[trigger] (r * r) <= x && x < (r + 1) * (r + 1)
}

pub proof fn lemma_isqrt_is(x: int, r: int)
    requires
        0 <= r,
        r * r <= x,
        x < (r + 1) * (r + 1),
    ensures
        spec_isqrt(x) == r,
{
    assert(0 <= r && r * r <= x && x < (r + 1) * (r + 1));
    let r2 = spec_isqrt(x);
    assert(0 <= r2 && r2 * r2 <= x && x < (r2 + 1) * (r2 + 1));
    if r < r2 {
        assert((r + 1) * (r + 1) <= r2 * r2) by (nonlinear_arith)
            requires
                0 <= r,
                r < r2,
        ;
    }
    if r2 < r {
        assert((r2 + 1) * (r2 + 1) <= r * r) by (nonlinear_arith)
            requires
                0 <= r2,
                r2 < r,
        ;
    }
}

/// Computes the integer square root of `x` by binary search.
pub fn isqrt_u64(x: u64) -> (r: u64)
    ensures
        r * r <= x < (r + 1) * (r + 1),
        r == spec_isqrt(x as int),
{
    let mut lo: u64 = 0;
    let mut hi: u64 = 0xFFFF_FFFF;
    proof {
        assert((x as int) < (0xFFFF_FFFFu64 + 1) * (0xFFFF_FFFFu64 + 1)) by (nonlinear_arith);
    }
    while lo < hi
        invariant
            lo <= hi <= 0xFFFF_FFFF,
            lo * lo <= x,
            (x as int) < (hi + 1) * (hi + 1),
        decreases hi - lo,
    {
        let mid = lo + (hi - lo + 1) / 2;
        let m = mid as u128;
        proof {
            assert(m * m <= 0x1_0000_0000 * 0x1_0000_0000) by (nonlinear_arith)
                requires
                    m <= 0x1_0000_0000,
            ;
        }
        if m * m <= x as u128 {
            lo = mid;
        } else {
            hi = mid - 1;
        }
    }
    proof {
        lemma_isqrt_is(x as int, lo as int);
    }
    lo
}

} // verus!
