//! Path-string helpers and human-readable byte sizes. Paths are plain
//! strings with `/` as the separator; the last component and its stem are
//! computed character by character with exact contracts.

use vstd::prelude::*;

use crate::num::{dec_digits, u64_to_dec_string, u64_to_padded_string, zero_pad};
use vstd::arithmetic::div_mod::lemma_div_is_ordered;

verus! {

pub const KB: u64 = 1024;

pub const MB: u64 = 1024 * 1024;

pub const GB: u64 = 1024 * 1024 * 1024;

pub const TB: u64 = 1024 * 1024 * 1024 * 1024;

pub const PB: u64 = 1024 * 1024 * 1024 * 1024 * 1024;

/// A byte count scaled by a unit into hundredths, rounded to nearest with
/// ties to even, as two-decimal formatting of an exact binary value
/// rounds.
pub open spec fn spec_scaled_centi(bytes: int, unit: int) -> int {
    let q = bytes * 100 / unit;
    let rem = bytes * 100 % unit;
    if 2 * rem < unit {
        q
    } else if 2 * rem > unit || q % 2 == 1 {
        q + 1
    } else {
        q
    }
}

/// The decimal rendering of a scaled size: the whole part, a dot, and two
/// fractional digits.
pub open spec fn spec_centi_string(c: int) -> Seq<char> {
    dec_digits(c / 100) + seq!['.'] + zero_pad(dec_digits(c % 100), 2)
}

/// A byte count rendered with the largest unit it reaches, to two decimal
/// places, or as a plain byte count below one kilobyte.
pub open spec fn spec_pretty_bytes(bytes: int) -> Seq<char> {
    if bytes >= PB {
        spec_centi_string(spec_scaled_centi(bytes, PB as int)) + " PB"@
    } else if bytes >= TB {
        spec_centi_string(spec_scaled_centi(bytes, TB as int)) + " TB"@
    } else if bytes >= GB {
        spec_centi_string(spec_scaled_centi(bytes, GB as int)) + " GB"@
    } else if bytes >= MB {
        spec_centi_string(spec_scaled_centi(bytes, MB as int)) + " MB"@
    } else if bytes >= KB {
        spec_centi_string(spec_scaled_centi(bytes, KB as int)) + " KB"@
    } else {
        dec_digits(bytes) + " B"@
    }
}

fn centi_string(c: u64) -> (s: String)
    ensures
        s@ == spec_centi_string(c as int),
{
    let mut s = u64_to_dec_string(c / 100);
    s.append(".");
    let frac = u64_to_padded_string(c % 100, 2);
    s.append(frac.as_str());
    proof {
        reveal_strlit(".");
        assert(s@ =~= spec_centi_string(c as int));
    }
    s
}

fn scaled_centi(bytes: u64, unit: u64) -> (c: u64)
    requires
        unit >= 1024,
    ensures
        c == spec_scaled_centi(bytes as int, unit as int),
{
    let scaled: u128 = bytes as u128 * 100;
    let q: u128 = scaled / unit as u128;
    let rem: u128 = scaled % unit as u128;
    proof {
        let cap = (u64::MAX as int) * 100;
        lemma_div_is_ordered(scaled as int, cap, unit as int);
        lemma_div_is_ordered_by_denominator_wrap(cap, unit as int);
    }
    let c: u128 = if 2 * rem < unit as u128 {
        q
    } else if 2 * rem > unit as u128 || q % 2 == 1 {
        q + 1
    } else {
        q
    };
    c as u64
}

/// Dividing by a denominator of at least 1024 shrinks a non-negative
/// value by at least that factor's floor bound.
proof fn lemma_div_is_ordered_by_denominator_wrap(x: int, unit: int)
    requires
        x >= 0,
        unit >= 1024,
    ensures
        x / unit <= x / 1024,
{
    vstd::arithmetic::div_mod::lemma_div_is_ordered_by_denominator(x, 1024, unit);
}

/// Renders a byte count with the largest unit it reaches — PB down to KB
/// to two decimal places, rounded to nearest with ties to even — or as a plain
/// byte count below one kilobyte.
pub fn pretty_bytes_size(bytes: u64) -> (s: String)
    ensures
        s@ == spec_pretty_bytes(bytes as int),
{
    if bytes >= PB {
        let mut s = centi_string(scaled_centi(bytes, PB));
        s.append(" PB");
        s
    } else if bytes >= TB {
        let mut s = centi_string(scaled_centi(bytes, TB));
        s.append(" TB");
        s
    } else if bytes >= GB {
        let mut s = centi_string(scaled_centi(bytes, GB));
        s.append(" GB");
        s
    } else if bytes >= MB {
        let mut s = centi_string(scaled_centi(bytes, MB));
        s.append(" MB");
        s
    } else if bytes >= KB {
        let mut s = centi_string(scaled_centi(bytes, KB));
        s.append(" KB");
        s
    } else {
        let mut s = u64_to_dec_string(bytes);
        s.append(" B");
        s
    }
}

/// A path with trailing separators and trailing current-directory
/// components removed, as path normalization drops them: a trailing `/`
/// always goes, and a trailing `.` goes when it stands as a component of
/// its own.
pub open spec fn spec_drop_trailing_dir_noise(s: Seq<char>) -> Seq<char>
    decreases s.len(),
{
    if s.len() == 0 {
        s
    } else if s.last() == '/' {
        spec_drop_trailing_dir_noise(s.drop_last())
    } else if s.last() == '.' && (s.len() == 1 || s[s.len() - 2] == '/') {
        spec_drop_trailing_dir_noise(s.drop_last())
    } else {
        s
    }
}

/// The text after the last separator, the whole text when there is none.
pub open spec fn spec_after_last_slash(s: Seq<char>) -> Seq<char>
    decreases s.len(),
{
    if s.len() == 0 {
        s
    } else if s.last() == '/' {
        Seq::<char>::empty()
    } else {
        spec_after_last_slash(s.drop_last()).push(s.last())
    }
}

/// The final component of a path: the text after the last `/` once
/// trailing slashes and current-directory components are dropped; empty
/// when the path ends in a root or a parent-directory component.
pub open spec fn spec_file_name(s: Seq<char>) -> Seq<char> {
    let n = spec_after_last_slash(spec_drop_trailing_dir_noise(s));
    if n =~= seq!['.', '.'] || n.len() == 0 {
        Seq::<char>::empty()
    } else {
        n
    }
}

/// The position after the last `.` of a name, or -1 when it has none.
pub open spec fn spec_last_dot(s: Seq<char>) -> int
    decreases s.len(),
{
    if s.len() == 0 {
        -1
    } else if s.last() == '.' {
        s.len() - 1
    } else {
        spec_last_dot(s.drop_last())
    }
}

/// A file name without its extension: everything before the last `.`,
/// except that a name whose only `.` leads it (a hidden file) keeps it
/// all.
pub open spec fn spec_file_stem(s: Seq<char>) -> Seq<char> {
    let name = spec_file_name(s);
    let d = spec_last_dot(name);
    if d <= 0 {
        name
    } else {
        name.subrange(0, d)
    }
}

/// A suffix free of slashes that follows a slash (or the start) is the
/// text after the last slash.
proof fn lemma_after_last_slash_at(s: Seq<char>, b: int)
    requires
        0 <= b <= s.len(),
        forall|i: int| b <= i < s.len() ==> #[trigger] s[i] != '/',
        b > 0 ==> s[b - 1] == '/',
    ensures
        spec_after_last_slash(s) =~= s.subrange(b, s.len() as int),
    decreases s.len() - b,
{
    if b == s.len() {
        if b > 0 {
            assert(s.last() == '/');
        }
        assert(spec_after_last_slash(s) =~= s.subrange(b, s.len() as int));
    } else {
        assert(s.last() != '/');
        lemma_after_last_slash_at(s.drop_last(), b);
        assert(s.drop_last().subrange(b, s.len() - 1) =~= s.subrange(b, s.len() - 1));
        assert(spec_after_last_slash(s) =~= s.subrange(b, s.len() as int));
    }
}

/// A suffix free of dots that follows a dot (or the start) pins the last
/// dot down.
proof fn lemma_last_dot_at(s: Seq<char>, d: int)
    requires
        -1 <= d < s.len(),
        forall|i: int| d < i < s.len() ==> #[trigger] s[i] != '.',
        d >= 0 ==> s[d] == '.',
    ensures
        spec_last_dot(s) == d,
    decreases s.len(),
{
    if s.len() > 0 {
        if d == s.len() - 1 {
        } else {
            assert(s.last() != '.');
            lemma_last_dot_at(s.drop_last(), d);
        }
    }
}

/// The final component of a `/`-separated path string; empty for paths
/// that end in a root or a parent-directory component.
pub fn file_name(path: &str) -> (r: String)
    ensures
        r@ == spec_file_name(path@),
{
    let len = path.unicode_len();
    proof {
        assert(path@.subrange(0, len as int) =~= path@);
    }
    let mut e: usize = len;
    while e > 0 && (path.get_char(e - 1) == '/' || (path.get_char(e - 1) == '.' && (e == 1
        || path.get_char(e - 2) == '/')))
        invariant
            len == path@.len(),
            e <= len,
            spec_drop_trailing_dir_noise(path@) == spec_drop_trailing_dir_noise(
                path@.subrange(0, e as int),
            ),
        decreases e,
    {
        proof {
            let x = path@.subrange(0, e as int);
            assert(x.drop_last() =~= path@.subrange(0, e as int - 1));
            assert(x.last() == path@[e as int - 1]);
            if e >= 2 {
                assert(x[x.len() - 2] == path@[e as int - 2]);
            }
            assert(spec_drop_trailing_dir_noise(x) == spec_drop_trailing_dir_noise(
                path@.subrange(0, e as int - 1),
            ));
        }
        e = e - 1;
    }
    proof {
        let x = path@.subrange(0, e as int);
        if e > 0 {
            assert(x.last() == path@[e as int - 1]);
            if e >= 2 {
                assert(x[x.len() - 2] == path@[e as int - 2]);
            }
        }
        assert(spec_drop_trailing_dir_noise(x) == x);
        assert(spec_drop_trailing_dir_noise(path@) =~= x);
    }
    let mut b: usize = e;
    while b > 0 && path.get_char(b - 1) != '/'
        invariant
            len == path@.len(),
            b <= e <= len,
            forall|i: int| b <= i < e ==> #[trigger] path@[i] != '/',
        decreases b,
    {
        b = b - 1;
    }
    let name = path.substring_char(b, e);
    proof {
        let t = spec_drop_trailing_dir_noise(path@);
        assert(t =~= path@.subrange(0, e as int));
        assert forall|i: int| b <= i < t.len() implies #[trigger] t[i] != '/' by {
            assert(t[i] == path@[i]);
        }
        if b > 0 {
            assert(t[b - 1] == path@[b - 1]);
        }
        lemma_after_last_slash_at(t, b as int);
        assert(t.subrange(b as int, t.len() as int) =~= path@.subrange(b as int, e as int));
        assert(name@ == spec_after_last_slash(t));
    }
    let n = e - b;
    if n == 0 {
        return String::new();
    }
    if n == 2 && name.get_char(0) == '.' && name.get_char(1) == '.' {
        proof {
            assert(name@ =~= seq!['.', '.']);
        }
        return String::new();
    }
    proof {
        assert(!(name@ =~= seq!['.', '.']));
        assert(name@ == spec_file_name(path@));
    }
    String::from_str(name)
}

/// The final component of a path without its extension.
pub fn file_name_without_ext(path: &str) -> (r: String)
    ensures
        r@ == spec_file_stem(path@),
{
    let name = file_name(path);
    let len = name.as_str().unicode_len();
    let mut d: usize = len;
    while d > 0 && name.as_str().get_char(d - 1) != '.'
        invariant
            len == name@.len(),
            d <= len,
            forall|i: int| d <= i < len ==> #[trigger] name@[i] != '.',
        decreases d,
    {
        d = d - 1;
    }
    proof {
        lemma_last_dot_at(name@, d as int - 1);
    }
    if d <= 1 {
        proof {
            assert(spec_last_dot(name@) <= 0);
        }
        name
    } else {
        let stem = name.as_str().substring_char(0, d - 1);
        String::from_str(stem)
    }
}

} // verus!
