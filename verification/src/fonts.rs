//! Classification of font names: a font counts as Chinese when its name
//! holds a CJK ideograph or one of a fixed list of family keywords.
//! Enumerating the system's fonts is platform work done by the
//! surrounding application; the classification itself is verified here.

use vstd::prelude::*;

use crate::text::{contains_sub, spec_contains_sub};

verus! {

/// Whether a character is a CJK ideograph: the unified block, extension A
/// or extension B.
pub open spec fn spec_is_cjk_char(c: char) -> bool {
    ('\u{4E00}' <= c && c <= '\u{9FFF}') || ('\u{3400}' <= c && c <= '\u{4DBF}') || (
    '\u{20000}' <= c && c <= '\u{2A6DF}')
}

/// Whether any character of a name is a CJK ideograph.
pub open spec fn spec_has_cjk_char(s: Seq<char>) -> bool {
    exists|i: int| 0 <= i < s.len() && spec_is_cjk_char(#[trigger] s[i])
}

/// Whether a font name names a Chinese font: it holds a CJK ideograph, or
/// one of the family keywords common to Chinese fonts.
pub open spec fn spec_is_chinese_font(s: Seq<char>) -> bool {
    ||| spec_has_cjk_char(s)
    ||| spec_contains_sub(s, "宋体"@)
    ||| spec_contains_sub(s, "黑体"@)
    ||| spec_contains_sub(s, "楷体"@)
    ||| spec_contains_sub(s, "仿宋"@)
    ||| spec_contains_sub(s, "雅黑"@)
    ||| spec_contains_sub(s, "Song"@)
    ||| spec_contains_sub(s, "Hei"@)
    ||| spec_contains_sub(s, "Fang"@)
    ||| spec_contains_sub(s, "YaHei"@)
    ||| spec_contains_sub(s, "PingFang"@)
    ||| spec_contains_sub(s, "Hiragino"@)
    ||| spec_contains_sub(s, "WenQuanYi"@)
    ||| spec_contains_sub(s, "Source Han"@)
    ||| spec_contains_sub(s, "Microsoft"@)
    ||| spec_contains_sub(s, "华文"@)
    ||| spec_contains_sub(s, "思源"@)
}

fn is_cjk_char(c: char) -> (r: bool)
    ensures
        r == spec_is_cjk_char(c),
{
    ('\u{4E00}' <= c && c <= '\u{9FFF}') || ('\u{3400}' <= c && c <= '\u{4DBF}') || (
    '\u{20000}' <= c && c <= '\u{2A6DF}')
}

/// Decides whether a font name names a Chinese font.
pub fn is_chinese_font(font_name: &str) -> (r: bool)
    ensures
        r == spec_is_chinese_font(font_name@),
{
    let len = font_name.unicode_len();
    let mut i: usize = 0;
    while i < len
        invariant
            len == font_name@.len(),
            i <= len,
            forall|k: int| 0 <= k < i ==> !spec_is_cjk_char(#[trigger] font_name@[k]),
        decreases len - i,
    {
        if is_cjk_char(font_name.get_char(i)) {
            return true;
        }
        i = i + 1;
    }
    contains_sub(font_name, "宋体") || contains_sub(font_name, "黑体") || contains_sub(
        font_name,
        "楷体",
    ) || contains_sub(font_name, "仿宋") || contains_sub(font_name, "雅黑") || contains_sub(
        font_name,
        "Song",
    ) || contains_sub(font_name, "Hei") || contains_sub(font_name, "Fang") || contains_sub(
        font_name,
        "YaHei",
    ) || contains_sub(font_name, "PingFang") || contains_sub(font_name, "Hiragino")
        || contains_sub(font_name, "WenQuanYi") || contains_sub(font_name, "Source Han")
        || contains_sub(font_name, "Microsoft") || contains_sub(font_name, "华文") || contains_sub(
        font_name,
        "思源",
    )
}

} // verus!
