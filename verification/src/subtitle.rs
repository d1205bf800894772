//! The subtitle and timestamp model: millisecond timestamps rendered as
//! `HH:MM:SS,mmm` (SRT) or `HH:MM:SS.mmm` (WebVTT), a strict parser that is
//! the exact inverse of the renderer, and serialization of caption entries
//! to SRT, VTT and plain-text documents.

use vstd::prelude::*;

use crate::error::TranscribeError;
use crate::whisper::TranscriptionResult;
use crate::num::{
    dec_digits, digit_char, digit_val, is_dec_digit, lemma_digit_char_val, lemma_digit_val_char,
    u64_to_dec_string, u64_to_padded_string, zero_pad,
};
use vstd::arithmetic::div_mod::lemma_fundamental_div_mod_converse;

verus! {

/// An export-ready caption: a 1-based index, start and end times in
/// milliseconds, and the caption text.
#[derive(Debug, Clone)]
pub struct Subtitle {
    pub index: i32,
    pub start_timestamp: u64,
    pub end_timestamp: u64,
    pub text: String,
}

impl Default for Subtitle {
    fn default() -> (s: Subtitle)
        ensures
            s.index == 0,
            s.start_timestamp == 0,
            s.end_timestamp == 0,
            s.text@ == Seq::<char>::empty(),
    {
        Subtitle { index: 0, start_timestamp: 0, end_timestamp: 0, text: String::new() }
    }
}


/// Turns a transcription's segments into export-ready captions, one per
/// segment, keeping index, times and text.
pub fn transcription_to_subtitle(transcription: &TranscriptionResult) -> (r: Vec<Subtitle>)
    ensures
        r@.len() == transcription.segments@.len(),
        forall|k: int|
            #![trigger r@[k]]
            0 <= k < transcription.segments@.len() ==> r@[k].index == transcription.segments@[
                k
            ].index && r@[k].start_timestamp == transcription.segments@[k].start_time && r@[
                k
            ].end_timestamp == transcription.segments@[k].end_time && r@[k].text@
                == transcription.segments@[k].text@,
{
    let n = transcription.segments.len();
    let mut items: Vec<Subtitle> = Vec::new();
    let mut i: usize = 0;
    while i < n
        invariant
            n == transcription.segments@.len(),
            i <= n,
            items@.len() == i,
            forall|k: int|
                #![trigger items@[k]]
                0 <= k < i ==> items@[k].index == transcription.segments@[k].index && items@[
                    k
                ].start_timestamp == transcription.segments@[k].start_time && items@[
                    k
                ].end_timestamp == transcription.segments@[k].end_time && items@[k].text@
                    == transcription.segments@[k].text@,
        decreases n - i,
    {
        let seg = &transcription.segments[i];
        items.push(
            Subtitle {
                index: seg.index,
                start_timestamp: seg.start_time,
                end_timestamp: seg.end_time,
                text: seg.text.clone(),
            },
        );
        i = i + 1;
    }
    items
}

/// A millisecond count rendered as `HH:MM:SS` plus a separator and three
/// millisecond digits; hours, minutes and seconds are zero-padded to two
/// digits (hours take more digits when they do not fit in two).
pub open spec fn spec_timestamp(ms: int, sep: char) -> Seq<char> {
    zero_pad(dec_digits(ms / 3600000), 2) + seq![':'] + zero_pad(
        dec_digits((ms / 60000) % 60),
        2,
    ) + seq![':'] + zero_pad(dec_digits((ms / 1000) % 60), 2) + seq![sep] + zero_pad(
        dec_digits(ms % 1000),
        3,
    )
}

/// The SRT rendering of a millisecond count (comma before the milliseconds).
pub open spec fn spec_srt_timestamp(ms: int) -> Seq<char> {
    spec_timestamp(ms, ',')
}

/// The WebVTT rendering of a millisecond count (dot before the milliseconds).
pub open spec fn spec_vtt_timestamp(ms: int) -> Seq<char> {
    spec_timestamp(ms, '.')
}

fn ms_to_timestamp_with_sep(milliseconds: u64, sep_is_comma: bool) -> (s: String)
    ensures
        s@ == spec_timestamp(milliseconds as int, if sep_is_comma { ',' } else { '.' }),
{
    let hours = milliseconds / 3600000;
    let minutes = (milliseconds / 60000) % 60;
    let seconds = (milliseconds / 1000) % 60;
    let millis = milliseconds % 1000;

    let mut s = u64_to_padded_string(hours, 2);
    s.append(":");
    let m = u64_to_padded_string(minutes, 2);
    s.append(m.as_str());
    s.append(":");
    let sec = u64_to_padded_string(seconds, 2);
    s.append(sec.as_str());
    if sep_is_comma {
        s.append(",");
    } else {
        s.append(".");
    }
    let mil = u64_to_padded_string(millis, 3);
    s.append(mil.as_str());
    proof {
        reveal_strlit(":");
        reveal_strlit(",");
        reveal_strlit(".");
        assert(s@ =~= spec_timestamp(
            milliseconds as int,
            if sep_is_comma {
                ','
            } else {
                '.'
            },
        ));
    }
    s
}

/// Renders a millisecond count as an SRT timestamp, `HH:MM:SS,mmm`.
pub fn ms_to_srt_timestamp(milliseconds: u64) -> (s: String)
    ensures
        s@ == spec_srt_timestamp(milliseconds as int),
{
    ms_to_timestamp_with_sep(milliseconds, true)
}

/// Renders a millisecond count as a WebVTT timestamp, `HH:MM:SS.mmm`.
pub fn ms_to_vtt_timestamp(milliseconds: u64) -> (s: String)
    ensures
        s@ == spec_vtt_timestamp(milliseconds as int),
{
    ms_to_timestamp_with_sep(milliseconds, false)
}

/// A well-formed SRT timestamp string: exactly `HH:MM:SS,mmm` with two-digit
/// fields, hours below 24 and minutes and seconds below 60.
pub open spec fn spec_valid_srt_timestamp(s: Seq<char>) -> bool {
    &&& s.len() == 12
    &&& is_dec_digit(s[0])
    &&& is_dec_digit(s[1])
    &&& s[2] == ':'
    &&& is_dec_digit(s[3])
    &&& is_dec_digit(s[4])
    &&& s[5] == ':'
    &&& is_dec_digit(s[6])
    &&& is_dec_digit(s[7])
    &&& s[8] == ','
    &&& is_dec_digit(s[9])
    &&& is_dec_digit(s[10])
    &&& is_dec_digit(s[11])
    &&& digit_val(s[0]) * 10 + digit_val(s[1]) < 24
    &&& digit_val(s[3]) * 10 + digit_val(s[4]) < 60
    &&& digit_val(s[6]) * 10 + digit_val(s[7]) < 60
}

/// The millisecond count written by a well-formed SRT timestamp string.
pub open spec fn spec_parse_srt_timestamp(s: Seq<char>) -> int {
    (digit_val(s[0]) * 10 + digit_val(s[1])) * 3600000 + (digit_val(s[3]) * 10 + digit_val(s[4]))
        * 60000 + (digit_val(s[6]) * 10 + digit_val(s[7])) * 1000 + digit_val(s[9]) * 100
        + digit_val(s[10]) * 10 + digit_val(s[11])
}

fn digit_of_char(c: char) -> (r: Option<u64>)
    ensures
        r is Some <==> is_dec_digit(c),
        r matches Some(d) ==> d == digit_val(c) && d < 10,
{
    match c {
        '0' => Some(0u64),
        '1' => Some(1u64),
        '2' => Some(2u64),
        '3' => Some(3u64),
        '4' => Some(4u64),
        '5' => Some(5u64),
        '6' => Some(6u64),
        '7' => Some(7u64),
        '8' => Some(8u64),
        '9' => Some(9u64),
        _ => None,
    }
}

/// Parses an SRT timestamp back to milliseconds. This is the exact inverse of
/// [`ms_to_srt_timestamp`] on every valid input; anything else is rejected
/// with a format error.
pub fn srt_timestamp_to_ms(timestamp: &str) -> (r: Result<u64, TranscribeError>)
    ensures
        r is Ok <==> spec_valid_srt_timestamp(timestamp@),
        r matches Ok(ms) ==> ms == spec_parse_srt_timestamp(timestamp@),
        r is Err ==> r == Err::<u64, TranscribeError>(TranscribeError::InvalidTimestamp),
{
    if timestamp.unicode_len() != 12 {
        return Err(TranscribeError::InvalidTimestamp);
    }
    if !(timestamp.get_char(2) == ':' && timestamp.get_char(5) == ':' && timestamp.get_char(8)
        == ',') {
        return Err(TranscribeError::InvalidTimestamp);
    }
    let d0 = digit_of_char(timestamp.get_char(0));
    let d1 = digit_of_char(timestamp.get_char(1));
    let d3 = digit_of_char(timestamp.get_char(3));
    let d4 = digit_of_char(timestamp.get_char(4));
    let d6 = digit_of_char(timestamp.get_char(6));
    let d7 = digit_of_char(timestamp.get_char(7));
    let d9 = digit_of_char(timestamp.get_char(9));
    let d10 = digit_of_char(timestamp.get_char(10));
    let d11 = digit_of_char(timestamp.get_char(11));
    match (d0, d1, d3, d4, d6, d7, d9, d10, d11) {
        (
            Some(h1),
            Some(h2),
            Some(m1),
            Some(m2),
            Some(s1),
            Some(s2),
            Some(f1),
            Some(f2),
            Some(f3),
        ) => {
            let hours = h1 * 10 + h2;
            let minutes = m1 * 10 + m2;
            let seconds = s1 * 10 + s2;
            let millis = f1 * 100 + f2 * 10 + f3;
            if hours < 24 && minutes < 60 && seconds < 60 {
                Ok(hours * 3600000 + minutes * 60000 + seconds * 1000 + millis)
            } else {
                Err(TranscribeError::InvalidTimestamp)
            }
        },
        _ => Err(TranscribeError::InvalidTimestamp),
    }
}

/// Whether a string parses as an SRT timestamp.
pub fn valid_srt_timestamp(timestamp: &str) -> (r: bool)
    ensures
        r == spec_valid_srt_timestamp(timestamp@),
{
    srt_timestamp_to_ms(timestamp).is_ok()
}

/// Parsing is a left inverse of rendering: every millisecond count below
/// twenty-four hours renders as a valid SRT timestamp that parses back to
/// the same count.
pub proof fn lemma_srt_timestamp_round_trip(ms: int)
    requires
        0 <= ms < 86400000,
    ensures
        spec_valid_srt_timestamp(spec_srt_timestamp(ms)),
        spec_parse_srt_timestamp(spec_srt_timestamp(ms)) == ms,
{
    let h = ms / 3600000;
    let m = (ms / 60000) % 60;
    let sec = (ms / 1000) % 60;
    let mil = ms % 1000;
    lemma_timestamp_fields(ms);
    let p1 = zero_pad(dec_digits(h), 2);
    let p2 = zero_pad(dec_digits(m), 2);
    let p3 = zero_pad(dec_digits(sec), 2);
    let p4 = zero_pad(dec_digits(mil), 3);
    lemma_two_digit_pad(h, p1);
    lemma_two_digit_pad(m, p2);
    lemma_two_digit_pad(sec, p3);
    lemma_three_digit_pad(mil, p4);
    let s = spec_srt_timestamp(ms);
    assert(s == p1 + seq![':'] + p2 + seq![':'] + p3 + seq![','] + p4);
    assert(s.len() == 12);
    assert(s[0] == p1[0] && s[1] == p1[1]);
    assert(s[2] == ':');
    assert(s[3] == p2[0] && s[4] == p2[1]);
    assert(s[5] == ':');
    assert(s[6] == p3[0] && s[7] == p3[1]);
    assert(s[8] == ',');
    assert(s[9] == p4[0] && s[10] == p4[1] && s[11] == p4[2]);
    assert(spec_parse_srt_timestamp(s) == h * 3600000 + m * 60000 + sec * 1000 + mil);
}

/// Rendering is a left inverse of parsing: every valid SRT timestamp string
/// is recovered exactly by rendering the milliseconds it parses to.
pub proof fn lemma_srt_format_parse_round_trip(s: Seq<char>)
    requires
        spec_valid_srt_timestamp(s),
    ensures
        0 <= spec_parse_srt_timestamp(s) < 86400000,
        spec_srt_timestamp(spec_parse_srt_timestamp(s)) == s,
{
    let h = digit_val(s[0]) * 10 + digit_val(s[1]);
    let m = digit_val(s[3]) * 10 + digit_val(s[4]);
    let sec = digit_val(s[6]) * 10 + digit_val(s[7]);
    let mil = digit_val(s[9]) * 100 + digit_val(s[10]) * 10 + digit_val(s[11]);
    let ms = spec_parse_srt_timestamp(s);
    assert(0 <= digit_val(s[0]) < 10 && 0 <= digit_val(s[1]) < 10 && 0 <= digit_val(s[3]) < 10 && 0
        <= digit_val(s[4]) < 10 && 0 <= digit_val(s[6]) < 10 && 0 <= digit_val(s[7]) < 10 && 0
        <= digit_val(s[9]) < 10 && 0 <= digit_val(s[10]) < 10 && 0 <= digit_val(s[11]) < 10) by {
        lemma_digit_char_val(s[0]);
        lemma_digit_char_val(s[1]);
        lemma_digit_char_val(s[3]);
        lemma_digit_char_val(s[4]);
        lemma_digit_char_val(s[6]);
        lemma_digit_char_val(s[7]);
        lemma_digit_char_val(s[9]);
        lemma_digit_char_val(s[10]);
        lemma_digit_char_val(s[11]);
    }
    assert(ms == h * 3600000 + m * 60000 + sec * 1000 + mil);
    assert(0 <= ms < 86400000);
    // The rendered fields of ms are exactly h, m, sec, mil.
    lemma_fundamental_div_mod_converse(ms, 3600000, h, m * 60000 + sec * 1000 + mil);
    assert(ms / 3600000 == h);
    lemma_fundamental_div_mod_converse(ms, 60000, h * 60 + m, sec * 1000 + mil);
    assert(ms / 60000 == h * 60 + m);
    lemma_fundamental_div_mod_converse(h * 60 + m, 60, h, m);
    assert((ms / 60000) % 60 == m);
    lemma_fundamental_div_mod_converse(ms, 1000, (h * 60 + m) * 60 + sec, mil);
    assert(ms / 1000 == (h * 60 + m) * 60 + sec);
    lemma_fundamental_div_mod_converse((h * 60 + m) * 60 + sec, 60, h * 60 + m, sec);
    assert((ms / 1000) % 60 == sec);
    assert(ms % 1000 == mil);
    lemma_digit_char_val(s[0]);
    lemma_digit_char_val(s[1]);
    lemma_digit_char_val(s[3]);
    lemma_digit_char_val(s[4]);
    lemma_digit_char_val(s[6]);
    lemma_digit_char_val(s[7]);
    lemma_digit_char_val(s[9]);
    lemma_digit_char_val(s[10]);
    lemma_digit_char_val(s[11]);
    lemma_pad_of_two_digits(digit_val(s[0]), digit_val(s[1]));
    lemma_pad_of_two_digits(digit_val(s[3]), digit_val(s[4]));
    lemma_pad_of_two_digits(digit_val(s[6]), digit_val(s[7]));
    lemma_pad_of_three_digits(digit_val(s[9]), digit_val(s[10]), digit_val(s[11]));
    let p1 = zero_pad(dec_digits(ms / 3600000), 2);
    let p2 = zero_pad(dec_digits((ms / 60000) % 60), 2);
    let p3 = zero_pad(dec_digits((ms / 1000) % 60), 2);
    let p4 = zero_pad(dec_digits(ms % 1000), 3);
    assert(p1 =~= seq![s[0], s[1]]);
    assert(p2 =~= seq![s[3], s[4]]);
    assert(p3 =~= seq![s[6], s[7]]);
    assert(p4 =~= seq![s[9], s[10], s[11]]);
    assert(spec_srt_timestamp(ms) =~= s);
}

/// The two-character zero-padded rendering of `n < 100` is digit characters
/// whose values recombine to `n`.
proof fn lemma_two_digit_pad(n: int, out: Seq<char>)
    requires
        0 <= n < 100,
        out == zero_pad(dec_digits(n), 2),
    ensures
        out.len() == 2,
        is_dec_digit(out[0]),
        is_dec_digit(out[1]),
        digit_val(out[0]) * 10 + digit_val(out[1]) == n,
{
    vstd::arithmetic::div_mod::lemma_fundamental_div_mod(n, 10);
    assert(n == (n / 10) * 10 + n % 10);
    lemma_pad_of_two_digits(n / 10, n % 10);
    lemma_digit_val_char(n / 10);
    lemma_digit_val_char(n % 10);
}

/// The three-character zero-padded rendering of `n < 1000`.
proof fn lemma_three_digit_pad(n: int, out: Seq<char>)
    requires
        0 <= n < 1000,
        out == zero_pad(dec_digits(n), 3),
    ensures
        out.len() == 3,
        is_dec_digit(out[0]),
        is_dec_digit(out[1]),
        is_dec_digit(out[2]),
        digit_val(out[0]) * 100 + digit_val(out[1]) * 10 + digit_val(out[2]) == n,
{
    let a = n / 100;
    let r = n % 100;
    let b = r / 10;
    let c = r % 10;
    vstd::arithmetic::div_mod::lemma_fundamental_div_mod(n, 100);
    vstd::arithmetic::div_mod::lemma_fundamental_div_mod(r, 10);
    assert(n == a * 100 + b * 10 + c);
    lemma_pad_of_three_digits(a, b, c);
    lemma_digit_val_char(a);
    lemma_digit_val_char(b);
    lemma_digit_val_char(c);
}

proof fn lemma_pad_of_two_digits(a: int, b: int)
    requires
        0 <= a < 10,
        0 <= b < 10,
    ensures
        zero_pad(dec_digits(a * 10 + b), 2) =~= seq![digit_char(a), digit_char(b)],
{
    let n = a * 10 + b;
    if a == 0 {
        assert(n < 10);
        assert(dec_digits(n) =~= seq![digit_char(b)]);
        assert(zero_pad(dec_digits(n), 2) =~= seq!['0', digit_char(b)]);
    } else {
        assert(n >= 10);
        lemma_fundamental_div_mod_converse(n, 10, a, b);
        assert(dec_digits(n) =~= dec_digits(a).push(digit_char(b)));
        assert(dec_digits(a) =~= seq![digit_char(a)]);
        assert(zero_pad(dec_digits(n), 2) =~= seq![digit_char(a), digit_char(b)]);
    }
}

proof fn lemma_pad_of_three_digits(a: int, b: int, c: int)
    requires
        0 <= a < 10,
        0 <= b < 10,
        0 <= c < 10,
    ensures
        zero_pad(dec_digits(a * 100 + b * 10 + c), 3) =~= seq![
            digit_char(a),
            digit_char(b),
            digit_char(c),
        ],
{
    let n = a * 100 + b * 10 + c;
    lemma_fundamental_div_mod_converse(n, 10, a * 10 + b, c);
    if a == 0 && b == 0 {
        assert(n < 10);
        assert(dec_digits(n) =~= seq![digit_char(c)]);
    } else {
        assert(n >= 10);
        assert(dec_digits(n) =~= dec_digits(a * 10 + b).push(digit_char(c)));
        lemma_pad_of_two_digits(a, b);
        if a == 0 {
            assert(dec_digits(a * 10 + b) =~= seq![digit_char(b)]);
        } else {
            assert(a * 10 + b >= 10);
            lemma_fundamental_div_mod_converse(a * 10 + b, 10, a, b);
            assert(dec_digits(a * 10 + b) =~= seq![digit_char(a), digit_char(b)]);
        }
    }
}

/// A signed index rendered in decimal.
pub open spec fn spec_i32_string(n: int) -> Seq<char> {
    if n >= 0 {
        dec_digits(n)
    } else {
        seq!['-'] + dec_digits(-n)
    }
}

fn i32_to_dec_string(n: i32) -> (s: String)
    ensures
        s@ == spec_i32_string(n as int),
{
    if n >= 0 {
        let s = u64_to_dec_string(n as u64);
        proof {
            assert(s@ =~= spec_i32_string(n as int));
        }
        s
    } else {
        let mut s = String::from_str("-");
        let d = u64_to_dec_string((-(n as i64)) as u64);
        s.append(d.as_str());
        proof {
            reveal_strlit("-");
            assert(s@ =~= spec_i32_string(n as int));
        }
        s
    }
}

/// One rendered caption block: the index line, the time line
/// `START --> END`, and the text line.
pub open spec fn spec_subtitle_block(sub: Subtitle, sep: char) -> Seq<char> {
    spec_i32_string(sub.index as int) + seq!['\n'] + spec_timestamp(sub.start_timestamp as int, sep)
        + " --> "@ + spec_timestamp(sub.end_timestamp as int, sep) + seq!['\n'] + sub.text@
}

fn subtitle_block(subtitle: &Subtitle, sep_is_comma: bool) -> (r: String)
    ensures
        r@ == spec_subtitle_block(
            *subtitle,
            if sep_is_comma {
                ','
            } else {
                '.'
            },
        ),
{
    let mut s = i32_to_dec_string(subtitle.index);
    s.append("\n");
    let start = ms_to_timestamp_with_sep(subtitle.start_timestamp, sep_is_comma);
    s.append(start.as_str());
    s.append(" --> ");
    let end = ms_to_timestamp_with_sep(subtitle.end_timestamp, sep_is_comma);
    s.append(end.as_str());
    s.append("\n");
    s.append(subtitle.text.as_str());
    proof {
        reveal_strlit("\n");
        assert(s@ =~= spec_subtitle_block(
            *subtitle,
            if sep_is_comma {
                ','
            } else {
                '.'
            },
        ));
    }
    s
}

/// Renders one caption as an SRT block: `index\nSTART --> END\ntext`.
pub fn subtitle_to_srt(subtitle: &Subtitle) -> (r: String)
    ensures
        r@ == spec_subtitle_block(*subtitle, ','),
{
    subtitle_block(subtitle, true)
}

/// Renders one caption as a WebVTT block: `index\nSTART --> END\ntext`.
pub fn subtitle_to_vtt(subtitle: &Subtitle) -> (r: String)
    ensures
        r@ == spec_subtitle_block(*subtitle, '.'),
{
    subtitle_block(subtitle, false)
}

/// The plain-text rendering of one caption: its text alone.
pub fn subtitle_to_plain(subtitle: &Subtitle) -> (r: String)
    ensures
        r@ == subtitle.text@,
{
    subtitle.text.clone()
}

/// A whole SRT document: one block per caption, each followed by a blank
/// line (two newlines).
pub open spec fn spec_srt_document(subs: Seq<Subtitle>) -> Seq<char>
    decreases subs.len(),
{
    if subs.len() == 0 {
        Seq::<char>::empty()
    } else {
        spec_srt_document(subs.drop_last()) + spec_subtitle_block(subs.last(), ',') + "\n\n"@
    }
}

/// A whole WebVTT document, blocks separated as in [`spec_srt_document`].
pub open spec fn spec_vtt_document(subs: Seq<Subtitle>) -> Seq<char>
    decreases subs.len(),
{
    if subs.len() == 0 {
        Seq::<char>::empty()
    } else {
        spec_vtt_document(subs.drop_last()) + spec_subtitle_block(subs.last(), '.') + "\n\n"@
    }
}

/// A whole plain-text document: each caption's text followed by a blank line.
pub open spec fn spec_plain_document(subs: Seq<Subtitle>) -> Seq<char>
    decreases subs.len(),
{
    if subs.len() == 0 {
        Seq::<char>::empty()
    } else {
        spec_plain_document(subs.drop_last()) + subs.last().text@ + "\n\n"@
    }
}

/// Serializes captions to the contents of an `.srt` file.
pub fn srt_document(subtitles: &Vec<Subtitle>) -> (r: String)
    ensures
        r@ == spec_srt_document(subtitles@),
{
    let mut s = String::new();
    let mut i: usize = 0;
    while i < subtitles.len()
        invariant
            i <= subtitles@.len(),
            s@ == spec_srt_document(subtitles@.subrange(0, i as int)),
        decreases subtitles@.len() - i,
    {
        let block = subtitle_to_srt(&subtitles[i]);
        s.append(block.as_str());
        s.append("\n\n");
        i = i + 1;
        proof {
            assert(subtitles@.subrange(0, i as int).drop_last() =~= subtitles@.subrange(
                0,
                i as int - 1,
            ));
            assert(s@ == spec_srt_document(subtitles@.subrange(0, i as int)));
        }
    }
    proof {
        assert(subtitles@.subrange(0, subtitles@.len() as int) =~= subtitles@);
    }
    s
}

/// Serializes captions to the contents of a `.vtt` file.
pub fn vtt_document(subtitles: &Vec<Subtitle>) -> (r: String)
    ensures
        r@ == spec_vtt_document(subtitles@),
{
    let mut s = String::new();
    let mut i: usize = 0;
    while i < subtitles.len()
        invariant
            i <= subtitles@.len(),
            s@ == spec_vtt_document(subtitles@.subrange(0, i as int)),
        decreases subtitles@.len() - i,
    {
        let block = subtitle_to_vtt(&subtitles[i]);
        s.append(block.as_str());
        s.append("\n\n");
        i = i + 1;
        proof {
            assert(subtitles@.subrange(0, i as int).drop_last() =~= subtitles@.subrange(
                0,
                i as int - 1,
            ));
            assert(s@ == spec_vtt_document(subtitles@.subrange(0, i as int)));
        }
    }
    proof {
        assert(subtitles@.subrange(0, subtitles@.len() as int) =~= subtitles@);
    }
    s
}

/// Serializes captions to the contents of a `.txt` file, text only.
pub fn plain_document(subtitles: &Vec<Subtitle>) -> (r: String)
    ensures
        r@ == spec_plain_document(subtitles@),
{
    let mut s = String::new();
    let mut i: usize = 0;
    while i < subtitles.len()
        invariant
            i <= subtitles@.len(),
            s@ == spec_plain_document(subtitles@.subrange(0, i as int)),
        decreases subtitles@.len() - i,
    {
        let block = subtitle_to_plain(&subtitles[i]);
        s.append(block.as_str());
        s.append("\n\n");
        i = i + 1;
        proof {
            assert(subtitles@.subrange(0, i as int).drop_last() =~= subtitles@.subrange(
                0,
                i as int - 1,
            ));
            assert(s@ == spec_plain_document(subtitles@.subrange(0, i as int)));
        }
    }
    proof {
        assert(subtitles@.subrange(0, subtitles@.len() as int) =~= subtitles@);
    }
    s
}

/// What the traditional-to-simplified text conversion returns; it depends on
/// the characters of its input alone.
pub uninterp spec fn simplified_of(s: Seq<char>) -> Seq<char>;

/// Applies a traditional-to-simplified Chinese script conversion to caption
/// text. A pure text transform, applied uniformly, independent of timestamps.
///
/// Relies on fast2s::convert: a per-character table-driven conversion that
/// keeps the character count and depends only on the input text.
#[verifier::external_body]
pub fn convert_traditional_to_simplified_chinese(text: &str) -> (r: String)
    ensures
        r@ == simplified_of(text@),
        r@.len() == text@.len(),
{
    fast2s::convert(text)
}

/// Splits a millisecond count below twenty-four hours into its rendered
/// hour, minute, second and millisecond fields.
proof fn lemma_timestamp_fields(ms: int)
    requires
        0 <= ms < 86400000,
    ensures
        0 <= ms / 3600000 < 24,
        0 <= (ms / 60000) % 60 < 60,
        0 <= (ms / 1000) % 60 < 60,
        0 <= ms % 1000 < 1000,
        ms == (ms / 3600000) * 3600000 + ((ms / 60000) % 60) * 60000 + ((ms / 1000) % 60) * 1000
            + ms % 1000,
{
    let h = ms / 3600000;
    let rh = ms % 3600000;
    vstd::arithmetic::div_mod::lemma_fundamental_div_mod(ms, 3600000);
    assert(ms == 3600000 * h + rh);
    assert(0 <= rh < 3600000);
    assert(0 <= h < 24);
    let m = rh / 60000;
    let rm = rh % 60000;
    vstd::arithmetic::div_mod::lemma_fundamental_div_mod(rh, 60000);
    assert(0 <= m < 60 && 0 <= rm < 60000);
    lemma_fundamental_div_mod_converse(ms, 60000, h * 60 + m, rm);
    assert(ms / 60000 == h * 60 + m);
    lemma_fundamental_div_mod_converse(h * 60 + m, 60, h, m);
    assert((ms / 60000) % 60 == m);
    let sec = rm / 1000;
    let mil = rm % 1000;
    vstd::arithmetic::div_mod::lemma_fundamental_div_mod(rm, 1000);
    assert(0 <= sec < 60 && 0 <= mil < 1000);
    lemma_fundamental_div_mod_converse(ms, 1000, (h * 60 + m) * 60 + sec, mil);
    assert(ms / 1000 == (h * 60 + m) * 60 + sec);
    lemma_fundamental_div_mod_converse((h * 60 + m) * 60 + sec, 60, h * 60 + m, sec);
    assert((ms / 1000) % 60 == sec);
    assert(ms % 1000 == mil);
}

} // verus!
