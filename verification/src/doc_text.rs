//! Text out of the bytes of an old binary document: decoding, cleaning, and
//! telling text from noise.

use vstd::prelude::*;
use crate::context::clamped;
use crate::text::{
    append_chars, byte_len, char_is_alphanumeric, char_is_whitespace, char_width, chars_of,
    is_alphanumeric_char, is_space, slice_chars, string_of,
};

verus! {

// ---------------------------------------------------------------------------
// UTF-16
// ---------------------------------------------------------------------------

/// Whether a unit of UTF-16 is one that running text is made of: printable
/// ASCII, line ends and tabs, Arabic with its supplement, extension and
/// presentation forms, and general punctuation.
pub open spec fn is_text_unit(val: u16) -> bool {
    ||| 0x0020 <= val <= 0x007E
    ||| val == 0x000A
    ||| val == 0x000D
    ||| val == 0x0009
    ||| 0x0600 <= val <= 0x06FF
    ||| 0x0750 <= val <= 0x077F
    ||| 0x08A0 <= val <= 0x08FF
    ||| 0xFB50 <= val <= 0xFDFF
    ||| 0xFE70 <= val <= 0xFEFF
    ||| 0x2000 <= val <= 0x206F
    ||| 0x060C <= val <= 0x061F
}

/// Computes [`is_text_unit`].
pub fn is_valid_utf16_char(val: u16) -> (r: bool)
    ensures
        r == is_text_unit(val),
{
    (val >= 0x0020 && val <= 0x007E) || val == 0x000A || val == 0x000D || val == 0x0009 || (val
        >= 0x0600 && val <= 0x06FF) || (val >= 0x0750 && val <= 0x077F) || (val >= 0x08A0 && val
        <= 0x08FF) || (val >= 0xFB50 && val <= 0xFDFF) || (val >= 0xFE70 && val <= 0xFEFF) || (val
        >= 0x2000 && val <= 0x206F) || (val >= 0x060C && val <= 0x061F)
}

/// The units of UTF-16 that the bytes spell, low byte first; a last odd
/// byte is left out.
pub open spec fn units_of(bytes: Seq<u8>) -> Seq<u16> {
    Seq::new(bytes.len() / 2, |i: int| (bytes[2 * i] as int + 256 * (bytes[2 * i + 1] as int)) as u16)
}

/// Whether a unit is the first half of a pair.
pub open spec fn is_high_surrogate(u: u16) -> bool {
    0xD800 <= u <= 0xDBFF
}

/// Whether a unit is the second half of a pair.
pub open spec fn is_low_surrogate(u: u16) -> bool {
    0xDC00 <= u <= 0xDFFF
}

/// The code point that a pair of units stands for.
pub open spec fn pair_code(high: u16, low: u16) -> int {
    0x10000 + (high - 0xD800) * 0x400 + (low - 0xDC00)
}

/// The text that the units from `i` on spell in UTF-16, or nothing where a
/// half of a pair stands alone.
pub open spec fn utf16_text(units: Seq<u16>, i: int) -> Option<Seq<char>>
    decreases units.len() - i,
{
    if i < 0 || i >= units.len() {
        Some(Seq::empty())
    } else if is_high_surrogate(units[i]) {
        if i + 1 < units.len() && is_low_surrogate(units[i + 1]) {
            match utf16_text(units, i + 2) {
                Some(rest) => Some(seq![(pair_code(units[i], units[i + 1]) as u32) as char] + rest),
                None => None,
            }
        } else {
            None
        }
    } else if is_low_surrogate(units[i]) {
        None
    } else {
        match utf16_text(units, i + 1) {
            Some(rest) => Some(seq![(units[i] as u32) as char] + rest),
            None => None,
        }
    }
}

/// The text that bytes spell in UTF-16, low byte first. Fewer than two
/// bytes spell nothing.
pub open spec fn utf16le_text(bytes: Seq<u8>) -> Option<Seq<char>> {
    if bytes.len() < 2 {
        None
    } else {
        utf16_text(units_of(bytes), 0)
    }
}

/// `char::from_u32`: the character of a code point, which every number
/// below 0x110000 outside the surrogates is.
#[verifier::external_body]
fn char_of_code(code: u32) -> (r: Option<char>)
    ensures
        r is Some <==> (code < 0xD800 || (0xE000 <= code && code <= 0x10FFFF)),
        r matches Some(c) ==> c as u32 == code,
{
    char::from_u32(code)
}

fn unit_at(bytes: &[u8], i: usize) -> (r: u16)
    requires
        2 * i + 1 < bytes.len(),
    ensures
        r == units_of(bytes@)[i as int],
{
    let lo: u16 = bytes[2 * i] as u16;
    let hi: u16 = bytes[2 * i + 1] as u16;
    lo + hi * 256
}

/// Decodes UTF-16, low byte first, as [`utf16le_text`] says.
pub fn decode_utf16le(bytes: &[u8]) -> (r: Option<String>)
    ensures
        match r {
            Some(text) => utf16le_text(bytes@) == Some(text@),
            None => utf16le_text(bytes@) is None,
        },
{
    match decode_utf16le_chars(bytes) {
        Some(chars) => Some(string_of(&chars)),
        None => None,
    }
}

/// Decodes UTF-16, low byte first, into characters.
pub fn decode_utf16le_chars(bytes: &[u8]) -> (r: Option<Vec<char>>)
    ensures
        match r {
            Some(text) => utf16le_text(bytes@) == Some(text@),
            None => utf16le_text(bytes@) is None,
        },
{
    if bytes.len() < 2 {
        return None;
    }
    let n: usize = bytes.len() / 2;
    let ghost units = units_of(bytes@);
    let mut out: Vec<char> = Vec::new();
    let mut i: usize = 0;
    while i < n
        invariant
            i <= n,
            n == bytes.len() / 2,
            n == units.len(),
            units == units_of(bytes@),
            utf16_text(units, 0) == (match utf16_text(units, i as int) {
                Some(rest) => Some(out@ + rest),
                None => None,
            }),
        decreases n - i,
    {
        let u = unit_at(bytes, i);
        let ghost before = out@;
        if 0xD800 <= u && u <= 0xDBFF {
            if i + 1 >= n {
                return None;
            }
            let low = unit_at(bytes, i + 1);
            if !(0xDC00 <= low && low <= 0xDFFF) {
                return None;
            }
            let code: u32 = 0x10000 + ((u - 0xD800) as u32) * 0x400 + ((low - 0xDC00) as u32);
            match char_of_code(code) {
                Some(c) => {
                    out.push(c);
                    proof {
                        vstd::utf8::char_u32_cast(c, code);
                        assert(code == pair_code(u, low));
                        match utf16_text(units, i + 2) {
                            Some(rest) => {
                                assert(out@ + rest =~= before + (seq![c] + rest));
                            },
                            None => {},
                        }
                    }
                },
                None => {
                    return None;
                },
            }
            i += 2;
        } else if 0xDC00 <= u && u <= 0xDFFF {
            return None;
        } else {
            match char_of_code(u as u32) {
                Some(c) => {
                    out.push(c);
                    proof {
                        vstd::utf8::char_u32_cast(c, u as u32);
                        match utf16_text(units, i + 1) {
                            Some(rest) => {
                                assert(out@ + rest =~= before + (seq![c] + rest));
                            },
                            None => {},
                        }
                    }
                },
                None => {
                    return None;
                },
            }
            i += 1;
        }
    }
    proof {
        assert(out@ + Seq::<char>::empty() =~= out@);
    }
    Some(out)
}

// ---------------------------------------------------------------------------
// Cleaning
// ---------------------------------------------------------------------------

/// Whether `c` is one of the ASCII punctuation marks.
pub open spec fn is_ascii_punctuation(c: char) -> bool {
    let u = c as u32;
    (33 <= u <= 47) || (58 <= u <= 64) || (91 <= u <= 96) || (123 <= u <= 126)
}

/// Whether `c` lies in one of the Arabic blocks or among the unified CJK
/// ideographs.
pub open spec fn is_arabic_or_cjk(c: char) -> bool {
    let u = c as u32;
    ||| 0x0600 <= u <= 0x06FF
    ||| 0x0750 <= u <= 0x077F
    ||| 0xFB50 <= u <= 0xFDFF
    ||| 0xFE70 <= u <= 0xFEFF
    ||| 0x4E00 <= u <= 0x9FFF
}

/// Whether cleaning keeps `c`: letters, numbers, blanks, ASCII punctuation,
/// Arabic and CJK.
pub open spec fn is_kept(c: char) -> bool {
    is_alphanumeric_char(c) || is_space(c) || is_ascii_punctuation(c) || is_arabic_or_cjk(c)
}

/// The characters of `s` that cleaning keeps, in order.
pub open spec fn kept_chars(s: Seq<char>) -> Seq<char>
    decreases s.len(),
{
    if s.len() == 0 {
        Seq::empty()
    } else if is_kept(s.last()) {
        kept_chars(s.drop_last()).push(s.last())
    } else {
        kept_chars(s.drop_last())
    }
}

/// The lines of `s`: what stands between its line feeds. There is always a
/// last line, which may be empty.
pub open spec fn lines_of(s: Seq<char>) -> Seq<Seq<char>>
    decreases s.len(),
{
    if s.len() == 0 {
        seq![Seq::empty()]
    } else if s.last() == '\n' {
        lines_of(s.drop_last()).push(Seq::empty())
    } else {
        lines_of(s.drop_last()).drop_last().push(lines_of(s.drop_last()).last().push(s.last()))
    }
}

/// `s` without the blanks at its start.
pub open spec fn trim_start(s: Seq<char>) -> Seq<char>
    decreases s.len(),
{
    if s.len() > 0 && is_space(s[0]) {
        trim_start(s.skip(1))
    } else {
        s
    }
}

/// `s` without the blanks at its end.
pub open spec fn trim_end(s: Seq<char>) -> Seq<char>
    decreases s.len(),
{
    if s.len() > 0 && is_space(s.last()) {
        trim_end(s.drop_last())
    } else {
        s
    }
}

/// `s` without the blanks at its ends.
pub open spec fn trimmed_text(s: Seq<char>) -> Seq<char> {
    trim_end(trim_start(s))
}

/// The lines without the blanks at their ends, but for those that are then
/// empty.
pub open spec fn tidy_lines(lines: Seq<Seq<char>>) -> Seq<Seq<char>>
    decreases lines.len(),
{
    if lines.len() == 0 {
        Seq::empty()
    } else if trimmed_text(lines.last()).len() > 0 {
        tidy_lines(lines.drop_last()).push(trimmed_text(lines.last()))
    } else {
        tidy_lines(lines.drop_last())
    }
}

/// The lines with a line feed between each two.
pub open spec fn joined_lines(lines: Seq<Seq<char>>) -> Seq<char>
    decreases lines.len(),
{
    if lines.len() == 0 {
        Seq::empty()
    } else if lines.len() == 1 {
        lines[0]
    } else {
        joined_lines(lines.drop_last()) + seq!['\n'] + lines.last()
    }
}

/// A text cleaned: the characters that are neither letters, numbers, blanks
/// nor punctuation go, every line loses the blanks at its ends, and the
/// empty lines go.
pub open spec fn cleaned_text(s: Seq<char>) -> Seq<char> {
    joined_lines(tidy_lines(lines_of(kept_chars(s))))
}

fn keeps_char(c: char) -> (r: bool)
    ensures
        r == is_kept(c),
{
    let u: u32 = c as u32;
    char_is_alphanumeric(c) || char_is_whitespace(c) || (33 <= u && u <= 47) || (58 <= u && u
        <= 64) || (91 <= u && u <= 96) || (123 <= u && u <= 126) || (0x0600 <= u && u <= 0x06FF)
        || (0x0750 <= u && u <= 0x077F) || (0xFB50 <= u && u <= 0xFDFF) || (0xFE70 <= u && u
        <= 0xFEFF) || (0x4E00 <= u && u <= 0x9FFF)
}

/// Computes [`trimmed_text`].
pub fn trim_chars(s: &Vec<char>) -> (r: Vec<char>)
    ensures
        r@ == trimmed_text(s@),
{
    let mut start: usize = 0;
    proof {
        assert(s@.skip(0) =~= s@);
    }
    while start < s.len() && char_is_whitespace(s[start])
        invariant
            start <= s.len(),
            trim_start(s@.skip(start as int)) == trim_start(s@),
        decreases s.len() - start,
    {
        proof {
            assert(s@.skip(start as int)[0] == s@[start as int]);
            assert(s@.skip(start as int).skip(1) =~= s@.skip(start + 1));
        }
        start += 1;
    }
    proof {
        if start < s.len() {
            assert(s@.skip(start as int)[0] == s@[start as int]);
        }
        assert(trim_start(s@) == s@.skip(start as int));
    }
    let head = slice_chars(s, start, s.len());
    proof {
        assert(head@ =~= s@.skip(start as int));
        assert(head@.take(head@.len() as int) =~= head@);
    }
    let mut end: usize = head.len();
    while end > 0 && char_is_whitespace(head[end - 1])
        invariant
            end <= head.len(),
            trim_end(head@.take(end as int)) == trim_end(head@),
        decreases end,
    {
        proof {
            assert(head@.take(end as int).drop_last() =~= head@.take(end - 1));
        }
        end -= 1;
    }
    let r = slice_chars(&head, 0, end);
    proof {
        assert(r@ =~= head@.take(end as int));
    }
    r
}

/// Computes [`cleaned_text`] on characters.
pub fn clean_chars(text: &Vec<char>) -> (r: Vec<char>)
    ensures
        r@ == cleaned_text(text@),
{
    // The characters that stay, cut into lines as they come.
    let ghost kept = kept_chars(text@);
    let mut lines: Vec<Vec<char>> = Vec::new();
    let mut current: Vec<char> = Vec::new();
    let mut i: usize = 0;
    proof {
        assert(text@.take(0) =~= Seq::<char>::empty());
        assert(crate::query::rows(lines@).push(current@) =~= lines_of(kept_chars(text@.take(0))));
    }
    while i < text.len()
        invariant
            i <= text.len(),
            crate::query::rows(lines@).push(current@) == lines_of(kept_chars(text@.take(i as int))),
        decreases text.len() - i,
    {
        let c = text[i];
        proof {
            assert(text@.take(i + 1).drop_last() =~= text@.take(i as int));
        }
        let ghost before = crate::query::rows(lines@);
        let ghost line = current@;
        let ghost kept_before = kept_chars(text@.take(i as int));
        if keeps_char(c) {
            proof {
                assert(kept_chars(text@.take(i + 1)) == kept_before.push(c));
                assert(kept_before.push(c).drop_last() =~= kept_before);
                assert(before.push(line).drop_last() =~= before);
                assert(before.push(line).last() == line);
            }
            if c == '\n' {
                lines.push(current);
                current = Vec::new();
                proof {
                    assert(crate::query::rows(lines@) =~= before.push(line));
                    assert(current@ =~= Seq::<char>::empty());
                }
            } else {
                current.push(c);
            }
        }
        i += 1;
    }
    proof {
        assert(text@.take(text@.len() as int) =~= text@);
    }
    let ghost open_lines = crate::query::rows(lines@);
    let ghost last_line = current@;
    lines.push(current);
    proof {
        assert(crate::query::rows(lines@) =~= open_lines.push(last_line));
    }

    let mut out: Vec<char> = Vec::new();
    let mut count: usize = 0;
    let mut k: usize = 0;
    let ghost all = crate::query::rows(lines@);
    proof {
        assert(all.take(0) =~= Seq::<Seq<char>>::empty());
    }
    while k < lines.len()
        invariant
            k <= lines.len(),
            all == crate::query::rows(lines@),
            count == tidy_lines(all.take(k as int)).len(),
            count <= k,
            out@ == joined_lines(tidy_lines(all.take(k as int))),
        decreases lines.len() - k,
    {
        proof {
            assert(all.take(k + 1).drop_last() =~= all.take(k as int));
            assert(all.take(k + 1).last() == lines@[k as int]@);
        }
        let tidy = trim_chars(&lines[k]);
        if tidy.len() > 0 {
            let ghost before = tidy_lines(all.take(k as int));
            let ghost after = tidy_lines(all.take(k + 1));
            if count > 0 {
                out.push('\n');
            }
            append_chars(&mut out, &tidy);
            count += 1;
            proof {
                assert(after =~= before.push(tidy@));
                assert(after.drop_last() =~= before);
                if before.len() == 0 {
                    assert(out@ =~= tidy@);
                }
            }
        }
        k += 1;
    }
    proof {
        assert(all.take(all.len() as int) =~= all);
    }
    out
}

/// Cleans a text that was pulled out of a document, as [`cleaned_text`]
/// says.
pub fn clean_extracted_text(text: &str) -> (r: String)
    ensures
        r@ == cleaned_text(text@),
{
    let chars = chars_of(text);
    let cleaned = clean_chars(&chars);
    string_of(&cleaned)
}

// ---------------------------------------------------------------------------
// Readable text
// ---------------------------------------------------------------------------

/// Whether `c` counts as a sign of text: a letter, a number, or a character
/// of one of the Arabic blocks.
pub open spec fn is_readable_char(c: char) -> bool {
    let u = c as u32;
    ||| is_alphanumeric_char(c)
    ||| 0x0600 <= u <= 0x06FF
    ||| 0x0750 <= u <= 0x077F
    ||| 0x08A0 <= u <= 0x08FF
    ||| 0xFB50 <= u <= 0xFDFF
    ||| 0xFE70 <= u <= 0xFEFF
}

/// How many characters of `s` count as signs of text.
pub open spec fn readable_count(s: Seq<char>) -> nat
    decreases s.len(),
{
    if s.len() == 0 {
        0
    } else if is_readable_char(s.last()) {
        readable_count(s.drop_last()) + 1
    } else {
        readable_count(s.drop_last())
    }
}

/// Whether a text reads as text: it takes at least ten bytes, and more
/// than three in ten of its characters are signs of text.
pub open spec fn is_readable(s: Seq<char>) -> bool {
    byte_len(s) >= 10 && 10 * readable_count(s) > 3 * s.len()
}

fn readable_char(c: char) -> (r: bool)
    ensures
        r == is_readable_char(c),
{
    let u: u32 = c as u32;
    char_is_alphanumeric(c) || (0x0600 <= u && u <= 0x06FF) || (0x0750 <= u && u <= 0x077F) || (
    0x08A0 <= u && u <= 0x08FF) || (0xFB50 <= u && u <= 0xFDFF) || (0xFE70 <= u && u <= 0xFEFF)
}

/// Computes [`is_readable`] on characters.
pub fn chars_are_readable(chars: &Vec<char>) -> (r: bool)
    ensures
        r == is_readable(chars@),
{
    let mut readable: usize = 0;
    let mut bytes: usize = 0;
    let mut i: usize = 0;
    proof {
        assert(chars@.take(0) =~= Seq::<char>::empty());
    }
    while i < chars.len()
        invariant
            i <= chars.len(),
            readable == readable_count(chars@.take(i as int)),
            readable <= i,
            bytes == (if byte_len(chars@.take(i as int)) >= 10 {
                10
            } else {
                byte_len(chars@.take(i as int))
            }),
        decreases chars.len() - i,
    {
        proof {
            assert(chars@.take(i + 1).drop_last() =~= chars@.take(i as int));
        }
        let c = chars[i];
        if readable_char(c) {
            readable += 1;
        }
        let w = char_width(c);
        bytes = if bytes + w >= 10 {
            10
        } else {
            bytes + w
        };
        i += 1;
    }
    proof {
        assert(chars@.take(chars@.len() as int) =~= chars@);
    }
    if bytes < 10 {
        return false;
    }
    let lhs: u128 = 10 * (readable as u128);
    let rhs: u128 = 3 * (chars.len() as u128);
    lhs > rhs
}

/// Whether `text` reads as text, as [`is_readable`] says.
pub fn is_readable_text(text: &str) -> (r: bool)
    ensures
        r == is_readable(text@),
{
    let chars = chars_of(text);
    chars_are_readable(&chars)
}

} // verus!
