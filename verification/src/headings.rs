//! Which styles of a word-processor document are headings, and of what level.

use vstd::prelude::*;
use crate::text::{
    append_chars, chars_of, contains_chars, is_substring, lowercase_of, same_chars,
    str_to_lowercase,
};

verus! {

/// The digit that stands for a level from 1 to 6.
pub open spec fn level_digit(level: int) -> char {
    ((48 + level) as u8) as char
}

/// The five ways in which the name of a style spells a heading of `level`:
/// `heading`, `heading ` with a blank, `h`, `titre` and `berschrift`, each
/// followed by the digit of the level.
pub open spec fn level_patterns(level: int) -> Seq<Seq<char>> {
    seq![
        "heading"@.push(level_digit(level)),
        "heading "@.push(level_digit(level)),
        "h"@.push(level_digit(level)),
        "titre"@.push(level_digit(level)),
        "berschrift"@.push(level_digit(level)),
    ]
}

/// Whether `text` holds one of the spellings of a heading of `level`.
pub open spec fn spells_level(text: Seq<char>, level: int) -> bool {
    exists|k: int| 0 <= k < 5 && is_substring(#[trigger] level_patterns(level)[k], text)
}

/// Whether a style, by its id or its name in lower case, is a heading of
/// `level`.
pub open spec fn styles_level(id: Seq<char>, name: Seq<char>, level: int) -> bool {
    spells_level(id, level) || spells_level(name, level)
}

/// The lowest level from `from` to 6 that the style spells, if any.
pub open spec fn first_level(id: Seq<char>, name: Seq<char>, from: int) -> Option<u8>
    decreases 7 - from,
{
    if from < 1 || from > 6 {
        None
    } else if styles_level(id, name, from) {
        Some(from as u8)
    } else {
        first_level(id, name, from + 1)
    }
}

/// The heading level of a style: the lowest level from 1 to 6 that its id or
/// its name spells, case ignored; else 1 for the style `title` and 2 for
/// `subtitle`; else none.
pub open spec fn heading_level(style_id: Seq<char>, style_name: Seq<char>) -> Option<u8> {
    let id = lowercase_of(style_id);
    let name = lowercase_of(style_name);
    match first_level(id, name, 1) {
        Some(level) => Some(level),
        None => if id == "title"@ || name == "title"@ {
            Some(1u8)
        } else if id == "subtitle"@ || name == "subtitle"@ {
            Some(2u8)
        } else {
            None
        },
    }
}

fn pattern(prefix: &str, level: u8) -> (r: Vec<char>)
    requires
        1 <= level <= 6,
    ensures
        r@ == prefix@.push(level_digit(level as int)),
{
    let mut r = chars_of(prefix);
    let digit: u8 = 48 + level;
    r.push(digit as char);
    r
}

fn text_spells_level(text: &Vec<char>, level: u8) -> (r: bool)
    requires
        1 <= level <= 6,
    ensures
        r == spells_level(text@, level as int),
{
    let plain = pattern("heading", level);
    let spaced = pattern("heading ", level);
    let short = pattern("h", level);
    let french = pattern("titre", level);
    let german = pattern("berschrift", level);
    let ghost patterns = level_patterns(level as int);
    proof {
        assert(patterns[0] == plain@);
        assert(patterns[1] == spaced@);
        assert(patterns[2] == short@);
        assert(patterns[3] == french@);
        assert(patterns[4] == german@);
    }
    let r = contains_chars(text, &plain) || contains_chars(text, &spaced) || contains_chars(text, &short)
        || contains_chars(text, &french) || contains_chars(text, &german);
    proof {
        if r {
            if is_substring(plain@, text@) {
                assert(is_substring(patterns[0], text@));
            } else if is_substring(spaced@, text@) {
                assert(is_substring(patterns[1], text@));
            } else if is_substring(short@, text@) {
                assert(is_substring(patterns[2], text@));
            } else if is_substring(french@, text@) {
                assert(is_substring(patterns[3], text@));
            } else {
                assert(is_substring(patterns[4], text@));
            }
        } else {
            assert forall|k: int| 0 <= k < 5 implies !is_substring(
                #[trigger] level_patterns(level as int)[k],
                text@,
            ) by {}
        }
    }
    r
}

/// The heading level that a style stands for, as [`heading_level`] says.
pub fn detect_heading_level(style_id: &str, style_name: &str) -> (r: Option<u8>)
    ensures
        r == heading_level(style_id@, style_name@),
{
    let id_lower = str_to_lowercase(style_id);
    let name_lower = str_to_lowercase(style_name);
    let id = chars_of(id_lower.as_str());
    let name = chars_of(name_lower.as_str());
    let mut level: u8 = 1;
    while level <= 6
        invariant
            1 <= level <= 7,
            id@ == lowercase_of(style_id@),
            name@ == lowercase_of(style_name@),
            first_level(id@, name@, 1) == first_level(id@, name@, level as int),
        decreases 7 - level,
    {
        if text_spells_level(&id, level) || text_spells_level(&name, level) {
            return Some(level);
        }
        level += 1;
    }
    let title = chars_of("title");
    let subtitle = chars_of("subtitle");
    if same_chars(&id, &title) || same_chars(&name, &title) {
        return Some(1);
    }
    if same_chars(&id, &subtitle) || same_chars(&name, &subtitle) {
        return Some(2);
    }
    None
}

} // verus!
