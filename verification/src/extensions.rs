//! File names, their extensions, and the kinds of document they stand for.

use vstd::prelude::*;
use crate::text::{chars_of, lowercase_of, slice_chars, spells, str_to_lowercase, string_of};

verus! {

/// The index of the last `.` of `name`, or -1 where it has none.
pub open spec fn last_dot(name: Seq<char>) -> int
    decreases name.len(),
{
    if name.len() == 0 {
        -1
    } else if name.last() == '.' {
        name.len() - 1
    } else {
        last_dot(name.drop_last())
    }
}

/// The extension of a file name: what stands behind its last `.`, if one
/// stands behind the first character.
pub open spec fn extension_of(name: Seq<char>) -> Option<Seq<char>> {
    if last_dot(name) <= 0 {
        None
    } else {
        Some(name.skip(last_dot(name) + 1))
    }
}

/// Computes [`extension_of`].
pub fn file_extension(name: &str) -> (r: Option<String>)
    ensures
        match r {
            Some(e) => extension_of(name@) == Some(e@),
            None => extension_of(name@) is None,
        },
{
    let chars = chars_of(name);
    let mut n: usize = chars.len();
    proof {
        assert(chars@.take(n as int) =~= chars@);
    }
    while n > 0
        invariant
            n <= chars.len(),
            chars@ == name@,
            last_dot(chars@.take(n as int)) == last_dot(chars@),
        decreases n,
    {
        if chars[n - 1] == '.' {
            if n - 1 == 0 {
                return None;
            }
            let ext = slice_chars(&chars, n, chars.len());
            proof {
                assert(ext@ =~= chars@.skip(n as int));
            }
            return Some(string_of(&ext));
        }
        proof {
            assert(chars@.take(n as int).drop_last() =~= chars@.take(n - 1));
        }
        n -= 1;
    }
    None
}

/// Whether a file with this name is passed over whatever it holds: a name
/// that begins with `.` is hidden, and one that begins with `~$` is the lock
/// file that an editor keeps beside an open document.
pub open spec fn is_passed_over(name: Seq<char>) -> bool {
    (name.len() >= 1 && name[0] == '.') || (name.len() >= 2 && name[0] == '~' && name[1] == '$')
}

/// Computes [`is_passed_over`].
pub fn is_hidden_or_lock_file(name: &str) -> (r: bool)
    ensures
        r == is_passed_over(name@),
{
    let chars = chars_of(name);
    (chars.len() >= 1 && chars[0] == '.') || (chars.len() >= 2 && chars[0] == '~' && chars[1]
        == '$')
}

/// The kind of document that an extension in lower case stands for.
pub open spec fn kind_of(ext: Seq<char>) -> Option<Seq<char>> {
    if ext == "doc"@ || ext == "docx"@ {
        Some("word"@)
    } else if ext == "pptx"@ {
        Some("powerpoint"@)
    } else if ext == "xlsx"@ {
        Some("excel"@)
    } else if ext == "txt"@ || ext == "md"@ {
        Some("text"@)
    } else {
        None
    }
}

/// The kind of document that an extension stands for, whatever its case.
pub open spec fn file_type_of(ext: Seq<char>) -> Option<Seq<char>> {
    kind_of(lowercase_of(ext))
}

/// The kind of document that `ext` stands for: `word`, `powerpoint`,
/// `excel` or `text`. The case of the extension does not matter.
pub fn get_file_type(ext: &str) -> (r: Option<&'static str>)
    ensures
        match r {
            Some(kind) => file_type_of(ext@) == Some(kind@),
            None => file_type_of(ext@) is None,
        },
{
    let lowered = str_to_lowercase(ext);
    let chars = chars_of(lowered.as_str());
    if spells(&chars, "doc") || spells(&chars, "docx") {
        Some("word")
    } else if spells(&chars, "pptx") {
        Some("powerpoint")
    } else if spells(&chars, "xlsx") {
        Some("excel")
    } else if spells(&chars, "txt") || spells(&chars, "md") {
        Some("text")
    } else {
        None
    }
}

/// Whether documents with this extension are indexed: those that stand for
/// a kind of document.
pub fn is_supported_extension(ext: &str) -> (r: bool)
    ensures
        r == file_type_of(ext@) is Some,
{
    get_file_type(ext).is_some()
}

} // verus!
