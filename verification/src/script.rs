//! Telling a query in a script without letter case from one that has case.

use vstd::prelude::*;
use crate::text::{char_is_alphabetic, chars_of, is_alphabetic_char};

verus! {

/// How many characters of a text are looked at.
pub const SAMPLE_WINDOW: usize = 20;

/// How many letters are sampled at most.
pub const SAMPLE_LETTERS: usize = 5;

/// Whether `c` lies in a block of a script without case: Arabic and its
/// supplement and presentation forms, Hebrew, the unified CJK ideographs,
/// Hiragana and Katakana.
pub open spec fn is_caseless_char(c: char) -> bool {
    let code = c as u32;
    ||| 0x0600 <= code <= 0x06FF
    ||| 0x0750 <= code <= 0x077F
    ||| 0xFB50 <= code <= 0xFDFF
    ||| 0xFE70 <= code <= 0xFEFF
    ||| 0x0590 <= code <= 0x05FF
    ||| 0x4E00 <= code <= 0x9FFF
    ||| 0x3040 <= code <= 0x30FF
}

/// The letters of `s`, in order.
pub open spec fn letters_of(s: Seq<char>) -> Seq<char>
    decreases s.len(),
{
    if s.len() == 0 {
        Seq::empty()
    } else if is_alphabetic_char(s.last()) {
        letters_of(s.drop_last()).push(s.last())
    } else {
        letters_of(s.drop_last())
    }
}

/// The sample that decides: the first five letters among the first twenty
/// characters, or fewer where there are fewer.
pub open spec fn sampled_letters(s: Seq<char>) -> Seq<char> {
    let window = if s.len() <= SAMPLE_WINDOW {
        s
    } else {
        s.take(SAMPLE_WINDOW as int)
    };
    let letters = letters_of(window);
    if letters.len() <= SAMPLE_LETTERS {
        letters
    } else {
        letters.take(SAMPLE_LETTERS as int)
    }
}

/// A text counts as written without case when every sampled letter is of
/// such a script. A text without letters among its first twenty characters
/// does so too.
pub open spec fn is_caseless(s: Seq<char>) -> bool {
    forall|i: int|
        0 <= i < sampled_letters(s).len() ==> is_caseless_char(#[trigger] sampled_letters(s)[i])
}

fn caseless_char(c: char) -> (r: bool)
    ensures
        r == is_caseless_char(c),
{
    let code: u32 = c as u32;
    (0x0600 <= code && code <= 0x06FF) || (0x0750 <= code && code <= 0x077F) || (0xFB50 <= code
        && code <= 0xFDFF) || (0xFE70 <= code && code <= 0xFEFF) || (0x0590 <= code && code
        <= 0x05FF) || (0x4E00 <= code && code <= 0x9FFF) || (0x3040 <= code && code <= 0x30FF)
}

/// Whether the characters of a text are those of a script without case.
pub fn chars_are_caseless(s: &Vec<char>) -> (r: bool)
    ensures
        r == is_caseless(s@),
{
    let window: usize = if s.len() <= SAMPLE_WINDOW {
        s.len()
    } else {
        SAMPLE_WINDOW
    };
    let mut letters: Vec<char> = Vec::new();
    let mut i: usize = 0;
    proof {
        assert(s@.take(0) =~= Seq::<char>::empty());
    }
    while i < window
        invariant
            i <= window <= s.len(),
            letters@ == letters_of(s@.take(i as int)),
        decreases window - i,
    {
        proof {
            assert(s@.take(i + 1).drop_last() =~= s@.take(i as int));
        }
        if char_is_alphabetic(s[i]) {
            letters.push(s[i]);
        }
        i += 1;
    }
    proof {
        if s.len() <= SAMPLE_WINDOW {
            assert(s@.take(window as int) =~= s@);
        }
    }
    let sample: usize = if letters.len() <= SAMPLE_LETTERS {
        letters.len()
    } else {
        SAMPLE_LETTERS
    };
    let mut k: usize = 0;
    while k < sample
        invariant
            k <= sample <= letters.len(),
            sample == sampled_letters(s@).len(),
            forall|j: int| 0 <= j < sample ==> sampled_letters(s@)[j] == letters@[j],
            forall|j: int| 0 <= j < k ==> is_caseless_char(#[trigger] sampled_letters(s@)[j]),
        decreases sample - k,
    {
        if !caseless_char(letters[k]) {
            return false;
        }
        k += 1;
    }
    true
}

/// Whether `s` is written in a script without letter case, judged by its
/// first letters alone.
pub fn is_caseless_script(s: &str) -> (r: bool)
    ensures
        r == is_caseless(s@),
{
    let chars = chars_of(s);
    chars_are_caseless(&chars)
}

/// A text without a letter has no letters.
pub proof fn lemma_no_letters(s: Seq<char>)
    requires
        forall|j: int| 0 <= j < s.len() ==> !is_alphabetic_char(#[trigger] s[j]),
    ensures
        letters_of(s) == Seq::<char>::empty(),
    decreases s.len(),
{
    if s.len() > 0 {
        assert forall|j: int| 0 <= j < s.drop_last().len() implies !is_alphabetic_char(
            #[trigger] s.drop_last()[j],
        ) by {
            assert(s.drop_last()[j] == s[j]);
        }
        lemma_no_letters(s.drop_last());
    }
}

/// The first letter of a text is the first of its letters.
pub proof fn lemma_first_letter(s: Seq<char>, k: int)
    requires
        0 <= k < s.len(),
        is_alphabetic_char(s[k]),
        forall|j: int| 0 <= j < k ==> !is_alphabetic_char(#[trigger] s[j]),
    ensures
        letters_of(s).len() > 0,
        letters_of(s)[0] == s[k],
    decreases s.len(),
{
    let init = s.drop_last();
    if s.len() - 1 == k {
        assert forall|j: int| 0 <= j < init.len() implies !is_alphabetic_char(
            #[trigger] init[j],
        ) by {
            assert(init[j] == s[j]);
        }
        lemma_no_letters(init);
    } else {
        assert(init[k] == s[k]);
        assert forall|j: int| 0 <= j < k implies !is_alphabetic_char(#[trigger] init[j]) by {
            assert(init[j] == s[j]);
        }
        lemma_first_letter(init, k);
    }
}

/// The first letter decides against: a text whose first letter stands among
/// its first twenty characters and is of no script without case, such as a
/// letter of ASCII, does not count as written without case.
pub proof fn law_first_letter_with_case(s: Seq<char>, k: int)
    requires
        0 <= k < s.len(),
        k < SAMPLE_WINDOW,
        is_alphabetic_char(s[k]),
        !is_caseless_char(s[k]),
        forall|j: int| 0 <= j < k ==> !is_alphabetic_char(#[trigger] s[j]),
    ensures
        !is_caseless(s),
{
    let window = if s.len() <= SAMPLE_WINDOW {
        s
    } else {
        s.take(SAMPLE_WINDOW as int)
    };
    assert(window[k] == s[k]);
    assert forall|j: int| 0 <= j < k implies !is_alphabetic_char(#[trigger] window[j]) by {
        assert(window[j] == s[j]);
    }
    lemma_first_letter(window, k);
    assert(sampled_letters(s)[0] == s[k]);
}

} // verus!
