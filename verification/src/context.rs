//! Finding the places where a term stands in a text, and cutting out the
//! text around such a place.
//!
//! Places are counted in bytes of UTF-8, as callers hold them; the context is
//! measured in characters. A number that does not fit the machine word is
//! held at the largest one.

use vstd::prelude::*;
use crate::models::{match_views, Match, MatchView};
use crate::text::{
    all_ascii, append_chars, byte_len, byte_offset, char_width, chars_are_ascii, chars_of,
    contains_chars, find_from, is_substring, lemma_byte_offset_step, lowercase_of, occurs_at,
    slice_chars, str_to_lowercase, string_of, utf8_width,
};

verus! {

/// How many places in the text of a document are recorded at most.
pub const MAX_RECORDED: usize = 5;

/// How many characters of context are shown on each side of a place.
pub const CONTEXT_CHARS: usize = 50;

/// `n` as a machine word, held at the ends of its range.
pub open spec fn clamped(n: int) -> usize {
    if n < 0 {
        0
    } else if n > usize::MAX {
        usize::MAX
    } else {
        n as usize
    }
}

// ---------------------------------------------------------------------------
// Bytes and characters
// ---------------------------------------------------------------------------

/// The number of the character that holds byte `byte` of `s`: the last
/// character that starts at or before that byte, and the length of `s` for a
/// byte at or past its end.
pub open spec fn char_index_at(s: Seq<char>, byte: int) -> int
    decreases s.len(),
{
    if s.len() == 0 {
        0
    } else if byte_len(s) <= byte {
        s.len() as int
    } else {
        char_index_at(s.drop_last(), byte)
    }
}

/// `char_index_at` is the index `i` once character `i` starts at or before
/// the byte and the next one starts after it.
pub proof fn lemma_char_index_at(s: Seq<char>, byte: int, i: int)
    requires
        0 <= i <= s.len(),
        0 <= byte,
        byte_offset(s, i) <= byte,
        i < s.len() ==> byte < byte_offset(s, i + 1),
    ensures
        char_index_at(s, byte) == i,
    decreases s.len(),
{
    if s.len() == 0 {
    } else if i == s.len() {
        assert(s.take(i) =~= s);
    } else {
        assert(s.take(s.len() as int) =~= s);
        crate::text::lemma_byte_offset_monotone(s, i + 1, s.len() as int);
        assert(byte < byte_len(s));
        let t = s.drop_last();
        assert(t.take(i) =~= s.take(i));
        if i < t.len() {
            assert(t.take(i + 1) =~= s.take(i + 1));
        }
        lemma_char_index_at(t, byte, i);
    }
}

/// Computes [`char_index_at`].
pub fn char_index_for_byte(s: &Vec<char>, byte: usize) -> (r: usize)
    ensures
        r == char_index_at(s@, byte as int),
        r <= s.len(),
{
    let mut i: usize = 0;
    let mut offset: usize = 0;
    proof {
        assert(s@.take(0) =~= Seq::<char>::empty());
    }
    while i < s.len()
        invariant
            i <= s.len(),
            offset == byte_offset(s@, i as int),
            offset <= byte,
        decreases s.len() - i,
    {
        let w = char_width(s[i]);
        proof {
            lemma_byte_offset_step(s@, i as int);
        }
        if w > byte - offset {
            proof {
                lemma_char_index_at(s@, byte as int, i as int);
            }
            return i;
        }
        offset = offset + w;
        i += 1;
    }
    proof {
        lemma_char_index_at(s@, byte as int, i as int);
    }
    i
}

/// The byte at which character `i` starts, held at the largest machine word.
pub fn byte_offset_of(s: &Vec<char>, i: usize) -> (r: usize)
    requires
        i <= s.len(),
    ensures
        r == clamped(byte_offset(s@, i as int) as int),
{
    let mut k: usize = 0;
    let mut offset: usize = 0;
    proof {
        assert(s@.take(0) =~= Seq::<char>::empty());
    }
    while k < i
        invariant
            k <= i <= s.len(),
            offset == clamped(byte_offset(s@, k as int) as int),
        decreases i - k,
    {
        let w = char_width(s[k]);
        proof {
            lemma_byte_offset_step(s@, k as int);
        }
        offset = if w > usize::MAX - offset {
            usize::MAX
        } else {
            offset + w
        };
        k += 1;
    }
    offset
}

// ---------------------------------------------------------------------------
// Context
// ---------------------------------------------------------------------------

/// The characters of `content` that are shown for a place: from where to
/// where. On plain ASCII the place is taken as it is, so that a place past
/// the end shows what still lies within `context_chars` of it; elsewhere the
/// character that holds the byte is looked up first.
pub open spec fn context_span(
    content: Seq<char>,
    match_byte_idx: int,
    match_len: int,
    context_chars: int,
) -> (int, int) {
    let n = content.len() as int;
    if all_ascii(content) {
        let end = if match_byte_idx + match_len + context_chars < n {
            match_byte_idx + match_len + context_chars
        } else {
            n
        };
        let from = if match_byte_idx < context_chars {
            0
        } else {
            match_byte_idx - context_chars
        };
        (if from < end {
            from
        } else {
            end
        }, end)
    } else {
        let at = char_index_at(content, match_byte_idx);
        let end = if at + match_len + context_chars < n {
            at + match_len + context_chars
        } else {
            n
        };
        (if at < context_chars {
            0
        } else {
            at - context_chars
        }, end)
    }
}

/// The text around a place.
pub open spec fn context_of(
    content: Seq<char>,
    match_byte_idx: int,
    match_len: int,
    context_chars: int,
) -> Seq<char> {
    let span = context_span(content, match_byte_idx, match_len, context_chars);
    content.subrange(span.0, span.1)
}

fn add_capped(a: usize, b: usize, cap: usize) -> (r: usize)
    ensures
        r == (if a + b < cap {
            (a + b) as usize
        } else {
            cap
        }),
{
    if a >= cap || b >= cap - a {
        cap
    } else {
        a + b
    }
}

/// The text around a place, from the characters of the content.
pub fn context_chars_around(
    content: &Vec<char>,
    match_byte_idx: usize,
    match_len: usize,
    context_chars: usize,
) -> (r: Vec<char>)
    ensures
        r@ == context_of(content@, match_byte_idx as int, match_len as int, context_chars as int),
{
    let n = content.len();
    if chars_are_ascii(content) {
        let reach = add_capped(match_byte_idx, match_len, n);
        let end = add_capped(reach, context_chars, n);
        let from = if match_byte_idx < context_chars {
            0
        } else {
            match_byte_idx - context_chars
        };
        let start = if from < end {
            from
        } else {
            end
        };
        slice_chars(content, start, end)
    } else {
        let at = char_index_for_byte(content, match_byte_idx);
        let reach = add_capped(at, match_len, n);
        let end = add_capped(reach, context_chars, n);
        let start = if at < context_chars {
            0
        } else {
            at - context_chars
        };
        slice_chars(content, start, end)
    }
}

/// Cuts out the text around a place in `content`: `context_chars`
/// characters before the byte `match_byte_idx`, and as many after the
/// `match_len` that follow it, as far as the content reaches.
pub fn get_context_around_match(
    content: &str,
    match_byte_idx: usize,
    match_len: usize,
    context_chars: usize,
) -> (r: String)
    ensures
        r@ == context_of(content@, match_byte_idx as int, match_len as int, context_chars as int),
{
    let chars = chars_of(content);
    let around = context_chars_around(&chars, match_byte_idx, match_len, context_chars);
    string_of(&around)
}

// ---------------------------------------------------------------------------
// Places
// ---------------------------------------------------------------------------

/// `needle` stands in `hay` somewhere at or after `from`.
#[verifier::opaque]
pub open spec fn occurs_from(hay: Seq<char>, needle: Seq<char>, from: int) -> bool {
    exists|p: int| from <= p && occurs_at(hay, needle, p)
}

/// The first place at or after `from` where `needle` stands in `hay`.
#[verifier::opaque]
pub open spec fn first_occurrence(hay: Seq<char>, needle: Seq<char>, from: int) -> int {
    choose|p: int|
        from <= p && occurs_at(hay, needle, p) && forall|q: int|
            from <= q < p ==> !occurs_at(hay, needle, q)
}

/// How far the search moves on after a place: past the term, and by one
/// character for the empty term.
pub open spec fn stride(needle: Seq<char>) -> int {
    if needle.len() == 0 {
        1
    } else {
        needle.len() as int
    }
}

/// The places, counted in characters, where `needle` stands in `hay` from
/// `from` on, left to right and without overlap, `limit` of them at most.
pub open spec fn occurrences(hay: Seq<char>, needle: Seq<char>, from: int, limit: nat) -> Seq<int>
    decreases limit,
{
    if limit == 0 || !occurs_from(hay, needle, from) {
        Seq::empty()
    } else {
        let p = first_occurrence(hay, needle, from);
        seq![p] + occurrences(hay, needle, p + stride(needle), (limit - 1) as nat)
    }
}

/// A place at or after `from` before which, from `from` on, the term does
/// not stand is the first one, and the places go on behind it.
pub proof fn lemma_occurrences_step(
    hay: Seq<char>,
    needle: Seq<char>,
    from: int,
    limit: nat,
    p: int,
)
    requires
        limit > 0,
        from <= p,
        occurs_at(hay, needle, p),
        forall|q: int| from <= q < p ==> !occurs_at(hay, needle, q),
    ensures
        occurrences(hay, needle, from, limit) == seq![p] + occurrences(
            hay,
            needle,
            p + stride(needle),
            (limit - 1) as nat,
        ),
{
    reveal(occurs_from);
    reveal(first_occurrence);
    let f = first_occurrence(hay, needle, from);
    if f < p {
        assert(!occurs_at(hay, needle, f));
    } else if p < f {
        assert(!occurs_at(hay, needle, p));
    }
}

/// Where the term stands nowhere from `from` on, or no place is asked for,
/// there are no places.
pub proof fn lemma_occurrences_end(hay: Seq<char>, needle: Seq<char>, from: int, limit: nat)
    requires
        limit == 0 || forall|q: int| from <= q ==> !occurs_at(hay, needle, q),
    ensures
        occurrences(hay, needle, from, limit) == Seq::<int>::empty(),
{
    reveal(occurs_from);
}

/// Behind the last place where the term still fits, it stands nowhere.
pub proof fn lemma_no_room(hay: Seq<char>, needle: Seq<char>, from: int)
    requires
        from + needle.len() > hay.len(),
    ensures
        forall|q: int| from <= q ==> !occurs_at(hay, needle, q),
{
}

/// The numbers of `v` as integers.
pub open spec fn as_ints(v: Seq<usize>) -> Seq<int> {
    Seq::new(v.len(), |i: int| v[i] as int)
}

/// The next place at or after `from`, and with it how the places from
/// `from` on are made up.
fn next_occurrence(hay: &Vec<char>, needle: &Vec<char>, from: usize, Ghost(limit): Ghost<nat>) -> (r:
    Option<usize>)
    requires
        limit > 0,
    ensures
        match r {
            Some(p) => {
                &&& from <= p <= hay.len()
                &&& occurrences(hay@, needle@, from as int, limit) == seq![p as int] + occurrences(
                    hay@,
                    needle@,
                    p + stride(needle@),
                    (limit - 1) as nat,
                )
                &&& p + stride(needle@) > hay.len() ==> occurrences(
                    hay@,
                    needle@,
                    p + stride(needle@),
                    (limit - 1) as nat,
                ) == Seq::<int>::empty()
            },
            None => occurrences(hay@, needle@, from as int, limit) == Seq::<int>::empty(),
        },
{
    let next = find_from(hay, needle, from);
    proof {
        match next {
            Some(p) => {
                lemma_occurrences_step(hay@, needle@, from as int, limit, p as int);
                if p + stride(needle@) > hay.len() {
                    lemma_no_room(hay@, needle@, p + stride(needle@));
                    lemma_occurrences_end(
                        hay@,
                        needle@,
                        p + stride(needle@),
                        (limit - 1) as nat,
                    );
                }
            },
            None => {
                lemma_occurrences_end(hay@, needle@, from as int, limit);
            },
        }
    }
    next
}

/// Computes [`occurrences`] from the start of `hay`.
pub fn find_occurrences(hay: &Vec<char>, needle: &Vec<char>, limit: usize) -> (r: Vec<usize>)
    ensures
        as_ints(r@) == occurrences(hay@, needle@, 0, limit as nat),
        r.len() <= limit,
        forall|i: int| 0 <= i < r.len() ==> #[trigger] r[i] <= hay.len(),
{
    let mut found: Vec<usize> = Vec::new();
    let mut from: usize = 0;
    let ghost all = occurrences(hay@, needle@, 0, limit as nat);
    let step: usize = if needle.len() == 0 {
        1
    } else {
        needle.len()
    };
    proof {
        assert(as_ints(found@) + all =~= all);
    }
    loop
        invariant_except_break
            as_ints(found@) + occurrences(
                hay@,
                needle@,
                from as int,
                (limit - found.len()) as nat,
            ) == all,
        invariant
            found.len() <= limit,
            from <= hay.len(),
            step == stride(needle@),
            forall|i: int| 0 <= i < found.len() ==> #[trigger] found[i] <= hay.len(),
        ensures
            as_ints(found@) == all,
            found.len() <= limit,
            forall|i: int| 0 <= i < found.len() ==> #[trigger] found[i] <= hay.len(),
        decreases limit - found.len(),
    {
        let ghost before = as_ints(found@);
        let ghost rest = occurrences(hay@, needle@, from as int, (limit - found.len()) as nat);
        if found.len() >= limit {
            proof {
                assert(rest =~= Seq::<int>::empty());
                assert(before + rest =~= before);
            }
            break;
        }
        let next = next_occurrence(hay, needle, from, Ghost((limit - found.len()) as nat));
        if next.is_none() {
            proof {
                assert(before + rest =~= before);
            }
            break;
        }
        let p = next.unwrap();
        found.push(p);
        let ghost later = occurrences(
            hay@,
            needle@,
            p + stride(needle@),
            (limit - found.len()) as nat,
        );
        proof {
            assert(rest == seq![p as int] + later);
            assert(as_ints(found@) =~= before.push(p as int));
            assert(as_ints(found@) + later =~= before + rest);
        }
        if step > hay.len() - p {
            proof {
                assert(as_ints(found@) + later =~= as_ints(found@));
            }
            break;
        }
        from = p + step;
    }
    found
}

// ---------------------------------------------------------------------------
// Matches
// ---------------------------------------------------------------------------

/// The words that stand before a file name where only the name holds the term.
pub open spec fn filename_label() -> Seq<char> {
    "Filename: "@
}

/// The match recorded for the place `p` of `searched`: its byte offset
/// there, and the text around that byte in `shown`.
pub open spec fn match_at_place(
    searched: Seq<char>,
    shown: Seq<char>,
    term: Seq<char>,
    p: int,
) -> MatchView {
    let byte = clamped(byte_offset(searched, p) as int);
    MatchView {
        text: term,
        index: byte as nat,
        context: context_of(
            shown,
            byte as int,
            clamped(byte_len(term) as int) as int,
            CONTEXT_CHARS as int,
        ),
    }
}

/// The matches of `term`: one for each of its first five places in
/// `searched`, with the context cut from `shown`; and where there is no such
/// place but `name_searched` holds the term, a single one that names the file.
#[verifier::opaque]
pub open spec fn matches_of(
    searched: Seq<char>,
    shown: Seq<char>,
    name_searched: Seq<char>,
    name_shown: Seq<char>,
    term: Seq<char>,
) -> Seq<MatchView> {
    let places = occurrences(searched, term, 0, MAX_RECORDED as nat);
    if places.len() > 0 {
        Seq::new(places.len(), |i: int| match_at_place(searched, shown, term, places[i]))
    } else if is_substring(term, name_searched) {
        seq![MatchView { text: term, index: 0, context: filename_label() + name_shown }]
    } else {
        Seq::empty()
    }
}

/// How many places of `term` are recorded in `searched`: five at most.
pub open spec fn recorded_places(searched: Seq<char>, term: Seq<char>) -> nat {
    occurrences(searched, term, 0, MAX_RECORDED as nat).len()
}

/// No more places are found than were asked for.
pub proof fn lemma_occurrences_are_few(hay: Seq<char>, needle: Seq<char>, from: int, limit: nat)
    ensures
        occurrences(hay, needle, from, limit).len() <= limit,
    decreases limit,
{
    if limit > 0 && occurs_from(hay, needle, from) {
        let p = first_occurrence(hay, needle, from);
        lemma_occurrences_are_few(hay, needle, p + stride(needle), (limit - 1) as nat);
    }
}

/// Computes [`matches_of`].
pub fn collect_matches(
    searched: &Vec<char>,
    shown: &Vec<char>,
    name_searched: &Vec<char>,
    name_shown: &Vec<char>,
    term: &Vec<char>,
) -> (r: Vec<Match>)
    ensures
        match_views(r@) == matches_of(searched@, shown@, name_searched@, name_shown@, term@),
        r.len() <= MAX_RECORDED,
{
    collect_matches_counted(searched, shown, name_searched, name_shown, term).0
}

/// Computes [`matches_of`], and counts the places in `searched` among the
/// matches: a match that only names the file is not one of them.
pub fn collect_matches_counted(
    searched: &Vec<char>,
    shown: &Vec<char>,
    name_searched: &Vec<char>,
    name_shown: &Vec<char>,
    term: &Vec<char>,
) -> (r: (Vec<Match>, usize))
    ensures
        match_views(r.0@) == matches_of(searched@, shown@, name_searched@, name_shown@, term@),
        r.0.len() <= MAX_RECORDED,
        r.1 == recorded_places(searched@, term@),
        r.1 <= MAX_RECORDED,
{
    reveal(matches_of);
    let places = find_occurrences(searched, term, MAX_RECORDED);
    let ghost spots = occurrences(searched@, term@, 0, MAX_RECORDED as nat);
    let term_bytes = byte_offset_of(term, term.len());
    proof {
        assert(term@.take(term@.len() as int) =~= term@);
    }
    let mut out: Vec<Match> = Vec::new();
    let mut i: usize = 0;
    while i < places.len()
        invariant
            i <= places.len(),
            places.len() <= MAX_RECORDED,
            spots == occurrences(searched@, term@, 0, MAX_RECORDED as nat),
            as_ints(places@) == spots,
            forall|k: int| 0 <= k < places.len() ==> #[trigger] places[k] <= searched.len(),
            term_bytes == clamped(byte_len(term@) as int),
            out.len() == i,
            forall|k: int|
                0 <= k < i ==> (#[trigger] out[k])@ == match_at_place(
                    searched@,
                    shown@,
                    term@,
                    spots[k],
                ),
        decreases places.len() - i,
    {
        let p = places[i];
        proof {
            assert(as_ints(places@)[i as int] == p as int);
        }
        let byte = byte_offset_of(searched, p);
        let around = context_chars_around(shown, byte, term_bytes, CONTEXT_CHARS);
        out.push(Match { text: string_of(term), index: byte, context: string_of(&around) });
        i += 1;
    }
    let in_content = out.len();
    if out.len() == 0 && contains_chars(name_searched, term) {
        let mut label = chars_of("Filename: ");
        append_chars(&mut label, name_shown);
        out.push(Match { text: string_of(term), index: 0, context: string_of(&label) });
        proof {
            assert(match_views(out@) =~= matches_of(
                searched@,
                shown@,
                name_searched@,
                name_shown@,
                term@,
            ));
        }
    } else {
        proof {
            assert(match_views(out@) =~= matches_of(
                searched@,
                shown@,
                name_searched@,
                name_shown@,
                term@,
            ));
        }
    }
    (out, in_content)
}

/// The places of `query_lower` in a document: up to five in its content,
/// searched in lower case and shown as written, or else its name where the
/// name holds the term.
pub fn find_matches_in_content(content: &str, name: &str, query_lower: &str) -> (r: Vec<Match>)
    ensures
        match_views(r@) == matches_of(
            lowercase_of(content@),
            content@,
            lowercase_of(name@),
            name@,
            query_lower@,
        ),
        r.len() <= MAX_RECORDED,
{
    let content_lower = str_to_lowercase(content);
    let name_lower = str_to_lowercase(name);
    collect_matches(
        &chars_of(content_lower.as_str()),
        &chars_of(content),
        &chars_of(name_lower.as_str()),
        &chars_of(name),
        &chars_of(query_lower),
    )
}

} // verus!
