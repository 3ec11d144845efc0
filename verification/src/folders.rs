//! Paths of folders, as plain text.
//!
//! A path is a run of components held apart by separators. Both `/` and `\`
//! separate, on every machine, so that an index made on one system reads the
//! same on another. A folder is compared in its normal form: every separator
//! a backslash, and one at the end.

use vstd::prelude::*;
use crate::text::{chars_of, slice_chars, starts_with_chars, string_of, views};

verus! {

/// Whether `c` separates the components of a path.
pub open spec fn is_separator(c: char) -> bool {
    c == '/' || c == '\\'
}

/// `c` with the slash turned into a backslash.
pub open spec fn to_backslash(c: char) -> char {
    if c == '/' {
        '\\'
    } else {
        c
    }
}

/// The normal form of a folder path: backslashes only, and one at the end.
pub open spec fn normalized(path: Seq<char>) -> Seq<char> {
    let turned = Seq::new(path.len(), |i: int| to_backslash(path[i]));
    if path.len() > 0 && is_separator(path.last()) {
        turned
    } else {
        turned.push('\\')
    }
}

/// `path` is `folder` or lies below it: the normal form of `folder` begins
/// the normal form of `path`.
pub open spec fn lies_under(path: Seq<char>, folder: Seq<char>) -> bool {
    normalized(folder).is_prefix_of(normalized(path))
}

fn char_is_separator(c: char) -> (r: bool)
    ensures
        r == is_separator(c),
{
    c == '/' || c == '\\'
}

/// The normal form of the characters of a path.
pub fn normalize_chars(path: &Vec<char>) -> (r: Vec<char>)
    ensures
        r@ == normalized(path@),
{
    let mut out: Vec<char> = Vec::new();
    let mut i: usize = 0;
    while i < path.len()
        invariant
            i <= path.len(),
            out@ == Seq::new(i as nat, |k: int| to_backslash(path@[k])),
        decreases path.len() - i,
    {
        let c = path[i];
        out.push(if c == '/' {
            '\\'
        } else {
            c
        });
        proof {
            assert(out@ =~= Seq::new((i + 1) as nat, |k: int| to_backslash(path@[k])));
        }
        i += 1;
    }
    if path.len() == 0 || !char_is_separator(path[path.len() - 1]) {
        out.push('\\');
    }
    proof {
        assert(out@ =~= normalized(path@));
    }
    out
}

/// Brings a folder path into its normal form.
pub fn normalize_path(path: &str) -> (r: String)
    ensures
        r@ == normalized(path@),
{
    let chars = chars_of(path);
    let out = normalize_chars(&chars);
    string_of(&out)
}

/// Whether `path` is `folder` or lies below it.
pub fn is_under_folder(path: &str, folder: &str) -> (r: bool)
    ensures
        r == lies_under(path@, folder@),
{
    let p = normalize_chars(&chars_of(path));
    let f = normalize_chars(&chars_of(folder));
    starts_with_chars(&p, &f)
}

/// `path` without the separators at its end.
pub open spec fn trimmed(path: Seq<char>) -> Seq<char>
    decreases path.len(),
{
    if path.len() > 0 && is_separator(path.last()) {
        trimmed(path.drop_last())
    } else {
        path
    }
}

/// The index of the last separator of `path`, or -1 where it has none.
pub open spec fn last_separator(path: Seq<char>) -> int
    decreases path.len(),
{
    if path.len() == 0 {
        -1
    } else if is_separator(path.last()) {
        path.len() - 1
    } else {
        last_separator(path.drop_last())
    }
}

/// Whether `head` is the name of a drive: a single component that ends in
/// a colon.
pub open spec fn is_drive(head: Seq<char>) -> bool {
    head.len() > 0 && head.last() == ':' && last_separator(head) < 0
}

/// The folder that holds `path`: what stands before its last component,
/// without the separators between the two. Directly below the root it is the
/// root separator, and directly below a drive it is the drive with its
/// separator. The root itself, a drive, the empty path and a path of a
/// single component have none.
pub open spec fn parent_of(path: Seq<char>) -> Option<Seq<char>> {
    let t = trimmed(path);
    let k = last_separator(t);
    if k < 0 {
        None
    } else {
        let head = trimmed(t.take(k));
        if head.len() == 0 {
            Some(t.take(1))
        } else if is_drive(head) {
            Some(t.take(head.len() as int + 1))
        } else {
            Some(head)
        }
    }
}

/// The last component of `path`, or `path` itself where it has none.
pub open spec fn name_of(path: Seq<char>) -> Seq<char> {
    let t = trimmed(path);
    if t.len() == 0 {
        path
    } else {
        t.skip(last_separator(t) + 1)
    }
}

pub proof fn lemma_trimmed(path: Seq<char>)
    ensures
        trimmed(path).is_prefix_of(path),
        trimmed(path).len() > 0 ==> !is_separator(trimmed(path).last()),
        forall|i: int| trimmed(path).len() <= i < path.len() ==> is_separator(#[trigger] path[i]),
    decreases path.len(),
{
    if path.len() > 0 && is_separator(path.last()) {
        lemma_trimmed(path.drop_last());
        assert(trimmed(path) =~= path.drop_last().subrange(0, trimmed(path).len() as int));
        assert(trimmed(path) =~= path.subrange(0, trimmed(path).len() as int));
        assert forall|i: int| trimmed(path).len() <= i < path.len() implies is_separator(
            #[trigger] path[i],
        ) by {
            if i < path.len() - 1 {
                assert(path.drop_last()[i] == path[i]);
            }
        }
    } else {
        assert(path =~= path.subrange(0, path.len() as int));
    }
}

pub proof fn lemma_last_separator(path: Seq<char>)
    ensures
        -1 <= last_separator(path) < path.len(),
        last_separator(path) >= 0 ==> is_separator(path[last_separator(path)]),
        forall|i: int| last_separator(path) < i < path.len() ==> !is_separator(#[trigger] path[i]),
    decreases path.len(),
{
    if path.len() > 0 && !is_separator(path.last()) {
        lemma_last_separator(path.drop_last());
        assert forall|i: int| last_separator(path) < i < path.len() implies !is_separator(
            #[trigger] path[i],
        ) by {
            if i < path.len() - 1 {
                assert(path.drop_last()[i] == path[i]);
            }
        }
    }
}

/// A parent is a proper beginning of its child, and a separator follows it
/// there unless it is the root separator itself.
pub proof fn lemma_parent_is_shorter(path: Seq<char>)
    ensures
        match parent_of(path) {
            Some(p) => {
                &&& 0 < p.len() < path.len()
                &&& p.is_prefix_of(path)
                &&& is_separator(path[p.len() as int]) || is_separator(p.last())
            },
            None => true,
        },
{
    let t = trimmed(path);
    let k = last_separator(t);
    lemma_trimmed(path);
    lemma_last_separator(t);
    if k >= 0 {
        let head = trimmed(t.take(k));
        lemma_trimmed(t.take(k));
        assert(t =~= path.subrange(0, t.len() as int));
        if head.len() == 0 {
            assert(t.take(1) =~= path.subrange(0, 1));
            assert(is_separator(t[0])) by {
                if k > 0 {
                    assert(t.take(k)[0] == t[0]);
                }
            }
            assert(t.take(1).last() == t[0]);
        } else {
            assert(head =~= t.take(k).subrange(0, head.len() as int));
            assert(head =~= path.subrange(0, head.len() as int));
            if head.len() < k {
                assert(t.take(k)[head.len() as int] == path[head.len() as int]);
            } else {
                assert(path[k] == t[k]);
            }
            if is_drive(head) {
                let p = t.take(head.len() as int + 1);
                assert(p =~= path.subrange(0, head.len() as int + 1));
                assert(p.last() == path[head.len() as int]);
            }
        }
    }
}

/// The length of `path` without the separators at its end.
pub fn trimmed_len(path: &Vec<char>, upto: usize) -> (r: usize)
    requires
        upto <= path.len(),
    ensures
        r <= upto,
        path@.take(r as int) == trimmed(path@.take(upto as int)),
{
    let mut n: usize = upto;
    while n > 0 && char_is_separator(path[n - 1])
        invariant
            n <= upto <= path.len(),
            trimmed(path@.take(n as int)) == trimmed(path@.take(upto as int)),
        decreases n,
    {
        proof {
            assert(path@.take(n as int).drop_last() =~= path@.take(n - 1));
        }
        n -= 1;
    }
    n
}

/// Where the last separator of the first `upto` characters stands.
pub fn find_last_separator(path: &Vec<char>, upto: usize) -> (r: Option<usize>)
    requires
        upto <= path.len(),
    ensures
        match r {
            Some(k) => k < upto && k == last_separator(path@.take(upto as int)),
            None => last_separator(path@.take(upto as int)) == -1,
        },
{
    let mut n: usize = upto;
    while n > 0
        invariant
            n <= upto <= path.len(),
            last_separator(path@.take(n as int)) == last_separator(path@.take(upto as int)),
        decreases n,
    {
        if char_is_separator(path[n - 1]) {
            return Some(n - 1);
        }
        proof {
            assert(path@.take(n as int).drop_last() =~= path@.take(n - 1));
        }
        n -= 1;
    }
    None
}

/// The parent of the path that `path` spells, as a number of its characters:
/// the parent is that beginning of `path`.
pub fn parent_len(path: &Vec<char>) -> (r: Option<usize>)
    ensures
        match r {
            Some(n) => n < path.len() && parent_of(path@) == Some(path@.take(n as int)),
            None => parent_of(path@) is None,
        },
{
    proof {
        assert(path@.take(path@.len() as int) =~= path@);
    }
    let t = trimmed_len(path, path.len());
    match find_last_separator(path, t) {
        None => None,
        Some(k) => {
            proof {
                lemma_parent_is_shorter(path@);
                assert(path@.take(t as int).take(k as int) =~= path@.take(k as int));
            }
            let h = trimmed_len(path, k);
            if h == 0 {
                proof {
                    assert(path@.take(t as int).take(1) =~= path@.take(1));
                }
                Some(1)
            } else if path[h - 1] == ':' && find_last_separator(path, h).is_none() {
                proof {
                    assert(path@.take(h as int).last() == path@[h - 1]);
                    assert(path@.take(t as int).take(h + 1) =~= path@.take(h + 1));
                }
                Some(h + 1)
            } else {
                proof {
                    assert(path@.take(h as int).last() == path@[h - 1]);
                }
                Some(h)
            }
        },
    }
}

/// The folder that holds `path`, if it has one.
pub fn get_parent_folder(path: &str) -> (r: Option<String>)
    ensures
        match r {
            Some(p) => parent_of(path@) == Some(p@),
            None => parent_of(path@) is None,
        },
{
    let chars = chars_of(path);
    match parent_len(&chars) {
        None => None,
        Some(n) => {
            let head = slice_chars(&chars, 0, n);
            Some(string_of(&head))
        },
    }
}

/// The name of the folder that `path` spells, as characters.
pub fn name_chars(path: &Vec<char>) -> (r: Vec<char>)
    ensures
        r@ == name_of(path@),
{
    proof {
        assert(path@.take(path@.len() as int) =~= path@);
    }
    let t = trimmed_len(path, path.len());
    if t == 0 {
        let r = slice_chars(path, 0, path.len());
        proof {
            assert(r@ =~= path@);
        }
        return r;
    }
    let start: usize = match find_last_separator(path, t) {
        Some(k) => k + 1,
        None => 0,
    };
    let r = slice_chars(path, start, t);
    proof {
        assert(r@ =~= path@.take(t as int).skip(start as int));
    }
    r
}

/// The last component of `path`, or `path` itself where it has none.
pub fn get_folder_name(path: &str) -> (r: String)
    ensures
        r@ == name_of(path@),
{
    let chars = chars_of(path);
    let name = name_chars(&chars);
    string_of(&name)
}

// ---------------------------------------------------------------------------
// Exclusion
// ---------------------------------------------------------------------------

/// Whether `path` is hidden by a list of excluded folders: it is one of
/// them or lies under one. Nothing is kept per folder, so that excluding a
/// folder hides all that lies below it at once.
pub open spec fn excluded_by(excluded: Seq<Seq<char>>, path: Seq<char>) -> bool {
    exists|i: int| 0 <= i < excluded.len() && lies_under(path, #[trigger] excluded[i])
}

/// Computes [`excluded_by`].
pub fn is_excluded_path(excluded: &Vec<String>, path: &str) -> (r: bool)
    ensures
        r == excluded_by(views(excluded@), path@),
{
    let p = normalize_chars(&chars_of(path));
    let mut i: usize = 0;
    while i < excluded.len()
        invariant
            i <= excluded.len(),
            p@ == normalized(path@),
            forall|k: int| 0 <= k < i ==> !lies_under(path@, #[trigger] views(excluded@)[k]),
        decreases excluded.len() - i,
    {
        let f = normalize_chars(&chars_of(excluded[i].as_str()));
        proof {
            assert(views(excluded@)[i as int] == excluded@[i as int]@);
        }
        if starts_with_chars(&p, &f) {
            return true;
        }
        i += 1;
    }
    false
}

// ---------------------------------------------------------------------------
// What holds of folders
// ---------------------------------------------------------------------------

/// What lies under an excluded folder is excluded, whether or not it was
/// ever named itself.
pub proof fn law_exclusion_is_inherited(
    excluded: Seq<Seq<char>>,
    folder: Seq<char>,
    path: Seq<char>,
)
    requires
        excluded.contains(folder),
        lies_under(path, folder),
    ensures
        excluded_by(excluded, path),
{
    let i = choose|i: int| 0 <= i < excluded.len() && excluded[i] == folder;
    assert(lies_under(path, excluded[i]));
}

/// Excluding a folder excludes every path that has it among the folders
/// above it, however deep.
pub proof fn law_exclusion_reaches_descendants(
    excluded: Seq<Seq<char>>,
    folder: Seq<char>,
    path: Seq<char>,
)
    requires
        excluded.contains(folder),
        ancestors(path).contains(folder),
    ensures
        excluded_by(excluded, path),
{
    let k = choose|k: int| 0 <= k < ancestors(path).len() && ancestors(path)[k] == folder;
    law_under_ancestors(path, k);
    law_exclusion_is_inherited(excluded, folder, path);
}

/// What is excluded stays so under every folder below: exclusion passes
/// from a path to all that lies under it.
pub proof fn law_exclusion_passes_down(excluded: Seq<Seq<char>>, path: Seq<char>, below: Seq<char>)
    requires
        excluded_by(excluded, path),
        lies_under(below, path),
    ensures
        excluded_by(excluded, below),
{
    let i = choose|i: int| 0 <= i < excluded.len() && lies_under(path, #[trigger] excluded[i]);
    law_under_transitive(below, path, excluded[i]);
}

/// The folders above `path`, nearest first.
pub open spec fn ancestors(path: Seq<char>) -> Seq<Seq<char>>
    decreases path.len(),
{
    match parent_of(path) {
        None => Seq::empty(),
        Some(p) => {
            proof {
                lemma_parent_is_shorter(path);
            }
            seq![p] + ancestors(p)
        },
    }
}

/// Every path lies under itself.
pub proof fn law_under_reflexive(path: Seq<char>)
    ensures
        lies_under(path, path),
{
    let n = normalized(path);
    assert(n =~= n.subrange(0, n.len() as int));
}

/// What lies under a folder lies under every folder that this one lies under.
pub proof fn law_under_transitive(a: Seq<char>, b: Seq<char>, c: Seq<char>)
    requires
        lies_under(a, b),
        lies_under(b, c),
    ensures
        lies_under(a, c),
{
    let na = normalized(a);
    let nb = normalized(b);
    let nc = normalized(c);
    assert(nc =~= nb.subrange(0, nc.len() as int));
    assert(nb =~= na.subrange(0, nb.len() as int));
    assert(nc =~= na.subrange(0, nc.len() as int));
}

/// A path lies under its parent.
pub proof fn law_under_parent(path: Seq<char>)
    requires
        parent_of(path) is Some,
    ensures
        lies_under(path, parent_of(path)->0),
{
    let p = parent_of(path)->0;
    lemma_parent_is_shorter(path);
    let np = normalized(p);
    let n = normalized(path);
    assert(p =~= path.subrange(0, p.len() as int));
    assert(np =~= n.subrange(0, np.len() as int)) by {
        assert forall|i: int| 0 <= i < np.len() implies np[i] == n[i] by {
            if i < p.len() {
                assert(p[i] == path[i]);
            } else {
                assert(!is_separator(p.last()));
                assert(is_separator(path[p.len() as int]));
            }
        }
    }
}

/// A path lies under each of the folders above it.
pub proof fn law_under_ancestors(path: Seq<char>, i: int)
    requires
        0 <= i < ancestors(path).len(),
    ensures
        lies_under(path, ancestors(path)[i]),
    decreases path.len(),
{
    let p = parent_of(path)->0;
    lemma_parent_is_shorter(path);
    law_under_parent(path);
    if i > 0 {
        assert(ancestors(path)[i] == ancestors(p)[i - 1]);
        law_under_ancestors(p, i - 1);
        law_under_transitive(path, p, ancestors(p)[i - 1]);
    }
}

} // verus!
