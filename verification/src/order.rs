//! The order of texts: character by character, a text before every one
//! that it begins. It is the order in which strings compare.

use vstd::prelude::*;
use crate::text::{chars_of, views};

verus! {

/// `a` comes before `b`.
pub open spec fn text_before(a: Seq<char>, b: Seq<char>) -> bool
    decreases a.len(),
{
    if b.len() == 0 {
        false
    } else if a.len() == 0 {
        true
    } else if a[0] != b[0] {
        a[0] < b[0]
    } else {
        text_before(a.skip(1), b.skip(1))
    }
}

/// Of two different texts one comes before the other.
pub proof fn lemma_before_total(a: Seq<char>, b: Seq<char>)
    ensures
        a == b || text_before(a, b) || text_before(b, a),
        !(text_before(a, b) && text_before(b, a)),
    decreases a.len(),
{
    if a.len() > 0 && b.len() > 0 && a[0] == b[0] {
        lemma_before_total(a.skip(1), b.skip(1));
        if a.skip(1) == b.skip(1) {
            assert(a =~= seq![a[0]] + a.skip(1));
            assert(b =~= seq![b[0]] + b.skip(1));
        }
    } else if a.len() == 0 && b.len() == 0 {
        assert(a =~= b);
    }
}

/// What comes before a text comes before every text behind that one.
pub proof fn lemma_before_transitive(a: Seq<char>, b: Seq<char>, c: Seq<char>)
    requires
        text_before(a, b),
        text_before(b, c),
    ensures
        text_before(a, c),
    decreases a.len(),
{
    if a.len() > 0 && a[0] == b[0] && b[0] == c[0] {
        lemma_before_transitive(a.skip(1), b.skip(1), c.skip(1));
    }
}

/// Compares two texts: -1 where the first comes before the second, 1 where
/// it comes behind, 0 where they are the same.
pub fn compare_chars(a: &Vec<char>, b: &Vec<char>) -> (r: i8)
    ensures
        r == -1 <==> text_before(a@, b@),
        r == 1 <==> text_before(b@, a@),
        r == 0 <==> a@ == b@,
        r == -1 || r == 0 || r == 1,
{
    let mut i: usize = 0;
    proof {
        assert(a@.skip(0) =~= a@);
        assert(b@.skip(0) =~= b@);
        lemma_before_total(a@, b@);
    }
    while i < a.len() && i < b.len()
        invariant
            i <= a.len(),
            i <= b.len(),
            a@.take(i as int) == b@.take(i as int),
            text_before(a@, b@) == text_before(a@.skip(i as int), b@.skip(i as int)),
            text_before(b@, a@) == text_before(b@.skip(i as int), a@.skip(i as int)),
        decreases a.len() - i,
    {
        let x: char = a[i];
        let y: char = b[i];
        proof {
            assert(a@.skip(i as int)[0] == a@[i as int]);
            assert(b@.skip(i as int)[0] == b@[i as int]);
            assert(a@.skip(i as int).skip(1) =~= a@.skip(i + 1));
            assert(b@.skip(i as int).skip(1) =~= b@.skip(i + 1));
        }
        if x < y {
            proof {
                lemma_before_total(a@, b@);
            }
            return -1;
        }
        if x > y {
            proof {
                lemma_before_total(a@, b@);
            }
            return 1;
        }
        proof {
            assert(a@.take(i + 1) =~= a@.take(i as int).push(a@[i as int]));
            assert(b@.take(i + 1) =~= b@.take(i as int).push(b@[i as int]));
        }
        i += 1;
    }
    proof {
        lemma_before_total(a@, b@);
        if i == a.len() && i == b.len() {
            assert(a@ =~= a@.take(i as int));
            assert(b@ =~= b@.take(i as int));
        }
        if i == a.len() {
            assert(a@.skip(i as int).len() == 0);
        }
        if i == b.len() {
            assert(b@.skip(i as int).len() == 0);
        }
    }
    if i < b.len() {
        -1
    } else if i < a.len() {
        1
    } else {
        0
    }
}

/// Each text comes before the next.
pub open spec fn strictly_rising(list: Seq<Seq<char>>) -> bool {
    forall|i: int, j: int| 0 <= i < j < list.len() ==> text_before(list[i], list[j])
}

/// Puts `x` at its place in a rising list that does not hold it.
pub fn insert_rising(list: &mut Vec<String>, x: String)
    requires
        strictly_rising(views(old(list)@)),
        !views(old(list)@).contains(x@),
    ensures
        strictly_rising(views(final(list)@)),
        views(final(list)@).to_set() == views(old(list)@).to_set().insert(x@),
        final(list).len() == old(list).len() + 1,
{
    let wanted = chars_of(x.as_str());
    let ghost before = views(list@);
    let mut at: usize = 0;
    while at < list.len() && compare_chars(&chars_of(list[at].as_str()), &wanted) == -1
        invariant
            at <= list.len(),
            list@ == old(list)@,
            wanted@ == x@,
            forall|k: int| 0 <= k < at ==> text_before(#[trigger] views(list@)[k], x@),
        decreases list.len() - at,
    {
        at += 1;
    }
    proof {
        assert forall|k: int| at <= k < before.len() implies text_before(
            x@,
            #[trigger] before[k],
        ) by {
            assert(before[at as int] == list@[at as int]@);
            assert(before.contains(before[at as int]));
            lemma_before_total(before[at as int], x@);
            if k > at {
                lemma_before_transitive(x@, before[at as int], before[k]);
            }
        }
    }
    list.insert(at, x);
    proof {
        let after = views(list@);
        assert(after =~= before.insert(at as int, x@));
        assert forall|i: int, j: int| 0 <= i < j < after.len() implies text_before(
            after[i],
            after[j],
        ) by {
            if j < at {
                assert(after[i] == before[i] && after[j] == before[j]);
            } else if j == at {
                assert(after[i] == before[i]);
            } else if i < at {
                assert(after[i] == before[i] && after[j] == before[j - 1]);
            } else if i == at {
                assert(after[j] == before[j - 1]);
            } else {
                assert(after[i] == before[i - 1] && after[j] == before[j - 1]);
            }
        }
        assert(after.to_set() =~= before.to_set().insert(x@)) by {
            assert forall|t: Seq<char>| after.to_set().contains(t) <==> before.to_set().insert(
                x@,
            ).contains(t) by {
                if after.contains(t) {
                    let k = choose|k: int| 0 <= k < after.len() && after[k] == t;
                    if k < at {
                        assert(before[k] == t);
                    } else if k > at {
                        assert(before[k - 1] == t);
                    }
                }
                if before.contains(t) {
                    let k = choose|k: int| 0 <= k < before.len() && before[k] == t;
                    if k < at {
                        assert(after[k] == t);
                    } else {
                        assert(after[k + 1] == t);
                    }
                }
                if t == x@ {
                    assert(after[at as int] == t);
                }
            }
        }
    }
}

/// The texts of `list` in rising order, each once.
pub fn sorted_texts(list: &Vec<String>) -> (r: Vec<String>)
    ensures
        strictly_rising(views(r@)),
        views(r@).to_set() == views(list@).to_set(),
{
    let mut out: Vec<String> = Vec::new();
    let mut i: usize = 0;
    proof {
        assert(views(list@).take(0).to_set() =~= Set::<Seq<char>>::empty());
        assert(views(out@).to_set() =~= Set::<Seq<char>>::empty());
    }
    while i < list.len()
        invariant
            i <= list.len(),
            strictly_rising(views(out@)),
            views(out@).to_set() == views(list@).take(i as int).to_set(),
        decreases list.len() - i,
    {
        let ghost seen = views(list@).take(i as int);
        let ghost next = views(list@).take(i + 1);
        let ghost x = list@[i as int]@;
        proof {
            assert(next =~= seen.push(x));
            assert(next.to_set() =~= seen.to_set().insert(x)) by {
                assert forall|t: Seq<char>| next.to_set().contains(t) <==> seen.to_set().insert(
                    x,
                ).contains(t) by {
                    if next.contains(t) {
                        let k = choose|k: int| 0 <= k < next.len() && next[k] == t;
                        if k < seen.len() {
                            assert(seen[k] == t);
                        }
                    }
                    if seen.contains(t) {
                        let k = choose|k: int| 0 <= k < seen.len() && seen[k] == t;
                        assert(next[k] == t);
                    }
                    if t == x {
                        assert(next[seen.len() as int] == t);
                    }
                }
            }
        }
        if !holds_text(&out, &list[i]) {
            insert_rising(&mut out, list[i].clone());
        } else {
            proof {
                assert(views(out@).to_set().contains(x));
                assert(views(out@).to_set().insert(x) =~= views(out@).to_set());
            }
        }
        i += 1;
    }
    proof {
        assert(views(list@).take(list@.len() as int) =~= views(list@));
    }
    out
}

fn holds_text(list: &Vec<String>, x: &String) -> (r: bool)
    ensures
        r == views(list@).contains(x@),
{
    let mut i: usize = 0;
    while i < list.len()
        invariant
            i <= list.len(),
            forall|k: int| 0 <= k < i ==> views(list@)[k] != x@,
        decreases list.len() - i,
    {
        proof {
            assert(views(list@)[i as int] == list@[i as int]@);
        }
        if list[i] == *x {
            return true;
        }
        i += 1;
    }
    false
}

} // verus!
