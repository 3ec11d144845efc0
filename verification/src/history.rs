//! The ledger of past queries: the newest first, each query once, and never
//! more than [`MAX_HISTORY_ENTRIES`].

use std::collections::VecDeque;
use vstd::prelude::*;
use crate::models::{entry_views, HistoryEntryView, SearchHistoryEntry, Timestamp};
use crate::text::{
    chars_are_blank, chars_of, is_blank, lowercase_of, same_chars, starts_with_chars,
    str_to_lowercase,
};

verus! {

/// Maximum number of entries that the ledger keeps.
pub const MAX_HISTORY_ENTRIES: usize = 50;

/// Two queries are the same entry when their lower-case forms are equal.
pub open spec fn same_query(a: Seq<char>, b: Seq<char>) -> bool {
    lowercase_of(a) == lowercase_of(b)
}

/// The entries whose query is not `query`, in their order.
pub open spec fn without_query(entries: Seq<HistoryEntryView>, query: Seq<char>) -> Seq<
    HistoryEntryView,
>
    decreases entries.len(),
{
    if entries.len() == 0 {
        Seq::empty()
    } else if same_query(entries.last().query, query) {
        without_query(entries.drop_last(), query)
    } else {
        without_query(entries.drop_last(), query).push(entries.last())
    }
}

/// The entries whose query begins with `prefix`, case ignored, in their order.
pub open spec fn with_prefix(entries: Seq<HistoryEntryView>, prefix: Seq<char>) -> Seq<
    HistoryEntryView,
>
    decreases entries.len(),
{
    if entries.len() == 0 {
        Seq::empty()
    } else if lowercase_of(prefix).is_prefix_of(lowercase_of(entries.last().query)) {
        with_prefix(entries.drop_last(), prefix).push(entries.last())
    } else {
        with_prefix(entries.drop_last(), prefix)
    }
}

/// The first `count` entries, or all of them where there are fewer.
pub open spec fn first_entries(entries: Seq<HistoryEntryView>, count: int) -> Seq<
    HistoryEntryView,
> {
    if count <= 0 {
        Seq::empty()
    } else if count < entries.len() {
        entries.take(count)
    } else {
        entries
    }
}

/// The ledger after a query was made. A blank query leaves it as it is.
/// Else the query's earlier entry goes, the new one comes to the front, and
/// what no longer fits falls off the end.
pub open spec fn after_add(
    entries: Seq<HistoryEntryView>,
    query: Seq<char>,
    result_count: usize,
    now: Timestamp,
) -> Seq<HistoryEntryView> {
    if is_blank(query) {
        entries
    } else {
        first_entries(
            seq![HistoryEntryView { query, timestamp: now, result_count }] + without_query(
                entries,
                query,
            ),
            MAX_HISTORY_ENTRIES as int,
        )
    }
}

/// How many entries hold `query`.
pub open spec fn count_of_query(entries: Seq<HistoryEntryView>, query: Seq<char>) -> nat
    decreases entries.len(),
{
    if entries.len() == 0 {
        0
    } else if same_query(entries.last().query, query) {
        count_of_query(entries.drop_last(), query) + 1
    } else {
        count_of_query(entries.drop_last(), query)
    }
}

/// What the ledger promises of its entries: no more than it may keep, no
/// blank query, and no query twice.
pub open spec fn is_ledger(entries: Seq<HistoryEntryView>) -> bool {
    &&& entries.len() <= MAX_HISTORY_ENTRIES
    &&& forall|i: int| 0 <= i < entries.len() ==> !is_blank(#[trigger] entries[i].query)
    &&& forall|i: int, j: int|
        0 <= i < j < entries.len() ==> !same_query(
            (#[trigger] entries[i]).query,
            (#[trigger] entries[j]).query,
        )
}

/// The ledger of past queries.
#[derive(Debug)]
pub struct SearchHistory {
    entries: VecDeque<SearchHistoryEntry>,
}

impl View for SearchHistory {
    type V = Seq<HistoryEntryView>;

    closed spec fn view(&self) -> Seq<HistoryEntryView> {
        Seq::new(self.entries@.len(), |i: int| self.entries@[i]@)
    }
}

fn lowered_chars(text: &str) -> (r: Vec<char>)
    ensures
        r@ == lowercase_of(text@),
{
    let lowered = str_to_lowercase(text);
    chars_of(lowered.as_str())
}

impl SearchHistory {
    /// An empty ledger.
    pub fn new() -> (r: Self)
        ensures
            r@ == Seq::<HistoryEntryView>::empty(),
    {
        let r = SearchHistory { entries: VecDeque::new() };
        proof {
            assert(r@ =~= Seq::<HistoryEntryView>::empty());
        }
        r
    }

    /// The entries other than those of `query`, in their order.
    fn others(&self, query: &str) -> (r: VecDeque<SearchHistoryEntry>)
        ensures
            entry_views(r@) == without_query(self@, query@),
    {
        let wanted = lowered_chars(query);
        let mut out: VecDeque<SearchHistoryEntry> = VecDeque::new();
        let mut i: usize = 0;
        proof {
            assert(self@.take(0) =~= Seq::<HistoryEntryView>::empty());
            assert(entry_views(out@) =~= without_query(self@.take(0), query@));
        }
        while i < self.entries.len()
            invariant
                i <= self.entries.len(),
                wanted@ == lowercase_of(query@),
                entry_views(out@) == without_query(
                    self@.take(i as int),
                    query@,
                ),
            decreases self.entries.len() - i,
        {
            let entry = &self.entries[i];
            proof {
                assert(self@.take(i + 1).drop_last() =~= self@.take(i as int));
                assert(self@.take(i + 1).last() == entry@);
            }
            let ghost before = entry_views(out@);
            if !same_chars(&lowered_chars(entry.query.as_str()), &wanted) {
                out.push_back(entry.clone());
                proof {
                    assert(entry_views(out@) =~= before.push(entry@));
                }
            }
            i += 1;
        }
        proof {
            assert(self@.take(self@.len() as int) =~= self@);
        }
        out
    }

    /// Records a query made at `now` that had `result_count` results.
    pub fn add(&mut self, query: String, result_count: usize, now: Timestamp)
        ensures
            final(self)@ == after_add(old(self)@, query@, result_count, now),
    {
        if chars_are_blank(&chars_of(query.as_str())) {
            return ;
        }
        let mut entries = self.others(query.as_str());
        let ghost rest = without_query(self@, query@);
        let ghost newest = HistoryEntryView { query: query@, timestamp: now, result_count };
        entries.push_front(SearchHistoryEntry { query, timestamp: now, result_count });
        proof {
            assert(Seq::new(entries@.len(), |i: int| entries@[i]@) =~= seq![newest] + rest);
        }
        if entries.len() > MAX_HISTORY_ENTRIES {
            entries.truncate(MAX_HISTORY_ENTRIES);
        }
        self.entries = entries;
        proof {
            assert(self@ =~= first_entries(seq![newest] + rest, MAX_HISTORY_ENTRIES as int));
        }
    }

    /// Every entry, the newest first.
    pub fn get_all(&self) -> (r: Vec<SearchHistoryEntry>)
        ensures
            entry_views(r@) == self@,
    {
        let r = self.get_recent(self.entries.len());
        proof {
            assert(first_entries(self@, self@.len() as int) =~= self@);
        }
        r
    }

    /// The `count` newest entries, the newest first.
    pub fn get_recent(&self, count: usize) -> (r: Vec<SearchHistoryEntry>)
        ensures
            entry_views(r@) == first_entries(self@, count as int),
    {
        let n: usize = if count < self.entries.len() {
            count
        } else {
            self.entries.len()
        };
        let mut out: Vec<SearchHistoryEntry> = Vec::new();
        let mut i: usize = 0;
        while i < n
            invariant
                i <= n <= self.entries.len(),
                out.len() == i,
                forall|k: int| 0 <= k < i ==> (#[trigger] out[k])@ == self@[k],
            decreases n - i,
        {
            out.push(self.entries[i].clone());
            i += 1;
        }
        proof {
            assert(entry_views(out@) =~= first_entries(self@, count as int));
        }
        out
    }

    /// Forgets every entry.
    pub fn clear(&mut self)
        ensures
            final(self)@ == Seq::<HistoryEntryView>::empty(),
    {
        self.entries.clear();
        proof {
            assert(self@ =~= Seq::<HistoryEntryView>::empty());
        }
    }

    /// Forgets the entry of `query`, case ignored.
    pub fn remove(&mut self, query: &str)
        ensures
            final(self)@ == without_query(old(self)@, query@),
    {
        let entries = self.others(query);
        self.entries = entries;
    }

    /// The entries whose query begins with `prefix`, case ignored.
    pub fn search(&self, prefix: &str) -> (r: Vec<SearchHistoryEntry>)
        ensures
            entry_views(r@) == with_prefix(self@, prefix@),
    {
        let wanted = lowered_chars(prefix);
        let mut out: Vec<SearchHistoryEntry> = Vec::new();
        let mut i: usize = 0;
        proof {
            assert(self@.take(0) =~= Seq::<HistoryEntryView>::empty());
            assert(entry_views(out@) =~= with_prefix(self@.take(0), prefix@));
        }
        while i < self.entries.len()
            invariant
                i <= self.entries.len(),
                wanted@ == lowercase_of(prefix@),
                entry_views(out@) == with_prefix(
                    self@.take(i as int),
                    prefix@,
                ),
            decreases self.entries.len() - i,
        {
            let entry = &self.entries[i];
            proof {
                assert(self@.take(i + 1).drop_last() =~= self@.take(i as int));
                assert(self@.take(i + 1).last() == entry@);
            }
            let ghost before = entry_views(out@);
            if starts_with_chars(&lowered_chars(entry.query.as_str()), &wanted) {
                out.push(entry.clone());
                proof {
                    assert(entry_views(out@) =~= before.push(entry@));
                }
            }
            i += 1;
        }
        proof {
            assert(self@.take(self@.len() as int) =~= self@);
        }
        out
    }
}

impl Default for SearchHistory {
    fn default() -> (r: Self)
        ensures
            r@ == Seq::<HistoryEntryView>::empty(),
    {
        SearchHistory::new()
    }
}

// ---------------------------------------------------------------------------
// What holds of the ledger
// ---------------------------------------------------------------------------

pub proof fn lemma_without_query(entries: Seq<HistoryEntryView>, query: Seq<char>)
    ensures
        without_query(entries, query).len() <= entries.len(),
        count_of_query(without_query(entries, query), query) == 0,
        forall|i: int|
            0 <= i < without_query(entries, query).len() ==> entries.contains(
                #[trigger] without_query(entries, query)[i],
            ) && !same_query(without_query(entries, query)[i].query, query),
    decreases entries.len(),
{
    if entries.len() > 0 {
        let shorter = entries.drop_last();
        lemma_without_query(shorter, query);
        let w = without_query(entries, query);
        assert forall|i: int| 0 <= i < w.len() implies entries.contains(#[trigger] w[i])
            && !same_query(w[i].query, query) by {
            if i < without_query(shorter, query).len() {
                let e = without_query(shorter, query)[i];
                assert(shorter.contains(e));
                let k = choose|k: int| 0 <= k < shorter.len() && shorter[k] == e;
                assert(entries[k] == e);
            } else {
                assert(w[i] == entries.last());
                assert(entries[entries.len() - 1] == entries.last());
            }
        }
        if !same_query(entries.last().query, query) {
            assert(w.drop_last() =~= without_query(shorter, query));
        }
    }
}

/// What is left without a query keeps the order that the entries had.
pub proof fn lemma_without_query_keeps_order(entries: Seq<HistoryEntryView>, query: Seq<char>)
    requires
        forall|i: int, j: int|
            0 <= i < j < entries.len() ==> !same_query(
                (#[trigger] entries[i]).query,
                (#[trigger] entries[j]).query,
            ),
    ensures
        forall|i: int, j: int|
            0 <= i < j < without_query(entries, query).len() ==> !same_query(
                (#[trigger] without_query(entries, query)[i]).query,
                (#[trigger] without_query(entries, query)[j]).query,
            ),
    decreases entries.len(),
{
    if entries.len() > 0 {
        let shorter = entries.drop_last();
        assert forall|i: int, j: int| 0 <= i < j < shorter.len() implies !same_query(
            (#[trigger] shorter[i]).query,
            (#[trigger] shorter[j]).query,
        ) by {
            assert(shorter[i] == entries[i] && shorter[j] == entries[j]);
        }
        lemma_without_query_keeps_order(shorter, query);
        lemma_without_query(shorter, query);
        let w = without_query(entries, query);
        let ws = without_query(shorter, query);
        assert forall|i: int, j: int| 0 <= i < j < w.len() implies !same_query(
            (#[trigger] w[i]).query,
            (#[trigger] w[j]).query,
        ) by {
            if j < ws.len() {
                assert(w[i] == ws[i] && w[j] == ws[j]);
            } else {
                assert(w[j] == entries.last());
                assert(w[i] == ws[i]);
                assert(shorter.contains(ws[i]));
                let k = choose|k: int| 0 <= k < shorter.len() && shorter[k] == ws[i];
                assert(entries[k] == ws[i]);
                assert(entries[entries.len() - 1] == entries.last());
            }
        }
    }
}

pub proof fn lemma_count_of_prefix(entries: Seq<HistoryEntryView>, query: Seq<char>, n: int)
    requires
        0 <= n <= entries.len(),
    ensures
        count_of_query(entries.take(n), query) <= count_of_query(entries, query),
    decreases entries.len() - n,
{
    if n < entries.len() {
        lemma_count_of_prefix(entries, query, n + 1);
        assert(entries.take(n + 1).drop_last() =~= entries.take(n));
    } else {
        assert(entries.take(n) =~= entries);
    }
}

pub proof fn lemma_count_with_front(
    first: HistoryEntryView,
    rest: Seq<HistoryEntryView>,
    query: Seq<char>,
)
    ensures
        count_of_query(seq![first] + rest, query) == count_of_query(rest, query) + (if same_query(
            first.query,
            query,
        ) {
            1nat
        } else {
            0nat
        }),
    decreases rest.len(),
{
    let all = seq![first] + rest;
    if rest.len() == 0 {
        assert(all.drop_last() =~= Seq::<HistoryEntryView>::empty());
        assert(all.last() == first);
        assert(count_of_query(all.drop_last(), query) == 0);
        assert(count_of_query(rest, query) == 0);
    } else {
        lemma_count_with_front(first, rest.drop_last(), query);
        assert(all.drop_last() =~= seq![first] + rest.drop_last());
        assert(all.last() == rest.last());
    }
}

/// A query that was just made stands at the front, with its count and its
/// time, and stands in the ledger once.
pub proof fn law_add_leaves_one(
    entries: Seq<HistoryEntryView>,
    query: Seq<char>,
    result_count: usize,
    now: Timestamp,
)
    requires
        !is_blank(query),
    ensures
        after_add(entries, query, result_count, now).len() >= 1,
        after_add(entries, query, result_count, now)[0] == (HistoryEntryView {
            query,
            timestamp: now,
            result_count,
        }),
        count_of_query(after_add(entries, query, result_count, now), query) == 1,
{
    let newest = HistoryEntryView { query, timestamp: now, result_count };
    let rest = without_query(entries, query);
    let all = seq![newest] + rest;
    let out = after_add(entries, query, result_count, now);
    lemma_without_query(entries, query);
    lemma_count_with_front(newest, rest, query);
    assert(count_of_query(all, query) == 1);
    if all.len() > MAX_HISTORY_ENTRIES {
        assert(out == all.take(MAX_HISTORY_ENTRIES as int));
        lemma_count_of_prefix(all, query, MAX_HISTORY_ENTRIES as int);
        // The front entry alone already counts once.
        let cut = all.take(MAX_HISTORY_ENTRIES as int);
        assert(cut =~= seq![newest] + rest.take(MAX_HISTORY_ENTRIES as int - 1));
        lemma_count_with_front(newest, rest.take(MAX_HISTORY_ENTRIES as int - 1), query);
    }
}

/// Making the same query twice leaves one entry of it: the later one, at the
/// front.
pub proof fn law_add_twice(
    entries: Seq<HistoryEntryView>,
    query: Seq<char>,
    first_count: usize,
    first_time: Timestamp,
    second_count: usize,
    second_time: Timestamp,
)
    requires
        !is_blank(query),
    ensures
        ({
            let twice = after_add(
                after_add(entries, query, first_count, first_time),
                query,
                second_count,
                second_time,
            );
            &&& twice[0] == (HistoryEntryView {
                query,
                timestamp: second_time,
                result_count: second_count,
            })
            &&& count_of_query(twice, query) == 1
        }),
{
    law_add_leaves_one(
        after_add(entries, query, first_count, first_time),
        query,
        second_count,
        second_time,
    );
}

/// A ledger stays one when a query is added.
pub proof fn law_add_keeps_ledger(
    entries: Seq<HistoryEntryView>,
    query: Seq<char>,
    result_count: usize,
    now: Timestamp,
)
    requires
        is_ledger(entries),
    ensures
        is_ledger(after_add(entries, query, result_count, now)),
{
    if !is_blank(query) {
        let newest = HistoryEntryView { query, timestamp: now, result_count };
        let rest = without_query(entries, query);
        let all = seq![newest] + rest;
        let out = after_add(entries, query, result_count, now);
        lemma_without_query(entries, query);
        lemma_without_query_keeps_order(entries, query);
        assert forall|i: int| 0 <= i < all.len() implies !is_blank(#[trigger] all[i].query) by {
            if i > 0 {
                assert(all[i] == rest[i - 1]);
                assert(entries.contains(rest[i - 1]));
            }
        }
        assert forall|i: int, j: int| 0 <= i < j < all.len() implies !same_query(
            (#[trigger] all[i]).query,
            (#[trigger] all[j]).query,
        ) by {
            assert(all[j] == rest[j - 1]);
            if i > 0 {
                assert(all[i] == rest[i - 1]);
            }
        }
        assert forall|i: int| 0 <= i < out.len() implies out[i] == all[i] by {}
    }
}

} // verus!
