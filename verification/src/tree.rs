//! The tree of folders, as it is shown for choosing what a search leaves
//! out.
//!
//! The builder is told the path of every document. It keeps, for each
//! folder above one of them, how many documents lie under it and which
//! folders lie directly in it. A tree is then read off for each watched
//! folder. Whether a folder is excluded is not kept: it is worked out from
//! the excluded folders whenever it is asked.

use vstd::prelude::*;
use crate::folders::{
    ancestors, excluded_by, is_excluded_path, lemma_parent_is_shorter, name_chars, name_of,
    parent_len, parent_of,
};
use crate::models::{FileData, FolderNode};
use crate::order::{sorted_texts, strictly_rising};
use crate::text::{chars_of, same_chars, slice_chars, string_of, views};

verus! {

/// What the builder keeps of one folder.
pub struct FolderRecord {
    path: Vec<char>,
    file_count: usize,
    children: Vec<String>,
}

/// The paths of the records.
pub closed spec fn paths_of(records: Seq<FolderRecord>) -> Seq<Seq<char>> {
    Seq::new(records.len(), |i: int| records[i].path@)
}

/// Where `d` stands last in `paths`, or -1.
pub closed spec fn index_in(paths: Seq<Seq<char>>, d: Seq<char>) -> int
    decreases paths.len(),
{
    if paths.len() == 0 {
        -1
    } else if paths.last() == d {
        paths.len() - 1
    } else {
        index_in(paths.drop_last(), d)
    }
}

proof fn lemma_index_in(paths: Seq<Seq<char>>, d: Seq<char>)
    ensures
        -1 <= index_in(paths, d) < paths.len(),
        index_in(paths, d) >= 0 ==> paths[index_in(paths, d)] == d,
        index_in(paths, d) < 0 ==> !paths.contains(d),
    decreases paths.len(),
{
    if paths.len() > 0 && paths.last() != d {
        lemma_index_in(paths.drop_last(), d);
        if index_in(paths, d) < 0 && paths.contains(d) {
            let k = choose|k: int| 0 <= k < paths.len() && paths[k] == d;
            assert(paths.drop_last()[k] == d);
        }
    }
}

/// The number kept for the folder `d`, and 0 where none is kept.
pub closed spec fn count_at(records: Seq<FolderRecord>, d: Seq<char>) -> nat {
    let i = index_in(paths_of(records), d);
    if i < 0 {
        0
    } else {
        records[i].file_count as nat
    }
}

/// The folders kept as lying directly in `d`.
pub closed spec fn children_at(records: Seq<FolderRecord>, d: Seq<char>) -> Set<Seq<char>> {
    let i = index_in(paths_of(records), d);
    if i < 0 {
        Set::empty()
    } else {
        views(records[i].children@).to_set()
    }
}

/// What the records promise: no folder stands twice, each folder kept as
/// lying in another has that one as its parent, and none is longer than
/// `longest`.
pub closed spec fn records_ok(records: Seq<FolderRecord>, longest: nat) -> bool {
    &&& forall|a: int, b: int|
        0 <= a < b < records.len() ==> paths_of(records)[a] != paths_of(records)[b]
    &&& forall|i: int, k: int|
        0 <= i < records.len() && 0 <= k < records[i].children@.len() ==> parent_of(
            #[trigger] records[i].children@[k]@,
        ) == Some(records[i].path@) && records[i].children@[k]@.len() <= longest
}

/// One more, as far as the machine counts.
pub open spec fn one_more(n: nat) -> nat {
    if n < usize::MAX {
        n + 1
    } else {
        n
    }
}

/// The first `n` of `chain` but for the last of them: those that were
/// already linked into the next when `n` of the chain have been seen.
pub open spec fn linked(chain: Seq<Seq<char>>, n: int) -> Seq<Seq<char>> {
    if n <= 0 {
        Seq::empty()
    } else {
        chain.take(n - 1)
    }
}

/// Those of `chain` that lie directly in `d`.
pub open spec fn links_into(chain: Seq<Seq<char>>, d: Seq<char>) -> Set<Seq<char>> {
    Set::new(|c: Seq<char>| chain.contains(c) && parent_of(c) == Some(d))
}

fn find_record(records: &Vec<FolderRecord>, dir: &Vec<char>) -> (r: Option<usize>)
    ensures
        match r {
            Some(i) => i < records.len() && i == index_in(paths_of(records@), dir@),
            None => index_in(paths_of(records@), dir@) == -1,
        },
{
    let ghost paths = paths_of(records@);
    let mut n: usize = records.len();
    proof {
        assert(paths.take(n as int) =~= paths);
    }
    while n > 0
        invariant
            n <= records.len(),
            paths == paths_of(records@),
            index_in(paths.take(n as int), dir@) == index_in(paths, dir@),
        decreases n,
    {
        proof {
            assert(paths.take(n as int).drop_last() =~= paths.take(n - 1));
            assert(paths.take(n as int).last() == records@[n - 1].path@);
        }
        if same_chars(&records[n - 1].path, dir) {
            return Some(n - 1);
        }
        n -= 1;
    }
    None
}

fn holds_child(children: &Vec<String>, child: &Vec<char>) -> (r: bool)
    ensures
        r == views(children@).contains(child@),
{
    let mut i: usize = 0;
    while i < children.len()
        invariant
            i <= children.len(),
            forall|k: int| 0 <= k < i ==> views(children@)[k] != child@,
        decreases children.len() - i,
    {
        proof {
            assert(views(children@)[i as int] == children@[i as int]@);
        }
        if same_chars(&chars_of(children[i].as_str()), child) {
            return true;
        }
        i += 1;
    }
    false
}

/// Counts one more document under `dir`, and keeps `child` as lying in it.
fn note_folder(
    records: &mut Vec<FolderRecord>,
    dir: &Vec<char>,
    child: Option<&Vec<char>>,
    Ghost(longest): Ghost<nat>,
)
    requires
        records_ok(old(records)@, longest),
        child matches Some(c) ==> parent_of(c@) == Some(dir@) && c@.len() <= longest,
    ensures
        records_ok(final(records)@, longest),
        forall|d: Seq<char>|
            #[trigger] count_at(final(records)@, d) == (if d == dir@ {
                one_more(count_at(old(records)@, d))
            } else {
                count_at(old(records)@, d)
            }),
        forall|d: Seq<char>|
            #[trigger] children_at(final(records)@, d) == (if d == dir@ && child is Some {
                children_at(old(records)@, d).insert(child->0@)
            } else {
                children_at(old(records)@, d)
            }),
{
    let found = find_record(records, dir);
    let ghost start = records@;
    let at: usize = match found {
        Some(i) => i,
        None => {
            let path = slice_chars(dir, 0, dir.len());
            proof {
                assert(path@ =~= dir@);
            }
            records.push(FolderRecord { path, file_count: 0, children: Vec::new() });
            records.len() - 1
        },
    };
    let ghost mid = records@;
    proof {
        lemma_index_in(paths_of(start), dir@);
        if found is None {
            assert(paths_of(mid) =~= paths_of(start).push(dir@));
            assert(paths_of(mid).drop_last() =~= paths_of(start));
            assert forall|a: int, b: int| 0 <= a < b < mid.len() implies paths_of(mid)[a]
                != paths_of(mid)[b] by {
                assert(paths_of(mid)[a] == paths_of(start)[a]);
                if b < start.len() {
                    assert(paths_of(mid)[b] == paths_of(start)[b]);
                } else {
                    assert(paths_of(start).contains(paths_of(start)[a]));
                }
            }
            assert(views(mid[at as int].children@).to_set() =~= Set::<Seq<char>>::empty());
            assert forall|d: Seq<char>| count_at(mid, d) == count_at(start, d) by {
                if d != dir@ {
                    assert(index_in(paths_of(mid), d) == index_in(paths_of(start), d));
                    lemma_index_in(paths_of(start), d);
                }
            }
            assert forall|d: Seq<char>| children_at(mid, d) == children_at(start, d) by {
                if d != dir@ {
                    assert(index_in(paths_of(mid), d) == index_in(paths_of(start), d));
                    lemma_index_in(paths_of(start), d);
                }
            }
            assert forall|i: int, k: int|
                0 <= i < mid.len() && 0 <= k < mid[i].children@.len() implies parent_of(
                #[trigger] mid[i].children@[k]@,
            ) == Some(mid[i].path@) && mid[i].children@[k]@.len() <= longest by {
                assert(mid[i] == start[i]);
            }
        }
        assert(records_ok(mid, longest));
        assert(index_in(paths_of(mid), dir@) == at);
        assert(mid[at as int].path@ == dir@);
    }
    let count = records[at].file_count;
    let more: usize = if count < usize::MAX {
        count + 1
    } else {
        count
    };
    let add_child: bool = match child {
        Some(c) => !holds_child(&records[at].children, c),
        None => false,
    };
    let mut record = records.remove(at);
    record.file_count = more;
    if add_child {
        match child {
            Some(c) => {
                record.children.push(string_of(c));
            },
            None => {},
        }
    }
    let ghost fresh = record;
    records.insert(at, record);
    proof {
        let end = records@;
        assert(end =~= mid.update(at as int, fresh));
        assert(paths_of(end) =~= paths_of(mid));
        assert forall|d: Seq<char>| #[trigger]
            count_at(end, d) == (if d == dir@ {
                one_more(count_at(start, d))
            } else {
                count_at(start, d)
            }) by {
            lemma_index_in(paths_of(mid), d);
            if d != dir@ {
                let i = index_in(paths_of(mid), d);
                if i >= 0 {
                    assert(paths_of(mid)[i] == mid[i].path@);
                    assert(end[i] == mid[i]);
                }
            }
        }
        assert forall|d: Seq<char>| #[trigger]
            children_at(end, d) == (if d == dir@ && child is Some {
                children_at(start, d).insert(child->0@)
            } else {
                children_at(start, d)
            }) by {
            lemma_index_in(paths_of(mid), d);
            if d != dir@ {
                let i = index_in(paths_of(mid), d);
                if i >= 0 {
                    assert(paths_of(mid)[i] == mid[i].path@);
                    assert(end[i] == mid[i]);
                }
            } else {
                let old_children = views(mid[at as int].children@);
                let new_children = views(fresh.children@);
                if child is Some {
                    let c = child->0@;
                    if add_child {
                        assert(new_children =~= old_children.push(c));
                        assert(new_children.to_set() =~= old_children.to_set().insert(c)) by {
                            assert forall|t: Seq<char>|
                                new_children.to_set().contains(t)
                                    <==> old_children.to_set().insert(c).contains(t) by {
                                if new_children.contains(t) {
                                    let k = choose|k: int|
                                        0 <= k < new_children.len() && new_children[k] == t;
                                    if k < old_children.len() {
                                        assert(old_children[k] == t);
                                    }
                                }
                                if old_children.contains(t) {
                                    let k = choose|k: int|
                                        0 <= k < old_children.len() && old_children[k] == t;
                                    assert(new_children[k] == t);
                                }
                                if t == c {
                                    assert(new_children[old_children.len() as int] == t);
                                }
                            }
                        }
                    } else {
                        assert(old_children.to_set().contains(c));
                        assert(old_children.to_set().insert(c) =~= old_children.to_set());
                    }
                }
            }
        }
        assert forall|i: int, k: int|
            0 <= i < end.len() && 0 <= k < end[i].children@.len() implies parent_of(
            #[trigger] end[i].children@[k]@,
        ) == Some(end[i].path@) && end[i].children@[k]@.len() <= longest by {
            if i != at {
                assert(end[i] == mid[i]);
            } else if k < mid[at as int].children@.len() {
                assert(end[i].children@[k] == mid[at as int].children@[k]);
            }
        }
        assert forall|a: int, b: int| 0 <= a < b < end.len() implies paths_of(end)[a] != paths_of(
            end,
        )[b] by {
            assert(paths_of(mid)[a] != paths_of(mid)[b]);
        }
    }
}

/// Builds the trees of folders.
pub struct FolderTreeBuilder {
    records: Vec<FolderRecord>,
    excluded: Vec<String>,
    longest: usize,
}

impl FolderTreeBuilder {
    #[verifier::type_invariant]
    closed spec fn holds_together(self) -> bool {
        records_ok(self.records@, self.longest as nat)
    }

    /// How many of the documents told so far lie under the folder `d`,
    /// however deep; the count stops at the largest machine number.
    pub closed spec fn file_count(self, d: Seq<char>) -> nat {
        count_at(self.records@, d)
    }

    /// The folders that lie directly in `d` and hold a document told so far.
    pub closed spec fn child_folders(self, d: Seq<char>) -> Set<Seq<char>> {
        children_at(self.records@, d)
    }

    /// The excluded folders that the builder was made with.
    pub closed spec fn excluded_folders(self) -> Seq<Seq<char>> {
        views(self.excluded@)
    }

    /// The longest path of a folder that lies in another, in characters.
    pub closed spec fn depth_bound(self) -> nat {
        self.longest as nat
    }

    /// A builder that was told no document yet.
    pub fn new(excluded: Vec<String>) -> (r: Self)
        ensures
            r.excluded_folders() == views(excluded@),
            forall|d: Seq<char>| #[trigger] r.file_count(d) == 0,
            forall|d: Seq<char>| #[trigger] r.child_folders(d) == Set::<Seq<char>>::empty(),
    {
        let r = FolderTreeBuilder { records: Vec::new(), excluded, longest: 0 };
        proof {
            assert(paths_of(r.records@) =~= Seq::<Seq<char>>::empty());
            assert forall|d: Seq<char>| #[trigger] r.file_count(d) == 0 by {
                assert(index_in(paths_of(r.records@), d) == -1);
            }
            assert forall|d: Seq<char>| #[trigger]
                r.child_folders(d) == Set::<Seq<char>>::empty() by {
                assert(index_in(paths_of(r.records@), d) == -1);
            }
        }
        r
    }

    /// Tells the builder the path of a document: every folder above it
    /// holds one more document, and each of them but the topmost lies in
    /// the next.
    pub fn add_path(&mut self, file_path: &str)
        ensures
            final(self).excluded_folders() == old(self).excluded_folders(),
            forall|d: Seq<char>|
                #[trigger] final(self).file_count(d) == (if ancestors(file_path@).contains(d) {
                    one_more(old(self).file_count(d))
                } else {
                    old(self).file_count(d)
                }),
            forall|d: Seq<char>|
                #[trigger] final(self).child_folders(d) == old(self).child_folders(d).union(
                    links_into(ancestors(file_path@), d),
                ),
    {
        proof {
            use_type_invariant(&*self);
        }
        let chars = chars_of(file_path);
        let ghost path = chars@;
        let ghost chain = ancestors(path);
        let ghost start = self.records@;
        let grown: usize = if chars.len() > self.longest {
            chars.len()
        } else {
            self.longest
        };
        let ghost bound = grown as nat;
        let mut records: Vec<FolderRecord> = Vec::new();
        std::mem::swap(&mut records, &mut self.records);
        proof {
            lemma_records_ok_grows(records@, self.longest as nat, bound);
        }
        let mut current: Option<usize> = parent_len(&chars);
        let mut child: Option<usize> = None;
        let ghost mut done: int = 0;
        proof {
            lemma_ancestors_unfold(path);
            assert(chain.take(0) =~= Seq::<Seq<char>>::empty());
            assert forall|d: Seq<char>| #[trigger]
                links_into(linked(chain, 0), d) =~= Set::<Seq<char>>::empty() by {}
            assert forall|d: Seq<char>|
                children_at(records@, d) == children_at(start, d).union(
                    links_into(linked(chain, 0), d),
                ) by {
                assert(children_at(start, d).union(Set::<Seq<char>>::empty()) =~= children_at(
                    start,
                    d,
                ));
            }
        }
        loop
            invariant_except_break
                records_ok(records@, bound),
                0 <= done <= chain.len(),
                path == chars@,
                chain == ancestors(path),
                chars.len() <= bound,
                match current {
                    Some(n) => done < chain.len() && n < chars.len() && chain[done] == path.take(
                        n as int,
                    ) && ancestors(path.take(n as int)) == chain.skip(done + 1),
                    None => done == chain.len(),
                },
                match child {
                    Some(m) => done > 0 && m <= chars.len() && chain[done - 1] == path.take(
                        m as int,
                    ),
                    None => done == 0,
                },
                forall|d: Seq<char>|
                    #[trigger] count_at(records@, d) == (if chain.take(done).contains(d) {
                        one_more(count_at(start, d))
                    } else {
                        count_at(start, d)
                    }),
                forall|d: Seq<char>|
                    #[trigger] children_at(records@, d) == children_at(start, d).union(
                        links_into(linked(chain, done), d),
                    ),
            ensures
                records_ok(records@, bound),
                forall|d: Seq<char>|
                    #[trigger] count_at(records@, d) == (if chain.contains(d) {
                        one_more(count_at(start, d))
                    } else {
                        count_at(start, d)
                    }),
                forall|d: Seq<char>|
                    #[trigger] children_at(records@, d) == children_at(start, d).union(
                        links_into(chain, d),
                    ),
            decreases chain.len() - done,
        {
            let n: usize = match current {
                Some(n) => n,
                None => {
                    proof {
                        assert(chain.take(done) =~= chain);
                        lemma_links_without_top(path);
                        assert forall|d: Seq<char>| #[trigger]
                            children_at(records@, d) == children_at(start, d).union(
                                links_into(chain, d),
                            ) by {
                            assert(links_into(linked(chain, done), d) =~= links_into(chain, d));
                        }
                    }
                    break ;
                },
            };
            let dir = slice_chars(&chars, 0, n);
            let kid: Option<Vec<char>> = match child {
                Some(m) => Some(slice_chars(&chars, 0, m)),
                None => None,
            };
            let ghost before = records@;
            proof {
                assert(dir@ =~= path.take(n as int));
                lemma_ancestors_distinct(path);
                if done > 0 {
                    lemma_ancestors_step(path, done - 1);
                    assert(kid->0@ =~= chain[done - 1]);
                }
            }
            match &kid {
                Some(c) => note_folder(&mut records, &dir, Some(c), Ghost(bound)),
                None => note_folder(&mut records, &dir, None, Ghost(bound)),
            }
            let next = parent_len(&dir);
            proof {
                let here = chain[done];
                lemma_ancestors_unfold(here);
                assert forall|d: Seq<char>| #[trigger]
                    count_at(records@, d) == (if chain.take(done + 1).contains(d) {
                        one_more(count_at(start, d))
                    } else {
                        count_at(start, d)
                    }) by {
                    lemma_take_contains(chain, done, d);
                    if d == here && chain.take(done).contains(d) {
                        lemma_contains_index(chain, done, d);
                    }
                }
                assert forall|d: Seq<char>| #[trigger]
                    children_at(records@, d) == children_at(start, d).union(
                        links_into(chain.take(done), d),
                    ) by {
                    lemma_links_step(chain, done, d);
                    let now = links_into(linked(chain, done + 1), d);
                    if done > 0 && d == here {
                        let c = chain[done - 1];
                        assert(children_at(before, d).insert(c) =~= children_at(start, d).union(
                            now,
                        ));
                    }
                }
                if done + 1 < chain.len() {
                    lemma_ancestors_step(path, done);
                }
                match next {
                    Some(k) => {
                        assert(dir@.take(k as int) =~= path.take(k as int));
                        assert(chain.skip(done + 1)[0] == chain[done + 1]);
                        assert(chain.skip(done + 1).skip(1) =~= chain.skip(done + 2));
                    },
                    None => {
                        assert(chain.skip(done + 1).len() == 0);
                    },
                }
            }
            child = Some(n);
            current = next;
            proof {
                done = done + 1;
            }
        }
        self.longest = grown;
        self.records = records;
        proof {
            assert(path == file_path@);
        }
    }

    /// The tree of the folder `root` where that folder is on disk, and
    /// nothing where it is not: a watched folder that has gone is left out.
    pub fn build_tree(&self, root: &str, on_disk: bool) -> (r: Option<FolderNode>)
        ensures
            r is Some <==> on_disk,
            r matches Some(node) ==> is_tree_of(node, *self, root@),
    {
        if !on_disk {
            return None;
        }
        Some(self.build_node(root))
    }

    /// The node of the folder `path` with all that lies below it.
    pub fn build_node(&self, path: &str) -> (r: FolderNode)
        ensures
            is_tree_of(r, *self, path@),
        decreases
                (if self.depth_bound() > path@.len() {
                    self.depth_bound() - path@.len()
                } else {
                    0
                }),
    {
        proof {
            use_type_invariant(self);
        }
        let chars = chars_of(path);
        let name = string_of(&name_chars(&chars));
        let found = find_record(&self.records, &chars);
        let file_count: usize = match found {
            Some(i) => self.records[i].file_count,
            None => 0,
        };
        let is_excluded = self.is_excluded(path);
        let mut children: Vec<FolderNode> = Vec::new();
        match found {
            Some(i) => {
                let sorted = sorted_texts(&self.records[i].children);
                let mut k: usize = 0;
                while k < sorted.len()
                    invariant
                        k <= sorted.len(),
                        children.len() == k,
                        chars@ == path@,
                        i < self.records.len(),
                        i == index_in(paths_of(self.records@), path@),
                        records_ok(self.records@, self.longest as nat),
                        views(sorted@).to_set() == views(self.records@[i as int].children@).to_set(),
                        forall|j: int|
                            0 <= j < k ==> is_tree_of(
                                #[trigger] children[j],
                                *self,
                                views(sorted@)[j],
                            ),
                    decreases sorted.len() - k,
                {
                    proof {
                        let c = sorted@[k as int]@;
                        assert(views(sorted@)[k as int] == c);
                        assert(views(sorted@).to_set().contains(c));
                        assert(views(self.records@[i as int].children@).contains(c));
                        let j = choose|j: int|
                            0 <= j < self.records@[i as int].children@.len() && views(
                                self.records@[i as int].children@,
                            )[j] == c;
                        assert(self.records@[i as int].children@[j]@ == c);
                        lemma_index_in(paths_of(self.records@), path@);
                        assert(parent_of(c) == Some(path@));
                        lemma_parent_is_shorter(c);
                    }
                    let node = self.build_node(sorted[k].as_str());
                    children.push(node);
                    k += 1;
                }
                proof {
                    assert(child_paths(children@) =~= views(sorted@)) by {
                        assert forall|j: int| 0 <= j < children.len() implies child_paths(
                            children@,
                        )[j] == views(sorted@)[j] by {
                            assert(is_tree_of(children[j], *self, views(sorted@)[j]));
                        }
                    }
                }
            },
            None => {
                proof {
                    assert(child_paths(children@) =~= Seq::<Seq<char>>::empty());
                    assert(child_paths(children@).to_set() =~= Set::<Seq<char>>::empty());
                }
            },
        }
        let node = FolderNode { path: string_of(&chars), name, is_excluded, file_count, children };
        proof {
            assert forall|j: int| 0 <= j < node.children.len() implies is_tree_of(
                #[trigger] node.children[j],
                *self,
                node.children[j].path@,
            ) by {
                if found is Some {
                }
            }
        }
        node
    }

    /// Whether the folder `path` is excluded, itself or by a folder above it.
    pub fn is_excluded(&self, path: &str) -> (r: bool)
        ensures
            r == excluded_by(self.excluded_folders(), path@),
    {
        is_excluded_path(&self.excluded, path)
    }
}

/// The paths of the nodes.
pub open spec fn child_paths(nodes: Seq<FolderNode>) -> Seq<Seq<char>> {
    Seq::new(nodes.len(), |i: int| nodes[i].path@)
}

/// Whether `node` is the tree of the folder `path` as the builder `b` knows
/// it: it bears the path and the name of the folder, the number of
/// documents under it, and whether it is excluded; its children are the
/// folders directly in it, each once, in rising order of their paths; and
/// each child is the tree of its folder.
pub open spec fn is_tree_of(node: FolderNode, b: FolderTreeBuilder, path: Seq<char>) -> bool
    decreases node,
{
    &&& node.path@ == path
    &&& node.name@ == name_of(path)
    &&& node.file_count == b.file_count(path)
    &&& node.is_excluded == excluded_by(b.excluded_folders(), path)
    &&& strictly_rising(child_paths(node.children@))
    &&& child_paths(node.children@).to_set() == b.child_folders(path)
    &&& forall|i: int|
        0 <= i < node.children.len() ==> is_tree_of(
            #[trigger] node.children[i],
            b,
            node.children[i].path@,
        )
}

proof fn lemma_records_ok_grows(records: Seq<FolderRecord>, small: nat, large: nat)
    requires
        records_ok(records, small),
        small <= large,
    ensures
        records_ok(records, large),
{
}

/// The folders above a path are its parent and the folders above that.
pub proof fn lemma_ancestors_unfold(path: Seq<char>)
    ensures
        match parent_of(path) {
            Some(p) => ancestors(path).len() > 0 && ancestors(path)[0] == p && ancestors(
                path,
            ).skip(1) == ancestors(p),
            None => ancestors(path).len() == 0,
        },
{
    match parent_of(path) {
        Some(p) => {
            assert(ancestors(path).skip(1) =~= ancestors(p));
        },
        None => {},
    }
}

/// Each folder above a path is the parent of the one before it, and the
/// folders above it are the rest of the chain.
pub proof fn lemma_ancestors_step(path: Seq<char>, i: int)
    requires
        0 <= i,
        i + 1 < ancestors(path).len(),
    ensures
        parent_of(ancestors(path)[i]) == Some(ancestors(path)[i + 1]),
        ancestors(ancestors(path)[i]) == ancestors(path).skip(i + 1),
    decreases i,
{
    lemma_ancestors_unfold(path);
    let p = parent_of(path)->0;
    lemma_parent_is_shorter(path);
    if i == 0 {
        lemma_ancestors_unfold(p);
        assert(ancestors(path)[1] == ancestors(p)[0]);
    } else {
        assert(ancestors(path)[i] == ancestors(p)[i - 1]);
        assert(ancestors(path)[i + 1] == ancestors(p)[i]);
        lemma_ancestors_step(p, i - 1);
        assert(ancestors(path).skip(i + 1) =~= ancestors(p).skip(i));
    }
}

/// The folders above a path grow shorter one by one, so none stands twice.
pub proof fn lemma_ancestors_distinct(path: Seq<char>)
    ensures
        forall|i: int, j: int|
            0 <= i < j < ancestors(path).len() ==> ancestors(path)[i].len() > ancestors(
                path,
            )[j].len(),
        forall|i: int| 0 <= i < ancestors(path).len() ==> ancestors(path)[i].len() < path.len(),
    decreases path.len(),
{
    lemma_ancestors_unfold(path);
    match parent_of(path) {
        Some(p) => {
            lemma_parent_is_shorter(path);
            lemma_ancestors_distinct(p);
            assert forall|i: int, j: int| 0 <= i < j < ancestors(path).len() implies ancestors(
                path,
            )[i].len() > ancestors(path)[j].len() by {
                assert(ancestors(path)[j] == ancestors(p)[j - 1]);
                if i > 0 {
                    assert(ancestors(path)[i] == ancestors(p)[i - 1]);
                }
            }
            assert forall|i: int| 0 <= i < ancestors(path).len() implies ancestors(path)[i].len()
                < path.len() by {
                if i > 0 {
                    assert(ancestors(path)[i] == ancestors(p)[i - 1]);
                }
            }
        },
        None => {},
    }
}

/// What the first `n + 1` of a chain hold is what the first `n` hold, and
/// the one behind them.
proof fn lemma_take_contains(chain: Seq<Seq<char>>, n: int, d: Seq<char>)
    requires
        0 <= n < chain.len(),
    ensures
        chain.take(n + 1).contains(d) <==> chain.take(n).contains(d) || d == chain[n],
{
    let short = chain.take(n);
    let long = chain.take(n + 1);
    if long.contains(d) {
        let k = choose|k: int| 0 <= k < long.len() && long[k] == d;
        if k < n {
            assert(short[k] == d);
        }
    }
    if short.contains(d) {
        let k = choose|k: int| 0 <= k < short.len() && short[k] == d;
        assert(long[k] == d);
    }
    if d == chain[n] {
        assert(long[n] == d);
    }
}

/// What the first `n` of a chain hold stands in the chain before `n`.
proof fn lemma_contains_index(chain: Seq<Seq<char>>, n: int, d: Seq<char>)
    requires
        0 <= n <= chain.len(),
        chain.take(n).contains(d),
    ensures
        exists|k: int| 0 <= k < n && chain[k] == d,
{
    let short = chain.take(n);
    let k = choose|k: int| 0 <= k < short.len() && short[k] == d;
    assert(chain[k] == d);
}

/// One more folder in the chain adds one link, into its parent.
proof fn lemma_links_step(chain: Seq<Seq<char>>, n: int, d: Seq<char>)
    requires
        0 <= n < chain.len(),
    ensures
        links_into(linked(chain, n + 1), d) == (if n > 0 && parent_of(chain[n - 1]) == Some(d) {
            links_into(linked(chain, n), d).insert(chain[n - 1])
        } else {
            links_into(linked(chain, n), d)
        }),
{
    let earlier = links_into(linked(chain, n), d);
    let now = links_into(linked(chain, n + 1), d);
    if n == 0 {
        assert(chain.take(0) =~= Seq::<Seq<char>>::empty());
        assert(now =~= earlier);
    } else {
        let c = chain[n - 1];
        let goal = if parent_of(c) == Some(d) {
            earlier.insert(c)
        } else {
            earlier
        };
        assert forall|t: Seq<char>| now.contains(t) <==> goal.contains(t) by {
            lemma_take_contains(chain, n - 1, t);
        }
        assert(now =~= goal);
    }
}

/// The topmost folder above a path lies in none, so that it adds no link.
proof fn lemma_links_without_top(path: Seq<char>)
    ensures
        forall|d: Seq<char>|
            #[trigger] links_into(linked(ancestors(path), ancestors(path).len() as int), d)
                =~= links_into(ancestors(path), d),
{
    let chain = ancestors(path);
    let n = chain.len() as int;
    let short = linked(chain, n);
    assert forall|d: Seq<char>| #[trigger] links_into(short, d) =~= links_into(chain, d) by {
        assert forall|t: Seq<char>| links_into(short, d).contains(t) <==> links_into(
            chain,
            d,
        ).contains(t) by {
            if short.contains(t) {
                let k = choose|k: int| 0 <= k < short.len() && short[k] == t;
                assert(chain[k] == t);
            }
            if chain.contains(t) && parent_of(t) == Some(d) {
                let k = choose|k: int| 0 <= k < chain.len() && chain[k] == t;
                if k == n - 1 {
                    lemma_top_has_no_parent(path);
                } else {
                    assert(short[k] == t);
                }
            }
        }
    }
}

/// The last of the folders above a path has no parent.
proof fn lemma_top_has_no_parent(path: Seq<char>)
    requires
        ancestors(path).len() > 0,
    ensures
        parent_of(ancestors(path).last()) is None,
    decreases path.len(),
{
    lemma_ancestors_unfold(path);
    let p = parent_of(path)->0;
    lemma_parent_is_shorter(path);
    lemma_ancestors_unfold(p);
    if ancestors(p).len() > 0 {
        lemma_top_has_no_parent(p);
        assert(ancestors(path).last() == ancestors(p).last());
    }
}

/// A watched folder, and whether it is on disk.
#[derive(Debug)]
pub struct WatchedRoot {
    pub path: String,
    pub on_disk: bool,
}

/// How many of the documents lie under the folder `d`, however deep, as far
/// as the machine counts.
pub open spec fn files_below(paths: Seq<Seq<char>>, d: Seq<char>) -> nat
    decreases paths.len(),
{
    if paths.len() == 0 {
        0
    } else if ancestors(paths.last()).contains(d) {
        one_more(files_below(paths.drop_last(), d))
    } else {
        files_below(paths.drop_last(), d)
    }
}

/// The folders directly in `d` that hold one of the documents.
pub open spec fn folders_in(paths: Seq<Seq<char>>, d: Seq<char>) -> Set<Seq<char>>
    decreases paths.len(),
{
    if paths.len() == 0 {
        Set::empty()
    } else {
        folders_in(paths.drop_last(), d).union(links_into(ancestors(paths.last()), d))
    }
}

/// The paths of the documents.
pub open spec fn paths_of_files(files: Seq<FileData>) -> Seq<Seq<char>> {
    Seq::new(files.len(), |i: int| files[i].path@)
}

/// Whether a builder has been told exactly these documents.
pub open spec fn knows(b: FolderTreeBuilder, paths: Seq<Seq<char>>, excluded: Seq<Seq<char>>) -> bool {
    &&& b.excluded_folders() == excluded
    &&& forall|d: Seq<char>| #[trigger] b.file_count(d) == files_below(paths, d)
    &&& forall|d: Seq<char>| #[trigger] b.child_folders(d) == folders_in(paths, d)
}

/// Whether `trees` are the trees of the roots that are on disk, in the
/// order of the roots, over the documents `files`: one tree for each such
/// root, and each the tree of its root as a builder knows it that was told
/// the documents.
pub open spec fn is_forest(
    trees: Seq<FolderNode>,
    files: Seq<FileData>,
    roots: Seq<WatchedRoot>,
    excluded: Seq<Seq<char>>,
) -> bool {
    &&& trees.len() == roots_on_disk(roots).len()
    &&& exists|b: FolderTreeBuilder|
        knows(b, paths_of_files(files), excluded) && forall|i: int|
            0 <= i < trees.len() ==> is_tree_of(#[trigger] trees[i], b, roots_on_disk(roots)[i])
}

/// The trees of the watched folders that are on disk, in the order of
/// `root_folders`, over the documents `files`.
///
/// The result holds one tree for each root that is on disk, and each is the
/// tree of its root as a builder knows it that was told the documents.
pub fn build_folder_tree(
    files: &Vec<FileData>,
    root_folders: &Vec<WatchedRoot>,
    excluded_folders: &Vec<String>,
) -> (r: Vec<FolderNode>)
    ensures
        is_forest(r@, files@, root_folders@, views(excluded_folders@)),
{
    let mut excluded: Vec<String> = Vec::new();
    let mut e: usize = 0;
    while e < excluded_folders.len()
        invariant
            e <= excluded_folders.len(),
            excluded.len() == e,
            forall|k: int| 0 <= k < e ==> (#[trigger] excluded[k])@ == excluded_folders@[k]@,
        decreases excluded_folders.len() - e,
    {
        excluded.push(excluded_folders[e].clone());
        e += 1;
    }
    proof {
        assert(views(excluded@) =~= views(excluded_folders@));
    }
    let mut builder = FolderTreeBuilder::new(excluded);
    let ghost paths = paths_of_files(files@);
    let mut i: usize = 0;
    proof {
        assert(paths.take(0) =~= Seq::<Seq<char>>::empty());
        assert forall|d: Seq<char>| #[trigger]
            builder.child_folders(d) == folders_in(paths.take(0), d) by {}
    }
    while i < files.len()
        invariant
            i <= files.len(),
            paths == paths_of_files(files@),
            knows(builder, paths.take(i as int), views(excluded_folders@)),
        decreases files.len() - i,
    {
        proof {
            assert(paths.take(i + 1).drop_last() =~= paths.take(i as int));
            assert(paths.take(i + 1).last() == files@[i as int].path@);
        }
        builder.add_path(files[i].path.as_str());
        i += 1;
    }
    proof {
        assert(paths.take(paths.len() as int) =~= paths);
    }
    let mut trees: Vec<FolderNode> = Vec::new();
    let mut k: usize = 0;
    let ghost roots = root_folders@;
    proof {
        assert(roots.take(0) =~= Seq::<WatchedRoot>::empty());
    }
    while k < root_folders.len()
        invariant
            k <= root_folders.len(),
            roots == root_folders@,
            trees.len() == roots_on_disk(roots.take(k as int)).len(),
            forall|j: int|
                0 <= j < trees.len() ==> is_tree_of(
                    #[trigger] trees[j],
                    builder,
                    roots_on_disk(roots.take(k as int))[j],
                ),
        decreases root_folders.len() - k,
    {
        proof {
            assert(roots.take(k + 1).drop_last() =~= roots.take(k as int));
            assert(roots.take(k + 1).last() == roots[k as int]);
        }
        let root = &root_folders[k];
        match builder.build_tree(root.path.as_str(), root.on_disk) {
            Some(tree) => {
                trees.push(tree);
            },
            None => {},
        }
        k += 1;
    }
    proof {
        assert(roots.take(roots.len() as int) =~= roots);
        assert(knows(builder, paths_of_files(files@), views(excluded_folders@)));
    }
    trees
}

/// The paths of the roots that are on disk, in their order.
pub open spec fn roots_on_disk(roots: Seq<WatchedRoot>) -> Seq<Seq<char>>
    decreases roots.len(),
{
    if roots.len() == 0 {
        Seq::empty()
    } else if roots.last().on_disk {
        roots_on_disk(roots.drop_last()).push(roots.last().path@)
    } else {
        roots_on_disk(roots.drop_last())
    }
}

} // verus!
