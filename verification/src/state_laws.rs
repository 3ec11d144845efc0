//! The folders of a state are sets.
//!
//! The watched and the excluded folders are kept in lists. Every change of
//! them is one of a few operations on lists, and each of those keeps a list
//! free of repeats; what is loaded from a store is free of repeats whatever
//! the store holds.

use vstd::prelude::*;
use crate::state::{
    each_once, live_folders, with_text, with_texts, without_text, without_texts, AppState,
    StoredFolder,
};
use crate::text::views;

verus! {

/// Whether a list of folders is a set: no folder stands in it twice.
pub open spec fn is_folder_set(list: Seq<Seq<char>>) -> bool {
    forall|i: int, j: int| 0 <= i < j < list.len() ==> list[i] != list[j]
}

/// Whether the watched and the excluded folders of a state are sets.
pub open spec fn has_folder_sets(state: AppState) -> bool {
    is_folder_set(views(state.watched_folders@)) && is_folder_set(views(state.excluded_folders@))
}

/// A set with one more folder is a set, whether or not it held the folder.
pub proof fn law_with_text_keeps_set(list: Seq<Seq<char>>, x: Seq<char>)
    requires
        is_folder_set(list),
    ensures
        is_folder_set(with_text(list, x)),
        with_text(list, x).contains(x),
{
    if !list.contains(x) {
        let out = list.push(x);
        assert(out[list.len() as int] == x);
        assert forall|i: int, j: int| 0 <= i < j < out.len() implies out[i] != out[j] by {
            if j == list.len() {
                assert(list[i] == out[i]);
            }
        }
    }
}

/// What is left of a list was in the list.
pub proof fn lemma_without_text_holds(list: Seq<Seq<char>>, x: Seq<char>, y: Seq<char>)
    requires
        without_text(list, x).contains(y),
    ensures
        list.contains(y),
        y != x,
    decreases list.len(),
{
    if list.len() > 0 {
        let init = list.drop_last();
        let out = without_text(list, x);
        let k = choose|k: int| 0 <= k < out.len() && out[k] == y;
        if list.last() != x && k == without_text(init, x).len() {
            assert(list[list.len() - 1] == y);
        } else {
            assert(without_text(init, x)[k] == y);
            lemma_without_text_holds(init, x, y);
            let m = choose|m: int| 0 <= m < init.len() && init[m] == y;
            assert(list[m] == y);
        }
    }
}

/// A set without a folder is a set, and does not hold the folder.
pub proof fn law_without_text_keeps_set(list: Seq<Seq<char>>, x: Seq<char>)
    requires
        is_folder_set(list),
    ensures
        is_folder_set(without_text(list, x)),
        !without_text(list, x).contains(x),
    decreases list.len(),
{
    if without_text(list, x).contains(x) {
        lemma_without_text_holds(list, x, x);
    }
    if list.len() > 0 {
        let init = list.drop_last();
        assert(is_folder_set(init)) by {
            assert forall|i: int, j: int| 0 <= i < j < init.len() implies init[i] != init[j] by {
                assert(init[i] == list[i] && init[j] == list[j]);
            }
        }
        law_without_text_keeps_set(init, x);
        if list.last() != x {
            let left = without_text(init, x);
            let out = left.push(list.last());
            assert forall|i: int, j: int| 0 <= i < j < out.len() implies out[i] != out[j] by {
                if j == left.len() {
                    if out[i] == out[j] {
                        assert(left[i] == list.last());
                        assert(left.contains(list.last()));
                        lemma_without_text_holds(init, x, list.last());
                        let m = choose|m: int| 0 <= m < init.len() && init[m] == list.last();
                        assert(list[m] == list[list.len() - 1]);
                    }
                } else {
                    assert(out[i] == left[i] && out[j] == left[j]);
                }
            }
        }
    }
}

/// A set with more folders is a set.
pub proof fn law_with_texts_keeps_set(list: Seq<Seq<char>>, xs: Seq<Seq<char>>)
    requires
        is_folder_set(list),
    ensures
        is_folder_set(with_texts(list, xs)),
    decreases xs.len(),
{
    if xs.len() > 0 {
        law_with_texts_keeps_set(list, xs.drop_last());
        law_with_text_keeps_set(with_texts(list, xs.drop_last()), xs.last());
    }
}

/// A set without some folders is a set.
pub proof fn law_without_texts_keeps_set(list: Seq<Seq<char>>, xs: Seq<Seq<char>>)
    requires
        is_folder_set(list),
    ensures
        is_folder_set(without_texts(list, xs)),
    decreases xs.len(),
{
    if xs.len() > 0 {
        law_without_texts_keeps_set(list, xs.drop_last());
        law_without_text_keeps_set(without_texts(list, xs.drop_last()), xs.last());
    }
}

/// The folders that are taken from a store are a set, whatever the store
/// holds.
pub proof fn law_live_folders_are_a_set(folders: Seq<StoredFolder>)
    ensures
        is_folder_set(live_folders(folders)),
    decreases folders.len(),
{
    if folders.len() > 0 {
        law_live_folders_are_a_set(folders.drop_last());
        if folders.last().on_disk {
            law_with_text_keeps_set(live_folders(folders.drop_last()), folders.last().path@);
        }
    }
}

/// A list with its repeats left out is a set.
pub proof fn law_each_once_is_a_set(list: Seq<Seq<char>>)
    ensures
        is_folder_set(each_once(list)),
{
    law_with_texts_keeps_set(Seq::empty(), list);
}

} // verus!
