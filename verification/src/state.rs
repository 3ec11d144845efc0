//! The state of the engine: the document table, the watched and the
//! excluded folders, and the ledger of past queries, with the operations
//! that change them. Nothing here touches a disk or a lock: whoever owns
//! the state decides how it is shared and stored.

use vstd::prelude::*;
use crate::folders::{excluded_by, is_excluded_path, lies_under, is_under_folder};
use crate::history::SearchHistory;
use crate::models::{
    entry_views, file_views, FileData, FileDataView, FolderInfo, HistoryEntryView, IndexStats,
    SearchHistoryEntry,
};
use crate::state_laws::{
    has_folder_sets, law_each_once_is_a_set, law_live_folders_are_a_set,
    law_with_text_keeps_set, law_with_texts_keeps_set, law_without_text_keeps_set,
    law_without_texts_keeps_set,
};
use crate::text::{chars_of, same_chars, views};

verus! {

// ---------------------------------------------------------------------------
// Lists of folders
// ---------------------------------------------------------------------------

/// The list with `x` in it: as it was where it held `x`, else with `x` at
/// its end.
pub open spec fn with_text(list: Seq<Seq<char>>, x: Seq<char>) -> Seq<Seq<char>> {
    if list.contains(x) {
        list
    } else {
        list.push(x)
    }
}

/// The list without any `x`, the rest in its order.
pub open spec fn without_text(list: Seq<Seq<char>>, x: Seq<char>) -> Seq<Seq<char>>
    decreases list.len(),
{
    if list.len() == 0 {
        Seq::empty()
    } else if list.last() == x {
        without_text(list.drop_last(), x)
    } else {
        without_text(list.drop_last(), x).push(list.last())
    }
}

/// The list with every text of `xs` in it, added one after the other.
pub open spec fn with_texts(list: Seq<Seq<char>>, xs: Seq<Seq<char>>) -> Seq<Seq<char>>
    decreases xs.len(),
{
    if xs.len() == 0 {
        list
    } else {
        with_text(with_texts(list, xs.drop_last()), xs.last())
    }
}

/// The list without any text of `xs`.
pub open spec fn without_texts(list: Seq<Seq<char>>, xs: Seq<Seq<char>>) -> Seq<Seq<char>>
    decreases xs.len(),
{
    if xs.len() == 0 {
        list
    } else {
        without_text(without_texts(list, xs.drop_last()), xs.last())
    }
}

/// Whether `list` holds `x`.
pub fn list_holds(list: &Vec<String>, x: &str) -> (r: bool)
    ensures
        r == views(list@).contains(x@),
{
    let wanted = chars_of(x);
    let mut i: usize = 0;
    while i < list.len()
        invariant
            i <= list.len(),
            wanted@ == x@,
            forall|k: int| 0 <= k < i ==> views(list@)[k] != x@,
        decreases list.len() - i,
    {
        proof {
            assert(views(list@)[i as int] == list@[i as int]@);
        }
        if same_chars(&chars_of(list[i].as_str()), &wanted) {
            return true;
        }
        i += 1;
    }
    false
}

/// Puts `x` into `list` unless it is there.
pub fn list_insert(list: &mut Vec<String>, x: String)
    ensures
        views(final(list)@) == with_text(views(old(list)@), x@),
{
    if !list_holds(list, x.as_str()) {
        let ghost before = views(list@);
        list.push(x);
        proof {
            assert(views(list@) =~= before.push(x@));
        }
    }
}

/// Takes every `x` out of `list`.
pub fn list_remove(list: &mut Vec<String>, x: &str)
    ensures
        views(final(list)@) == without_text(views(old(list)@), x@),
{
    let wanted = chars_of(x);
    let mut out: Vec<String> = Vec::new();
    let mut i: usize = 0;
    let ghost all = views(list@);
    proof {
        assert(all.take(0) =~= Seq::<Seq<char>>::empty());
        assert(views(out@) =~= Seq::<Seq<char>>::empty());
    }
    while i < list.len()
        invariant
            i <= list.len(),
            wanted@ == x@,
            all == views(list@),
            views(out@) == without_text(all.take(i as int), x@),
        decreases list.len() - i,
    {
        proof {
            assert(all.take(i + 1).drop_last() =~= all.take(i as int));
            assert(all.take(i + 1).last() == list@[i as int]@);
        }
        if !same_chars(&chars_of(list[i].as_str()), &wanted) {
            let ghost before = views(out@);
            out.push(list[i].clone());
            proof {
                assert(views(out@) =~= before.push(list@[i as int]@));
            }
        }
        i += 1;
    }
    proof {
        assert(all.take(all.len() as int) =~= all);
    }
    *list = out;
}

// ---------------------------------------------------------------------------
// The document table
// ---------------------------------------------------------------------------

/// The documents that do not lie under `folder`, in their order.
pub open spec fn outside_folder(files: Seq<FileDataView>, folder: Seq<char>) -> Seq<FileDataView>
    decreases files.len(),
{
    if files.len() == 0 {
        Seq::empty()
    } else if lies_under(files.last().path, folder) {
        outside_folder(files.drop_last(), folder)
    } else {
        outside_folder(files.drop_last(), folder).push(files.last())
    }
}

/// How many documents lie under `folder`.
pub open spec fn count_under(files: Seq<FileDataView>, folder: Seq<char>) -> nat
    decreases files.len(),
{
    if files.len() == 0 {
        0
    } else if lies_under(files.last().path, folder) {
        count_under(files.drop_last(), folder) + 1
    } else {
        count_under(files.drop_last(), folder)
    }
}

/// The documents other than the one at `path`, in their order.
pub open spec fn without_path(files: Seq<FileDataView>, path: Seq<char>) -> Seq<FileDataView>
    decreases files.len(),
{
    if files.len() == 0 {
        Seq::empty()
    } else if files.last().path == path {
        without_path(files.drop_last(), path)
    } else {
        without_path(files.drop_last(), path).push(files.last())
    }
}

/// How many documents are of the type `file_type`.
pub open spec fn count_of_type(files: Seq<FileDataView>, file_type: Seq<char>) -> nat
    decreases files.len(),
{
    if files.len() == 0 {
        0
    } else if files.last().file_type == file_type {
        count_of_type(files.drop_last(), file_type) + 1
    } else {
        count_of_type(files.drop_last(), file_type)
    }
}

/// The sizes of the documents, added up.
pub open spec fn total_size(files: Seq<FileDataView>) -> nat
    decreases files.len(),
{
    if files.len() == 0 {
        0
    } else {
        total_size(files.drop_last()) + files.last().size as nat
    }
}

/// The documents without their text.
pub open spec fn stripped(files: Seq<FileDataView>) -> Seq<FileDataView> {
    Seq::new(files.len(), |i: int| files[i].without_content())
}

/// A copy of `file` without its text.
pub fn strip_content(file: &FileData) -> (r: FileData)
    ensures
        r@ == file@.without_content(),
{
    FileData {
        path: file.path.clone(),
        name: file.name.clone(),
        size: file.size,
        last_modified: file.last_modified,
        file_type: file.file_type.clone(),
        content: String::new(),
    }
}

fn count_files_under(files: &Vec<FileData>, folder: &str) -> (r: usize)
    ensures
        r == count_under(file_views(files@), folder@),
{
    let mut n: usize = 0;
    let mut i: usize = 0;
    let ghost all = file_views(files@);
    proof {
        assert(all.take(0) =~= Seq::<FileDataView>::empty());
    }
    while i < files.len()
        invariant
            i <= files.len(),
            all == file_views(files@),
            n == count_under(all.take(i as int), folder@),
            n <= i,
        decreases files.len() - i,
    {
        proof {
            assert(all.take(i + 1).drop_last() =~= all.take(i as int));
            assert(all.take(i + 1).last() == files@[i as int]@);
        }
        if is_under_folder(files[i].path.as_str(), folder) {
            n += 1;
        }
        i += 1;
    }
    proof {
        assert(all.take(all.len() as int) =~= all);
    }
    n
}

fn count_files_of_type(files: &Vec<FileData>, file_type: &str) -> (r: usize)
    ensures
        r == count_of_type(file_views(files@), file_type@),
{
    let wanted = chars_of(file_type);
    let mut n: usize = 0;
    let mut i: usize = 0;
    let ghost all = file_views(files@);
    proof {
        assert(all.take(0) =~= Seq::<FileDataView>::empty());
    }
    while i < files.len()
        invariant
            i <= files.len(),
            wanted@ == file_type@,
            all == file_views(files@),
            n == count_of_type(all.take(i as int), file_type@),
            n <= i,
        decreases files.len() - i,
    {
        proof {
            assert(all.take(i + 1).drop_last() =~= all.take(i as int));
            assert(all.take(i + 1).last() == files@[i as int]@);
        }
        if same_chars(&chars_of(files[i].file_type.as_str()), &wanted) {
            n += 1;
        }
        i += 1;
    }
    proof {
        assert(all.take(all.len() as int) =~= all);
    }
    n
}

// ---------------------------------------------------------------------------
// The state
// ---------------------------------------------------------------------------

/// All that the engine knows.
#[derive(Debug)]
pub struct AppState {
    /// The document table. A path stands for one document.
    pub index: Vec<FileData>,
    /// The folders that are scanned.
    pub watched_folders: Vec<String>,
    /// The folders whose documents are hidden from searches.
    pub excluded_folders: Vec<String>,
    /// Where the index is stored, if that is known.
    pub data_dir: Option<String>,
    /// The past queries.
    pub search_history: SearchHistory,
}

impl Default for AppState {
    fn default() -> (r: Self)
        ensures
            r.index@.len() == 0,
            r.watched_folders@.len() == 0,
            r.excluded_folders@.len() == 0,
            r.data_dir is None,
            r.search_history@ == Seq::<HistoryEntryView>::empty(),
    {
        AppState {
            index: Vec::new(),
            watched_folders: Vec::new(),
            excluded_folders: Vec::new(),
            data_dir: None,
            search_history: SearchHistory::new(),
        }
    }
}

impl AppState {
    /// Where the index is stored.
    pub fn get_data_dir(&self) -> (r: Option<String>)
        ensures
            r == self.data_dir,
    {
        match &self.data_dir {
            Some(d) => Some(d.clone()),
            None => None,
        }
    }

    /// Sets where the index is stored.
    pub fn set_data_dir(&mut self, path: String)
        ensures
            final(self).data_dir == Some(path),
            final(self).index == old(self).index,
            final(self).watched_folders == old(self).watched_folders,
            final(self).excluded_folders == old(self).excluded_folders,
            final(self).search_history == old(self).search_history,
    {
        self.data_dir = Some(path);
    }

    /// Whether `path` is an excluded folder or lies under one.
    pub fn is_path_excluded(&self, path: &str) -> (r: bool)
        ensures
            r == excluded_by(views(self.excluded_folders@), path@),
    {
        is_excluded_path(&self.excluded_folders, path)
    }

    /// How many documents of the table lie under `folder_path`.
    pub fn get_folder_file_count(&self, folder_path: &str) -> (r: usize)
        ensures
            r == count_under(file_views(self.index@), folder_path@),
    {
        count_files_under(&self.index, folder_path)
    }
}

/// Excludes a folder.
pub fn add_excluded_folder(state: &mut AppState, path: String)
    ensures
        views(final(state).excluded_folders@) == with_text(
            views(old(state).excluded_folders@),
            path@,
        ),
        final(state).index == old(state).index,
        final(state).watched_folders == old(state).watched_folders,
        final(state).data_dir == old(state).data_dir,
        final(state).search_history == old(state).search_history,
        has_folder_sets(*old(state)) ==> has_folder_sets(*final(state)),
{
    proof {
        if has_folder_sets(*old(state)) {
            law_with_text_keeps_set(views(old(state).excluded_folders@), path@);
        }
    }
    list_insert(&mut state.excluded_folders, path);
}

/// Takes a folder off the excluded ones.
pub fn remove_excluded_folder(state: &mut AppState, path: &str)
    ensures
        views(final(state).excluded_folders@) == without_text(
            views(old(state).excluded_folders@),
            path@,
        ),
        final(state).index == old(state).index,
        final(state).watched_folders == old(state).watched_folders,
        final(state).data_dir == old(state).data_dir,
        final(state).search_history == old(state).search_history,
        has_folder_sets(*old(state)) ==> has_folder_sets(*final(state)),
{
    proof {
        if has_folder_sets(*old(state)) {
            law_without_text_keeps_set(views(old(state).excluded_folders@), path@);
        }
    }
    list_remove(&mut state.excluded_folders, path);
}

/// Excludes a folder that is not excluded and takes off one that is. The
/// result says whether the folder is excluded now.
pub fn toggle_folder_exclusion(state: &mut AppState, path: String) -> (r: bool)
    ensures
        r == !views(old(state).excluded_folders@).contains(path@),
        views(final(state).excluded_folders@) == (if r {
            with_text(views(old(state).excluded_folders@), path@)
        } else {
            without_text(views(old(state).excluded_folders@), path@)
        }),
        final(state).index == old(state).index,
        final(state).watched_folders == old(state).watched_folders,
        final(state).data_dir == old(state).data_dir,
        final(state).search_history == old(state).search_history,
        has_folder_sets(*old(state)) ==> has_folder_sets(*final(state)),
{
    if list_holds(&state.excluded_folders, path.as_str()) {
        remove_excluded_folder(state, path.as_str());
        false
    } else {
        add_excluded_folder(state, path);
        true
    }
}

/// The excluded folders.
pub fn get_excluded_folders(state: &AppState) -> (r: Vec<String>)
    ensures
        views(r@) == views(state.excluded_folders@),
{
    let mut out: Vec<String> = Vec::new();
    let mut i: usize = 0;
    while i < state.excluded_folders.len()
        invariant
            i <= state.excluded_folders.len(),
            out.len() == i,
            forall|k: int| 0 <= k < i ==> (#[trigger] out[k])@ == state.excluded_folders@[k]@,
        decreases state.excluded_folders.len() - i,
    {
        out.push(state.excluded_folders[i].clone());
        i += 1;
    }
    proof {
        assert(views(out@) =~= views(state.excluded_folders@));
    }
    out
}

/// Excludes several folders.
pub fn exclude_folders_batch(state: &mut AppState, paths: &Vec<String>)
    ensures
        views(final(state).excluded_folders@) == with_texts(
            views(old(state).excluded_folders@),
            views(paths@),
        ),
        final(state).index == old(state).index,
        final(state).watched_folders == old(state).watched_folders,
        final(state).data_dir == old(state).data_dir,
        final(state).search_history == old(state).search_history,
        has_folder_sets(*old(state)) ==> has_folder_sets(*final(state)),
{
    let mut i: usize = 0;
    let ghost all = views(paths@);
    proof {
        assert(all.take(0) =~= Seq::<Seq<char>>::empty());
    }
    while i < paths.len()
        invariant
            i <= paths.len(),
            all == views(paths@),
            views(state.excluded_folders@) == with_texts(
                views(old(state).excluded_folders@),
                all.take(i as int),
            ),
            state.index == old(state).index,
            state.watched_folders == old(state).watched_folders,
            state.data_dir == old(state).data_dir,
            state.search_history == old(state).search_history,
        decreases paths.len() - i,
    {
        proof {
            assert(all.take(i + 1).drop_last() =~= all.take(i as int));
            assert(all.take(i + 1).last() == paths@[i as int]@);
        }
        add_excluded_folder(state, paths[i].clone());
        i += 1;
    }
    proof {
        assert(all.take(all.len() as int) =~= all);
        if has_folder_sets(*old(state)) {
            law_with_texts_keeps_set(views(old(state).excluded_folders@), views(paths@));
        }
    }
}

/// Takes several folders off the excluded ones.
pub fn include_folders_batch(state: &mut AppState, paths: &Vec<String>)
    ensures
        views(final(state).excluded_folders@) == without_texts(
            views(old(state).excluded_folders@),
            views(paths@),
        ),
        final(state).index == old(state).index,
        final(state).watched_folders == old(state).watched_folders,
        final(state).data_dir == old(state).data_dir,
        final(state).search_history == old(state).search_history,
        has_folder_sets(*old(state)) ==> has_folder_sets(*final(state)),
{
    let mut i: usize = 0;
    let ghost all = views(paths@);
    proof {
        assert(all.take(0) =~= Seq::<Seq<char>>::empty());
    }
    while i < paths.len()
        invariant
            i <= paths.len(),
            all == views(paths@),
            views(state.excluded_folders@) == without_texts(
                views(old(state).excluded_folders@),
                all.take(i as int),
            ),
            state.index == old(state).index,
            state.watched_folders == old(state).watched_folders,
            state.data_dir == old(state).data_dir,
            state.search_history == old(state).search_history,
        decreases paths.len() - i,
    {
        proof {
            assert(all.take(i + 1).drop_last() =~= all.take(i as int));
            assert(all.take(i + 1).last() == paths@[i as int]@);
        }
        remove_excluded_folder(state, paths[i].as_str());
        i += 1;
    }
    proof {
        assert(all.take(all.len() as int) =~= all);
        if has_folder_sets(*old(state)) {
            law_without_texts_keeps_set(views(old(state).excluded_folders@), views(paths@));
        }
    }
}

/// Stops watching a folder: it leaves the watched and the excluded
/// folders, and every document under it leaves the table.
pub fn remove_folder(state: &mut AppState, path: &str)
    ensures
        views(final(state).watched_folders@) == without_text(
            views(old(state).watched_folders@),
            path@,
        ),
        views(final(state).excluded_folders@) == without_text(
            views(old(state).excluded_folders@),
            path@,
        ),
        file_views(final(state).index@) == outside_folder(file_views(old(state).index@), path@),
        final(state).data_dir == old(state).data_dir,
        final(state).search_history == old(state).search_history,
        has_folder_sets(*old(state)) ==> has_folder_sets(*final(state)),
{
    proof {
        if has_folder_sets(*old(state)) {
            law_without_text_keeps_set(views(old(state).watched_folders@), path@);
            law_without_text_keeps_set(views(old(state).excluded_folders@), path@);
        }
    }
    list_remove(&mut state.watched_folders, path);
    list_remove(&mut state.excluded_folders, path);
    let mut out: Vec<FileData> = Vec::new();
    let mut i: usize = 0;
    let ghost all = file_views(state.index@);
    proof {
        assert(all.take(0) =~= Seq::<FileDataView>::empty());
        assert(file_views(out@) =~= Seq::<FileDataView>::empty());
    }
    while i < state.index.len()
        invariant
            i <= state.index.len(),
            all == file_views(state.index@),
            file_views(out@) == outside_folder(all.take(i as int), path@),
        decreases state.index.len() - i,
    {
        proof {
            assert(all.take(i + 1).drop_last() =~= all.take(i as int));
            assert(all.take(i + 1).last() == state.index@[i as int]@);
        }
        if !is_under_folder(state.index[i].path.as_str(), path) {
            let ghost before = file_views(out@);
            out.push(state.index[i].clone());
            proof {
                assert(file_views(out@) =~= before.push(state.index@[i as int]@));
            }
        }
        i += 1;
    }
    proof {
        assert(all.take(all.len() as int) =~= all);
    }
    state.index = out;
}

/// Takes the document at `file_path` out of the table.
pub fn delete_file(state: &mut AppState, file_path: &str)
    ensures
        file_views(final(state).index@) == without_path(file_views(old(state).index@), file_path@),
        final(state).watched_folders == old(state).watched_folders,
        final(state).excluded_folders == old(state).excluded_folders,
        final(state).data_dir == old(state).data_dir,
        final(state).search_history == old(state).search_history,
{
    let wanted = chars_of(file_path);
    let mut out: Vec<FileData> = Vec::new();
    let mut i: usize = 0;
    let ghost all = file_views(state.index@);
    proof {
        assert(all.take(0) =~= Seq::<FileDataView>::empty());
        assert(file_views(out@) =~= Seq::<FileDataView>::empty());
    }
    while i < state.index.len()
        invariant
            i <= state.index.len(),
            wanted@ == file_path@,
            all == file_views(state.index@),
            file_views(out@) == without_path(all.take(i as int), file_path@),
        decreases state.index.len() - i,
    {
        proof {
            assert(all.take(i + 1).drop_last() =~= all.take(i as int));
            assert(all.take(i + 1).last() == state.index@[i as int]@);
        }
        if !same_chars(&chars_of(state.index[i].path.as_str()), &wanted) {
            let ghost before = file_views(out@);
            out.push(state.index[i].clone());
            proof {
                assert(file_views(out@) =~= before.push(state.index@[i as int]@));
            }
        }
        i += 1;
    }
    proof {
        assert(all.take(all.len() as int) =~= all);
    }
    state.index = out;
}

/// The watched folders, each with the number of documents under it.
pub fn get_indexed_folders(state: &AppState) -> (r: Vec<FolderInfo>)
    ensures
        r.len() == state.watched_folders.len(),
        forall|i: int|
            0 <= i < r.len() ==> (#[trigger] r[i]).path@ == state.watched_folders@[i]@
                && r[i].file_count == count_under(
                file_views(state.index@),
                state.watched_folders@[i]@,
            ),
{
    let mut out: Vec<FolderInfo> = Vec::new();
    let mut i: usize = 0;
    while i < state.watched_folders.len()
        invariant
            i <= state.watched_folders.len(),
            out.len() == i,
            forall|k: int|
                0 <= k < i ==> (#[trigger] out[k]).path@ == state.watched_folders@[k]@
                    && out[k].file_count == count_under(
                    file_views(state.index@),
                    state.watched_folders@[k]@,
                ),
        decreases state.watched_folders.len() - i,
    {
        let folder = &state.watched_folders[i];
        let n = count_files_under(&state.index, folder.as_str());
        out.push(FolderInfo { path: folder.clone(), file_count: n });
        i += 1;
    }
    out
}

/// Forgets every document and every folder. The ledger of queries stays.
pub fn clear_index(state: &mut AppState)
    ensures
        final(state).index@.len() == 0,
        final(state).watched_folders@.len() == 0,
        final(state).excluded_folders@.len() == 0,
        final(state).data_dir == old(state).data_dir,
        final(state).search_history == old(state).search_history,
        has_folder_sets(*final(state)),
{
    state.index = Vec::new();
    state.watched_folders = Vec::new();
    state.excluded_folders = Vec::new();
}

/// Every document of the table, without its text.
pub fn get_all_files(state: &AppState) -> (r: Vec<FileData>)
    ensures
        file_views(r@) == stripped(file_views(state.index@)),
{
    let mut out: Vec<FileData> = Vec::new();
    let mut i: usize = 0;
    while i < state.index.len()
        invariant
            i <= state.index.len(),
            out.len() == i,
            forall|k: int|
                0 <= k < i ==> (#[trigger] out[k])@ == state.index@[k]@.without_content(),
        decreases state.index.len() - i,
    {
        out.push(strip_content(&state.index[i]));
        i += 1;
    }
    proof {
        assert(file_views(out@) =~= stripped(file_views(state.index@)));
    }
    out
}

/// The counts of the index: its documents, those of each type, their sizes
/// added up (held at the largest number that fits), and the watched folders.
pub fn get_index_stats(state: &AppState) -> (r: IndexStats)
    ensures
        r.total_files == state.index@.len(),
        r.word_files == count_of_type(file_views(state.index@), "word"@),
        r.powerpoint_files == count_of_type(file_views(state.index@), "powerpoint"@),
        r.excel_files == count_of_type(file_views(state.index@), "excel"@),
        r.text_files == count_of_type(file_views(state.index@), "text"@),
        r.total_size == (if total_size(file_views(state.index@)) > u64::MAX {
            u64::MAX
        } else {
            total_size(file_views(state.index@)) as u64
        }),
        r.folder_count == state.watched_folders@.len(),
{
    let mut sum: u64 = 0;
    let mut i: usize = 0;
    let ghost all = file_views(state.index@);
    proof {
        assert(all.take(0) =~= Seq::<FileDataView>::empty());
    }
    while i < state.index.len()
        invariant
            i <= state.index.len(),
            all == file_views(state.index@),
            sum == (if total_size(all.take(i as int)) > u64::MAX {
                u64::MAX
            } else {
                total_size(all.take(i as int)) as u64
            }),
        decreases state.index.len() - i,
    {
        proof {
            assert(all.take(i + 1).drop_last() =~= all.take(i as int));
            assert(all.take(i + 1).last() == state.index@[i as int]@);
        }
        let size = state.index[i].size;
        sum = if size > u64::MAX - sum {
            u64::MAX
        } else {
            sum + size
        };
        i += 1;
    }
    proof {
        assert(all.take(all.len() as int) =~= all);
    }
    IndexStats {
        total_files: state.index.len(),
        word_files: count_files_of_type(&state.index, "word"),
        powerpoint_files: count_files_of_type(&state.index, "powerpoint"),
        excel_files: count_files_of_type(&state.index, "excel"),
        text_files: count_files_of_type(&state.index, "text"),
        total_size: sum,
        folder_count: state.watched_folders.len(),
    }
}

/// The newest past queries: `count` of them, or ten where no number is given.
pub fn get_search_history(state: &AppState, count: Option<usize>) -> (r: Vec<SearchHistoryEntry>)
    ensures
        entry_views(r@) == crate::history::first_entries(
            state.search_history@,
            match count {
                Some(n) => n as int,
                None => 10,
            },
        ),
{
    let n: usize = match count {
        Some(n) => n,
        None => 10,
    };
    state.search_history.get_recent(n)
}

/// Forgets the past queries.
pub fn clear_search_history(state: &mut AppState)
    ensures
        final(state).search_history@ == Seq::<HistoryEntryView>::empty(),
        final(state).index == old(state).index,
        final(state).watched_folders == old(state).watched_folders,
        final(state).excluded_folders == old(state).excluded_folders,
        final(state).data_dir == old(state).data_dir,
{
    state.search_history.clear();
}

/// Forgets one past query.
pub fn remove_from_search_history(state: &mut AppState, query: &str)
    ensures
        final(state).search_history@ == crate::history::without_query(
            old(state).search_history@,
            query@,
        ),
        final(state).index == old(state).index,
        final(state).watched_folders == old(state).watched_folders,
        final(state).excluded_folders == old(state).excluded_folders,
        final(state).data_dir == old(state).data_dir,
{
    state.search_history.remove(query);
}

// ---------------------------------------------------------------------------
// Loading a stored index
// ---------------------------------------------------------------------------

/// A folder as it was stored, and whether it is on disk now.
#[derive(Debug)]
pub struct StoredFolder {
    pub path: String,
    pub on_disk: bool,
}

/// A document as it was stored, and whether its file is on disk now.
#[derive(Debug)]
pub struct StoredFile {
    pub file: FileData,
    pub on_disk: bool,
}

/// The stored folders that are on disk, each once, in their order.
pub open spec fn live_folders(folders: Seq<StoredFolder>) -> Seq<Seq<char>>
    decreases folders.len(),
{
    if folders.len() == 0 {
        Seq::empty()
    } else if folders.last().on_disk {
        with_text(live_folders(folders.drop_last()), folders.last().path@)
    } else {
        live_folders(folders.drop_last())
    }
}

/// Whether the path of a document begins with one of the folders.
pub open spec fn begins_with_one(path: Seq<char>, folders: Seq<Seq<char>>) -> bool {
    exists|i: int| 0 <= i < folders.len() && (#[trigger] folders[i]).is_prefix_of(path)
}

/// The stored documents that are on disk and whose path begins with one of
/// the folders, in their order.
pub open spec fn live_files(files: Seq<StoredFile>, folders: Seq<Seq<char>>) -> Seq<FileDataView>
    decreases files.len(),
{
    if files.len() == 0 {
        Seq::empty()
    } else if files.last().on_disk && begins_with_one(files.last().file.path@, folders) {
        live_files(files.drop_last(), folders).push(files.last().file@)
    } else {
        live_files(files.drop_last(), folders)
    }
}

/// The texts of `list`, each once, in the order of their first standing.
pub open spec fn each_once(list: Seq<Seq<char>>) -> Seq<Seq<char>> {
    with_texts(Seq::empty(), list)
}

/// What was loaded.
#[derive(Clone, Copy, Debug, PartialEq, Eq, Structural)]
pub struct LoadSummary {
    pub file_count: usize,
    pub folder_count: usize,
}

fn path_begins_with_one(path: &String, folders: &Vec<String>) -> (r: bool)
    ensures
        r == begins_with_one(path@, views(folders@)),
{
    let p = chars_of(path.as_str());
    let mut i: usize = 0;
    while i < folders.len()
        invariant
            i <= folders.len(),
            p@ == path@,
            forall|k: int| 0 <= k < i ==> !(#[trigger] views(folders@)[k]).is_prefix_of(path@),
        decreases folders.len() - i,
    {
        proof {
            assert(views(folders@)[i as int] == folders@[i as int]@);
        }
        if crate::text::starts_with_chars(&p, &chars_of(folders[i].as_str())) {
            return true;
        }
        i += 1;
    }
    false
}

/// Takes a stored index into the state. Folders that are gone are left
/// out, and so are documents whose file is gone or lies in none of the
/// folders that are left. Where no folder is left the state stays as it is
/// and nothing is loaded; else the table, the watched and the excluded
/// folders are replaced by what was stored.
pub fn load_index(
    state: &mut AppState,
    folders: Vec<StoredFolder>,
    excluded: Vec<String>,
    files: Vec<StoredFile>,
) -> (r: Option<LoadSummary>)
    ensures
        r is Some <==> live_folders(folders@).len() > 0,
        r is None ==> *final(state) == *old(state),
        r matches Some(summary) ==> {
            &&& views(final(state).watched_folders@) == live_folders(folders@)
            &&& views(final(state).excluded_folders@) == each_once(views(excluded@))
            &&& file_views(final(state).index@) == live_files(files@, live_folders(folders@))
            &&& summary.folder_count == final(state).watched_folders@.len()
            &&& summary.file_count == final(state).index@.len()
            &&& final(state).data_dir == old(state).data_dir
            &&& final(state).search_history == old(state).search_history
            &&& has_folder_sets(*final(state))
        },
{
    let ghost stored = folders@;
    proof {
        law_live_folders_are_a_set(folders@);
        law_each_once_is_a_set(views(excluded@));
    }
    let mut watched: Vec<String> = Vec::new();
    proof {
        assert(stored.take(0) =~= Seq::<StoredFolder>::empty());
        assert(views(watched@) =~= Seq::<Seq<char>>::empty());
    }
    for folder in it: folders
        invariant
            stored == it.seq(),
            views(watched@) == live_folders(stored.take(it.index() as int)),
    {
        proof {
            let i = it.index() as int;
            assert(stored.take(i + 1).drop_last() =~= stored.take(i));
            assert(stored.take(i + 1).last() == folder);
        }
        if folder.on_disk {
            list_insert(&mut watched, folder.path);
        }
    }
    proof {
        assert(stored.take(stored.len() as int) =~= stored);
    }
    if watched.len() == 0 {
        return None;
    }
    let ghost given = views(excluded@);
    let mut hidden: Vec<String> = Vec::new();
    proof {
        assert(given.take(0) =~= Seq::<Seq<char>>::empty());
        assert(views(hidden@) =~= Seq::<Seq<char>>::empty());
    }
    for path in it: excluded
        invariant
            given == views(it.seq()),
            views(hidden@) == with_texts(Seq::empty(), given.take(it.index() as int)),
    {
        proof {
            let i = it.index() as int;
            assert(given.take(i + 1).drop_last() =~= given.take(i));
            assert(given.take(i + 1).last() == path@);
        }
        list_insert(&mut hidden, path);
    }
    proof {
        assert(given.take(given.len() as int) =~= given);
    }
    let ghost rows = files@;
    let mut table: Vec<FileData> = Vec::new();
    proof {
        assert(rows.take(0) =~= Seq::<StoredFile>::empty());
        assert(file_views(table@) =~= Seq::<FileDataView>::empty());
    }
    for row in it: files
        invariant
            rows == it.seq(),
            file_views(table@) == live_files(rows.take(it.index() as int), views(watched@)),
    {
        proof {
            let i = it.index() as int;
            assert(rows.take(i + 1).drop_last() =~= rows.take(i));
            assert(rows.take(i + 1).last() == row);
        }
        if row.on_disk && path_begins_with_one(&row.file.path, &watched) {
            let ghost before = file_views(table@);
            table.push(row.file);
            proof {
                assert(file_views(table@) =~= before.push(row.file@));
            }
        }
    }
    proof {
        assert(rows.take(rows.len() as int) =~= rows);
    }
    let summary = LoadSummary { file_count: table.len(), folder_count: watched.len() };
    state.index = table;
    state.watched_folders = watched;
    state.excluded_folders = hidden;
    Some(summary)
}

/// The watched folders as roots: each with what `on_disk` says of it, and
/// as gone where nothing is said.
pub open spec fn watched_roots(watched: Seq<String>, on_disk: Seq<bool>) -> Seq<
    crate::tree::WatchedRoot,
> {
    Seq::new(
        watched.len(),
        |i: int|
            crate::tree::WatchedRoot {
                path: watched[i],
                on_disk: i < on_disk.len() && on_disk[i],
            },
    )
}

/// The trees of the watched folders for choosing what a search leaves out.
/// `on_disk` says of each watched folder, in their order, whether it is on
/// disk; a folder of which nothing is said counts as gone.
pub fn get_folder_tree(state: &AppState, on_disk: &Vec<bool>) -> (r: Vec<crate::models::FolderNode>)
    ensures
        crate::tree::is_forest(
            r@,
            state.index@,
            watched_roots(state.watched_folders@, on_disk@),
            views(state.excluded_folders@),
        ),
{
    let mut roots: Vec<crate::tree::WatchedRoot> = Vec::new();
    let mut i: usize = 0;
    while i < state.watched_folders.len()
        invariant
            i <= state.watched_folders.len(),
            roots.len() == i,
            forall|k: int|
                0 <= k < i ==> #[trigger] roots[k] == watched_roots(
                    state.watched_folders@,
                    on_disk@,
                )[k],
        decreases state.watched_folders.len() - i,
    {
        let there = if i < on_disk.len() {
            on_disk[i]
        } else {
            false
        };
        roots.push(
            crate::tree::WatchedRoot { path: state.watched_folders[i].clone(), on_disk: there },
        );
        i += 1;
    }
    proof {
        assert(roots@ =~= watched_roots(state.watched_folders@, on_disk@));
    }
    crate::tree::build_folder_tree(&state.index, &roots, &state.excluded_folders)
}

} // verus!
