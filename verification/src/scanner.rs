//! Change detection: which files of a folder have to be read again, and how
//! what was read enters the document table.
//!
//! Walking a folder, reading the clock of a file and pulling the text out of
//! it are left to the caller. Between those steps stand the decisions, and
//! they are made here: a file whose size and time of change are those of its
//! entry in the table is not read again.

use vstd::prelude::*;
use crate::extensions::{
    extension_of, file_extension, file_type_of, get_file_type, is_hidden_or_lock_file,
    is_passed_over, is_supported_extension,
};
use crate::models::{file_views, FileData, FileDataView, Timestamp};
use crate::state::{list_insert, strip_content, stripped, with_text, AppState};
use crate::state_laws::{has_folder_sets, law_with_text_keeps_set};
use crate::text::{chars_of, string_of, views};

verus! {

/// A file as the walk over a folder found it.
#[derive(Debug)]
pub struct ScannedFile {
    pub path: String,
    pub name: String,
    pub size: u64,
    pub modified: Timestamp,
}

/// What a [`ScannedFile`] holds, as mathematical values.
pub struct ScannedFileView {
    pub path: Seq<char>,
    pub name: Seq<char>,
    pub size: u64,
    pub modified: Timestamp,
}

impl View for ScannedFile {
    type V = ScannedFileView;

    open spec fn view(&self) -> ScannedFileView {
        ScannedFileView {
            path: self.path@,
            name: self.name@,
            size: self.size,
            modified: self.modified,
        }
    }
}

/// The views of a sequence of scanned files.
pub open spec fn scanned_views(files: Seq<ScannedFile>) -> Seq<ScannedFileView> {
    Seq::new(files.len(), |i: int| files[i]@)
}

/// A scanned file together with the text that was pulled out of it, if any
/// was.
#[derive(Debug)]
pub struct ExtractedFile {
    pub file: ScannedFile,
    pub content: Option<String>,
}

/// The kind of document that a file name stands for, by its extension.
pub open spec fn kind_of_name(name: Seq<char>) -> Option<Seq<char>> {
    match extension_of(name) {
        Some(ext) => file_type_of(ext),
        None => None,
    }
}

/// Whether the walk takes a file of this name: it is neither hidden nor a
/// lock file, and its extension is one that is indexed.
pub open spec fn is_candidate(name: Seq<char>) -> bool {
    !is_passed_over(name) && kind_of_name(name) is Some
}

/// Computes [`is_candidate`].
pub fn is_candidate_file(name: &str) -> (r: bool)
    ensures
        r == is_candidate(name@),
{
    if is_hidden_or_lock_file(name) {
        return false;
    }
    match file_extension(name) {
        Some(ext) => is_supported_extension(ext.as_str()),
        None => false,
    }
}

/// Whether the table holds `file` as it is now: an entry of its path with
/// its size, last changed in the same second.
pub open spec fn known_unchanged(table: Seq<FileDataView>, file: ScannedFileView) -> bool {
    exists|i: int|
        0 <= i < table.len() && (#[trigger] table[i]).path == file.path && table[i].size
            == file.size && table[i].last_modified.secs == file.modified.secs
}

/// Whether a file has to be read: it is neither hidden nor a lock file,
/// stands for a kind of document, is not empty, and is not in the table as
/// it is now, unless everything is read again.
pub open spec fn must_extract(
    table: Seq<FileDataView>,
    file: ScannedFileView,
    force_reindex: bool,
) -> bool {
    &&& is_candidate(file.name)
    &&& file.size > 0
    &&& (force_reindex || !known_unchanged(table, file))
}

/// The files that have to be read, in their order.
pub open spec fn to_extract(
    table: Seq<FileDataView>,
    files: Seq<ScannedFileView>,
    force_reindex: bool,
) -> Seq<ScannedFileView>
    decreases files.len(),
{
    if files.len() == 0 {
        Seq::empty()
    } else if must_extract(table, files.last(), force_reindex) {
        to_extract(table, files.drop_last(), force_reindex).push(files.last())
    } else {
        to_extract(table, files.drop_last(), force_reindex)
    }
}

fn is_known_unchanged(table: &Vec<FileData>, file: &ScannedFile) -> (r: bool)
    ensures
        r == known_unchanged(file_views(table@), file@),
{
    let mut i: usize = 0;
    while i < table.len()
        invariant
            i <= table.len(),
            forall|k: int|
                0 <= k < i ==> !((#[trigger] file_views(table@)[k]).path == file.path@
                    && file_views(table@)[k].size == file.size && file_views(
                    table@,
                )[k].last_modified.secs == file.modified.secs),
        decreases table.len() - i,
    {
        let entry = &table[i];
        if entry.size == file.size && entry.last_modified.secs == file.modified.secs && entry.path
            == file.path {
            proof {
                assert(file_views(table@)[i as int] == entry@);
            }
            return true;
        }
        i += 1;
    }
    false
}

fn kind_for_name(name: &str) -> (r: Option<&'static str>)
    ensures
        match r {
            Some(kind) => kind_of_name(name@) == Some(kind@),
            None => kind_of_name(name@) is None,
        },
{
    match file_extension(name) {
        Some(ext) => get_file_type(ext.as_str()),
        None => None,
    }
}

/// Whether `file` has to be read, as [`must_extract`] says.
pub fn needs_extraction(table: &Vec<FileData>, file: &ScannedFile, force_reindex: bool) -> (r:
    bool)
    ensures
        r == must_extract(file_views(table@), file@, force_reindex),
{
    if !is_candidate_file(file.name.as_str()) {
        return false;
    }
    if file.size == 0 {
        return false;
    }
    force_reindex || !is_known_unchanged(table, file)
}

/// Picks from the files of a walk those that have to be read. The walk may
/// hand in every file that it came across: hidden files, lock files and
/// files of no known kind are left out here.
pub fn plan_scan(table: &Vec<FileData>, files: Vec<ScannedFile>, force_reindex: bool) -> (r: Vec<
    ScannedFile,
>)
    ensures
        scanned_views(r@) == to_extract(file_views(table@), scanned_views(files@), force_reindex),
{
    let ghost all = scanned_views(files@);
    let mut out: Vec<ScannedFile> = Vec::new();
    proof {
        assert(all.take(0) =~= Seq::<ScannedFileView>::empty());
    }
    for file in it: files
        invariant
            all == scanned_views(it.seq()),
            scanned_views(out@) == to_extract(
                file_views(table@),
                all.take(it.index() as int),
                force_reindex,
            ),
    {
        proof {
            let i = it.index() as int;
            assert(all.take(i + 1).drop_last() =~= all.take(i));
            assert(all.take(i + 1).last() == file@);
        }
        if needs_extraction(table, &file, force_reindex) {
            let ghost before = scanned_views(out@);
            out.push(file);
            proof {
                assert(scanned_views(out@) =~= before.push(file@));
            }
        }
    }
    proof {
        assert(all.take(all.len() as int) =~= all);
    }
    out
}

/// The document that a file becomes once it was read. A hidden file, a
/// lock file, a file of no known kind, an empty file, and a file that gave
/// no text become none.
pub open spec fn document_of(file: ScannedFileView, content: Option<Seq<char>>) -> Option<
    FileDataView,
> {
    match (kind_of_name(file.name), content) {
        (Some(kind), Some(text)) => if !is_passed_over(file.name) && file.size > 0 && text.len()
            > 0 {
            Some(
                FileDataView {
                    path: file.path,
                    name: file.name,
                    size: file.size,
                    last_modified: file.modified,
                    file_type: kind,
                    content: text,
                },
            )
        } else {
            None
        },
        _ => None,
    }
}

/// Computes [`document_of`].
pub fn build_document(extracted: ExtractedFile) -> (r: Option<FileData>)
    ensures
        match r {
            Some(doc) => document_of(
                extracted.file@,
                match extracted.content {
                    Some(text) => Some(text@),
                    None => None,
                },
            ) == Some(doc@),
            None => document_of(
                extracted.file@,
                match extracted.content {
                    Some(text) => Some(text@),
                    None => None,
                },
            ) is None,
        },
{
    let kind = kind_for_name(extracted.file.name.as_str());
    let passed_over = is_hidden_or_lock_file(extracted.file.name.as_str());
    match (kind, extracted.content) {
        (Some(kind), Some(text)) => {
            if !passed_over && extracted.file.size > 0 && !text.as_str().is_empty() {
                Some(
                    FileData {
                        path: extracted.file.path,
                        name: extracted.file.name,
                        size: extracted.file.size,
                        last_modified: extracted.file.modified,
                        file_type: string_of(&chars_of(kind)),
                        content: text,
                    },
                )
            } else {
                None
            }
        },
        _ => None,
    }
}

/// Whether one of the documents is at `path`.
pub open spec fn has_document(docs: Seq<FileDataView>, path: Seq<char>) -> bool {
    exists|i: int| 0 <= i < docs.len() && (#[trigger] docs[i]).path == path
}

/// The documents of `table` at none of the paths of `fresh`, in their order.
pub open spec fn not_replaced(table: Seq<FileDataView>, fresh: Seq<FileDataView>) -> Seq<
    FileDataView,
>
    decreases table.len(),
{
    if table.len() == 0 {
        Seq::empty()
    } else if has_document(fresh, table.last().path) {
        not_replaced(table.drop_last(), fresh)
    } else {
        not_replaced(table.drop_last(), fresh).push(table.last())
    }
}

/// The table after a scan: every entry at the path of a fresh document
/// goes, and the fresh documents come in behind the rest. An entry that the
/// scan did not come across stays, whether or not its file still exists.
pub open spec fn merged(table: Seq<FileDataView>, fresh: Seq<FileDataView>) -> Seq<FileDataView> {
    not_replaced(table, fresh) + fresh
}

fn holds_document(docs: &Vec<FileData>, path: &String) -> (r: bool)
    ensures
        r == has_document(file_views(docs@), path@),
{
    let mut i: usize = 0;
    while i < docs.len()
        invariant
            i <= docs.len(),
            forall|k: int| 0 <= k < i ==> (#[trigger] file_views(docs@)[k]).path != path@,
        decreases docs.len() - i,
    {
        if docs[i].path == *path {
            proof {
                assert(file_views(docs@)[i as int].path == path@);
            }
            return true;
        }
        i += 1;
    }
    false
}

/// Brings fresh documents into a table, as [`merged`] says.
pub fn merge_documents(table: Vec<FileData>, fresh: Vec<FileData>) -> (r: Vec<FileData>)
    ensures
        file_views(r@) == merged(file_views(table@), file_views(fresh@)),
{
    let ghost all = file_views(table@);
    let ghost added = file_views(fresh@);
    let mut out: Vec<FileData> = Vec::new();
    proof {
        assert(all.take(0) =~= Seq::<FileDataView>::empty());
    }
    for entry in it: table
        invariant
            all == file_views(it.seq()),
            added == file_views(fresh@),
            file_views(out@) == not_replaced(all.take(it.index() as int), added),
    {
        proof {
            let i = it.index() as int;
            assert(all.take(i + 1).drop_last() =~= all.take(i));
            assert(all.take(i + 1).last() == entry@);
        }
        if !holds_document(&fresh, &entry.path) {
            let ghost before = file_views(out@);
            out.push(entry);
            proof {
                assert(file_views(out@) =~= before.push(entry@));
            }
        }
    }
    proof {
        assert(all.take(all.len() as int) =~= all);
    }
    let ghost rest = file_views(out@);
    let mut fresh = fresh;
    out.append(&mut fresh);
    proof {
        assert(file_views(out@) =~= rest + added);
    }
    out
}

/// The content of each extracted file, as a mathematical value.
pub open spec fn content_view(extracted: ExtractedFile) -> Option<Seq<char>> {
    match extracted.content {
        Some(text) => Some(text@),
        None => None,
    }
}

/// The documents that the extracted files become, in their order.
pub open spec fn documents_of(extracted: Seq<ExtractedFile>) -> Seq<FileDataView>
    decreases extracted.len(),
{
    if extracted.len() == 0 {
        Seq::empty()
    } else {
        match document_of(extracted.last().file@, content_view(extracted.last())) {
            Some(doc) => documents_of(extracted.drop_last()).push(doc),
            None => documents_of(extracted.drop_last()),
        }
    }
}

/// Finishes the scan of the folder `path`: the files that were read become
/// documents and enter the table in one step, and the folder is watched
/// from now on. The result holds the documents that came in or were
/// replaced, without their text.
pub fn scan_folder(state: &mut AppState, path: String, extracted: Vec<ExtractedFile>) -> (r: Vec<
    FileData,
>)
    ensures
        file_views(r@) == stripped(documents_of(extracted@)),
        file_views(final(state).index@) == merged(
            file_views(old(state).index@),
            documents_of(extracted@),
        ),
        views(final(state).watched_folders@) == with_text(
            views(old(state).watched_folders@),
            path@,
        ),
        final(state).excluded_folders == old(state).excluded_folders,
        final(state).data_dir == old(state).data_dir,
        final(state).search_history == old(state).search_history,
        has_folder_sets(*old(state)) ==> has_folder_sets(*final(state)),
{
    proof {
        if has_folder_sets(*old(state)) {
            law_with_text_keeps_set(views(old(state).watched_folders@), path@);
        }
    }
    let ghost all = extracted@;
    let mut fresh: Vec<FileData> = Vec::new();
    let mut light: Vec<FileData> = Vec::new();
    proof {
        assert(all.take(0) =~= Seq::<ExtractedFile>::empty());
        assert(file_views(light@) =~= stripped(file_views(fresh@)));
    }
    for item in it: extracted
        invariant
            all == it.seq(),
            file_views(fresh@) == documents_of(all.take(it.index() as int)),
            file_views(light@) == stripped(file_views(fresh@)),
    {
        proof {
            let i = it.index() as int;
            assert(all.take(i + 1).drop_last() =~= all.take(i));
            assert(all.take(i + 1).last() == item);
        }
        match build_document(item) {
            Some(doc) => {
                let ghost before = file_views(fresh@);
                let ghost before_light = file_views(light@);
                light.push(strip_content(&doc));
                fresh.push(doc);
                proof {
                    assert(file_views(fresh@) =~= before.push(doc@));
                    assert(file_views(light@) =~= before_light.push(doc@.without_content()));
                    assert(file_views(light@) =~= stripped(file_views(fresh@)));
                }
            },
            None => {},
        }
    }
    proof {
        assert(all.take(all.len() as int) =~= all);
    }
    list_insert(&mut state.watched_folders, path);
    let mut table: Vec<FileData> = Vec::new();
    std::mem::swap(&mut table, &mut state.index);
    state.index = merge_documents(table, fresh);
    light
}

// ---------------------------------------------------------------------------
// What holds of a scan
// ---------------------------------------------------------------------------

/// Whether a walk found nothing new: the table holds, as it is now, every
/// file of the walk that is neither hidden nor a lock file, stands for a
/// kind of document and is not empty.
pub open spec fn nothing_changed(table: Seq<FileDataView>, files: Seq<ScannedFileView>) -> bool {
    forall|i: int|
        0 <= i < files.len() && is_candidate((#[trigger] files[i]).name) && files[i].size > 0
            ==> known_unchanged(table, files[i])
}

/// The files that were read, in their order.
pub open spec fn files_read(extracted: Seq<ExtractedFile>) -> Seq<ScannedFileView> {
    Seq::new(extracted.len(), |i: int| extracted[i].file@)
}

/// Where a walk found nothing new, nothing has to be read, whatever else
/// the walk came across.
pub proof fn law_rescan_reads_nothing(table: Seq<FileDataView>, files: Seq<ScannedFileView>)
    requires
        nothing_changed(table, files),
    ensures
        to_extract(table, files, false) == Seq::<ScannedFileView>::empty(),
    decreases files.len(),
{
    if files.len() > 0 {
        let shorter = files.drop_last();
        assert(nothing_changed(table, shorter)) by {
            assert forall|i: int|
                0 <= i < shorter.len() && is_candidate((#[trigger] shorter[i]).name)
                    && shorter[i].size > 0 implies known_unchanged(table, shorter[i]) by {
                assert(shorter[i] == files[i]);
            }
        }
        law_rescan_reads_nothing(table, shorter);
        assert(files.last() == files[files.len() - 1]);
    }
}

/// A scan that read nothing leaves the table as it was.
pub proof fn law_idle_scan_keeps_table(table: Seq<FileDataView>)
    ensures
        merged(table, Seq::empty()) == table,
    decreases table.len(),
{
    if table.len() > 0 {
        law_idle_scan_keeps_table(table.drop_last());
        assert(not_replaced(table, Seq::empty()) =~= table) by {
            assert(not_replaced(table.drop_last(), Seq::empty()) + Seq::<FileDataView>::empty()
                =~= not_replaced(table.drop_last(), Seq::empty()));
            assert(table.drop_last().push(table.last()) =~= table);
        }
    }
    assert(not_replaced(table, Seq::empty()) + Seq::<FileDataView>::empty() =~= not_replaced(
        table,
        Seq::empty(),
    ));
}

/// Scanning a folder in which nothing changed reads no file, returns no
/// document and leaves the table as it was. The walk may have come across
/// any files; where the table holds each of them that counts as it is now,
/// the plan is empty, and a scan that read what the plan asked for brings
/// nothing in.
pub proof fn law_rescan_is_idle(
    table: Seq<FileDataView>,
    files: Seq<ScannedFileView>,
    extracted: Seq<ExtractedFile>,
)
    requires
        nothing_changed(table, files),
        files_read(extracted) == to_extract(table, files, false),
    ensures
        to_extract(table, files, false).len() == 0,
        extracted.len() == 0,
        stripped(documents_of(extracted)) == Seq::<FileDataView>::empty(),
        merged(table, documents_of(extracted)) == table,
{
    law_rescan_reads_nothing(table, files);
    law_idle_scan_keeps_table(table);
    assert(files_read(extracted).len() == extracted.len());
    assert(stripped(documents_of(extracted)) =~= Seq::<FileDataView>::empty());
}

/// After a scan the table holds each document that came in as it was read,
/// so that the next scan does not read its file again while size and time
/// stay the same.
pub proof fn law_scanned_file_is_known(
    table: Seq<FileDataView>,
    fresh: Seq<FileDataView>,
    i: int,
    file: ScannedFileView,
)
    requires
        0 <= i < fresh.len(),
        file.path == fresh[i].path,
        file.size == fresh[i].size,
        file.modified.secs == fresh[i].last_modified.secs,
    ensures
        known_unchanged(merged(table, fresh), file),
        !must_extract(merged(table, fresh), file, false),
{
    let m = merged(table, fresh);
    let k = not_replaced(table, fresh).len() + i;
    assert(m[k] == fresh[i]);
}

/// What a scan leaves in the table beside the fresh documents are entries
/// of the old table at other paths.
pub proof fn lemma_not_replaced(table: Seq<FileDataView>, fresh: Seq<FileDataView>, i: int)
    requires
        0 <= i < not_replaced(table, fresh).len(),
    ensures
        !has_document(fresh, not_replaced(table, fresh)[i].path),
        exists|k: int|
            i <= k < table.len() && #[trigger] table[k] == not_replaced(table, fresh)[i],
    decreases table.len(),
{
    let shorter = table.drop_last();
    if has_document(fresh, table.last().path) {
        lemma_not_replaced(shorter, fresh, i);
        let k = choose|k: int|
            i <= k < shorter.len() && #[trigger] shorter[k] == not_replaced(shorter, fresh)[i];
        assert(table[k] == shorter[k]);
    } else if i < not_replaced(shorter, fresh).len() {
        lemma_not_replaced(shorter, fresh, i);
        let k = choose|k: int|
            i <= k < shorter.len() && #[trigger] shorter[k] == not_replaced(shorter, fresh)[i];
        assert(table[k] == shorter[k]);
    } else {
        lemma_not_replaced_len(shorter, fresh);
        assert(table[table.len() - 1] == table.last());
    }
}

pub proof fn lemma_not_replaced_len(table: Seq<FileDataView>, fresh: Seq<FileDataView>)
    ensures
        not_replaced(table, fresh).len() <= table.len(),
    decreases table.len(),
{
    if table.len() > 0 {
        lemma_not_replaced_len(table.drop_last(), fresh);
    }
}

/// No path stands twice in `docs`.
pub open spec fn paths_are_unique(docs: Seq<FileDataView>) -> bool {
    forall|i: int, j: int|
        0 <= i < j < docs.len() ==> (#[trigger] docs[i]).path != (#[trigger] docs[j]).path
}

/// What is left of a table keeps the order of the table.
pub proof fn lemma_not_replaced_unique(table: Seq<FileDataView>, fresh: Seq<FileDataView>)
    requires
        paths_are_unique(table),
    ensures
        paths_are_unique(not_replaced(table, fresh)),
    decreases table.len(),
{
    if table.len() > 0 {
        let shorter = table.drop_last();
        assert(paths_are_unique(shorter)) by {
            assert forall|i: int, j: int| 0 <= i < j < shorter.len() implies (
            #[trigger] shorter[i]).path != (#[trigger] shorter[j]).path by {
                assert(shorter[i] == table[i] && shorter[j] == table[j]);
            }
        }
        lemma_not_replaced_unique(shorter, fresh);
        let left = not_replaced(table, fresh);
        let before = not_replaced(shorter, fresh);
        if !has_document(fresh, table.last().path) {
            assert forall|i: int, j: int| 0 <= i < j < left.len() implies (#[trigger] left[i]).path
                != (#[trigger] left[j]).path by {
                if j == before.len() {
                    lemma_not_replaced(shorter, fresh, i);
                    let k = choose|k: int|
                        i <= k < shorter.len() && #[trigger] shorter[k] == before[i];
                    assert(table[k] == shorter[k]);
                    assert(table[table.len() - 1] == table.last());
                } else {
                    assert(left[i] == before[i] && left[j] == before[j]);
                }
            }
        }
    }
}

/// A path stays the name of one document: where no path stands twice in
/// the table nor among the fresh documents, none does after the scan.
pub proof fn law_scan_keeps_paths_unique(table: Seq<FileDataView>, fresh: Seq<FileDataView>)
    requires
        paths_are_unique(table),
        paths_are_unique(fresh),
    ensures
        paths_are_unique(merged(table, fresh)),
{
    let left = not_replaced(table, fresh);
    let m = merged(table, fresh);
    lemma_not_replaced_unique(table, fresh);
    assert forall|i: int, j: int| 0 <= i < j < m.len() implies (#[trigger] m[i]).path != (
    #[trigger] m[j]).path by {
        if j < left.len() {
            assert(m[i] == left[i] && m[j] == left[j]);
        } else if i >= left.len() {
            assert(m[i] == fresh[i - left.len()] && m[j] == fresh[j - left.len()]);
        } else {
            lemma_not_replaced(table, fresh, i);
            assert(m[i] == left[i]);
            assert(m[j] == fresh[j - left.len()]);
        }
    }
}

} // verus!
