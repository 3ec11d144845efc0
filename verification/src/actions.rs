//! Decisions around files on the desktop: how a file is opened at a term,
//! what a change in a watched folder means, and which old documents are
//! still to be brought into the index.

use vstd::prelude::*;
use crate::extensions::{
    extension_of, file_extension, file_type_of, is_hidden_or_lock_file, is_passed_over,
    is_supported_extension,
};
use crate::extract::{extension_for_reading, reading_extension};
use crate::state::list_holds;
use crate::text::{
    chars_are_blank, chars_of, is_blank, lowercase_of, spells, str_to_lowercase, string_of,
    views,
};

verus! {

// ---------------------------------------------------------------------------
// Opening a file at a term
// ---------------------------------------------------------------------------

/// How a file is opened when a term is to be found in it.
#[derive(Clone, Copy, Debug, PartialEq, Eq, Structural)]
pub enum OpenAction {
    /// Open the file; there is no term.
    Open,
    /// Open it in the word processor and find the term.
    InWordProcessor,
    /// Open it in the spreadsheet program and find the term.
    InSpreadsheet,
    /// Open it in the presentation program and find the term.
    InPresentation,
    /// Open the file with the term at hand on the clipboard.
    WithTermCopied,
}

/// How the file at `path` is opened at `term`: as any file where the term
/// is blank, else by its extension in lower case.
pub open spec fn open_action(path: Seq<char>, term: Seq<char>) -> OpenAction {
    let ext = reading_extension(path);
    if is_blank(term) {
        OpenAction::Open
    } else if ext == "doc"@ || ext == "docx"@ {
        OpenAction::InWordProcessor
    } else if ext == "xls"@ || ext == "xlsx"@ {
        OpenAction::InSpreadsheet
    } else if ext == "ppt"@ || ext == "pptx"@ {
        OpenAction::InPresentation
    } else {
        OpenAction::WithTermCopied
    }
}

/// Computes [`open_action`].
pub fn open_file_and_search(file_path: &str, search_term: &str) -> (r: OpenAction)
    ensures
        r == open_action(file_path@, search_term@),
{
    let ext = chars_of(extension_for_reading(file_path).as_str());
    if chars_are_blank(&chars_of(search_term)) {
        OpenAction::Open
    } else if spells(&ext, "doc") || spells(&ext, "docx") {
        OpenAction::InWordProcessor
    } else if spells(&ext, "xls") || spells(&ext, "xlsx") {
        OpenAction::InSpreadsheet
    } else if spells(&ext, "ppt") || spells(&ext, "pptx") {
        OpenAction::InPresentation
    } else {
        OpenAction::WithTermCopied
    }
}

/// A text as it stands between single quotes in a script: every single
/// quote doubled, and every backslash too where `backslashes` says so.
pub open spec fn quoted_for_script(text: Seq<char>, backslashes: bool) -> Seq<char>
    decreases text.len(),
{
    if text.len() == 0 {
        Seq::empty()
    } else {
        let before = quoted_for_script(text.drop_last(), backslashes);
        if text.last() == '\'' {
            before + seq!['\'', '\'']
        } else if text.last() == '\\' && backslashes {
            before + seq!['\\', '\\']
        } else {
            before.push(text.last())
        }
    }
}

/// Computes [`quoted_for_script`].
pub fn quote_for_script(text: &str, backslashes: bool) -> (r: String)
    ensures
        r@ == quoted_for_script(text@, backslashes),
{
    let chars = chars_of(text);
    let mut out: Vec<char> = Vec::new();
    let mut i: usize = 0;
    proof {
        assert(chars@.take(0) =~= Seq::<char>::empty());
    }
    while i < chars.len()
        invariant
            i <= chars.len(),
            out@ == quoted_for_script(chars@.take(i as int), backslashes),
        decreases chars.len() - i,
    {
        proof {
            assert(chars@.take(i + 1).drop_last() =~= chars@.take(i as int));
        }
        let c = chars[i];
        let ghost before = out@;
        if c == '\'' {
            out.push('\'');
            out.push('\'');
            proof {
                assert(out@ =~= before + seq!['\'', '\'']);
            }
        } else if c == '\\' && backslashes {
            out.push('\\');
            out.push('\\');
            proof {
                assert(out@ =~= before + seq!['\\', '\\']);
            }
        } else {
            out.push(c);
        }
        i += 1;
    }
    proof {
        assert(chars@.take(chars@.len() as int) =~= chars@);
    }
    string_of(&out)
}

// ---------------------------------------------------------------------------
// Changes in watched folders
// ---------------------------------------------------------------------------

/// What happened to a path in a watched folder.
#[derive(Clone, Copy, Debug, PartialEq, Eq, Structural)]
pub enum WatchKind {
    Created,
    Modified,
    Removed,
    Other,
}

/// What is told of a change.
#[derive(Clone, Copy, Debug, PartialEq, Eq, Structural)]
pub enum FileChange {
    Modified,
    Removed,
}

/// The shortest time between two reports of one path, in milliseconds.
pub const DEBOUNCE_MILLIS: u64 = 500;

/// Whether an event for a path is passed over because the path was seen
/// less than half a second ago.
pub fn is_debounced(last_seen_millis: Option<u64>, now_millis: u64) -> (r: bool)
    ensures
        r == (last_seen_millis matches Some(last) && now_millis - last < DEBOUNCE_MILLIS),
{
    match last_seen_millis {
        Some(last) => now_millis < last || now_millis - last < DEBOUNCE_MILLIS,
        None => false,
    }
}

/// What is told of an event for the file `name`: nothing for a file of no
/// indexed kind, a hidden file or a lock file; else that the file was
/// modified where it was created or modified, and that it is gone where it
/// was removed.
pub open spec fn change_of(name: Seq<char>, kind: WatchKind) -> Option<FileChange> {
    let indexed = extension_of(name) matches Some(ext) && file_type_of(ext) is Some;
    if !indexed || is_passed_over(name) {
        None
    } else {
        match kind {
            WatchKind::Created => Some(FileChange::Modified),
            WatchKind::Modified => Some(FileChange::Modified),
            WatchKind::Removed => Some(FileChange::Removed),
            WatchKind::Other => None,
        }
    }
}

/// Computes [`change_of`].
pub fn watch_event_change(file_name: &str, kind: WatchKind) -> (r: Option<FileChange>)
    ensures
        r == change_of(file_name@, kind),
{
    let indexed = match file_extension(file_name) {
        Some(ext) => is_supported_extension(ext.as_str()),
        None => false,
    };
    if !indexed || is_hidden_or_lock_file(file_name) {
        return None;
    }
    match kind {
        WatchKind::Created => Some(FileChange::Modified),
        WatchKind::Modified => Some(FileChange::Modified),
        WatchKind::Removed => Some(FileChange::Removed),
        WatchKind::Other => None,
    }
}

// ---------------------------------------------------------------------------
// Old documents that are not indexed yet
// ---------------------------------------------------------------------------

/// Whether the file `name` at `path` is an old binary document that is
/// still to be indexed: neither hidden nor a lock file, with the extension
/// `doc` in whatever case, and not among the indexed paths.
pub open spec fn is_new_doc(name: Seq<char>, path: Seq<char>, indexed: Seq<Seq<char>>) -> bool {
    &&& !is_passed_over(name)
    &&& extension_of(name) matches Some(ext) && lowercase_of(ext) == "doc"@
    &&& !indexed.contains(path)
}

/// Computes [`is_new_doc`].
pub fn is_new_doc_file(file_name: &str, path: &str, indexed_paths: &Vec<String>) -> (r: bool)
    ensures
        r == is_new_doc(file_name@, path@, views(indexed_paths@)),
{
    if is_hidden_or_lock_file(file_name) {
        return false;
    }
    match file_extension(file_name) {
        Some(ext) => {
            let lowered = str_to_lowercase(ext.as_str());
            spells(&chars_of(lowered.as_str()), "doc") && !list_holds(indexed_paths, path)
        },
        None => false,
    }
}

/// Whether progress is told after `done` of `total` files: after every
/// tenth, and after the last.
pub fn reports_progress(done: usize, total: usize) -> (r: bool)
    ensures
        r == (done % 10 == 0 || done == total),
{
    done % 10 == 0 || done == total
}

/// Whether what was read is stored after `done` files: after every
/// hundredth.
pub fn saves_batch(done: usize) -> (r: bool)
    ensures
        r == (done % 100 == 0),
{
    done % 100 == 0
}

} // verus!
