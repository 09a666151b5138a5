//! The watch manager's verifiable parts: the filter that turns a raw
//! filesystem event into a descriptor for the organization pipeline -
//! dropping directories and hidden files - and the registry model that
//! keeps at most one watcher per folder path. The native watcher, its
//! debouncing and the delivery loop live outside the library and feed
//! these functions.
use vstd::prelude::*;
use crate::text::lower_seq;
use crate::text::str_eq;
use crate::utils::file_name_of;
use crate::utils::get_file_extension;
use crate::utils::get_file_name;
use crate::utils::is_hidden_name;
use crate::utils::path_extension_of;

verus! {

/// The descriptor of one filtered filesystem event, as handed to the
/// organization pipeline and to the notification channel.
pub struct FileEvent {
    pub path: String,
    pub file_name: String,
    pub event_type: String,
    pub extension: String,
    pub size: u64,
}

/// The watcher filter: a changed path is dropped when it is a directory
/// or its file name is hidden (starts with `.`); anything else becomes a
/// descriptor carrying the path, name, lowercased extension, size, and
/// the fixed `created` classification.
pub fn filter_event(path: &str, is_dir: bool, size: u64) -> (r: Option<FileEvent>)
    ensures
        r is Some <==> !is_dir && !is_hidden_name(file_name_of(path@)),
        r matches Some(e) ==> {
            &&& e.path@ == path@
            &&& e.file_name@ == file_name_of(path@)
            &&& e.extension@ == match path_extension_of(path@) {
                Some(x) => lower_seq(x),
                None => Seq::<char>::empty(),
            }
            &&& e.size == size
            &&& e.event_type@ == "created"@
        },
{
    if is_dir {
        return None;
    }
    let file_name: String = match get_file_name(path) {
        Some(n) => n,
        None => String::new(),
    };
    let hidden: bool = if file_name.as_str().unicode_len() > 0 {
        file_name.as_str().get_char(0) == '.'
    } else {
        false
    };
    if hidden {
        return None;
    }
    let extension: String = match get_file_extension(path) {
        Some(e) => e,
        None => String::new(),
    };
    Some(
        FileEvent {
            path: path.to_owned(),
            file_name,
            event_type: "created".to_owned(),
            extension,
            size,
        },
    )
}

/// The registry of watched folders: the paths that currently own a live
/// watcher, each at most once. The caller keeps the native watch handles
/// under the same keys.
pub struct WatcherState {
    pub watched_paths: Vec<String>,
}

pub open spec fn has_registered_path(ws: Seq<String>, path: Seq<char>) -> bool {
    exists|i: int| 0 <= i < ws.len() && ws[i]@ == path
}

impl WatcherState {
    /// No folder path is registered twice.
    pub open spec fn wf(self) -> bool {
        forall|i: int, j: int|
            0 <= i < j < self.watched_paths@.len() ==> self.watched_paths@[i]@
                != self.watched_paths@[j]@
    }

    /// An empty registry.
    pub fn new() -> (r: WatcherState)
        ensures
            r.wf(),
            r.watched_paths@.len() == 0,
    {
        WatcherState { watched_paths: Vec::new() }
    }

    /// Whether a path currently owns a watcher.
    pub fn is_watching(&self, path: &str) -> (r: bool)
        ensures
            r == has_registered_path(self.watched_paths@, path@),
    {
        let n: usize = self.watched_paths.len();
        let mut i: usize = 0;
        while i < n
            invariant
                n == self.watched_paths@.len(),
                i <= n,
                forall|j: int| 0 <= j < i ==> self.watched_paths@[j]@ != path@,
            decreases n - i,
        {
            if str_eq(self.watched_paths[i].as_str(), path) {
                return true;
            }
            i = i + 1;
        }
        false
    }

    /// Register a path. Re-registering a path that already owns a watcher
    /// replaces it: the registry is unchanged and the caller must swap the
    /// native handle. Returns whether a prior watcher was replaced.
    pub fn register_path(&mut self, path: String) -> (replaced: bool)
        requires
            old(self).wf(),
        ensures
            final(self).wf(),
            replaced == has_registered_path(old(self).watched_paths@, path@),
            has_registered_path(final(self).watched_paths@, path@),
            replaced ==> final(self).watched_paths@ == old(self).watched_paths@,
            !replaced ==> final(self).watched_paths@ == old(self).watched_paths@.push(path),
    {
        if self.is_watching(path.as_str()) {
            return true;
        }
        self.watched_paths.push(path);
        proof {
            assert(self.watched_paths@.last()@ == path@);
        }
        false
    }

    /// Tear down the registry: no path owns a watcher afterwards.
    pub fn clear(&mut self)
        ensures
            final(self).wf(),
            final(self).watched_paths@.len() == 0,
    {
        self.watched_paths.clear();
    }
}

} // verus!
