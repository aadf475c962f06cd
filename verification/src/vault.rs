//! The note files under a root directory, as one walk of the directory found them.

use vstd::prelude::*;
use vstd::seq_lib::{to_multiset_insert};
use crate::path::{extension, lemma_path_le_order, path_extension, path_le, paths_in_order};
use crate::text::str_eq;

verus! {

/// One entry of a directory walk: its path, and whether it is a regular file.
#[derive(Debug, Clone, PartialEq, Eq)]
pub struct WalkEntry {
    pub path: String,
    pub is_file: bool,
}

/// What a [`WalkEntry`] stands for.
pub struct EntryView {
    pub path: Seq<char>,
    pub is_file: bool,
}

impl View for WalkEntry {
    type V = EntryView;

    open spec fn view(&self) -> EntryView {
        EntryView { path: self.path@, is_file: self.is_file }
    }
}

/// What the entries of a walk stand for.
pub open spec fn entries_of(entries: Seq<WalkEntry>) -> Seq<EntryView> {
    Seq::new(entries.len(), |i: int| entries[i]@)
}

/// A path whose extension is `md` or `txt`.
pub open spec fn has_note_extension(path: Seq<char>) -> bool {
    extension(path) == Some("md"@) || extension(path) == Some("txt"@)
}

/// A regular file with the extension of a note. Directories, and files with another
/// extension or none, are left out; a hidden file counts like any other.
pub open spec fn is_note_file() -> spec_fn(EntryView) -> bool {
    |entry: EntryView| entry.is_file && has_note_extension(entry.path)
}

/// The path of an entry.
pub open spec fn path_of() -> spec_fn(EntryView) -> Seq<char> {
    |entry: EntryView| entry.path
}

/// The paths of the note files among the entries, in the order of the walk.
pub open spec fn note_paths(entries: Seq<EntryView>) -> Seq<Seq<char>> {
    entries.filter(is_note_file()).map_values(path_of())
}

/// Each path comes before those behind it, or equals them, in the order of paths,
/// which goes component by component.
pub open spec fn ascending(paths: Seq<Seq<char>>) -> bool {
    forall|i: int, j: int| 0 <= i <= j < paths.len() ==> path_le(paths[i], paths[j])
}

/// Whether the extension of `path` is `md` or `txt`.
pub fn path_has_note_extension(path: &str) -> (r: bool)
    ensures
        r == has_note_extension(path@),
{
    match path_extension(path) {
        Some(ext) => str_eq(ext.as_str(), "md") || str_eq(ext.as_str(), "txt"),
        None => false,
    }
}

/// Puts `path` into an ascending list, before the first path that comes behind it.
fn insert_ascending(paths: &mut Vec<String>, path: String)
    requires
        ascending(old(paths).deep_view()),
    ensures
        ascending(final(paths).deep_view()),
        final(paths).deep_view().to_multiset() == old(paths).deep_view().to_multiset().insert(
            path@,
        ),
{
    let ghost before = paths.deep_view();
    let mut at: usize = 0;
    while at < paths.len() && paths_in_order(paths[at].as_str(), path.as_str())
        invariant
            at <= paths.len(),
            paths.deep_view() == before,
            forall|k: int| 0 <= k < at ==> path_le(#[trigger] before[k], path@),
        decreases paths.len() - at,
    {
        at += 1;
    }
    proof {
        assert forall|k: int| at <= k < before.len() implies path_le(path@, #[trigger] before[k]) by {
            lemma_path_le_order(before[at as int], path@, before[k]);
            lemma_path_le_order(path@, before[at as int], before[k]);
        }
    }
    paths.insert(at, path);
    proof {
        assert(paths.deep_view() =~= before.insert(at as int, path@));
        to_multiset_insert(before, at as int, path@);
        let after = paths.deep_view();
        assert forall|i: int, j: int| 0 <= i <= j < after.len() implies path_le(
            after[i],
            after[j],
        ) by {
            lemma_path_le_order(after[i], after[i], after[i]);
            if i < at && j > at {
                lemma_path_le_order(before[i], path@, before[j - 1]);
            }
        }
    }
}

/// The note files under a root directory: a snapshot, in ascending order of path.
/// Paths are compared component by component, so the files of a directory stand
/// together.
#[derive(Debug)]
pub struct Vault {
    path: String,
    files: Vec<String>,
}

impl Vault {
    #[verifier::type_invariant]
    spec fn in_order(self) -> bool {
        ascending(self.files.deep_view())
    }

    /// The root directory.
    pub closed spec fn root_view(self) -> Seq<char> {
        self.path@
    }

    /// The paths of the snapshot.
    pub closed spec fn files_view(self) -> Seq<Seq<char>> {
        self.files.deep_view()
    }

    /// The vault of `path`, with the note files among the entries that a walk of
    /// that directory brought. A directory that does not exist brings no entries,
    /// and its vault is empty.
    pub fn new(path: String, entries: &Vec<WalkEntry>) -> (vault: Vault)
        ensures
            vault.root_view() == path@,
            ascending(vault.files_view()),
            vault.files_view().to_multiset() == note_paths(entries_of(entries@)).to_multiset(),
    {
        let mut vault = Vault { path, files: Vec::new() };
        vault.refresh(entries);
        vault
    }

    /// Replaces the snapshot by the note files among the entries of a new walk.
    pub fn refresh(&mut self, entries: &Vec<WalkEntry>)
        ensures
            final(self).root_view() == old(self).root_view(),
            ascending(final(self).files_view()),
            final(self).files_view().to_multiset() == note_paths(
                entries_of(entries@),
            ).to_multiset(),
    {
        let ghost all = entries_of(entries@);
        let mut files: Vec<String> = Vec::new();
        let mut i: usize = 0;
        proof {
            assert(all.take(0) =~= Seq::empty());
            reveal(Seq::filter);
            assert(note_paths(all.take(0)) =~= Seq::empty());
            assert(files.deep_view() =~= Seq::empty());
        }
        while i < entries.len()
            invariant
                i <= entries.len(),
                all == entries_of(entries@),
                ascending(files.deep_view()),
                files.deep_view().to_multiset() == note_paths(all.take(i as int)).to_multiset(),
            decreases entries.len() - i,
        {
            proof {
                let seen = all.take(i as int);
                assert(all.take(i + 1) =~= seen.push(all[i as int]));
                seen.lemma_filter_push(all[i as int], is_note_file());
                seen.filter(is_note_file()).lemma_push_map_commute(path_of(), all[i as int]);
            }
            let entry = &entries[i];
            if entry.is_file && path_has_note_extension(entry.path.as_str()) {
                insert_ascending(&mut files, entry.path.clone());
                proof {
                    vstd::seq_lib::to_multiset_build(
                        note_paths(all.take(i as int)),
                        all[i as int].path,
                    );
                }
            }
            i += 1;
        }
        assert(all.take(entries.len() as int) =~= all);
        self.files = files;
    }

    /// The paths of the note files, in ascending order.
    pub fn files(&self) -> (files: &Vec<String>)
        ensures
            files.deep_view() == self.files_view(),
            ascending(files.deep_view()),
    {
        proof {
            use_type_invariant(self);
        }
        &self.files
    }

    /// The root directory.
    pub fn root(&self) -> (root: &str)
        ensures
            root@ == self.root_view(),
    {
        self.path.as_str()
    }
}

impl Clone for Vault {
    fn clone(&self) -> (copy: Vault)
        ensures
            copy.root_view() == self.root_view(),
            copy.files_view() == self.files_view(),
    {
        proof {
            use_type_invariant(self);
        }
        let files = self.files.clone();
        assert(files.deep_view() =~= self.files.deep_view());
        Vault { path: self.path.clone(), files }
    }
}

} // verus!
