//! The store: notes as files under one root directory, and an index of path and
//! title beside them.
//!
//! The store touches neither the file tree nor the index. Each operation checks the
//! paths it is given, works out what is to be written, and returns the steps that
//! carry it out, in order. The caller performs them one by one and stops at the first
//! that fails; [`Step::failure`] is the error of a failed step. What an operation
//! needs to read, the caller reads first and hands over.

use vstd::prelude::*;
use crate::document::{data_of, frame, framed, parts_of, read_front_matter, split_note};
use crate::error::{Coding, ErrorView, FileOperation, IndexOperation, StoreError};
use crate::index::{
    ascending_by_path,
    matching_rows,
    row_matches,
    rows_of,
    search_pattern,
    sort_by_path,
};
use crate::path::{
    extension,
    file_stem,
    is_safe,
    is_safe_relative,
    join,
    join_paths,
    path_extension,
    path_file_stem,
    relative_to,
    strip_root,
};
use crate::text::str_eq;
use crate::types::{
    metadata_of,
    note_of,
    note_outcome,
    revised,
    str_view,
    text_view,
    tree_of_metadata,
    Metadata,
    Note,
    NoteSummary,
    NoteView,
    SummaryView,
};
use crate::node::{Node, Tree};
use crate::yaml::yaml_text_of;

verus! {

/// One step on the file tree or on the index.
#[derive(Debug, Clone, PartialEq)]
pub enum Step {
    /// Create the directory that is to hold the file at `path`, and every missing
    /// directory above it. A path without a directory part needs nothing.
    CreateParentDirs { path: String },
    /// Write `text` to the file at `path`, in place of what it held.
    WriteFile { path: String, text: String },
    /// Remove the file at `path`, if there is one.
    RemoveFile { path: String },
    /// Rename the file at `from` to `to`.
    RenameFile { from: String, to: String },
    /// Open the index at `path`, and create its table where it has none.
    OpenIndex { path: String },
    /// In one transaction: remove every row, then insert the given rows.
    ReplaceRows { rows: Vec<NoteSummary> },
    /// Insert a row, in place of the row of that path if there is one.
    UpsertRow { path: String, title: Option<String> },
    /// Set the title of the row of `path`, if there is one.
    SetTitle { path: String, title: String },
    /// Remove the row of `path`, if there is one.
    RemoveRow { path: String },
    /// Give the row of `from`, if there is one, the path `to`.
    RenameRow { from: String, to: String },
}

/// What a [`Step`] stands for.
pub enum StepView {
    CreateParentDirs { path: Seq<char> },
    WriteFile { path: Seq<char>, text: Seq<char> },
    RemoveFile { path: Seq<char> },
    RenameFile { from: Seq<char>, to: Seq<char> },
    OpenIndex { path: Seq<char> },
    ReplaceRows { rows: Seq<SummaryView> },
    UpsertRow { path: Seq<char>, title: Option<Seq<char>> },
    SetTitle { path: Seq<char>, title: Seq<char> },
    RemoveRow { path: Seq<char> },
    RenameRow { from: Seq<char>, to: Seq<char> },
}

impl View for Step {
    type V = StepView;

    open spec fn view(&self) -> StepView {
        match self {
            Step::CreateParentDirs { path } => StepView::CreateParentDirs { path: path@ },
            Step::WriteFile { path, text } => StepView::WriteFile { path: path@, text: text@ },
            Step::RemoveFile { path } => StepView::RemoveFile { path: path@ },
            Step::RenameFile { from, to } => StepView::RenameFile { from: from@, to: to@ },
            Step::OpenIndex { path } => StepView::OpenIndex { path: path@ },
            Step::ReplaceRows { rows } => StepView::ReplaceRows { rows: rows_of(rows@) },
            Step::UpsertRow { path, title } => StepView::UpsertRow {
                path: path@,
                title: text_view(*title),
            },
            Step::SetTitle { path, title } => StepView::SetTitle { path: path@, title: title@ },
            Step::RemoveRow { path } => StepView::RemoveRow { path: path@ },
            Step::RenameRow { from, to } => StepView::RenameRow { from: from@, to: to@ },
        }
    }
}

/// What some steps stand for.
pub open spec fn plan_of(steps: Seq<Step>) -> Seq<StepView> {
    Seq::new(steps.len(), |i: int| steps[i]@)
}

/// The error of a step that failed: a step on the file tree names what was tried
/// and the path; a step on the index names what was tried.
pub open spec fn failure_of(step: StepView) -> ErrorView {
    match step {
        StepView::CreateParentDirs { path } => ErrorView::Io {
            operation: FileOperation::CreateDirectory,
            path,
        },
        StepView::WriteFile { path, text } => ErrorView::Io { operation: FileOperation::Write, path },
        StepView::RemoveFile { path } => ErrorView::Io { operation: FileOperation::Remove, path },
        StepView::RenameFile { from, to } => ErrorView::Io {
            operation: FileOperation::Rename,
            path: from,
        },
        StepView::OpenIndex { path } => ErrorView::Index { operation: IndexOperation::Open },
        StepView::ReplaceRows { rows } => ErrorView::Index { operation: IndexOperation::Rebuild },
        StepView::UpsertRow { path, title } => ErrorView::Index {
            operation: IndexOperation::Upsert,
        },
        StepView::SetTitle { path, title } => ErrorView::Index {
            operation: IndexOperation::SetTitle,
        },
        StepView::RemoveRow { path } => ErrorView::Index { operation: IndexOperation::Remove },
        StepView::RenameRow { from, to } => ErrorView::Index { operation: IndexOperation::Rename },
    }
}

impl Step {
    /// The error to report where this step has failed.
    pub fn failure(&self) -> (error: StoreError)
        ensures
            error@ == failure_of(self@),
    {
        match self {
            Step::CreateParentDirs { path } => StoreError::Io {
                operation: FileOperation::CreateDirectory,
                path: path.clone(),
            },
            Step::WriteFile { path, text } => StoreError::Io {
                operation: FileOperation::Write,
                path: path.clone(),
            },
            Step::RemoveFile { path } => StoreError::Io {
                operation: FileOperation::Remove,
                path: path.clone(),
            },
            Step::RenameFile { from, to } => StoreError::Io {
                operation: FileOperation::Rename,
                path: from.clone(),
            },
            Step::OpenIndex { path } => StoreError::Index { operation: IndexOperation::Open },
            Step::ReplaceRows { rows } => StoreError::Index { operation: IndexOperation::Rebuild },
            Step::UpsertRow { path, title } => StoreError::Index {
                operation: IndexOperation::Upsert,
            },
            Step::SetTitle { path, title } => StoreError::Index {
                operation: IndexOperation::SetTitle,
            },
            Step::RemoveRow { path } => StoreError::Index { operation: IndexOperation::Remove },
            Step::RenameRow { from, to } => StoreError::Index { operation: IndexOperation::Rename },
        }
    }
}

/// The title that the index shows for a note: that of its metadata, and else the
/// stem of its file name.
pub open spec fn index_title(title: Option<Seq<char>>, path: Seq<char>) -> Option<Seq<char>> {
    match title {
        Some(t) => Some(t),
        None => file_stem(path),
    }
}

/// The title that the index shows for a note with the given title at `path`.
pub fn title_for_index(title: Option<String>, path: &str) -> (shown: Option<String>)
    ensures
        text_view(shown) == index_title(text_view(title), path@),
{
    match title {
        Some(t) => Some(t),
        None => path_file_stem(path),
    }
}

/// The steps that create a note: make room for the file, write it, and put its row
/// into the index.
pub open spec fn create_plan(
    root: Seq<char>,
    relative: Seq<char>,
    content: Seq<char>,
    front: Option<Seq<char>>,
    title: Option<Seq<char>>,
) -> Seq<StepView> {
    let file = join(root, relative);
    seq![
        StepView::CreateParentDirs { path: file },
        StepView::WriteFile { path: file, text: framed(front, content) },
        StepView::UpsertRow { path: relative, title: index_title(title, file) },
    ]
}

/// The steps that write a changed note back: write the file, with front matter in
/// any case, and set the title of its row where the note has one.
pub open spec fn update_plan(
    root: Seq<char>,
    relative: Seq<char>,
    content: Seq<char>,
    front: Seq<char>,
    title: Option<Seq<char>>,
) -> Seq<StepView> {
    let write = StepView::WriteFile {
        path: join(root, relative),
        text: framed(Some(front), content),
    };
    match title {
        Some(t) => seq![write, StepView::SetTitle { path: relative, title: t }],
        None => seq![write],
    }
}

/// The steps that delete a note: remove the file, if it is there, and its row.
pub open spec fn delete_plan(root: Seq<char>, relative: Seq<char>) -> Seq<StepView> {
    seq![
        StepView::RemoveFile { path: join(root, relative) },
        StepView::RemoveRow { path: relative },
    ]
}

/// The steps that move a note: make room at the new place, rename the file, and
/// give its row the new path.
pub open spec fn move_plan(root: Seq<char>, from: Seq<char>, to: Seq<char>) -> Seq<StepView> {
    seq![
        StepView::CreateParentDirs { path: join(root, to) },
        StepView::RenameFile { from: join(root, from), to: join(root, to) },
        StepView::RenameRow { from, to },
    ]
}

/// The steps that open a store: make room for the index file, and open it.
pub open spec fn open_plan(db_path: Seq<char>) -> Seq<StepView> {
    seq![StepView::CreateParentDirs { path: db_path }, StepView::OpenIndex { path: db_path }]
}

/// What reading a note comes to: the path must be safe, the file must have been
/// read, and its front matter, if it has any, must hold metadata.
pub open spec fn get_outcome(root: Seq<char>, relative: Seq<char>, file: Option<Seq<char>>) -> Result<
    NoteView,
    ErrorView,
> {
    if !is_safe(relative) {
        Err(ErrorView::PathTraversal { path: relative })
    } else {
        match file {
            None => Err(
                ErrorView::Io { operation: FileOperation::Read, path: join(root, relative) },
            ),
            Some(text) => note_of(relative, data_of(parts_of(text).0), parts_of(text).1),
        }
    }
}

/// A file that a walk of the root found, with its text where it was read.
#[derive(Debug, Clone, PartialEq, Eq)]
pub struct ScannedFile {
    pub path: String,
    pub is_file: bool,
    /// The text of the file; `None` where it was not read or could not be.
    pub text: Option<String>,
}

/// What a [`ScannedFile`] stands for.
pub struct ScannedView {
    pub path: Seq<char>,
    pub is_file: bool,
    pub text: Option<Seq<char>>,
}

impl View for ScannedFile {
    type V = ScannedView;

    open spec fn view(&self) -> ScannedView {
        ScannedView { path: self.path@, is_file: self.is_file, text: text_view(self.text) }
    }
}

/// What the files of a walk stand for.
pub open spec fn scanned_of(files: Seq<ScannedFile>) -> Seq<ScannedView> {
    Seq::new(files.len(), |i: int| files[i]@)
}

/// A file that the index has a row for: a regular file with the extension `md`.
pub open spec fn is_indexed(path: Seq<char>, is_file: bool) -> bool {
    is_file && extension(path) == Some("md"@)
}

/// The title in front matter, where it holds metadata with a title.
pub open spec fn title_in(data: Option<Tree>) -> Option<Seq<char>> {
    match data {
        Some(tree) => match metadata_of(tree) {
            Some(metadata) => metadata.title,
            None => None,
        },
        None => None,
    }
}

/// The text of a scanned file; a file that was not read counts as empty.
pub open spec fn text_or_empty(text: Option<Seq<char>>) -> Seq<char> {
    match text {
        Some(t) => t,
        None => Seq::empty(),
    }
}

/// The row of a scanned file: its path from the root on, and the title of its front
/// matter or, where that has none or cannot be read, the stem of its name. A file
/// that does not lie under the root has no row.
pub open spec fn row_of(root: Seq<char>, file: ScannedView) -> Option<SummaryView> {
    match strip_root(root, file.path) {
        Some(relative) => Some(
            SummaryView {
                path: relative,
                title: index_title(
                    title_in(data_of(parts_of(text_or_empty(file.text)).0)),
                    file.path,
                ),
            },
        ),
        None => None,
    }
}

/// The rows of the files of a walk, in the order of the walk: one for each regular
/// file with the extension `md`. The first such file that does not lie under the
/// root makes the whole an error.
pub open spec fn sync_rows(root: Seq<char>, files: Seq<ScannedView>) -> Result<
    Seq<SummaryView>,
    ErrorView,
>
    decreases files.len(),
{
    if files.len() == 0 {
        Ok(Seq::empty())
    } else {
        match sync_rows(root, files.drop_last()) {
            Err(e) => Err(e),
            Ok(rows) => {
                let file = files.last();
                if !is_indexed(file.path, file.is_file) {
                    Ok(rows)
                } else {
                    match row_of(root, file) {
                        Some(row) => Ok(rows.push(row)),
                        None => Err(ErrorView::PathTraversal { path: file.path }),
                    }
                }
            },
        }
    }
}

/// Once the files of a walk have run into an error, the files behind them change
/// nothing.
pub proof fn lemma_sync_error_stays(root: Seq<char>, files: Seq<ScannedView>, upto: int)
    requires
        0 <= upto <= files.len(),
        sync_rows(root, files.take(upto)) is Err,
    ensures
        sync_rows(root, files) == sync_rows(root, files.take(upto)),
    decreases files.len() - upto,
{
    if upto == files.len() {
        assert(files.take(upto) =~= files);
    } else {
        assert(files.take(upto + 1).drop_last() =~= files.take(upto));
        lemma_sync_error_stays(root, files, upto + 1);
    }
}

/// Whether the index has a row for a file at `path`.
pub fn file_is_indexed(path: &str, is_file: bool) -> (r: bool)
    ensures
        r == is_indexed(path@, is_file),
{
    if !is_file {
        return false;
    }
    match path_extension(path) {
        Some(ext) => str_eq(ext.as_str(), "md"),
        None => false,
    }
}

/// The title of front matter, where it holds metadata with a title.
pub fn title_of_front_matter(data: Option<Node>) -> (title: Option<String>)
    ensures
        text_view(title) == title_in(
            match data {
                Some(node) => Some(node@),
                None => None,
            },
        ),
{
    match data {
        Some(node) => match Metadata::from_node(node) {
            Ok(metadata) => metadata.title,
            Err(_) => None,
        },
        None => None,
    }
}

/// A store of notes under one root directory.
#[derive(Debug, Clone, PartialEq, Eq)]
pub struct Store {
    root_dir: String,
}

impl Store {
    /// The root directory, which every path of a note is relative to.
    pub closed spec fn root_view(self) -> Seq<char> {
        self.root_dir@
    }

    /// A store of the notes under `root_dir`, with its index in the file at
    /// `db_path`, and the steps that open that index.
    pub fn new(root_dir: String, db_path: String) -> (opened: (Store, Vec<Step>))
        ensures
            opened.0.root_view() == root_dir@,
            plan_of(opened.1@) == open_plan(db_path@),
    {
        let mut steps: Vec<Step> = Vec::new();
        steps.push(Step::CreateParentDirs { path: db_path.clone() });
        steps.push(Step::OpenIndex { path: db_path });
        assert(plan_of(steps@) =~= open_plan(db_path@));
        (Store { root_dir }, steps)
    }

    /// The root directory.
    pub fn root(&self) -> (root: &str)
        ensures
            root@ == self.root_view(),
    {
        self.root_dir.as_str()
    }

    /// The place of a note in the file tree: the root joined with the relative path.
    /// An absolute path, and a path of which some prefix leads out of the root, is
    /// refused.
    pub fn secure_join(&self, relative_path: &str) -> (r: Result<String, StoreError>)
        ensures
            match r {
                Ok(file) => is_safe(relative_path@) && file@ == join(
                    self.root_view(),
                    relative_path@,
                ),
                Err(e) => !is_safe(relative_path@) && e@ == (ErrorView::PathTraversal {
                    path: relative_path@,
                }),
            },
    {
        if is_safe_relative(relative_path) {
            Ok(join_paths(self.root_dir.as_str(), relative_path))
        } else {
            Err(StoreError::PathTraversal { path: relative_path.to_owned() })
        }
    }

    /// The note at `relative_path`, given what reading its file brought: the text,
    /// or nothing where there is no such file or it could not be read.
    pub fn get(&self, relative_path: &str, file: Option<String>) -> (r: Result<Note, StoreError>)
        ensures
            note_outcome(r) == get_outcome(self.root_view(), relative_path@, text_view(file)),
    {
        let place = self.secure_join(relative_path)?;
        match file {
            None => Err(StoreError::Io { operation: FileOperation::Read, path: place }),
            Some(text) => {
                let (matter, content) = split_note(text.as_str());
                Note::from_parts(relative_path.to_owned(), read_front_matter(matter), content)
            },
        }
    }

    /// The steps that create a note with the given body, front matter and title.
    /// `front` is the YAML text of the metadata, where the note has any. A file
    /// that is already there is written over.
    pub fn create_with(
        &self,
        relative_path: &str,
        content: &str,
        front: Option<String>,
        title: Option<String>,
    ) -> (r: Result<Vec<Step>, StoreError>)
        ensures
            match r {
                Ok(steps) => is_safe(relative_path@) && plan_of(steps@) == create_plan(
                    self.root_view(),
                    relative_path@,
                    content@,
                    text_view(front),
                    text_view(title),
                ),
                Err(e) => !is_safe(relative_path@) && e@ == (ErrorView::PathTraversal {
                    path: relative_path@,
                }),
            },
    {
        let file = self.secure_join(relative_path)?;
        let text = match &front {
            Some(yaml) => frame(Some(yaml.as_str()), content),
            None => frame(None, content),
        };
        let shown = title_for_index(title, file.as_str());
        let mut steps: Vec<Step> = Vec::new();
        steps.push(Step::CreateParentDirs { path: file.clone() });
        steps.push(Step::WriteFile { path: file, text });
        steps.push(Step::UpsertRow { path: relative_path.to_owned(), title: shown });
        assert(plan_of(steps@) =~= create_plan(
            self.root_view(),
            relative_path@,
            content@,
            text_view(front),
            text_view(title),
        ));
        Ok(steps)
    }

    /// The steps that create a note with the given body and metadata. Without
    /// metadata the file is the body alone, and the path is all that can be refused.
    /// With metadata the front matter is its YAML text, and the note cannot be
    /// created exactly where that text cannot be written.
    pub fn create(&self, relative_path: &str, content: &str, metadata: Option<Metadata>) -> (r:
        Result<Vec<Step>, StoreError>)
        ensures
            match r {
                Ok(steps) => is_safe(relative_path@) && match metadata {
                    Some(m) => yaml_text_of(tree_of_metadata(m@)) is Some && plan_of(steps@)
                        == create_plan(
                        self.root_view(),
                        relative_path@,
                        content@,
                        yaml_text_of(tree_of_metadata(m@)),
                        m@.title,
                    ),
                    None => plan_of(steps@) == create_plan(
                        self.root_view(),
                        relative_path@,
                        content@,
                        None,
                        None,
                    ),
                },
                Err(e) => if is_safe(relative_path@) {
                    metadata matches Some(m) && yaml_text_of(tree_of_metadata(m@)) is None && e@
                        == (ErrorView::Serialize { coding: Coding::Encode })
                } else {
                    e@ == (ErrorView::PathTraversal { path: relative_path@ })
                },
            },
    {
        if !is_safe_relative(relative_path) {
            return Err(StoreError::PathTraversal { path: relative_path.to_owned() });
        }
        match metadata {
            None => self.create_with(relative_path, content, None, None),
            Some(m) => {
                let title = m.title.clone();
                let front = m.to_yaml()?;
                self.create_with(relative_path, content, Some(front), title)
            },
        }
    }

    /// The steps that write a changed note back to its file: the body, after `front`
    /// as the YAML text of its metadata, and the title for its row in the index.
    pub fn write_back(
        &self,
        relative_path: &str,
        content: &str,
        front: &str,
        title: Option<String>,
    ) -> (r: Result<Vec<Step>, StoreError>)
        ensures
            match r {
                Ok(steps) => is_safe(relative_path@) && plan_of(steps@) == update_plan(
                    self.root_view(),
                    relative_path@,
                    content@,
                    front@,
                    text_view(title),
                ),
                Err(e) => !is_safe(relative_path@) && e@ == (ErrorView::PathTraversal {
                    path: relative_path@,
                }),
            },
    {
        let file = self.secure_join(relative_path)?;
        let text = frame(Some(front), content);
        let mut steps: Vec<Step> = Vec::new();
        steps.push(Step::WriteFile { path: file, text });
        match title {
            Some(t) => {
                steps.push(Step::SetTitle { path: relative_path.to_owned(), title: t });
            },
            None => {},
        }
        assert(plan_of(steps@) =~= update_plan(
            self.root_view(),
            relative_path@,
            content@,
            front@,
            text_view(title),
        ));
        Ok(steps)
    }

    /// The steps that change the note at `relative_path`, given what reading its
    /// file brought. A new body replaces the old one, and a new title that of the
    /// metadata; all the metadata is written back, so every other field stays.
    /// The row in the index gets the title of the changed note, where it has one.
    /// A note that reads cannot be changed exactly where the YAML text of its
    /// metadata cannot be written.
    pub fn update(
        &self,
        relative_path: &str,
        file: Option<String>,
        content: Option<&str>,
        title: Option<&str>,
    ) -> (r: Result<Vec<Step>, StoreError>)
        ensures
            match get_outcome(self.root_view(), relative_path@, text_view(file)) {
                Ok(note) => {
                    let changed = revised(note, str_view(content), str_view(title));
                    let front = yaml_text_of(tree_of_metadata(changed.metadata));
                    match r {
                        Ok(steps) => front is Some && plan_of(steps@) == update_plan(
                            self.root_view(),
                            relative_path@,
                            changed.content,
                            front->0,
                            changed.metadata.title,
                        ),
                        Err(e) => front is None && e@ == (ErrorView::Serialize {
                            coding: Coding::Encode,
                        }),
                    }
                },
                Err(error) => r matches Err(e) && e@ == error,
            },
    {
        let note = self.get(relative_path, file)?;
        let Note { path, metadata, content: body } = note.revised(content, title);
        let shown = metadata.title.clone();
        let front = metadata.to_yaml()?;
        self.write_back(relative_path, body.as_str(), front.as_str(), shown)
    }

    /// The steps that delete the note at `relative_path`. They ask for no file to be
    /// there.
    pub fn delete(&self, relative_path: &str) -> (r: Result<Vec<Step>, StoreError>)
        ensures
            match r {
                Ok(steps) => is_safe(relative_path@) && plan_of(steps@) == delete_plan(
                    self.root_view(),
                    relative_path@,
                ),
                Err(e) => !is_safe(relative_path@) && e@ == (ErrorView::PathTraversal {
                    path: relative_path@,
                }),
            },
    {
        let file = self.secure_join(relative_path)?;
        let mut steps: Vec<Step> = Vec::new();
        steps.push(Step::RemoveFile { path: file });
        steps.push(Step::RemoveRow { path: relative_path.to_owned() });
        assert(plan_of(steps@) =~= delete_plan(self.root_view(), relative_path@));
        Ok(steps)
    }

    /// The steps that move the note at `from` to `to`. Of two paths that are refused,
    /// the error names the first.
    pub fn move_note(&self, from: &str, to: &str) -> (r: Result<Vec<Step>, StoreError>)
        ensures
            match r {
                Ok(steps) => is_safe(from@) && is_safe(to@) && plan_of(steps@) == move_plan(
                    self.root_view(),
                    from@,
                    to@,
                ),
                Err(e) => if !is_safe(from@) {
                    e@ == (ErrorView::PathTraversal { path: from@ })
                } else {
                    !is_safe(to@) && e@ == (ErrorView::PathTraversal { path: to@ })
                },
            },
    {
        let old_place = self.secure_join(from)?;
        let new_place = self.secure_join(to)?;
        let mut steps: Vec<Step> = Vec::new();
        steps.push(Step::CreateParentDirs { path: new_place.clone() });
        steps.push(Step::RenameFile { from: old_place, to: new_place });
        steps.push(Step::RenameRow { from: from.to_owned(), to: to.to_owned() });
        assert(plan_of(steps@) =~= move_plan(self.root_view(), from@, to@));
        Ok(steps)
    }

    /// The steps that rebuild the index from the files that a walk of the root
    /// found: one step, which replaces all rows by one row for each regular file
    /// with the extension `md`, in the order of the walk. A file whose text was not
    /// read, or whose front matter holds no title, gets the stem of its name as title.
    pub fn sync(&self, files: Vec<ScannedFile>) -> (r: Result<Vec<Step>, StoreError>)
        ensures
            match sync_rows(self.root_view(), scanned_of(files@)) {
                Ok(rows) => r matches Ok(steps) && plan_of(steps@) == seq![
                    StepView::ReplaceRows { rows },
                ],
                Err(error) => r matches Err(e) && e@ == error,
            },
    {
        let ghost root = self.root_view();
        let ghost all = scanned_of(files@);
        let mut rows: Vec<NoteSummary> = Vec::new();
        proof {
            assert(all.take(0) =~= Seq::empty());
            assert(rows_of(rows@) =~= Seq::empty());
        }
        for file in it: files.into_iter()
            invariant
                root == self.root_view(),
                all == scanned_of(it.seq()),
                all == scanned_of(files@),
                sync_rows(root, all.take(it.index() as int)) == Ok::<Seq<SummaryView>, ErrorView>(
                    rows_of(rows@),
                ),
        {
            let ghost at = it.index() as int;
            proof {
                assert(all.take(at + 1).drop_last() =~= all.take(at));
                assert(all.take(at + 1).last() == file@);
            }
            if file_is_indexed(file.path.as_str(), file.is_file) {
                match relative_to(self.root_dir.as_str(), file.path.as_str()) {
                    None => {
                        proof {
                            lemma_sync_error_stays(root, all, at + 1);
                        }
                        return Err(StoreError::PathTraversal { path: file.path });
                    },
                    Some(relative) => {
                        let (matter, _) = match &file.text {
                            Some(text) => split_note(text.as_str()),
                            None => {
                                proof {
                                    reveal_strlit("");
                                    assert(""@ =~= Seq::<char>::empty());
                                }
                                split_note("")
                            },
                        };
                        let title = title_for_index(
                            title_of_front_matter(read_front_matter(matter)),
                            file.path.as_str(),
                        );
                        let ghost kept = rows_of(rows@);
                        let row = NoteSummary { path: relative, title };
                        let ghost added = row@;
                        rows.push(row);
                        assert(rows_of(rows@) =~= kept.push(added));
                    },
                }
            }
        }
        assert(all.take(all.len() as int) =~= all);
        let ghost listed = rows_of(rows@);
        let mut steps: Vec<Step> = Vec::new();
        steps.push(Step::ReplaceRows { rows });
        assert(plan_of(steps@) =~= seq![StepView::ReplaceRows { rows: listed }]);
        Ok(steps)
    }

    /// The rows of the index, in ascending order of path.
    pub fn list(&self, rows: Vec<NoteSummary>) -> (listed: Vec<NoteSummary>)
        ensures
            ascending_by_path(rows_of(listed@)),
            rows_of(listed@).to_multiset() == rows_of(rows@).to_multiset(),
    {
        sort_by_path(rows)
    }

    /// The rows of the index whose path or title holds `query`, in the order given.
    pub fn search(&self, query: &str, rows: Vec<NoteSummary>) -> (found: Vec<NoteSummary>)
        ensures
            rows_of(found@) == rows_of(rows@).filter(row_matches(search_pattern(query@))),
    {
        matching_rows(query, rows)
    }
}

} // verus!
