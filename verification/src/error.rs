//! What can go wrong in the store.

use vstd::prelude::*;

verus! {

/// A step on the file tree.
#[derive(Debug, Clone, Copy, PartialEq, Eq, Structural)]
pub enum FileOperation {
    Read,
    Write,
    CreateDirectory,
    Remove,
    Rename,
}

/// A step on the index.
#[derive(Debug, Clone, Copy, PartialEq, Eq, Structural)]
pub enum IndexOperation {
    Open,
    Rebuild,
    Upsert,
    SetTitle,
    Remove,
    Rename,
    Query,
}

/// The two directions of structured data.
#[derive(Debug, Clone, Copy, PartialEq, Eq, Structural)]
pub enum Coding {
    /// Metadata to YAML text.
    Encode,
    /// Front matter to metadata.
    Decode,
}

/// A failure of a store operation.
#[derive(Debug, Clone, PartialEq, Eq)]
pub enum StoreError {
    /// The path is absolute, or some prefix of it leaves the root.
    PathTraversal { path: String },
    /// A step on the file tree failed.
    Io { operation: FileOperation, path: String },
    /// A step on the index failed.
    Index { operation: IndexOperation },
    /// Structured data could not be written or read.
    Serialize { coding: Coding },
}

/// What a [`StoreError`] stands for.
pub enum ErrorView {
    PathTraversal { path: Seq<char> },
    Io { operation: FileOperation, path: Seq<char> },
    Index { operation: IndexOperation },
    Serialize { coding: Coding },
}

impl View for StoreError {
    type V = ErrorView;

    open spec fn view(&self) -> ErrorView {
        match self {
            StoreError::PathTraversal { path } => ErrorView::PathTraversal { path: path@ },
            StoreError::Io { operation, path } => ErrorView::Io {
                operation: *operation,
                path: path@,
            },
            StoreError::Index { operation } => ErrorView::Index { operation: *operation },
            StoreError::Serialize { coding } => ErrorView::Serialize { coding: *coding },
        }
    }
}

/// The words for a step on the file tree.
pub open spec fn file_operation_words(operation: FileOperation) -> Seq<char> {
    match operation {
        FileOperation::Read => "Failed to read file: "@,
        FileOperation::Write => "Failed to write file: "@,
        FileOperation::CreateDirectory => "Failed to create directories for: "@,
        FileOperation::Remove => "Failed to remove file: "@,
        FileOperation::Rename => "Failed to rename file: "@,
    }
}

/// The words for a step on the index.
pub open spec fn index_operation_words(operation: IndexOperation) -> Seq<char> {
    match operation {
        IndexOperation::Open => "Failed to open the index"@,
        IndexOperation::Rebuild => "Failed to rebuild the index"@,
        IndexOperation::Upsert => "Failed to insert into the index"@,
        IndexOperation::SetTitle => "Failed to update a title in the index"@,
        IndexOperation::Remove => "Failed to remove from the index"@,
        IndexOperation::Rename => "Failed to rename in the index"@,
        IndexOperation::Query => "Failed to query the index"@,
    }
}

/// The message of an error.
pub open spec fn message_of(error: ErrorView) -> Seq<char> {
    match error {
        ErrorView::PathTraversal { path } => "Path traversal attempt detected: "@ + path,
        ErrorView::Io { operation, path } => file_operation_words(operation) + path,
        ErrorView::Index { operation } => index_operation_words(operation),
        ErrorView::Serialize { coding } => match coding {
            Coding::Encode => "Failed to serialize metadata"@,
            Coding::Decode => "Failed to read front matter as metadata"@,
        },
    }
}

impl FileOperation {
    /// The words that start the message of a failed step.
    pub fn words(&self) -> (words: &'static str)
        ensures
            words@ == file_operation_words(*self),
    {
        match self {
            FileOperation::Read => "Failed to read file: ",
            FileOperation::Write => "Failed to write file: ",
            FileOperation::CreateDirectory => "Failed to create directories for: ",
            FileOperation::Remove => "Failed to remove file: ",
            FileOperation::Rename => "Failed to rename file: ",
        }
    }
}

impl IndexOperation {
    /// The message of a failed step.
    pub fn words(&self) -> (words: &'static str)
        ensures
            words@ == index_operation_words(*self),
    {
        match self {
            IndexOperation::Open => "Failed to open the index",
            IndexOperation::Rebuild => "Failed to rebuild the index",
            IndexOperation::Upsert => "Failed to insert into the index",
            IndexOperation::SetTitle => "Failed to update a title in the index",
            IndexOperation::Remove => "Failed to remove from the index",
            IndexOperation::Rename => "Failed to rename in the index",
            IndexOperation::Query => "Failed to query the index",
        }
    }
}

impl StoreError {
    /// What went wrong, in words: the step that failed and the path it was for.
    pub fn message(&self) -> (text: String)
        ensures
            text@ == message_of(self@),
    {
        match self {
            StoreError::PathTraversal { path } => {
                let mut text = "Path traversal attempt detected: ".to_owned();
                text.append(path.as_str());
                text
            },
            StoreError::Io { operation, path } => {
                let mut text = operation.words().to_owned();
                text.append(path.as_str());
                text
            },
            StoreError::Index { operation } => operation.words().to_owned(),
            StoreError::Serialize { coding } => match coding {
                Coding::Encode => "Failed to serialize metadata".to_owned(),
                Coding::Decode => "Failed to read front matter as metadata".to_owned(),
            },
        }
    }
}

} // verus!
