//! What the command line asks for, and what that means for the store.

use vstd::prelude::*;
use crate::path::{extension, path_extension};
use crate::types::{text_view, Metadata, MetadataView};

verus! {

/// The commands of the command line.
#[derive(Debug, Clone, PartialEq, Eq)]
pub enum Commands {
    /// List the notes.
    List,
    /// Search the notes by path and title.
    Search { query: String },
    /// Create a note.
    New { title: String, body: Option<String> },
    /// Print a note, or some of its lines.
    Read {
        name: String,
        /// Show the last lines.
        tail: Option<usize>,
        /// Show the first lines.
        head: Option<usize>,
        /// Start at this line, counted from 1.
        from: Option<usize>,
        /// End with this line.
        to: Option<usize>,
    },
    /// Replace the body of a note, or rename it.
    Update { name: String, body: Option<String>, rename: Option<String> },
    /// Delete a note.
    Delete { name: String },
    /// Move a note.
    Move { from: String, to: String },
    /// Rebuild the index.
    Sync,
    /// Write the configuration, where there is none.
    Init,
    /// Print the configuration.
    CheckConfig,
    /// Print the version.
    Version,
}

/// The command line, taken apart.
#[derive(Debug, Clone, PartialEq, Eq)]
pub struct Cli {
    pub command: Commands,
}

/// What a command asks of the store, with each note name turned into a path.
#[derive(Debug, Clone, PartialEq)]
pub enum Request {
    List,
    Search { query: String },
    Create { path: String, content: String, metadata: Metadata },
    Read { path: String, tail: Option<usize>, head: Option<usize>, from: Option<usize>, to: Option<usize> },
    Update { path: String, content: Option<String> },
    Move { from: String, to: String },
    Delete { path: String },
    Sync,
    /// A command about the configuration or the program, which the store has no part in.
    Other,
}

/// What a [`Request`] stands for.
pub enum RequestView {
    List,
    Search { query: Seq<char> },
    Create { path: Seq<char>, content: Seq<char>, metadata: MetadataView },
    Read { path: Seq<char>, tail: Option<usize>, head: Option<usize>, from: Option<usize>, to: Option<usize> },
    Update { path: Seq<char>, content: Option<Seq<char>> },
    Move { from: Seq<char>, to: Seq<char> },
    Delete { path: Seq<char> },
    Sync,
    Other,
}

impl View for Request {
    type V = RequestView;

    open spec fn view(&self) -> RequestView {
        match self {
            Request::List => RequestView::List,
            Request::Search { query } => RequestView::Search { query: query@ },
            Request::Create { path, content, metadata } => RequestView::Create {
                path: path@,
                content: content@,
                metadata: metadata@,
            },
            Request::Read { path, tail, head, from, to } => RequestView::Read {
                path: path@,
                tail: *tail,
                head: *head,
                from: *from,
                to: *to,
            },
            Request::Update { path, content } => RequestView::Update {
                path: path@,
                content: text_view(*content),
            },
            Request::Move { from, to } => RequestView::Move { from: from@, to: to@ },
            Request::Delete { path } => RequestView::Delete { path: path@ },
            Request::Sync => RequestView::Sync,
            Request::Other => RequestView::Other,
        }
    }
}

/// The path that a note name stands for: the name itself where it has an extension,
/// and else the name with `.md` behind it.
pub open spec fn note_path(name: Seq<char>) -> Seq<char> {
    if extension(name) is Some {
        name
    } else {
        name + ".md"@
    }
}

/// The path that a note name stands for.
pub fn note_file_name(name: &str) -> (path: String)
    ensures
        path@ == note_path(name@),
{
    let mut path = name.to_owned();
    if path_extension(name).is_none() {
        path.append(".md");
    }
    path
}

/// `a - b`, or 0 where `b` is the larger.
pub open spec fn minus_or_zero(a: int, b: int) -> int {
    if a >= b {
        a - b
    } else {
        0
    }
}

/// The smaller of two numbers.
pub open spec fn smaller(a: int, b: int) -> int {
    if a <= b {
        a
    } else {
        b
    }
}

/// The lines to print, as a range of indices into the `total` lines of a note.
/// `from` and `to` count lines from 1 and take precedence; then `head`; then `tail`.
/// The range is cut to fit the note, and is empty where it would end before it starts.
pub open spec fn window(
    total: int,
    tail: Option<usize>,
    head: Option<usize>,
    from: Option<usize>,
    to: Option<usize>,
) -> (int, int) {
    let wanted: (int, int) = if from is Some && to is Some {
        (minus_or_zero(from->0 as int, 1), smaller(to->0 as int, total))
    } else if from is Some {
        (minus_or_zero(from->0 as int, 1), total)
    } else if head is Some {
        (0, smaller(head->0 as int, total))
    } else if tail is Some {
        (minus_or_zero(total, tail->0 as int), total)
    } else {
        (0, total)
    };
    let start = smaller(wanted.0, total);
    let end = if wanted.1 < start {
        start
    } else {
        wanted.1
    };
    (start, end)
}

/// The lines to print of a note with `total` lines: those from the first index up to
/// the second, which is not printed.
pub fn line_window(
    total: usize,
    tail: Option<usize>,
    head: Option<usize>,
    from: Option<usize>,
    to: Option<usize>,
) -> (range: (usize, usize))
    ensures
        (range.0 as int, range.1 as int) == window(total as int, tail, head, from, to),
        range.0 <= range.1 <= total,
{
    let (start, end): (usize, usize) = match (from, to, head, tail) {
        (Some(f), Some(t), _, _) => (f.saturating_sub(1), if t <= total {
            t
        } else {
            total
        }),
        (Some(f), None, _, _) => (f.saturating_sub(1), total),
        (None, _, Some(h), _) => (0, if h <= total {
            h
        } else {
            total
        }),
        (None, _, None, Some(t)) => (total.saturating_sub(t), total),
        (None, _, None, None) => (0, total),
    };
    let start = if start <= total {
        start
    } else {
        total
    };
    let end = if end < start {
        start
    } else {
        end
    };
    (start, end)
}

/// What a command asks of the store.
pub open spec fn request_of(command: Commands) -> RequestView {
    match command {
        Commands::List => RequestView::List,
        Commands::Search { query } => RequestView::Search { query: query@ },
        Commands::New { title, body } => RequestView::Create {
            path: note_path(title@),
            content: match body {
                Some(text) => text@,
                None => Seq::empty(),
            },
            metadata: MetadataView {
                title: Some(title@),
                tags: None,
                created_at: None,
                updated_at: None,
                extra: Seq::empty(),
            },
        },
        Commands::Read { name, tail, head, from, to } => RequestView::Read {
            path: note_path(name@),
            tail,
            head,
            from,
            to,
        },
        Commands::Update { name, body, rename } => match rename {
            Some(new_name) => RequestView::Move { from: note_path(name@), to: note_path(new_name@) },
            None => RequestView::Update { path: note_path(name@), content: text_view(body) },
        },
        Commands::Delete { name } => RequestView::Delete { path: note_path(name@) },
        Commands::Move { from, to } => RequestView::Move {
            from: note_path(from@),
            to: note_path(to@),
        },
        Commands::Sync => RequestView::Sync,
        Commands::Init => RequestView::Other,
        Commands::CheckConfig => RequestView::Other,
        Commands::Version => RequestView::Other,
    }
}

impl Commands {
    /// What the command asks of the store: a new note gets its title as metadata and
    /// an empty body where none is given, and an update that renames is a move.
    pub fn request(self) -> (request: Request)
        ensures
            request@ == request_of(self),
    {
        match self {
            Commands::List => Request::List,
            Commands::Search { query } => Request::Search { query },
            Commands::New { title, body } => {
                let path = note_file_name(title.as_str());
                let content = match body {
                    Some(text) => text,
                    None => String::new(),
                };
                let mut metadata = Metadata::empty();
                metadata.title = Some(title);
                Request::Create { path, content, metadata }
            },
            Commands::Read { name, tail, head, from, to } => Request::Read {
                path: note_file_name(name.as_str()),
                tail,
                head,
                from,
                to,
            },
            Commands::Update { name, body, rename } => match rename {
                Some(new_name) => Request::Move {
                    from: note_file_name(name.as_str()),
                    to: note_file_name(new_name.as_str()),
                },
                None => Request::Update { path: note_file_name(name.as_str()), content: body },
            },
            Commands::Delete { name } => Request::Delete { path: note_file_name(name.as_str()) },
            Commands::Move { from, to } => Request::Move {
                from: note_file_name(from.as_str()),
                to: note_file_name(to.as_str()),
            },
            Commands::Sync => Request::Sync,
            Commands::Init => Request::Other,
            Commands::CheckConfig => Request::Other,
            Commands::Version => Request::Other,
        }
    }
}

} // verus!
