//! Where the notes and their index lie.

use vstd::prelude::*;
use crate::path::{join, join_paths};

verus! {

/// The settings of the program. The store takes its root directory and the file of
/// its index from here.
#[derive(Debug, Clone, PartialEq, Eq)]
pub struct Settings {
    /// The root directory of the notes.
    pub notes_dir: String,
    /// The file of the index.
    pub db_path: String,
    /// The directory that the window shows.
    pub vault_path: String,
    /// The name of the theme.
    pub theme: String,
}

/// A theme of the window.
#[derive(Debug, Clone, PartialEq, Eq)]
pub struct Theme {
    pub name: String,
    pub colors: ThemeColors,
}

/// The colors of a theme.
#[derive(Debug, Clone, PartialEq, Eq)]
pub struct ThemeColors {
    pub bg_base: String,
    pub text_base: String,
}

/// The configuration of the window.
#[derive(Default, Debug)]
pub struct ExttConfig {
    vault_path: String,
}

/// The directory of the notes where none is set: `Notes` under the home directory,
/// or under the current directory where no home is known.
pub open spec fn notes_dir_under(home: Option<Seq<char>>) -> Seq<char> {
    join(
        match home {
            Some(dir) => dir,
            None => "."@,
        },
        "Notes"@,
    )
}

/// The file of the index where none is set: `extt/index.db` under the directory for
/// configuration, or `index.db` in the current directory where none is known.
pub open spec fn db_path_under(config_dir: Option<Seq<char>>) -> Seq<char> {
    join(
        match config_dir {
            Some(dir) => join(dir, "extt"@),
            None => "."@,
        },
        "index.db"@,
    )
}

/// The directory of the notes where none is set.
pub fn default_notes_dir(home: Option<&str>) -> (dir: String)
    ensures
        dir@ == notes_dir_under(
            match home {
                Some(h) => Some(h@),
                None => None,
            },
        ),
{
    match home {
        Some(h) => join_paths(h, "Notes"),
        None => join_paths(".", "Notes"),
    }
}

/// The file of the index where none is set.
pub fn default_db_path(config_dir: Option<&str>) -> (path: String)
    ensures
        path@ == db_path_under(
            match config_dir {
                Some(c) => Some(c@),
                None => None,
            },
        ),
{
    match config_dir {
        Some(c) => {
            let dir = join_paths(c, "extt");
            join_paths(dir.as_str(), "index.db")
        },
        None => join_paths(".", "index.db"),
    }
}

impl Settings {
    /// The settings of a first start, given the home directory and the directory
    /// for configuration as far as they are known: the notes under the first, the
    /// index under the second, the current directory in the window, the dark theme.
    pub fn initial(home: Option<&str>, config_dir: Option<&str>) -> (settings: Settings)
        ensures
            settings.notes_dir@ == notes_dir_under(
                match home {
                    Some(h) => Some(h@),
                    None => None,
                },
            ),
            settings.db_path@ == db_path_under(
                match config_dir {
                    Some(c) => Some(c@),
                    None => None,
                },
            ),
            settings.vault_path@ == "."@,
            settings.theme@ == "Dark"@,
    {
        Settings {
            notes_dir: default_notes_dir(home),
            db_path: default_db_path(config_dir),
            vault_path: ".".to_owned(),
            theme: "Dark".to_owned(),
        }
    }
}

} // verus!
