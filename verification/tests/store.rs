use extt_core::error::{Coding, FileOperation, IndexOperation, StoreError};
use extt_core::node::Node;
use extt_core::store::{ScannedFile, Step, Store};
use extt_core::types::{Metadata, Note, NoteSummary};
use std::collections::BTreeMap;

/// A file tree and an index in memory, on which the steps of the store are carried out.
struct World {
    files: BTreeMap<String, String>,
    rows: Vec<NoteSummary>,
}

impl World {
    fn new() -> World {
        World { files: BTreeMap::new(), rows: Vec::new() }
    }

    fn row(&mut self, path: &str) -> Option<&mut NoteSummary> {
        self.rows.iter_mut().find(|r| r.path == path)
    }

    fn perform(&mut self, step: &Step) -> bool {
        match step {
            Step::CreateParentDirs { .. } | Step::OpenIndex { .. } => true,
            Step::WriteFile { path, text } => {
                self.files.insert(path.clone(), text.clone());
                true
            }
            Step::RemoveFile { path } => {
                self.files.remove(path);
                true
            }
            Step::RenameFile { from, to } => match self.files.remove(from) {
                Some(text) => {
                    self.files.insert(to.clone(), text);
                    true
                }
                None => false,
            },
            Step::ReplaceRows { rows } => {
                self.rows = rows.clone();
                true
            }
            Step::UpsertRow { path, title } => {
                self.rows.retain(|r| r.path != *path);
                self.rows.push(NoteSummary { path: path.clone(), title: title.clone() });
                true
            }
            Step::SetTitle { path, title } => {
                if let Some(row) = self.row(path) {
                    row.title = Some(title.clone());
                }
                true
            }
            Step::RemoveRow { path } => {
                self.rows.retain(|r| r.path != *path);
                true
            }
            Step::RenameRow { from, to } => {
                if from != to && self.rows.iter().any(|r| r.path == *to) && self.rows.iter().any(|r| r.path == *from) {
                    return false;
                }
                if let Some(row) = self.row(from) {
                    row.path = to.clone();
                }
                true
            }
        }
    }

    fn run(&mut self, steps: Result<Vec<Step>, StoreError>) -> Result<(), StoreError> {
        for step in steps? {
            if !self.perform(&step) {
                return Err(step.failure());
            }
        }
        Ok(())
    }

    fn read(&self, store: &Store, relative: &str) -> Option<String> {
        let place = store.secure_join(relative).ok()?;
        self.files.get(&place).cloned()
    }

    fn get(&self, store: &Store, relative: &str) -> Result<Note, StoreError> {
        store.get(relative, self.read(store, relative))
    }

    fn update(&mut self, store: &Store, relative: &str, content: Option<&str>, title: Option<&str>) -> Result<(), StoreError> {
        let file = self.read(store, relative);
        self.run(store.update(relative, file, content, title))
    }

    fn sync(&mut self, store: &Store) -> Result<(), StoreError> {
        let scanned = self
            .files
            .iter()
            .map(|(path, text)| ScannedFile { path: path.clone(), is_file: true, text: Some(text.clone()) })
            .collect();
        self.run(store.sync(scanned))
    }

    fn list(&self, store: &Store) -> Vec<NoteSummary> {
        store.list(self.rows.clone())
    }

    fn search(&self, store: &Store, query: &str) -> Vec<NoteSummary> {
        store.search(query, self.rows.clone())
    }
}

fn open(root: &str) -> (Store, World) {
    let (store, steps) = Store::new(root.to_string(), "test.db".to_string());
    let mut world = World::new();
    world.run(Ok(steps)).unwrap();
    (store, world)
}

fn titled(title: &str, tags: Option<Vec<&str>>) -> Metadata {
    Metadata {
        title: Some(title.to_string()),
        tags: tags.map(|t| t.into_iter().map(String::from).collect()),
        created_at: None,
        updated_at: None,
        extra: Vec::new(),
    }
}

fn summary(path: &str, title: Option<&str>) -> NoteSummary {
    NoteSummary { path: path.to_string(), title: title.map(String::from) }
}

#[test]
fn test_store_workflow() {
    let (store, mut world) = open("notes");

    world.run(store.create("note1.md", "content1", Some(titled("Note 1", Some(vec!["tag1"]))))).unwrap();

    let notes = world.list(&store);
    assert_eq!(notes.len(), 1);
    assert_eq!(notes[0].title.as_deref(), Some("Note 1"));
    assert_eq!(notes[0].path, "note1.md");

    let note = world.get(&store, "note1.md").unwrap();
    assert!(note.content.contains("content1"));
    assert_eq!(note.metadata.title.as_deref(), Some("Note 1"));
    assert_eq!(note.metadata.tags.as_deref(), Some(&vec!["tag1".to_string()][..]));

    let results = world.search(&store, "Note 1");
    assert_eq!(results.len(), 1);
    assert_eq!(results[0].title.as_deref(), Some("Note 1"));

    world.update(&store, "note1.md", Some("updated content"), Some("Updated Title")).unwrap();
    let note = world.get(&store, "note1.md").unwrap();
    assert!(note.content.contains("updated content"));
    assert_eq!(note.metadata.title.as_deref(), Some("Updated Title"));

    let results = world.search(&store, "Updated Title");
    assert_eq!(results.len(), 1);

    world.run(store.move_note("note1.md", "renamed.md")).unwrap();
    assert!(!world.files.contains_key("notes/note1.md"));
    assert!(world.files.contains_key("notes/renamed.md"));

    let notes = world.list(&store);
    assert_eq!(notes.len(), 1);
    assert_eq!(notes[0].path, "renamed.md");

    world.run(store.delete("renamed.md")).unwrap();
    assert!(!world.files.contains_key("notes/renamed.md"));
    let notes = world.list(&store);
    assert_eq!(notes.len(), 0);
}

#[test]
fn test_sync() {
    let (store, mut world) = open("notes");
    world.files.insert("notes/manual.md".to_string(), "---\ntitle: Manual Note\n---\nBody".to_string());

    let notes = world.list(&store);
    assert_eq!(notes.len(), 0);

    world.sync(&store).unwrap();

    let notes = world.list(&store);
    assert_eq!(notes.len(), 1);
    assert_eq!(notes[0].title.as_deref(), Some("Manual Note"));
}

#[test]
fn test_secure_join_traversal() {
    let (store, world) = open("notes");

    let result = world.get(&store, "../secret.txt");
    assert!(result.is_err());
    assert!(result.unwrap_err().message().contains("Path traversal"));
}

#[test]
fn test_store_new_creates_parent_dir() {
    let (store, steps) = Store::new("parent_dir/notes".to_string(), "parent_dir/subdir/extt.db".to_string());
    assert_eq!(store.root(), "parent_dir/notes");
    assert_eq!(
        steps,
        vec![
            Step::CreateParentDirs { path: "parent_dir/subdir/extt.db".to_string() },
            Step::OpenIndex { path: "parent_dir/subdir/extt.db".to_string() },
        ]
    );
}

#[test]
fn e2e_full_workflow() {
    let (store, mut world) = open("vault");

    let note1_path = "journal/2023-10-27.md";
    let metadata = Metadata {
        title: Some("Journal Entry".into()),
        tags: Some(vec!["journal".into(), "rust".into()]),
        created_at: Some("2023-10-27".into()),
        updated_at: None,
        extra: Vec::new(),
    };
    world.run(store.create(note1_path, "# Today's Entry\nStarted working on extt.", Some(metadata))).unwrap();

    assert!(world.files.contains_key("vault/journal/2023-10-27.md"));
    let content = world.files["vault/journal/2023-10-27.md"].clone();
    assert!(content.contains("title: Journal Entry"));
    assert!(content.contains("tags:"));
    assert!(content.contains("- journal"));

    let notes = world.list(&store);
    assert_eq!(notes.len(), 1);
    assert_eq!(notes[0].path, note1_path);
    assert_eq!(notes[0].title.as_deref(), Some("Journal Entry"));

    let note2_path = "ideas.md";
    world.files.insert("vault/ideas.md".to_string(), "---\ntitle: My Ideas\n---\n* Idea 1\n* Idea 2".to_string());

    let notes = world.list(&store);
    assert_eq!(notes.len(), 1);

    world.sync(&store).unwrap();

    let notes = world.list(&store);
    assert_eq!(notes.len(), 2);

    let results = world.search(&store, "Ideas");
    assert_eq!(results.len(), 1);
    assert_eq!(results[0].title.as_deref(), Some("My Ideas"));

    world.update(&store, note1_path, Some("# Today's Entry\nUpdated content."), Some("Updated Journal")).unwrap();

    let note = world.get(&store, note1_path).unwrap();
    assert_eq!(note.metadata.title.as_deref(), Some("Updated Journal"));
    assert!(note.content.contains("Updated content"));

    let content = world.files["vault/journal/2023-10-27.md"].clone();
    assert!(content.contains("title: Updated Journal"));

    let new_path = "archive/journal_old.md";
    world.run(store.move_note(note1_path, new_path)).unwrap();

    assert!(!world.files.contains_key("vault/journal/2023-10-27.md"));
    assert!(world.files.contains_key("vault/archive/journal_old.md"));

    let notes = world.list(&store);
    assert!(notes.iter().any(|n| n.path == new_path));
    assert!(!notes.iter().any(|n| n.path == note1_path));

    world.run(store.delete(note2_path)).unwrap();
    assert!(!world.files.contains_key("vault/ideas.md"));

    let notes = world.list(&store);
    assert_eq!(notes.len(), 1);
    assert_eq!(notes[0].path, new_path);
}

#[test]
fn create_move_delete_scenario() {
    let (store, mut world) = open("root");

    world.run(store.create("a/b.md", "hello", Some(titled("B", None)))).unwrap();
    let file = world.files["root/a/b.md"].clone();
    assert!(file.starts_with("---\n"));
    assert!(file.contains("title: B\n"));
    assert!(file.ends_with("---\nhello"));
    assert_eq!(world.list(&store), vec![summary("a/b.md", Some("B"))]);

    world.run(store.move_note("a/b.md", "a/c.md")).unwrap();
    assert_eq!(world.list(&store), vec![summary("a/c.md", Some("B"))]);

    world.run(store.delete("a/c.md")).unwrap();
    assert_eq!(world.list(&store), Vec::<NoteSummary>::new());
}

#[test]
fn create_then_get_gives_the_note_back() {
    let (store, mut world) = open("root");
    let metadata = Metadata {
        title: Some("Plan".into()),
        tags: Some(vec!["a".into(), "b c".into()]),
        created_at: Some("2024-01-02".into()),
        updated_at: Some("2024-01-03T10:00:00Z".into()),
        extra: vec![
            ("author".to_string(), Node::String("me".to_string())),
            ("draft".to_string(), Node::Bool(true)),
            ("nested".to_string(), Node::Mapping(vec![("k".to_string(), Node::Sequence(vec![Node::Integer(1), Node::Null]))])),
            ("rating".to_string(), Node::Float("4.5".to_string())),
            ("revision".to_string(), Node::Integer(-7)),
        ],
    };
    world.run(store.create("p.md", "line one\nline two", Some(metadata.clone()))).unwrap();
    let note = world.get(&store, "p.md").unwrap();
    assert_eq!(note.path, "p.md");
    assert_eq!(note.content, "line one\nline two");
    assert_eq!(note.metadata, metadata);
}

#[test]
fn test_metadata_serialization() {
    let metadata = Metadata {
        title: Some("Test Note".to_string()),
        tags: Some(vec!["rust".to_string(), "testing".to_string()]),
        created_at: None,
        updated_at: None,
        extra: Default::default(),
    };

    let yaml = metadata.clone().to_yaml().unwrap();
    assert!(yaml.contains("title: Test Note"));
    assert!(yaml.contains("tags:"));
    assert!(yaml.contains("- rust"));
    assert!(yaml.contains("- testing"));

    let (store, mut world) = open("root");
    world.run(store.create_with("m.md", "", Some(yaml), None)).unwrap();
    let deserialized = world.get(&store, "m.md").unwrap().metadata;
    assert_eq!(deserialized, metadata);
}

#[test]
fn update_without_title_keeps_the_metadata() {
    let (store, mut world) = open("root");
    let metadata = Metadata {
        title: Some("Keep".into()),
        tags: Some(vec!["x".into()]),
        created_at: Some("then".into()),
        updated_at: None,
        extra: vec![("weight".to_string(), Node::Float("0.25".to_string()))],
    };
    world.run(store.create("k.md", "old", Some(metadata.clone()))).unwrap();
    world.update(&store, "k.md", Some("new"), None).unwrap();
    let note = world.get(&store, "k.md").unwrap();
    assert_eq!(note.content, "new");
    assert_eq!(note.metadata, metadata);

    world.update(&store, "k.md", None, None).unwrap();
    let note = world.get(&store, "k.md").unwrap();
    assert_eq!(note.content, "new");
    assert_eq!(note.metadata, metadata);
}

#[test]
fn update_of_a_note_without_front_matter_writes_front_matter() {
    let (store, mut world) = open("root");
    world.run(store.create("plain.md", "body", None)).unwrap();
    assert_eq!(world.files["root/plain.md"], "body");
    assert_eq!(world.list(&store), vec![summary("plain.md", Some("plain"))]);

    world.update(&store, "plain.md", Some("text"), None).unwrap();
    assert!(world.files["root/plain.md"].starts_with("---\n"));
    assert!(world.files["root/plain.md"].ends_with("---\ntext"));
    // Without a title in the metadata the row keeps its title.
    assert_eq!(world.list(&store), vec![summary("plain.md", Some("plain"))]);

    world.update(&store, "plain.md", None, Some("Named")).unwrap();
    assert_eq!(world.list(&store), vec![summary("plain.md", Some("Named"))]);
    assert_eq!(world.get(&store, "plain.md").unwrap().content, "text");
}

#[test]
fn update_of_a_missing_note_fails() {
    let (store, mut world) = open("root");
    let result = world.update(&store, "nowhere.md", Some("x"), None);
    assert_eq!(
        result,
        Err(StoreError::Io { operation: FileOperation::Read, path: "root/nowhere.md".to_string() })
    );
    assert!(world.files.is_empty());
}

#[test]
fn move_makes_the_old_path_unreadable() {
    let (store, mut world) = open("root");
    world.run(store.create("a.md", "text", Some(titled("A", None)))).unwrap();
    let before = world.get(&store, "a.md").unwrap();
    world.run(store.move_note("a.md", "deep/b.md")).unwrap();

    assert_eq!(
        world.get(&store, "a.md"),
        Err(StoreError::Io { operation: FileOperation::Read, path: "root/a.md".to_string() })
    );
    let after = world.get(&store, "deep/b.md").unwrap();
    assert_eq!(after.content, before.content);
    assert_eq!(after.metadata, before.metadata);
    let listed = world.list(&store);
    assert!(!listed.iter().any(|r| r.path == "a.md"));
    assert!(listed.iter().any(|r| r.path == "deep/b.md"));
}

#[test]
fn move_of_a_missing_file_fails_at_the_rename() {
    let (store, mut world) = open("root");
    let result = world.run(store.move_note("a.md", "b.md"));
    assert_eq!(
        result,
        Err(StoreError::Io { operation: FileOperation::Rename, path: "root/a.md".to_string() })
    );
}

#[test]
fn delete_is_idempotent() {
    let (store, mut world) = open("root");
    assert_eq!(world.run(store.delete("ghost.md")), Ok(()));
    assert_eq!(world.run(store.delete("ghost.md")), Ok(()));

    world.run(store.create("real.md", "x", None)).unwrap();
    assert_eq!(world.run(store.delete("real.md")), Ok(()));
    assert_eq!(world.run(store.delete("real.md")), Ok(()));
    assert!(world.files.is_empty());
    assert!(world.rows.is_empty());
}

#[test]
fn unsafe_paths_are_refused_by_every_operation() {
    let (store, _) = open("root");
    let refused = |path: &str| StoreError::PathTraversal { path: path.to_string() };
    for path in ["../x.md", "a/../../x.md", "/abs.md", "a/b/../../../c"] {
        assert_eq!(store.secure_join(path), Err(refused(path)));
        assert_eq!(store.get(path, Some("text".to_string())), Err(refused(path)));
        assert_eq!(store.create(path, "c", None), Err(refused(path)));
        assert_eq!(store.create(path, "c", Some(titled("T", None))), Err(refused(path)));
        assert_eq!(store.update(path, Some("text".to_string()), Some("c"), None), Err(refused(path)));
        assert_eq!(store.delete(path), Err(refused(path)));
        assert_eq!(store.move_note(path, "ok.md"), Err(refused(path)));
        assert_eq!(store.move_note("ok.md", path), Err(refused(path)));
    }
    assert_eq!(store.move_note("../a", "../b"), Err(refused("../a")));
}

#[test]
fn paths_that_dip_to_the_root_are_accepted() {
    let (store, _) = open("root");
    assert_eq!(store.secure_join("sub/.."), Ok("root/sub/..".to_string()));
    assert_eq!(store.secure_join("sub/../x.md"), Ok("root/sub/../x.md".to_string()));
    assert_eq!(store.secure_join("./a//b.md"), Ok("root/./a//b.md".to_string()));
    assert_eq!(store.secure_join(""), Ok("root/".to_string()));
}

#[test]
fn get_fails_on_front_matter_that_holds_no_metadata() {
    let (store, _) = open("root");
    let decode = StoreError::Serialize { coding: Coding::Decode };
    // A title must be a text.
    assert_eq!(store.get("n.md", Some("---\ntitle: 12\n---\nbody".to_string())), Err(decode.clone()));
    // Tags must be texts.
    assert_eq!(store.get("n.md", Some("---\ntags: [a, 2]\n---\nbody".to_string())), Err(decode.clone()));
    // Front matter must be a mapping.
    assert_eq!(store.get("n.md", Some("---\n- a\n- b\n---\nbody".to_string())), Err(decode.clone()));
    // Front matter that cannot be read at all.
    assert_eq!(store.get("n.md", Some("---\ntitle:\n\tinvalid\n---\nContent".to_string())), Err(decode));
    // A null leaves a field unset.
    let note = store.get("n.md", Some("---\ntitle: ~\ntags: null\nother: 1\n---\nbody".to_string())).unwrap();
    assert_eq!(note.metadata.title, None);
    assert_eq!(note.metadata.tags, None);
    assert_eq!(note.metadata.extra, vec![("other".to_string(), Node::Integer(1))]);
    assert_eq!(note.content, "body");
}

#[test]
fn get_without_front_matter_has_no_metadata() {
    let (store, _) = open("root");
    let note = store.get("n.md", Some("just text".to_string())).unwrap();
    assert_eq!(note.metadata, Metadata::empty());
    assert_eq!(note.content, "just text");
    assert_eq!(note.path, "n.md");
}

#[test]
fn sync_indexes_markdown_files_only() {
    let (store, mut world) = open("root");
    world.rows.push(summary("stale.md", Some("Stale")));
    let file = |path: &str, text: Option<&str>| ScannedFile {
        path: path.to_string(),
        is_file: true,
        text: text.map(String::from),
    };
    let scanned = vec![
        ScannedFile { path: "root".to_string(), is_file: false, text: None },
        file("root/z.md", Some("---\ntitle: Zed\n---\n")),
        file("root/notes.txt", Some("---\ntitle: Text\n---\n")),
        ScannedFile { path: "root/dir.md".to_string(), is_file: false, text: None },
        file("root/sub/a.md", Some("no front matter")),
        file("root/picture.png", None),
        file("root/broken.md", Some("---\ntitle: [1, 2\n---\nbody")),
        file("root/unreadable.md", None),
        file("root/.hidden.md", Some("---\ntitle: 5\n---\n")),
        file("root/README", Some("text")),
    ];
    world.run(store.sync(scanned)).unwrap();
    assert_eq!(
        world.list(&store),
        vec![
            summary(".hidden.md", Some(".hidden")),
            summary("broken.md", Some("broken")),
            summary("sub/a.md", Some("a")),
            summary("unreadable.md", Some("unreadable")),
            summary("z.md", Some("Zed")),
        ]
    );
}

#[test]
fn sync_refuses_a_file_outside_the_root() {
    let (store, _) = open("root");
    let scanned = vec![
        ScannedFile { path: "root/a.md".to_string(), is_file: true, text: None },
        ScannedFile { path: "elsewhere/b.md".to_string(), is_file: true, text: None },
        ScannedFile { path: "other/c.md".to_string(), is_file: true, text: None },
    ];
    assert_eq!(store.sync(scanned), Err(StoreError::PathTraversal { path: "elsewhere/b.md".to_string() }));
}

#[test]
fn list_orders_rows_by_path() {
    let (store, _) = open("root");
    let rows = vec![
        summary("b.md", None),
        summary("a/z.md", Some("Z")),
        summary("a.md", Some("A")),
        summary("B.md", None),
        summary("ä.md", None),
        summary("a", None),
    ];
    let listed = store.list(rows);
    let paths: Vec<&str> = listed.iter().map(|r| r.path.as_str()).collect();
    assert_eq!(paths, vec!["B.md", "a", "a.md", "a/z.md", "b.md", "ä.md"]);
    assert_eq!(listed[2].title.as_deref(), Some("A"));
}

#[test]
fn search_matches_path_or_title() {
    let (store, _) = open("root");
    let rows = vec![
        summary("journal/monday.md", Some("Week start")),
        summary("ideas.md", Some("My Ideas")),
        summary("untitled.md", None),
        summary("100%.md", Some("Percent")),
    ];
    let paths = |query: &str| -> Vec<String> {
        store.search(query, rows.clone()).into_iter().map(|r| r.path).collect()
    };
    assert_eq!(paths("Ideas"), vec!["ideas.md"]);
    // ASCII letters match in either case.
    assert_eq!(paths("WEEK"), vec!["journal/monday.md"]);
    assert_eq!(paths("journal"), vec!["journal/monday.md"]);
    // A row without a title matches by its path only.
    assert_eq!(paths("untitled"), vec!["untitled.md"]);
    // Every row matches the empty query.
    assert_eq!(paths("").len(), 4);
    // `_` stands for any one character, `%` for any run of them.
    assert_eq!(paths("id_as"), vec!["ideas.md"]);
    assert_eq!(paths("j%y"), vec!["journal/monday.md"]);
    assert_eq!(paths("%"), vec!["journal/monday.md", "ideas.md", "untitled.md", "100%.md"]);
    assert_eq!(paths("nothing like it"), Vec::<String>::new());
}

#[test]
fn failures_name_the_step() {
    let write = Step::WriteFile { path: "root/a.md".to_string(), text: "t".to_string() };
    assert_eq!(write.failure(), StoreError::Io { operation: FileOperation::Write, path: "root/a.md".to_string() });
    assert_eq!(write.failure().message(), "Failed to write file: root/a.md");
    let dirs = Step::CreateParentDirs { path: "root/a/b.md".to_string() };
    assert_eq!(dirs.failure().message(), "Failed to create directories for: root/a/b.md");
    let remove = Step::RemoveFile { path: "root/a.md".to_string() };
    assert_eq!(remove.failure().message(), "Failed to remove file: root/a.md");
    let rename = Step::RenameFile { from: "x".to_string(), to: "y".to_string() };
    assert_eq!(rename.failure().message(), "Failed to rename file: x");
    let open = Step::OpenIndex { path: "db".to_string() };
    assert_eq!(open.failure(), StoreError::Index { operation: IndexOperation::Open });
    let rebuild = Step::ReplaceRows { rows: Vec::new() };
    assert_eq!(rebuild.failure(), StoreError::Index { operation: IndexOperation::Rebuild });
    let upsert = Step::UpsertRow { path: "p".to_string(), title: None };
    assert_eq!(upsert.failure(), StoreError::Index { operation: IndexOperation::Upsert });
    let title = Step::SetTitle { path: "p".to_string(), title: "t".to_string() };
    assert_eq!(title.failure(), StoreError::Index { operation: IndexOperation::SetTitle });
    let remove = Step::RemoveRow { path: "p".to_string() };
    assert_eq!(remove.failure(), StoreError::Index { operation: IndexOperation::Remove });
    let rename = Step::RenameRow { from: "p".to_string(), to: "q".to_string() };
    assert_eq!(rename.failure(), StoreError::Index { operation: IndexOperation::Rename });
    assert_eq!(
        StoreError::PathTraversal { path: "../x".to_string() }.message(),
        "Path traversal attempt detected: ../x"
    );
    assert_eq!(StoreError::Serialize { coding: Coding::Encode }.message(), "Failed to serialize metadata");
    assert_eq!(
        StoreError::Serialize { coding: Coding::Decode }.message(),
        "Failed to read front matter as metadata"
    );
    assert_eq!(StoreError::Io { operation: FileOperation::Read, path: "f".to_string() }.message(), "Failed to read file: f");
}

#[test]
fn numbers_survive_an_update() {
    let (store, mut world) = open("root");
    let text = "---\nbig: 1e100\nsmall: 1.5e-7\nwhole: 3.0\nminus: -0.25\ncount: 42\nlow: -9223372036854775808\ntitle: N\n---\nbody\n";
    world.files.insert("root/n.md".to_string(), text.to_string());
    let first = world.get(&store, "n.md").unwrap();
    assert_eq!(
        first.metadata.extra,
        vec![
            ("big".to_string(), Node::Float("1e100".to_string())),
            ("count".to_string(), Node::Integer(42)),
            ("low".to_string(), Node::Integer(i64::MIN)),
            ("minus".to_string(), Node::Float("-0.25".to_string())),
            ("small".to_string(), Node::Float("1.5e-7".to_string())),
            ("whole".to_string(), Node::Float("3.0".to_string())),
        ]
    );
    assert_eq!(first.content, "body\n");

    world.update(&store, "n.md", None, None).unwrap();
    let second = world.get(&store, "n.md").unwrap();
    assert_eq!(second, first);

    world.update(&store, "n.md", Some("other"), Some("M")).unwrap();
    let third = world.get(&store, "n.md").unwrap();
    assert_eq!(third.metadata.extra, first.metadata.extra);
    assert_eq!(third.metadata.title.as_deref(), Some("M"));
    assert_eq!(third.content, "other");
}

#[test]
fn a_body_that_looks_like_front_matter_is_read_as_front_matter() {
    let (store, mut world) = open("root");
    world.run(store.create("a.md", "---\nx: 1\n---\nbody", None)).unwrap();
    let note = world.get(&store, "a.md").unwrap();
    assert_eq!(note.content, "body");
    assert_eq!(note.metadata.extra, vec![("x".to_string(), Node::Integer(1))]);
}

#[test]
fn metadata_that_keeps_in_yaml_reads_back() {
    let (store, mut world) = open("root");
    let titles = [
        "Plain", "inf", "NaN", ".nan", "infinity", "yes", "no", "on", "0x1F", "0o17", "1_000", "~", "null", "true",
        "", " lead", "trail ", "multi\nline\n", "---", "- x", "a: b", "# not a comment", "12", "1e3", "+1", ".5",
        "'quoted'", "\"double\"", "ünïcode 日本", "tab\there", "{x}", "[y]", "*star", "&and", "!tag", "%pct", "@at",
    ];
    let mut kept = 0;
    for title in titles {
        let metadata = Metadata {
            title: Some(title.to_string()),
            tags: Some(vec![title.to_string()]),
            created_at: None,
            updated_at: Some(title.to_string()),
            extra: vec![("k".to_string(), Node::String(title.to_string()))],
        };
        let keeps = metadata.keeps_in_yaml();
        world.run(store.create("t.md", "body\n", Some(metadata.clone()))).unwrap();
        let read = world.get(&store, "t.md");
        let expected = Note { path: "t.md".to_string(), metadata, content: "body\n".to_string() };
        assert_eq!(keeps, read == Ok(expected), "title {:?}", title);
        if keeps {
            kept += 1;
        }
    }
    assert!(kept >= 20, "only {} of the titles are kept", kept);

    // Metadata that is not in normal form is not kept as it is.
    let unordered = Metadata {
        extra: vec![("b".to_string(), Node::Null), ("a".to_string(), Node::Null)],
        ..Metadata::empty()
    };
    assert!(!unordered.extra_in_normal_form());
    assert!(!unordered.keeps_in_yaml());
    assert!(unordered.normalized().keeps_in_yaml());
    assert!(Metadata::empty().keeps_in_yaml());
}
