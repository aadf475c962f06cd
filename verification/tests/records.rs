use extt_core::error::{Coding, StoreError};
use extt_core::node::Node;
use extt_core::path::relative_to;
use extt_core::settings::{default_db_path, default_notes_dir, ExttConfig, Settings, Theme, ThemeColors};
use extt_core::text::{chars_of, str_eq, str_le};
use extt_core::types::{Metadata, Note};

fn text(s: &str) -> Node {
    Node::String(s.to_string())
}

fn mapping(entries: Vec<(&str, Node)>) -> Node {
    Node::Mapping(entries.into_iter().map(|(k, v)| (k.to_string(), v)).collect())
}

#[test]
fn metadata_is_read_out_of_a_mapping() {
    let node = mapping(vec![
        ("zeta", Node::Integer(1)),
        ("title", text("T")),
        ("tags", Node::Sequence(vec![text("a"), text("b")])),
        ("alpha", Node::Null),
        ("created_at", text("2024")),
        ("updated_at", Node::Null),
    ]);
    let metadata = Metadata::from_node(node).unwrap();
    assert_eq!(metadata.title.as_deref(), Some("T"));
    assert_eq!(metadata.tags, Some(vec!["a".to_string(), "b".to_string()]));
    assert_eq!(metadata.created_at.as_deref(), Some("2024"));
    assert_eq!(metadata.updated_at, None);
    // The other entries come in ascending order of key.
    assert_eq!(metadata.extra, vec![("alpha".to_string(), Node::Null), ("zeta".to_string(), Node::Integer(1))]);
}

#[test]
fn the_first_entry_of_a_key_counts() {
    let node = mapping(vec![
        ("title", text("first")),
        ("x", text("1")),
        ("title", Node::Integer(2)),
        ("b", Node::Null),
        ("x", text("2")),
        ("a", Node::Bool(true)),
        ("b", Node::Integer(3)),
    ]);
    let metadata = Metadata::from_node(node).unwrap();
    assert_eq!(metadata.title.as_deref(), Some("first"));
    assert_eq!(
        metadata.extra,
        vec![("a".to_string(), Node::Bool(true)), ("b".to_string(), Node::Null), ("x".to_string(), text("1"))]
    );
}

#[test]
fn metadata_of_another_shape_is_refused() {
    let refused = Err(StoreError::Serialize { coding: Coding::Decode });
    assert_eq!(Metadata::from_node(Node::Null), refused);
    assert_eq!(Metadata::from_node(text("title")), refused);
    assert_eq!(Metadata::from_node(Node::Sequence(vec![])), refused);
    assert_eq!(Metadata::from_node(mapping(vec![("title", Node::Bool(true))])), refused);
    assert_eq!(Metadata::from_node(mapping(vec![("created_at", Node::Integer(2024))])), refused);
    assert_eq!(Metadata::from_node(mapping(vec![("updated_at", Node::Float("1.5".to_string()))])), refused);
    assert_eq!(Metadata::from_node(mapping(vec![("tags", text("one"))])), refused);
    assert_eq!(Metadata::from_node(mapping(vec![("tags", Node::Sequence(vec![text("a"), Node::Null]))])), refused);
    assert_eq!(Metadata::from_node(mapping(vec![])), Ok(Metadata::empty()));
    assert_eq!(
        Metadata::from_node(mapping(vec![("tags", Node::Sequence(vec![]))])).unwrap().tags,
        Some(Vec::new())
    );
}

#[test]
fn the_order_of_entries_does_not_count() {
    let one = mapping(vec![("k", Node::Integer(1)), ("tags", Node::Null), ("a", text("x")), ("title", text("T"))]);
    let other = mapping(vec![("title", text("T")), ("a", text("x")), ("k", Node::Integer(1))]);
    assert_eq!(Metadata::from_node(one), Metadata::from_node(other));
}

#[test]
fn metadata_as_front_matter_starts_with_its_fields() {
    let metadata = Metadata {
        title: Some("T".to_string()),
        tags: None,
        created_at: None,
        updated_at: Some("now".to_string()),
        extra: vec![("k".to_string(), Node::Bool(false))],
    };
    let node = metadata.clone().into_node();
    assert_eq!(
        node,
        mapping(vec![
            ("title", text("T")),
            ("tags", Node::Null),
            ("created_at", Node::Null),
            ("updated_at", text("now")),
            ("k", Node::Bool(false)),
        ])
    );
    assert_eq!(Metadata::from_node(node), Ok(metadata));
}

#[test]
fn yaml_of_metadata() {
    let metadata = Metadata {
        title: Some("A: B".to_string()),
        tags: Some(vec!["x".to_string()]),
        created_at: None,
        updated_at: None,
        extra: vec![
            ("count".to_string(), Node::Integer(3)),
            ("ratio".to_string(), Node::Float("0.5".to_string())),
            ("list".to_string(), Node::Sequence(vec![Node::Bool(true), Node::Null])),
        ],
    };
    let yaml = metadata.to_yaml().unwrap();
    assert_eq!(
        yaml,
        "title: 'A: B'\ntags:\n- x\ncreated_at: null\nupdated_at: null\ncount: 3\nratio: 0.5\nlist:\n- true\n- null\n"
    );
}

#[test]
fn revised_notes() {
    let note = Note {
        path: "p.md".to_string(),
        metadata: Metadata { title: Some("Old".to_string()), tags: Some(vec!["t".to_string()]), ..Metadata::empty() },
        content: "old".to_string(),
    };
    let same = note.clone().revised(None, None);
    assert_eq!(same, note);
    let body = note.clone().revised(Some("new"), None);
    assert_eq!(body.content, "new");
    assert_eq!(body.metadata, note.metadata);
    let title = note.clone().revised(None, Some("New"));
    assert_eq!(title.content, "old");
    assert_eq!(title.metadata.title.as_deref(), Some("New"));
    assert_eq!(title.metadata.tags, note.metadata.tags);
    assert_eq!(title.path, "p.md");
}

#[test]
fn a_copy_of_a_node_is_equal_to_it() {
    let node = mapping(vec![
        ("a", Node::Sequence(vec![Node::Integer(1), text("x"), Node::Float("2.5".to_string())])),
        ("b", mapping(vec![("c", Node::Null), ("d", Node::Bool(true))])),
    ]);
    assert_eq!(node.clone(), node);
}

#[test]
fn texts_are_ordered_by_their_bytes() {
    assert!(str_le("", ""));
    assert!(str_le("", "a"));
    assert!(!str_le("a", ""));
    assert!(str_le("a", "a"));
    assert!(str_le("a", "ab"));
    assert!(!str_le("ab", "a"));
    assert!(str_le("B", "a"));
    assert!(!str_le("a", "B"));
    assert!(str_le("a.md", "a/b"));
    assert!(str_le("z", "ä"));
    assert!(str_le("ä", "日"));
    assert!(str_eq("日本", "日本"));
    assert!(!str_eq("a", "A"));
    assert!(!str_eq("a", "ab"));
    assert_eq!(chars_of("aä日"), vec!['a', 'ä', '日']);
}

#[test]
fn the_rest_of_a_path_behind_the_root() {
    assert_eq!(relative_to("root", "root/a/b.md"), Some("a/b.md".to_string()));
    assert_eq!(relative_to("root/", "root/a/b.md"), Some("a/b.md".to_string()));
    assert_eq!(relative_to("", "a/b.md"), Some("a/b.md".to_string()));
    assert_eq!(relative_to("root", "root/"), Some("".to_string()));
    assert_eq!(relative_to("root", "root"), None);
    assert_eq!(relative_to("root", "rootling/a.md"), None);
    assert_eq!(relative_to("root", "other/a.md"), None);
    assert_eq!(relative_to("ö", "ö/ä.md"), Some("ä.md".to_string()));
}

#[test]
fn settings_of_a_first_start() {
    let settings = Settings::initial(Some("/home/me"), Some("/home/me/.config"));
    assert_eq!(settings.notes_dir, "/home/me/Notes");
    assert_eq!(settings.db_path, "/home/me/.config/extt/index.db");
    assert_eq!(settings.vault_path, ".");
    assert_eq!(settings.theme, "Dark");

    let settings = Settings::initial(None, None);
    assert_eq!(settings.notes_dir, "./Notes");
    assert_eq!(settings.db_path, "./index.db");
    assert_eq!(default_notes_dir(Some("/")), "/Notes");
    assert_eq!(default_db_path(Some("cfg/")), "cfg/extt/index.db");
}

#[test]
fn themes_and_window_configuration() {
    let theme = Theme {
        name: "Dark".to_string(),
        colors: ThemeColors { bg_base: "#111111".to_string(), text_base: "#eeeeee".to_string() },
    };
    assert_eq!(theme.clone(), theme);
    assert_eq!(theme.colors.bg_base, "#111111");
    assert_eq!(format!("{:?}", ExttConfig::default()), "ExttConfig { vault_path: \"\" }");
}

#[test]
fn a_float_that_is_no_number_is_written_as_a_string() {
    let metadata = Metadata {
        extra: vec![
            ("a".to_string(), Node::Float("[1, 2]".to_string())),
            ("b".to_string(), Node::Float("inf".to_string())),
            ("c".to_string(), Node::Float("2.5".to_string())),
        ],
        ..Metadata::empty()
    };
    let yaml = metadata.to_yaml().unwrap();
    assert!(yaml.ends_with("a: '[1, 2]'\nb: inf\nc: 2.5\n"), "{}", yaml);
}

#[test]
fn metadata_in_normal_form() {
    let metadata = Metadata {
        title: Some("T".to_string()),
        extra: vec![
            ("z".to_string(), Node::Integer(1)),
            ("title".to_string(), Node::Null),
            ("a".to_string(), Node::Integer(2)),
            ("z".to_string(), Node::Integer(3)),
            ("m".to_string(), Node::Null),
        ],
        ..Metadata::empty()
    };
    let normal = metadata.normalized();
    assert_eq!(normal.title.as_deref(), Some("T"));
    assert_eq!(
        normal.extra,
        vec![("a".to_string(), Node::Integer(2)), ("m".to_string(), Node::Null), ("z".to_string(), Node::Integer(1))]
    );
    assert_eq!(normal.clone().normalized(), normal);
    assert_eq!(Metadata::from_node(normal.clone().into_node()), Ok(normal));
}
