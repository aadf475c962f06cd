use extt_core::error::{IndexOperation, StoreError};
use extt_core::store::{ScannedFile, Step, Store};
use extt_core::types::{Metadata, NoteSummary};
use rusqlite::Connection;

const TABLE: &str = "CREATE TABLE IF NOT EXISTS notes (
    id INTEGER PRIMARY KEY,
    path TEXT NOT NULL UNIQUE,
    title TEXT,
    created_at TEXT,
    updated_at TEXT
)";

/// An index in memory, on which the steps of the store are carried out as SQL.
struct Index {
    conn: Connection,
}

impl Index {
    fn open() -> Index {
        let conn = Connection::open_in_memory().unwrap();
        conn.execute(TABLE, ()).unwrap();
        Index { conn }
    }

    fn perform(&mut self, step: &Step) -> rusqlite::Result<()> {
        match step {
            Step::OpenIndex { .. } => self.conn.execute(TABLE, ()).map(|_| ()),
            Step::ReplaceRows { rows } => {
                let tx = self.conn.transaction()?;
                tx.execute("DELETE FROM notes", ())?;
                for row in rows {
                    tx.execute("INSERT INTO notes (path, title) VALUES (?1, ?2)", (&row.path, &row.title))?;
                }
                tx.commit()
            }
            Step::UpsertRow { path, title } => self
                .conn
                .execute("INSERT OR REPLACE INTO notes (path, title) VALUES (?1, ?2)", (path, title))
                .map(|_| ()),
            Step::SetTitle { path, title } => {
                self.conn.execute("UPDATE notes SET title = ?1 WHERE path = ?2", (title, path)).map(|_| ())
            }
            Step::RemoveRow { path } => self.conn.execute("DELETE FROM notes WHERE path = ?1", (path,)).map(|_| ()),
            Step::RenameRow { from, to } => {
                self.conn.execute("UPDATE notes SET path = ?1 WHERE path = ?2", (to, from)).map(|_| ())
            }
            _ => Ok(()),
        }
    }

    fn run(&mut self, steps: Result<Vec<Step>, StoreError>) -> Result<(), StoreError> {
        for step in steps.unwrap() {
            if self.perform(&step).is_err() {
                return Err(step.failure());
            }
        }
        Ok(())
    }

    fn rows(&self) -> Vec<NoteSummary> {
        let mut stmt = self.conn.prepare("SELECT path, title FROM notes").unwrap();
        let rows = stmt.query_map((), |row| Ok(NoteSummary { path: row.get(0)?, title: row.get(1)? })).unwrap();
        rows.map(|row| row.unwrap()).collect()
    }

    /// What SQLite itself finds for a query, to hold the search of the store against.
    fn like(&self, query: &str) -> Vec<String> {
        let mut stmt = self.conn.prepare("SELECT path FROM notes WHERE title LIKE ?1 OR path LIKE ?1").unwrap();
        let pattern = format!("%{}%", query);
        let rows = stmt.query_map((pattern,), |row| row.get::<_, String>(0)).unwrap();
        let mut paths: Vec<String> = rows.map(|row| row.unwrap()).collect();
        paths.sort();
        paths
    }
}

fn store() -> Store {
    Store::new("root".to_string(), "index.db".to_string()).0
}

fn summary(path: &str, title: Option<&str>) -> NoteSummary {
    NoteSummary { path: path.to_string(), title: title.map(String::from) }
}

fn titled(title: &str) -> Metadata {
    Metadata { title: Some(title.to_string()), ..Metadata::empty() }
}

#[test]
fn test_store_new_creates_table() {
    let (_, steps) = Store::new("creates_table/notes".to_string(), "creates_table/extt.db".to_string());
    assert_eq!(steps.last(), Some(&Step::OpenIndex { path: "creates_table/extt.db".to_string() }));
    let mut index = Index { conn: Connection::open_in_memory().unwrap() };
    index.run(Ok(steps)).unwrap();
    let mut stmt = index.conn.prepare("SELECT name FROM sqlite_master WHERE type='table' AND name='notes'").unwrap();
    assert!(stmt.exists(()).unwrap());
}

#[test]
fn test_store_new_opens_existing_db() {
    let mut index = Index::open();
    index.run(store().create("kept.md", "x", None)).unwrap();
    let (_, steps) = Store::new("root".to_string(), "index.db".to_string());
    assert!(index.run(Ok(steps)).is_ok());
    assert_eq!(index.rows(), vec![summary("kept.md", Some("kept"))]);
}

#[test]
fn index_steps_on_sqlite() {
    let store = store();
    let mut index = Index::open();

    index.run(store.create("a/b.md", "hello", Some(titled("B")))).unwrap();
    assert_eq!(store.list(index.rows()), vec![summary("a/b.md", Some("B"))]);

    // Creating again replaces the row.
    index.run(store.create("a/b.md", "hello", Some(titled("B2")))).unwrap();
    index.run(store.create("z.md", "", None)).unwrap();
    assert_eq!(store.list(index.rows()), vec![summary("a/b.md", Some("B2")), summary("z.md", Some("z"))]);

    index.run(store.move_note("a/b.md", "a/c.md")).unwrap();
    assert_eq!(store.list(index.rows()), vec![summary("a/c.md", Some("B2")), summary("z.md", Some("z"))]);

    // A row cannot take the path of another row.
    assert_eq!(
        index.run(store.move_note("a/c.md", "z.md")),
        Err(StoreError::Index { operation: IndexOperation::Rename })
    );
    // Moving a note without a row, or onto itself, leaves the index alone.
    index.run(store.move_note("nowhere.md", "z.md")).unwrap();
    index.run(store.move_note("z.md", "z.md")).unwrap();
    assert_eq!(store.list(index.rows()), vec![summary("a/c.md", Some("B2")), summary("z.md", Some("z"))]);

    // A title is set on the row that is there, and on no other.
    index.run(store.write_back("a/c.md", "body", "title: C\n", Some("C".to_string()))).unwrap();
    index.run(store.write_back("missing.md", "body", "title: M\n", Some("M".to_string()))).unwrap();
    index.run(store.write_back("z.md", "body", "", None)).unwrap();
    assert_eq!(store.list(index.rows()), vec![summary("a/c.md", Some("C")), summary("z.md", Some("z"))]);

    index.run(store.delete("a/c.md")).unwrap();
    index.run(store.delete("a/c.md")).unwrap();
    assert_eq!(store.list(index.rows()), vec![summary("z.md", Some("z"))]);
}

#[test]
fn sync_replaces_all_rows_on_sqlite() {
    let store = store();
    let mut index = Index::open();
    index.run(store.create("stale.md", "", None)).unwrap();

    let file = |path: &str, text: &str| ScannedFile { path: path.to_string(), is_file: true, text: Some(text.to_string()) };
    let scanned = vec![
        file("root/b.md", "---\ntitle: Bee\n---\n"),
        file("root/a.md", "plain"),
        file("root/skip.txt", "plain"),
    ];
    index.run(store.sync(scanned)).unwrap();
    assert_eq!(store.list(index.rows()), vec![summary("a.md", Some("a")), summary("b.md", Some("Bee"))]);

    // Rows of the same path cannot be inserted, and the rows before stay.
    let twice = vec![file("root/c.md", "one"), file("root/c.md", "two")];
    assert_eq!(index.run(store.sync(twice)), Err(StoreError::Index { operation: IndexOperation::Rebuild }));
    assert_eq!(store.list(index.rows()), vec![summary("a.md", Some("a")), summary("b.md", Some("Bee"))]);

    index.run(store.sync(Vec::new())).unwrap();
    assert_eq!(index.rows(), Vec::<NoteSummary>::new());
}

#[test]
fn search_agrees_with_sqlite() {
    let store = store();
    let mut index = Index::open();
    let rows = vec![
        summary("journal/monday.md", Some("Week start")),
        summary("ideas.md", Some("My Ideas")),
        summary("untitled.md", None),
        summary("100%.md", Some("Percent_age")),
        summary("ünïcode.md", Some("ÄÖ Über")),
        summary("a_b.md", Some("")),
        summary("", Some("empty path")),
    ];
    index.perform(&Step::ReplaceRows { rows }).unwrap();
    let queries = [
        "", "Ideas", "ideas", "IDEAS", "week", "md", "%", "_", "__", "0%", "%%", "j%y", "id_as", "a_b", "a%b",
        "untitled", "Über", "über", "ÄÖ", "äö", "ünï", "100%.md", "_d", "x", "empty path", " ", "%.md%",
    ];
    for query in queries {
        let mut found: Vec<String> = store.search(query, index.rows()).into_iter().map(|r| r.path).collect();
        found.sort();
        assert_eq!(found, index.like(query), "query {:?}", query);
    }
}

#[test]
fn list_orders_as_sqlite_does() {
    let store = store();
    let mut index = Index::open();
    let rows = vec![
        summary("b.md", None),
        summary("a/z.md", None),
        summary("a.md", None),
        summary("B.md", None),
        summary("ä.md", None),
        summary("a", None),
        summary("a b.md", None),
        summary("Z/1.md", None),
        summary("", None),
        summary("日本.md", None),
    ];
    index.perform(&Step::ReplaceRows { rows }).unwrap();
    let mut stmt = index.conn.prepare("SELECT path FROM notes ORDER BY path").unwrap();
    let ordered: Vec<String> = stmt.query_map((), |row| row.get(0)).unwrap().map(|row| row.unwrap()).collect();
    let listed: Vec<String> = store.list(index.rows()).into_iter().map(|r| r.path).collect();
    assert_eq!(listed, ordered);
}
