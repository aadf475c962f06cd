//! The records that the store hands out: a note, its metadata, and its line in the index.

use vstd::prelude::*;
use crate::error::{Coding, ErrorView, StoreError};
use crate::node::{entries_view, items_view, lemma_view_of_collections, Node, Tree};
use crate::text::{lemma_text_le_order, str_eq, str_le, text_le};
use crate::document::{front_is_plain, is_plain_front};
use crate::yaml::{parse_yaml, yaml_text, yaml_text_of, yaml_tree_of};

verus! {

/// The metadata of a note, as its front matter holds it.
#[derive(Debug, PartialEq)]
pub struct Metadata {
    /// The title of the note.
    pub title: Option<String>,
    /// The tags of the note, in order.
    pub tags: Option<Vec<String>>,
    /// When the note was created, as text.
    pub created_at: Option<String>,
    /// When the note was last changed, as text.
    pub updated_at: Option<String>,
    /// Every other field of the front matter. In normal form the keys ascend, so that
    /// none comes twice, and none is the name of a field above; that is how metadata
    /// is read, and only metadata in that form is read back as it was written.
    pub extra: Vec<(String, Node)>,
}

/// What a [`Metadata`] stands for.
pub struct MetadataView {
    pub title: Option<Seq<char>>,
    pub tags: Option<Seq<Seq<char>>>,
    pub created_at: Option<Seq<char>>,
    pub updated_at: Option<Seq<char>>,
    pub extra: Seq<(Seq<char>, Tree)>,
}

/// A note: where it lies under the root, its metadata, and its body.
#[derive(Debug, Clone, PartialEq)]
pub struct Note {
    pub path: String,
    pub metadata: Metadata,
    pub content: String,
}

/// What a [`Note`] stands for.
pub struct NoteView {
    pub path: Seq<char>,
    pub metadata: MetadataView,
    pub content: Seq<char>,
}

/// The line of a note in the index.
#[derive(Debug, Clone, PartialEq)]
pub struct NoteSummary {
    pub path: String,
    pub title: Option<String>,
}

/// What a [`NoteSummary`] stands for.
pub struct SummaryView {
    pub path: Seq<char>,
    pub title: Option<Seq<char>>,
}

/// The characters of an optional string.
pub open spec fn text_view(text: Option<String>) -> Option<Seq<char>> {
    match text {
        Some(s) => Some(s@),
        None => None,
    }
}

/// The characters of each of some optional strings.
pub open spec fn texts_view(texts: Option<Vec<String>>) -> Option<Seq<Seq<char>>> {
    match texts {
        Some(v) => Some(v.deep_view()),
        None => None,
    }
}

impl View for Metadata {
    type V = MetadataView;

    open spec fn view(&self) -> MetadataView {
        MetadataView {
            title: text_view(self.title),
            tags: texts_view(self.tags),
            created_at: text_view(self.created_at),
            updated_at: text_view(self.updated_at),
            extra: entries_view(self.extra@),
        }
    }
}

impl View for Note {
    type V = NoteView;

    open spec fn view(&self) -> NoteView {
        NoteView { path: self.path@, metadata: self.metadata@, content: self.content@ }
    }
}

impl View for NoteSummary {
    type V = SummaryView;

    open spec fn view(&self) -> SummaryView {
        SummaryView { path: self.path@, title: text_view(self.title) }
    }
}

/// Metadata with no field set.
pub open spec fn no_metadata() -> MetadataView {
    MetadataView {
        title: None,
        tags: None,
        created_at: None,
        updated_at: None,
        extra: Seq::empty(),
    }
}

/// The note that a file holds, given the front matter and the body that were read
/// out of it. Without front matter the note has no metadata; front matter that
/// does not hold metadata is an error.
pub open spec fn note_of(path: Seq<char>, data: Option<Tree>, content: Seq<char>) -> Result<
    NoteView,
    ErrorView,
> {
    match data {
        None => Ok(NoteView { path, metadata: no_metadata(), content }),
        Some(tree) => match metadata_of(tree) {
            Some(metadata) => Ok(NoteView { path, metadata, content }),
            None => Err(ErrorView::Serialize { coding: Coding::Decode }),
        },
    }
}

/// What the outcome of reading a note stands for.
pub open spec fn note_outcome(r: Result<Note, StoreError>) -> Result<NoteView, ErrorView> {
    match r {
        Ok(note) => Ok(note@),
        Err(e) => Err(e@),
    }
}

/// A note with its body replaced, where a new one is given, and its title set,
/// where one is given. Everything else stays.
pub open spec fn revised(
    note: NoteView,
    content: Option<Seq<char>>,
    title: Option<Seq<char>>,
) -> NoteView {
    NoteView {
        path: note.path,
        metadata: MetadataView {
            title: match title {
                Some(t) => Some(t),
                None => note.metadata.title,
            },
            ..note.metadata
        },
        content: match content {
            Some(c) => c,
            None => note.content,
        },
    }
}

/// The characters of an optional string slice.
pub open spec fn str_view(text: Option<&str>) -> Option<Seq<char>> {
    match text {
        Some(s) => Some(s@),
        None => None,
    }
}

/// The keys of front matter that [`Metadata`] has a field for.
pub open spec fn is_modeled_key(key: Seq<char>) -> bool {
    key == "title"@ || key == "tags"@ || key == "created_at"@ || key == "updated_at"@
}

/// The value of the first entry with the given key.
pub open spec fn lookup(entries: Seq<(Seq<char>, Tree)>, key: Seq<char>) -> Option<Tree>
    decreases entries.len(),
{
    if entries.len() == 0 {
        None
    } else if entries[0].0 == key {
        Some(entries[0].1)
    } else {
        lookup(entries.skip(1), key)
    }
}

/// An optional text field. A missing entry and a null both mean that the field is
/// not set; anything but a text does not fit, and the outcome is `None`.
pub open spec fn optional_text(found: Option<Tree>) -> Option<Option<Seq<char>>> {
    match found {
        None => Some(None),
        Some(Tree::Null) => Some(None),
        Some(Tree::Text(s)) => Some(Some(s)),
        Some(_) => None,
    }
}

/// Every item is a text.
pub open spec fn all_text(items: Seq<Tree>) -> bool {
    forall|i: int| 0 <= i < items.len() ==> items[i] is Text
}

/// The texts of a list of texts.
pub open spec fn texts_of(items: Seq<Tree>) -> Seq<Seq<char>> {
    Seq::new(items.len(), |i: int| items[i]->Text_0)
}

/// An optional field that lists texts, read as [`optional_text`] reads a text.
pub open spec fn optional_texts(found: Option<Tree>) -> Option<Option<Seq<Seq<char>>>> {
    match found {
        None => Some(None),
        Some(Tree::Null) => Some(None),
        Some(Tree::List(items)) => if all_text(items) {
            Some(Some(texts_of(items)))
        } else {
            None
        },
        Some(_) => None,
    }
}

/// Each key comes before the keys behind it, and equals none of them.
pub open spec fn keys_ascend(entries: Seq<(Seq<char>, Tree)>) -> bool {
    forall|i: int, j: int|
        #![trigger entries[i], entries[j]]
        0 <= i < j < entries.len() ==> text_le(entries[i].0, entries[j].0) && entries[i].0
            != entries[j].0
}

/// Entries in normal form: the keys ascend, so none comes twice, and none of them is
/// the key of a field of [`Metadata`]. Two mappings with the same entries have the
/// same normal form, in whatever order the entries were given.
pub open spec fn is_normal(entries: Seq<(Seq<char>, Tree)>) -> bool {
    keys_ascend(entries) && forall|i: int|
        0 <= i < entries.len() ==> !is_modeled_key(#[trigger] entries[i].0)
}

/// Where a key belongs among entries whose keys ascend: behind the smaller keys.
pub open spec fn place_of(entries: Seq<(Seq<char>, Tree)>, key: Seq<char>) -> int
    decreases entries.len(),
{
    if entries.len() == 0 {
        0
    } else if text_le(key, entries.last().0) {
        place_of(entries.drop_last(), key)
    } else {
        entries.len() as int
    }
}

/// The entries with one more entry at its place, unless its key is there already.
pub open spec fn with_entry(entries: Seq<(Seq<char>, Tree)>, entry: (Seq<char>, Tree)) -> Seq<
    (Seq<char>, Tree),
> {
    let at = place_of(entries, entry.0);
    if at < entries.len() && entries[at].0 == entry.0 {
        entries
    } else {
        entries.insert(at, entry)
    }
}

/// The entries that [`Metadata`] has no field for, in normal form: in ascending
/// order of key, and of entries with the same key the first.
pub open spec fn normal_extra(entries: Seq<(Seq<char>, Tree)>) -> Seq<(Seq<char>, Tree)>
    decreases entries.len(),
{
    if entries.len() == 0 {
        Seq::empty()
    } else {
        let rest = normal_extra(entries.drop_last());
        if is_modeled_key(entries.last().0) {
            rest
        } else {
            with_entry(rest, entries.last())
        }
    }
}

/// The metadata that front matter holds: the front matter is a mapping, each modeled
/// key holds what its field takes, and the other entries are kept in normal form.
/// Front matter of another shape holds none.
pub open spec fn metadata_of(tree: Tree) -> Option<MetadataView> {
    match tree {
        Tree::Dict(entries) => {
            let title = optional_text(lookup(entries, "title"@));
            let tags = optional_texts(lookup(entries, "tags"@));
            let created_at = optional_text(lookup(entries, "created_at"@));
            let updated_at = optional_text(lookup(entries, "updated_at"@));
            if title is Some && tags is Some && created_at is Some && updated_at is Some {
                Some(
                    MetadataView {
                        title: title->0,
                        tags: tags->0,
                        created_at: created_at->0,
                        updated_at: updated_at->0,
                        extra: normal_extra(entries),
                    },
                )
            } else {
                None
            }
        },
        _ => None,
    }
}

/// A text field as front matter holds it.
pub open spec fn tree_of_text(text: Option<Seq<char>>) -> Tree {
    match text {
        Some(s) => Tree::Text(s),
        None => Tree::Null,
    }
}

/// A field of texts as front matter holds it.
pub open spec fn tree_of_texts(texts: Option<Seq<Seq<char>>>) -> Tree {
    match texts {
        Some(list) => Tree::List(Seq::new(list.len(), |i: int| Tree::Text(list[i]))),
        None => Tree::Null,
    }
}

/// The front matter that holds the given metadata: the four modeled fields in a
/// fixed order, a field that is not set as a null, then the other entries.
pub open spec fn tree_of_metadata(metadata: MetadataView) -> Tree {
    Tree::Dict(modeled_entries(metadata) + metadata.extra)
}

/// The entries of `extra` are in normal form.
pub open spec fn extra_is_normal(metadata: MetadataView) -> bool {
    is_normal(metadata.extra)
}

/// The YAML text of some metadata keeps it: the text is written, it is plain front
/// matter, and what it holds when read as YAML is the metadata again. Whether that
/// is so is up to the code that writes and reads YAML, and only metadata in normal
/// form can be kept; [`Metadata::keeps_in_yaml`] finds out.
pub open spec fn yaml_keeps(metadata: MetadataView) -> bool {
    &&& yaml_text_of(tree_of_metadata(metadata)) matches Some(yaml)
    &&& is_plain_front(yaml)
    &&& metadata_of(yaml_tree_of(yaml)) == Some(metadata)
}

/// Front matter holds the metadata of no other metadata.
pub proof fn lemma_tree_of_metadata_tells_apart(a: MetadataView, b: MetadataView)
    requires
        tree_of_metadata(a) == tree_of_metadata(b),
    ensures
        a == b,
{
    let ea = modeled_entries(a) + a.extra;
    let eb = modeled_entries(b) + b.extra;
    assert(ea == eb);
    assert(ea[0] == eb[0] && ea[1] == eb[1] && ea[2] == eb[2] && ea[3] == eb[3]);
    assert(ea[0] == modeled_entries(a)[0] && eb[0] == modeled_entries(b)[0]);
    assert(ea[1] == modeled_entries(a)[1] && eb[1] == modeled_entries(b)[1]);
    assert(ea[2] == modeled_entries(a)[2] && eb[2] == modeled_entries(b)[2]);
    assert(ea[3] == modeled_entries(a)[3] && eb[3] == modeled_entries(b)[3]);
    assert(a.title == b.title);
    assert(a.created_at == b.created_at);
    assert(a.updated_at == b.updated_at);
    assert(a.tags == b.tags) by {
        match (a.tags, b.tags) {
            (Some(x), Some(y)) => {
                let tx = tree_of_texts(a.tags)->List_0;
                let ty = tree_of_texts(b.tags)->List_0;
                assert(tx == ty);
                assert(x.len() == tx.len() && y.len() == ty.len());
                assert forall|i: int| 0 <= i < x.len() implies x[i] == y[i] by {
                    assert(tx[i] == Tree::Text(x[i]));
                    assert(ty[i] == Tree::Text(y[i]));
                }
                assert(x =~= y);
            },
            _ => {},
        }
    }
    assert(a.extra =~= ea.skip(4));
    assert(b.extra =~= eb.skip(4));
}

/// The first match sits among the entries looked at so far, or else in the next one.
pub proof fn lemma_lookup_push(
    entries: Seq<(Seq<char>, Tree)>,
    entry: (Seq<char>, Tree),
    key: Seq<char>,
)
    ensures
        lookup(entries.push(entry), key) == match lookup(entries, key) {
            Some(found) => Some(found),
            None => if entry.0 == key {
                Some(entry.1)
            } else {
                None
            },
        },
    decreases entries.len(),
{
    let longer = entries.push(entry);
    if entries.len() == 0 {
        assert(longer.skip(1) =~= Seq::empty());
        assert(lookup(longer.skip(1), key) is None);
        assert(longer[0] == entry);
    } else {
        assert(longer[0] == entries[0]);
        assert(longer.skip(1) =~= entries.skip(1).push(entry));
        lemma_lookup_push(entries.skip(1), entry, key);
    }
}

/// The four modeled keys differ from one another.
pub proof fn lemma_modeled_keys_differ()
    ensures
        "title"@ != "tags"@,
        "title"@ != "created_at"@,
        "title"@ != "updated_at"@,
        "tags"@ != "created_at"@,
        "tags"@ != "updated_at"@,
        "created_at"@ != "updated_at"@,
{
    reveal_strlit("title");
    reveal_strlit("tags");
    reveal_strlit("created_at");
    reveal_strlit("updated_at");
    assert("title"@.len() == 5 && "tags"@.len() == 4);
    assert("created_at"@[0] == 'c');
    assert("updated_at"@[0] == 'u');
}

/// Looking a key up goes through the entries from the front.
pub proof fn lemma_lookup_split(entries: Seq<(Seq<char>, Tree)>, at: int, key: Seq<char>)
    requires
        0 <= at <= entries.len(),
    ensures
        lookup(entries, key) == match lookup(entries.take(at), key) {
            Some(found) => Some(found),
            None => lookup(entries.skip(at), key),
        },
    decreases at,
{
    if at == 0 {
        assert(entries.take(0) =~= Seq::empty());
        assert(entries.skip(0) =~= entries);
    } else {
        assert(entries.take(at).skip(1) =~= entries.skip(1).take(at - 1));
        assert(entries.skip(1).skip(at - 1) =~= entries.skip(at));
        lemma_lookup_split(entries.skip(1), at - 1, key);
    }
}

/// What has been read of a field after some of the entries: nothing where the key
/// has not come up, and else what its first entry holds.
spec fn text_read(found: Option<Tree>, seen: Option<Option<String>>) -> bool {
    match found {
        None => seen is None,
        Some(tree) => seen is Some && optional_text(Some(tree)) == Some(text_view(seen->0)),
    }
}

/// As [`text_read`], for a field that lists texts.
spec fn texts_read(found: Option<Tree>, seen: Option<Option<Vec<String>>>) -> bool {
    match found {
        None => seen is None,
        Some(tree) => seen is Some && optional_texts(Some(tree)) == Some(texts_view(seen->0)),
    }
}

/// What [`place_of`] finds: the keys before the place are smaller, and those from
/// the place on are not.
pub proof fn lemma_place_of(entries: Seq<(Seq<char>, Tree)>, key: Seq<char>)
    requires
        keys_ascend(entries),
    ensures
        0 <= place_of(entries, key) <= entries.len(),
        forall|i: int|
            place_of(entries, key) <= i < entries.len() ==> text_le(key, (#[trigger] entries[i]).0),
        forall|i: int|
            0 <= i < place_of(entries, key) ==> text_le((#[trigger] entries[i]).0, key)
                && entries[i].0 != key,
    decreases entries.len(),
{
    if entries.len() > 0 {
        let front = entries.drop_last();
        let last = entries.last().0;
        assert forall|i: int, j: int| 0 <= i < j < front.len() implies text_le(
            front[i].0,
            front[j].0,
        ) && front[i].0 != front[j].0 by {
            assert(front[i] == entries[i] && front[j] == entries[j]);
        }
        if text_le(key, last) {
            lemma_place_of(front, key);
            assert forall|i: int| 0 <= i < place_of(entries, key) implies text_le(
                (#[trigger] entries[i]).0,
                key,
            ) && entries[i].0 != key by {
                assert(front[i] == entries[i]);
            }
            assert forall|i: int| place_of(entries, key) <= i < entries.len() implies text_le(
                key,
                (#[trigger] entries[i]).0,
            ) by {
                if i < front.len() {
                    assert(front[i] == entries[i]);
                }
            }
        } else {
            assert forall|i: int| 0 <= i < entries.len() implies text_le(
                (#[trigger] entries[i]).0,
                key,
            ) && entries[i].0 != key by {
                lemma_text_le_order(entries[i].0, last, key);
                lemma_text_le_order(last, key, key);
                if i < entries.len() - 1 {
                    assert(text_le(entries[i].0, entries[entries.len() - 1].0));
                }
            }
        }
    }
}

/// Keys that ascend still do when an entry is put in.
pub proof fn lemma_with_entry_ascends(entries: Seq<(Seq<char>, Tree)>, entry: (Seq<char>, Tree))
    requires
        keys_ascend(entries),
    ensures
        keys_ascend(with_entry(entries, entry)),
        forall|i: int|
            0 <= i < with_entry(entries, entry).len() ==> (#[trigger] with_entry(
                entries,
                entry,
            )[i]).0 == entry.0 || exists|k: int|
                0 <= k < entries.len() && entries[k] == with_entry(entries, entry)[i],
{
    lemma_place_of(entries, entry.0);
    let at = place_of(entries, entry.0);
    let key = entry.0;
    if !(at < entries.len() && entries[at].0 == key) {
        let longer = entries.insert(at, entry);
        assert forall|i: int, j: int| 0 <= i < j < longer.len() implies text_le(
            longer[i].0,
            longer[j].0,
        ) && longer[i].0 != longer[j].0 by {
            if j < at {
                assert(longer[i] == entries[i] && longer[j] == entries[j]);
            } else if j == at {
                assert(longer[i] == entries[i]);
            } else if i == at {
                assert(longer[j] == entries[j - 1]);
                assert(text_le(key, entries[j - 1].0));
                if entries[j - 1].0 == key {
                    assert(text_le(key, entries[at].0));
                    assert(text_le(entries[at].0, entries[j - 1].0));
                    lemma_text_le_order(key, entries[at].0, key);
                }
            } else if i > at {
                assert(longer[i] == entries[i - 1] && longer[j] == entries[j - 1]);
            } else {
                assert(longer[i] == entries[i] && longer[j] == entries[j - 1]);
                assert(i < j - 1);
            }
        }
        assert forall|i: int| 0 <= i < longer.len() implies (#[trigger] longer[i]).0 == key
            || exists|k: int| 0 <= k < entries.len() && entries[k] == longer[i] by {
            if i < at {
                assert(entries[i] == longer[i]);
            } else if i > at {
                assert(entries[i - 1] == longer[i]);
            }
        }
    } else {
        assert forall|i: int| 0 <= i < entries.len() implies (#[trigger] entries[i]).0 == key
            || exists|k: int| 0 <= k < entries.len() && entries[k] == entries[i] by {}
    }
}

/// Entries in normal form stay so when an entry without a modeled key is put in.
pub proof fn lemma_with_entry_is_normal(entries: Seq<(Seq<char>, Tree)>, entry: (Seq<char>, Tree))
    requires
        is_normal(entries),
        !is_modeled_key(entry.0),
    ensures
        is_normal(with_entry(entries, entry)),
{
    lemma_with_entry_ascends(entries, entry);
    let longer = with_entry(entries, entry);
    assert forall|i: int| 0 <= i < longer.len() implies !is_modeled_key(
        #[trigger] longer[i].0,
    ) by {
        if longer[i].0 != entry.0 {
            let k = choose|k: int| 0 <= k < entries.len() && entries[k] == longer[i];
            assert(!is_modeled_key(entries[k].0));
        }
    }
}

/// What a lookup finds is the first entry of the key, and it finds nothing only
/// where no entry has the key.
pub proof fn lemma_lookup_finds(entries: Seq<(Seq<char>, Tree)>, key: Seq<char>)
    ensures
        match lookup(entries, key) {
            Some(found) => exists|i: int|
                0 <= i < entries.len() && (#[trigger] entries[i]).0 == key && entries[i].1
                    == found,
            None => forall|i: int| 0 <= i < entries.len() ==> (#[trigger] entries[i]).0 != key,
        },
    decreases entries.len(),
{
    if entries.len() > 0 {
        if entries[0].0 == key {
        } else {
            let rest = entries.skip(1);
            lemma_lookup_finds(rest, key);
            match lookup(rest, key) {
                Some(found) => {
                    let i = choose|i: int|
                        0 <= i < rest.len() && (#[trigger] rest[i]).0 == key && rest[i].1 == found;
                    assert(entries[i + 1] == rest[i]);
                },
                None => {
                    assert forall|i: int| 0 <= i < entries.len() implies (
                    #[trigger] entries[i]).0 != key by {
                        if i > 0 {
                            assert(entries[i] == rest[i - 1]);
                        }
                    }
                },
            }
        }
    }
}

/// Among keys that ascend, the entry of a key is what a lookup finds.
pub proof fn lemma_lookup_of_ascending(entries: Seq<(Seq<char>, Tree)>, at: int)
    requires
        keys_ascend(entries),
        0 <= at < entries.len(),
    ensures
        lookup(entries, entries[at].0) == Some(entries[at].1),
{
    assert forall|j: int| 0 <= j < at implies entries[j].0 != entries[at].0 by {}
    lemma_lookup_first(entries, at, entries[at].0);
}

/// Putting an entry in adds its key, where the key is new, and changes nothing else.
pub proof fn lemma_lookup_with_entry(
    entries: Seq<(Seq<char>, Tree)>,
    entry: (Seq<char>, Tree),
    key: Seq<char>,
)
    requires
        keys_ascend(entries),
    ensures
        lookup(with_entry(entries, entry), key) == match lookup(entries, key) {
            Some(found) => Some(found),
            None => if entry.0 == key {
                Some(entry.1)
            } else {
                None
            },
        },
{
    lemma_place_of(entries, entry.0);
    lemma_with_entry_ascends(entries, entry);
    lemma_lookup_finds(entries, key);
    let at = place_of(entries, entry.0);
    let longer = with_entry(entries, entry);
    if at < entries.len() && entries[at].0 == entry.0 {
        if entry.0 == key {
            lemma_lookup_of_ascending(entries, at);
        }
    } else {
        assert(longer[at] == entry);
        assert forall|i: int| 0 <= i < entries.len() implies (#[trigger] entries[i]).0
            != entry.0 by {
            if i > at {
                assert(text_le(entry.0, entries[at].0));
                assert(text_le(entries[at].0, entries[i].0));
                if entries[i].0 == entry.0 {
                    lemma_text_le_order(entry.0, entries[at].0, entry.0);
                }
            }
        }
        match lookup(entries, key) {
            Some(found) => {
                let i = choose|i: int|
                    0 <= i < entries.len() && (#[trigger] entries[i]).0 == key && entries[i].1
                        == found;
                let to = if i < at {
                    i
                } else {
                    i + 1
                };
                assert(longer[to] == entries[i]);
                lemma_lookup_of_ascending(longer, to);
            },
            None => {
                if entry.0 == key {
                    lemma_lookup_of_ascending(longer, at);
                } else {
                    lemma_lookup_finds(longer, key);
                    if lookup(longer, key) is Some {
                        let i = choose|i: int|
                            0 <= i < longer.len() && (#[trigger] longer[i]).0 == key;
                        if i < at {
                            assert(longer[i] == entries[i]);
                        } else if i > at {
                            assert(longer[i] == entries[i - 1]);
                        }
                    }
                }
            },
        }
    }
}

/// The normal form holds, for each key that is not modeled, what the first entry
/// of that key held, and nothing for a modeled key. The order in which the other
/// entries were given does not count.
pub proof fn lemma_normal_extra_holds_the_first(entries: Seq<(Seq<char>, Tree)>, key: Seq<char>)
    ensures
        lookup(normal_extra(entries), key) == if is_modeled_key(key) {
            None
        } else {
            lookup(entries, key)
        },
    decreases entries.len(),
{
    if entries.len() > 0 {
        let front = entries.drop_last();
        let last = entries.last();
        lemma_normal_extra_holds_the_first(front, key);
        lemma_normal_extra_is_normal(front);
        assert(front.push(last) =~= entries);
        lemma_lookup_push(front, last, key);
        if !is_modeled_key(last.0) {
            lemma_lookup_with_entry(normal_extra(front), last, key);
        }
    }
}

/// The normal form of any entries is in normal form.
pub proof fn lemma_normal_extra_is_normal(entries: Seq<(Seq<char>, Tree)>)
    ensures
        is_normal(normal_extra(entries)),
    decreases entries.len(),
{
    if entries.len() > 0 {
        lemma_normal_extra_is_normal(entries.drop_last());
        if !is_modeled_key(entries.last().0) {
            lemma_with_entry_is_normal(normal_extra(entries.drop_last()), entries.last());
        }
    }
}

/// Puts an entry at its place among the entries, unless its key is there already.
fn put_entry(entries: &mut Vec<(String, Node)>, key: String, item: Node)
    ensures
        entries_view(final(entries)@) == with_entry(entries_view(old(entries)@), (key@, item@)),
{
    let ghost before = entries_view(entries@);
    let mut at: usize = entries.len();
    assert(before.take(at as int) =~= before);
    while at > 0 && str_le(key.as_str(), entries[at - 1].0.as_str())
        invariant
            at <= entries.len(),
            entries_view(entries@) == before,
            place_of(before, key@) == place_of(before.take(at as int), key@),
        decreases at,
    {
        proof {
            assert(before.take(at as int).drop_last() =~= before.take(at - 1));
            assert(before.take(at as int).last() == before[at - 1]);
            assert(before[at - 1].0 == entries@[at - 1].0@);
        }
        at -= 1;
    }
    proof {
        if at > 0 {
            assert(before.take(at as int).last() == before[at - 1]);
            assert(before[at - 1].0 == entries@[at - 1].0@);
        }
        assert(place_of(before, key@) == at);
        if at < entries.len() {
            assert(before[at as int].0 == entries@[at as int].0@);
        }
    }
    if at < entries.len() && str_eq(entries[at].0.as_str(), key.as_str()) {
        return ;
    }
    let ghost entry = (key@, item@);
    entries.insert(at, (key, item));
    assert(entries_view(entries@) =~= before.insert(at as int, entry));
}

/// Whether a key is that of a field of [`Metadata`].
pub fn key_is_modeled(key: &str) -> (r: bool)
    ensures
        r == is_modeled_key(key@),
{
    str_eq(key, "title") || str_eq(key, "tags") || str_eq(key, "created_at") || str_eq(
        key,
        "updated_at",
    )
}

/// The text of an optional text field of front matter.
fn take_text(node: Node) -> (r: Result<Option<String>, StoreError>)
    ensures
        match r {
            Ok(text) => optional_text(Some(node@)) == Some(text_view(text)),
            Err(e) => optional_text(Some(node@)) is None && e@ == (ErrorView::Serialize {
                coding: Coding::Decode,
            }),
        },
{
    match node {
        Node::Null => Ok(None),
        Node::String(s) => Ok(Some(s)),
        _ => Err(StoreError::Serialize { coding: Coding::Decode }),
    }
}

/// The texts of an optional field of front matter that lists texts.
fn take_texts(node: Node) -> (r: Result<Option<Vec<String>>, StoreError>)
    ensures
        match r {
            Ok(texts) => optional_texts(Some(node@)) == Some(texts_view(texts)),
            Err(e) => optional_texts(Some(node@)) is None && e@ == (ErrorView::Serialize {
                coding: Coding::Decode,
            }),
        },
{
    proof {
        lemma_view_of_collections(node);
    }
    let ghost tree = node@;
    match node {
        Node::Null => Ok(None),
        Node::Sequence(items) => {
            let ghost all = items@;
            let mut texts: Vec<String> = Vec::new();
            for item in it: items.into_iter()
                invariant
                    it.seq() == all,
                    tree == node@,
                    tree == Tree::List(items_view(all)),
                    texts.len() == it.index(),
                    forall|k: int|
                        0 <= k < it.index() ==> (#[trigger] all[k])@ == Tree::Text(texts[k]@),
            {
                match item {
                    Node::String(s) => {
                        texts.push(s);
                    },
                    _ => {
                        assert(!(items_view(all)[it.index() as int] is Text));
                        return Err(StoreError::Serialize { coding: Coding::Decode });
                    },
                }
            }
            assert(all_text(items_view(all)));
            assert(texts.deep_view() =~= texts_of(items_view(all)));
            Ok(Some(texts))
        },
        _ => Err(StoreError::Serialize { coding: Coding::Decode }),
    }
}

/// A text field as a node of front matter.
fn node_of_text(text: Option<String>) -> (node: Node)
    ensures
        node@ == tree_of_text(text_view(text)),
{
    match text {
        Some(s) => Node::String(s),
        None => Node::Null,
    }
}

/// A field of texts as a node of front matter.
fn node_of_texts(texts: Option<Vec<String>>) -> (node: Node)
    ensures
        node@ == tree_of_texts(texts_view(texts)),
{
    match texts {
        None => Node::Null,
        Some(list) => {
            let ghost all = list@;
            let mut items: Vec<Node> = Vec::new();
            for text in it: list.into_iter()
                invariant
                    it.seq() == all,
                    items.len() == it.index(),
                    forall|k: int|
                        0 <= k < it.index() ==> (#[trigger] items[k])@ == Tree::Text(all[k]@),
            {
                items.push(Node::String(text));
            }
            let node = Node::Sequence(items);
            proof {
                lemma_view_of_collections(node);
                assert(node@->List_0 =~= tree_of_texts(texts_view(texts))->List_0);
            }
            node
        },
    }
}

/// A copy of an optional text.
fn copy_of_text(text: &Option<String>) -> (copy: Option<String>)
    ensures
        text_view(copy) == text_view(*text),
{
    match text {
        Some(t) => Some(t.clone()),
        None => None,
    }
}

impl Clone for Metadata {
    /// A copy that stands for the same metadata.
    fn clone(&self) -> (copy: Metadata)
        ensures
            copy@ == self@,
    {
        let tags = match &self.tags {
            None => None,
            Some(list) => {
                let mut copies: Vec<String> = Vec::new();
                let mut i: usize = 0;
                while i < list.len()
                    invariant
                        i <= list.len(),
                        copies.len() == i,
                        forall|k: int| 0 <= k < i ==> copies[k]@ == list[k]@,
                    decreases list.len() - i,
                {
                    copies.push(list[i].clone());
                    i += 1;
                }
                assert(copies.deep_view() =~= list.deep_view());
                Some(copies)
            },
        };
        let mut extra: Vec<(String, Node)> = Vec::new();
        let mut i: usize = 0;
        while i < self.extra.len()
            invariant
                i <= self.extra.len(),
                extra.len() == i,
                forall|k: int|
                    0 <= k < i ==> extra[k].0@ == self.extra[k].0@ && extra[k].1@
                        == self.extra[k].1@,
            decreases self.extra.len() - i,
        {
            extra.push((self.extra[i].0.clone(), self.extra[i].1.clone()));
            i += 1;
        }
        assert(entries_view(extra@) =~= entries_view(self.extra@));
        Metadata {
            title: copy_of_text(&self.title),
            tags,
            created_at: copy_of_text(&self.created_at),
            updated_at: copy_of_text(&self.updated_at),
            extra,
        }
    }
}

impl Metadata {
    /// Metadata with no field set.
    pub fn empty() -> (metadata: Metadata)
        ensures
            metadata@ == no_metadata(),
    {
        let metadata = Metadata {
            title: None,
            tags: None,
            created_at: None,
            updated_at: None,
            extra: Vec::new(),
        };
        assert(metadata@.extra =~= Seq::empty());
        metadata
    }

    /// Reads metadata out of front matter.
    ///
    /// The front matter must be a mapping. Of each modeled key the first entry
    /// counts: a text (for `tags`, a sequence of texts) sets the field, a null leaves
    /// it unset, and anything else is an error. The other entries go to `extra` in
    /// ascending order of key, of entries with the same key the first.
    pub fn from_node(node: Node) -> (r: Result<Metadata, StoreError>)
        ensures
            match r {
                Ok(metadata) => metadata_of(node@) == Some(metadata@) && extra_is_normal(
                    metadata@,
                ),
                Err(e) => metadata_of(node@) is None && e@ == (ErrorView::Serialize {
                    coding: Coding::Decode,
                }),
            },
    {
        proof {
            lemma_view_of_collections(node);
        }
        let ghost tree = node@;
        let entries = match node {
            Node::Mapping(entries) => entries,
            _ => {
                return Err(StoreError::Serialize { coding: Coding::Decode });
            },
        };
        let ghost all = entries_view(entries@);
        let mut title: Option<Option<String>> = None;
        let mut tags: Option<Option<Vec<String>>> = None;
        let mut created_at: Option<Option<String>> = None;
        let mut updated_at: Option<Option<String>> = None;
        let mut extra: Vec<(String, Node)> = Vec::new();
        assert(all.take(0) =~= Seq::empty());
        assert(entries_view(extra@) =~= Seq::empty());
        for entry in it: entries.into_iter()
            invariant
                tree == node@,
                tree == Tree::Dict(all),
                all == entries_view(it.seq()),
                text_read(lookup(all.take(it.index() as int), "title"@), title),
                texts_read(lookup(all.take(it.index() as int), "tags"@), tags),
                text_read(lookup(all.take(it.index() as int), "created_at"@), created_at),
                text_read(lookup(all.take(it.index() as int), "updated_at"@), updated_at),
                entries_view(extra@) == normal_extra(all.take(it.index() as int)),
        {
            let ghost at = it.index() as int;
            let ghost before = all.take(at);
            proof {
                assert(all.take(at + 1) =~= before.push(all[at]));
                assert(all[at] == (entry.0@, entry.1@));
                lemma_lookup_push(before, all[at], "title"@);
                lemma_lookup_push(before, all[at], "tags"@);
                lemma_lookup_push(before, all[at], "created_at"@);
                lemma_lookup_push(before, all[at], "updated_at"@);
                lemma_lookup_split(all, at + 1, "title"@);
                lemma_lookup_split(all, at + 1, "tags"@);
                lemma_lookup_split(all, at + 1, "created_at"@);
                lemma_lookup_split(all, at + 1, "updated_at"@);
                lemma_modeled_keys_differ();
                assert(all.take(at + 1).drop_last() =~= before);
            }
            let (key, item) = entry;
            if str_eq(key.as_str(), "title") {
                if title.is_none() {
                    title = Some(take_text(item)?);
                }
            } else if str_eq(key.as_str(), "tags") {
                if tags.is_none() {
                    tags = Some(take_texts(item)?);
                }
            } else if str_eq(key.as_str(), "created_at") {
                if created_at.is_none() {
                    created_at = Some(take_text(item)?);
                }
            } else if str_eq(key.as_str(), "updated_at") {
                if updated_at.is_none() {
                    updated_at = Some(take_text(item)?);
                }
            } else {
                put_entry(&mut extra, key, item);
            }
        }
        assert(all.take(all.len() as int) =~= all);
        proof {
            lemma_normal_extra_is_normal(all);
        }
        let metadata = Metadata {
            title: match title {
                Some(text) => text,
                None => None,
            },
            tags: match tags {
                Some(texts) => texts,
                None => None,
            },
            created_at: match created_at {
                Some(text) => text,
                None => None,
            },
            updated_at: match updated_at {
                Some(text) => text,
                None => None,
            },
            extra,
        };
        Ok(metadata)
    }

    /// This metadata with `extra` in normal form: without the entries under the name
    /// of a field, the others in ascending order of key, and of entries with the
    /// same key the first.
    pub fn normalized(self) -> (metadata: Metadata)
        ensures
            metadata@ == (MetadataView { extra: normal_extra(self@.extra), ..self@ }),
            extra_is_normal(metadata@),
    {
        let Metadata { title, tags, created_at, updated_at, extra } = self;
        let ghost all = entries_view(extra@);
        let mut normal: Vec<(String, Node)> = Vec::new();
        proof {
            assert(all.take(0) =~= Seq::empty());
            assert(entries_view(normal@) =~= Seq::empty());
        }
        for entry in it: extra.into_iter()
            invariant
                all == entries_view(it.seq()),
                entries_view(normal@) == normal_extra(all.take(it.index() as int)),
        {
            proof {
                let at = it.index() as int;
                assert(all.take(at + 1).drop_last() =~= all.take(at));
                assert(all.take(at + 1).last() == (entry.0@, entry.1@));
            }
            let (key, item) = entry;
            if !key_is_modeled(key.as_str()) {
                put_entry(&mut normal, key, item);
            }
        }
        proof {
            assert(all.take(all.len() as int) =~= all);
            lemma_normal_extra_is_normal(all);
        }
        Metadata { title, tags, created_at, updated_at, extra: normal }
    }

    /// Whether `extra` is in normal form.
    pub fn extra_in_normal_form(&self) -> (r: bool)
        ensures
            r == extra_is_normal(self@),
    {
        let ghost all = entries_view(self.extra@);
        let mut i: usize = 0;
        assert(is_normal(all.take(0)));
        while i < self.extra.len()
            invariant
                i <= self.extra.len(),
                all == entries_view(self.extra@),
                is_normal(all.take(i as int)),
            decreases self.extra.len() - i,
        {
            let key = self.extra[i].0.as_str();
            assert(all[i as int].0 == key@);
            if key_is_modeled(key) {
                return false;
            }
            if i > 0 {
                let before = self.extra[i - 1].0.as_str();
                assert(all[i - 1].0 == before@);
                if !str_le(before, key) || str_eq(before, key) {
                    return false;
                }
            }
            proof {
                let seen = all.take(i as int);
                let more = all.take(i + 1);
                assert forall|a: int, b: int| 0 <= a < b < more.len() implies text_le(
                    more[a].0,
                    more[b].0,
                ) && more[a].0 != more[b].0 by {
                    if b < i {
                        assert(seen[a] == more[a] && seen[b] == more[b]);
                    } else if a < i - 1 {
                        assert(seen[a] == more[a] && seen[i - 1] == more[i - 1]);
                        assert(text_le(seen[a].0, seen[i - 1].0) && seen[a].0 != seen[i - 1].0);
                        lemma_text_le_order(more[a].0, more[i - 1].0, more[b].0);
                        lemma_text_le_order(more[i - 1].0, more[b].0, more[i - 1].0);
                    }
                }
                assert forall|k: int| 0 <= k < more.len() implies !is_modeled_key(
                    #[trigger] more[k].0,
                ) by {
                    if k < i {
                        assert(seen[k] == more[k]);
                    }
                }
            }
            i += 1;
        }
        assert(all.take(all.len() as int) =~= all);
        true
    }

    /// Whether the YAML text of this metadata keeps it: the text is written and can
    /// stand as front matter, and read back it holds the same metadata.
    pub fn keeps_in_yaml(&self) -> (r: bool)
        ensures
            r == yaml_keeps(self@),
    {
        let node = self.clone().into_node();
        match yaml_text(&node) {
            Err(_) => false,
            Ok(yaml) => {
                if !front_is_plain(yaml.as_str()) {
                    return false;
                }
                match Metadata::from_node(parse_yaml(yaml.as_str())) {
                    Err(_) => false,
                    Ok(read) => {
                        proof {
                            if tree_of_metadata(read@) == tree_of_metadata(self@) {
                                lemma_tree_of_metadata_tells_apart(read@, self@);
                            }
                        }
                        read.into_node().same_as(&node)
                    },
                }
            },
        }
    }

    /// The front matter that holds this metadata.
    pub fn into_node(self) -> (node: Node)
        ensures
            node@ == tree_of_metadata(self@),
    {
        let ghost view = self@;
        let Metadata { title, tags, created_at, updated_at, extra } = self;
        let mut extra = extra;
        let mut entries: Vec<(String, Node)> = Vec::new();
        entries.push(("title".to_owned(), node_of_text(title)));
        entries.push(("tags".to_owned(), node_of_texts(tags)));
        entries.push(("created_at".to_owned(), node_of_text(created_at)));
        entries.push(("updated_at".to_owned(), node_of_text(updated_at)));
        entries.append(&mut extra);
        let node = Node::Mapping(entries);
        proof {
            lemma_view_of_collections(node);
            assert(node@->Dict_0 =~= tree_of_metadata(view)->Dict_0);
        }
        node
    }

    /// The YAML text of this metadata, as front matter holds it: what `serde_yaml`
    /// writes for it, and an error exactly where it writes nothing.
    pub fn to_yaml(self) -> (r: Result<String, StoreError>)
        ensures
            match r {
                Ok(text) => yaml_text_of(tree_of_metadata(self@)) == Some(text@),
                Err(e) => yaml_text_of(tree_of_metadata(self@)) is None && e@ == (
                ErrorView::Serialize { coding: Coding::Encode }),
            },
    {
        let node = self.into_node();
        match yaml_text(&node) {
            Ok(text) => Ok(text),
            Err(_) => Err(StoreError::Serialize { coding: Coding::Encode }),
        }
    }
}

impl Note {
    /// The note at `path`, given the front matter and the body read out of its file.
    pub fn from_parts(path: String, data: Option<Node>, content: String) -> (r: Result<
        Note,
        StoreError,
    >)
        ensures
            note_outcome(r) == note_of(
                path@,
                match data {
                    Some(node) => Some(node@),
                    None => None,
                },
                content@,
            ),
            r matches Ok(note) ==> extra_is_normal(note@.metadata),
    {
        let metadata = match data {
            None => Metadata::empty(),
            Some(node) => Metadata::from_node(node)?,
        };
        Ok(Note { path, metadata, content })
    }

    /// The note with its body replaced, where `content` is given, and its title set,
    /// where `title` is given. Every other field of the metadata is kept, so
    /// without a title the metadata is what it was.
    pub fn revised(self, content: Option<&str>, title: Option<&str>) -> (note: Note)
        ensures
            note@ == revised(self@, str_view(content), str_view(title)),
            title is None ==> note@.metadata == self@.metadata,
    {
        let Note { path, metadata, content: body } = self;
        let mut metadata = metadata;
        match title {
            Some(t) => {
                metadata.title = Some(t.to_owned());
            },
            None => {},
        }
        let content = match content {
            Some(c) => c.to_owned(),
            None => body,
        };
        Note { path, metadata, content }
    }
}

/// The first entry with a key is the one that a lookup finds.
pub proof fn lemma_lookup_first(entries: Seq<(Seq<char>, Tree)>, at: int, key: Seq<char>)
    requires
        0 <= at < entries.len(),
        entries[at].0 == key,
        forall|j: int| 0 <= j < at ==> entries[j].0 != key,
    ensures
        lookup(entries, key) == Some(entries[at].1),
    decreases at,
{
    if at > 0 {
        lemma_lookup_first(entries.skip(1), at - 1, key);
    }
}

/// The modeled fields of metadata, as the entries that front matter starts with.
pub open spec fn modeled_entries(metadata: MetadataView) -> Seq<(Seq<char>, Tree)> {
    seq![
        ("title"@, tree_of_text(metadata.title)),
        ("tags"@, tree_of_texts(metadata.tags)),
        ("created_at"@, tree_of_text(metadata.created_at)),
        ("updated_at"@, tree_of_text(metadata.updated_at)),
    ]
}

/// Entries whose keys are all modeled leave nothing for `extra`.
proof fn lemma_modeled_leave_nothing(entries: Seq<(Seq<char>, Tree)>)
    requires
        forall|i: int| 0 <= i < entries.len() ==> is_modeled_key(#[trigger] entries[i].0),
    ensures
        normal_extra(entries) == Seq::<(Seq<char>, Tree)>::empty(),
    decreases entries.len(),
{
    if entries.len() > 0 {
        let front = entries.drop_last();
        assert forall|i: int| 0 <= i < front.len() implies is_modeled_key(
            #[trigger] front[i].0,
        ) by {
            assert(front[i] == entries[i]);
        }
        lemma_modeled_leave_nothing(front);
        assert(is_modeled_key(entries[entries.len() - 1].0));
    }
}

/// Entries in normal form, behind entries whose keys are all modeled, are their own
/// normal form.
proof fn lemma_normal_extra_of_normal(
    head: Seq<(Seq<char>, Tree)>,
    extra: Seq<(Seq<char>, Tree)>,
)
    requires
        forall|i: int| 0 <= i < head.len() ==> is_modeled_key(#[trigger] head[i].0),
        is_normal(extra),
    ensures
        normal_extra(head + extra) == extra,
    decreases extra.len(),
{
    if extra.len() == 0 {
        assert(head + extra =~= head);
        lemma_modeled_leave_nothing(head);
        assert(extra =~= Seq::empty());
    } else {
        let front = extra.drop_last();
        let last = extra.last();
        assert((head + extra).drop_last() =~= head + front);
        assert((head + extra).last() == last);
        assert(is_normal(front)) by {
            assert forall|i: int, j: int| 0 <= i < j < front.len() implies text_le(
                front[i].0,
                front[j].0,
            ) && front[i].0 != front[j].0 by {
                assert(front[i] == extra[i] && front[j] == extra[j]);
            }
            assert forall|i: int| 0 <= i < front.len() implies !is_modeled_key(
                #[trigger] front[i].0,
            ) by {
                assert(front[i] == extra[i]);
            }
        }
        lemma_normal_extra_of_normal(head, front);
        assert(!is_modeled_key(extra[extra.len() - 1].0));
        assert(place_of(front, last.0) == front.len()) by {
            if front.len() > 0 {
                let before = front.last().0;
                assert(before == extra[extra.len() - 2].0);
                assert(text_le(before, last.0) && before != last.0);
                lemma_text_le_order(before, last.0, before);
            }
        }
        assert(front.insert(front.len() as int, last) =~= extra);
    }
}

/// The four fields are found under their keys in the front matter that holds them.
proof fn lemma_fields_are_found(metadata: MetadataView)
    ensures
        lookup(modeled_entries(metadata) + metadata.extra, "title"@) == Some(
            tree_of_text(metadata.title),
        ),
        lookup(modeled_entries(metadata) + metadata.extra, "tags"@) == Some(
            tree_of_texts(metadata.tags),
        ),
        lookup(modeled_entries(metadata) + metadata.extra, "created_at"@) == Some(
            tree_of_text(metadata.created_at),
        ),
        lookup(modeled_entries(metadata) + metadata.extra, "updated_at"@) == Some(
            tree_of_text(metadata.updated_at),
        ),
{
    let entries = modeled_entries(metadata) + metadata.extra;
    lemma_modeled_keys_differ();
    assert(entries[0] == modeled_entries(metadata)[0]);
    assert(entries[1] == modeled_entries(metadata)[1]);
    assert(entries[2] == modeled_entries(metadata)[2]);
    assert(entries[3] == modeled_entries(metadata)[3]);
    assert(lookup(entries, "title"@) == Some(tree_of_text(metadata.title))) by {
        lemma_lookup_first(entries, 0, "title"@);
    }
    assert(lookup(entries, "tags"@) == Some(tree_of_texts(metadata.tags))) by {
        lemma_lookup_first(entries, 1, "tags"@);
    }
    assert(lookup(entries, "created_at"@) == Some(tree_of_text(metadata.created_at))) by {
        lemma_lookup_first(entries, 2, "created_at"@);
    }
    assert(lookup(entries, "updated_at"@) == Some(tree_of_text(metadata.updated_at))) by {
        lemma_lookup_first(entries, 3, "updated_at"@);
    }
}

/// A field is read out of front matter as it was put in.
proof fn lemma_field_reads_back(text: Option<Seq<char>>, texts: Option<Seq<Seq<char>>>)
    ensures
        optional_text(Some(tree_of_text(text))) == Some(text),
        optional_texts(Some(tree_of_texts(texts))) == Some(texts),
{
    match texts {
        Some(list) => {
            let items = Seq::new(list.len(), |i: int| Tree::Text(list[i]));
            assert(all_text(items));
            assert(texts_of(items) =~= list);
        },
        None => {},
    }
}

/// Metadata written as front matter and read back is the same metadata, where its
/// `extra` is in normal form.
pub proof fn lemma_metadata_round_trip(metadata: MetadataView)
    requires
        extra_is_normal(metadata),
    ensures
        metadata_of(tree_of_metadata(metadata)) == Some(metadata),
{
    lemma_fields_are_found(metadata);
    lemma_field_reads_back(metadata.title, metadata.tags);
    lemma_field_reads_back(metadata.created_at, None);
    lemma_field_reads_back(metadata.updated_at, None);
    lemma_modeled_keys_of_fields(metadata);
    lemma_normal_extra_of_normal(modeled_entries(metadata), metadata.extra);
}

/// The entries of the four fields have modeled keys.
proof fn lemma_modeled_keys_of_fields(metadata: MetadataView)
    ensures
        forall|i: int|
            0 <= i < modeled_entries(metadata).len() ==> is_modeled_key(
                #[trigger] modeled_entries(metadata)[i].0,
            ),
{
}

} // verus!
