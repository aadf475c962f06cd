//! What the steps of the store do to the file tree and the index, and what follows
//! for a caller who carries them out.
//!
//! The file tree is taken as a map from places to texts, where the place of a path
//! is [`location`]; directories are not part of it. The index is a map from paths to
//! titles. A step fails only for the reasons given in [`can_perform`].

use vstd::prelude::*;
use crate::document::{
    data_of,
    framed,
    has_opening,
    is_plain_front,
    lemma_framed_body_reads_back,
    lemma_framed_front_reads_back,
};
use crate::error::{ErrorView, FileOperation};
use crate::index::{ascending_by_path};
use crate::path::{is_safe, join, lemma_joined_of_stripped, location, strip_root};
use crate::store::{
    create_plan,
    delete_plan,
    get_outcome,
    index_title,
    is_indexed,
    move_plan,
    row_of,
    sync_rows,
    update_plan,
    ScannedView,
    StepView,
};
use crate::types::{
    note_of,
    revised,
    tree_of_metadata,
    yaml_keeps,
    MetadataView,
    NoteView,
    SummaryView,
};
use crate::yaml::yaml_text_of;

verus! {

/// The file tree and the index.
pub struct World {
    /// The text of each file, by its place.
    pub files: Map<Seq<Seq<char>>, Seq<char>>,
    /// The title of each row, by its path.
    pub index: Map<Seq<char>, Option<Seq<char>>>,
}

/// No two rows have the same path.
pub open spec fn distinct_paths(rows: Seq<SummaryView>) -> bool {
    forall|i: int, j: int| 0 <= i < j < rows.len() ==> rows[i].path != rows[j].path
}

/// The index that holds the given rows.
pub open spec fn index_of(rows: Seq<SummaryView>) -> Map<Seq<char>, Option<Seq<char>>>
    decreases rows.len(),
{
    if rows.len() == 0 {
        Map::empty()
    } else {
        index_of(rows.drop_last()).insert(rows.last().path, rows.last().title)
    }
}

/// Whether a step can be carried out: a file that is renamed must be there, rows
/// that replace the index must differ in their paths, and a row cannot take the
/// path of another row.
pub open spec fn can_perform(world: World, step: StepView) -> bool {
    match step {
        StepView::RenameFile { from, to } => world.files.dom().contains(location(from)),
        StepView::ReplaceRows { rows } => distinct_paths(rows),
        StepView::RenameRow { from, to } => !(world.index.dom().contains(from) && from != to
            && world.index.dom().contains(to)),
        _ => true,
    }
}

/// The file tree and the index after a step that can be carried out.
pub open spec fn perform(world: World, step: StepView) -> World {
    match step {
        StepView::CreateParentDirs { path } => world,
        StepView::OpenIndex { path } => world,
        StepView::WriteFile { path, text } => World {
            files: world.files.insert(location(path), text),
            ..world
        },
        StepView::RemoveFile { path } => World {
            files: world.files.remove(location(path)),
            ..world
        },
        StepView::RenameFile { from, to } => World {
            files: world.files.remove(location(from)).insert(
                location(to),
                world.files[location(from)],
            ),
            ..world
        },
        StepView::ReplaceRows { rows } => World { index: index_of(rows), ..world },
        StepView::UpsertRow { path, title } => World {
            index: world.index.insert(path, title),
            ..world
        },
        StepView::SetTitle { path, title } => if world.index.dom().contains(path) {
            World { index: world.index.insert(path, Some(title)), ..world }
        } else {
            world
        },
        StepView::RemoveRow { path } => World { index: world.index.remove(path), ..world },
        StepView::RenameRow { from, to } => if world.index.dom().contains(from) {
            World { index: world.index.remove(from).insert(to, world.index[from]), ..world }
        } else {
            world
        },
    }
}

/// Carries the steps out in order, up to the first that cannot be: the file tree and
/// the index at the end, and the step that failed, if one did.
pub open spec fn run(world: World, steps: Seq<StepView>) -> (World, Option<StepView>)
    decreases steps.len(),
{
    if steps.len() == 0 {
        (world, None)
    } else if !can_perform(world, steps[0]) {
        (world, Some(steps[0]))
    } else {
        run(perform(world, steps[0]), steps.skip(1))
    }
}

/// What reading the file at `path` brings.
pub open spec fn read(world: World, path: Seq<char>) -> Option<Seq<char>> {
    if world.files.dom().contains(location(path)) {
        Some(world.files[location(path)])
    } else {
        None
    }
}

/// The rows are those of the index, each once, in some order.
pub open spec fn shows(rows: Seq<SummaryView>, index: Map<Seq<char>, Option<Seq<char>>>) -> bool {
    distinct_paths(rows) && index_of(rows) == index
}

/// The index of some rows has just their paths, each with the title of the last row
/// of that path.
pub proof fn lemma_index_of_rows(rows: Seq<SummaryView>)
    ensures
        forall|p: Seq<char>| #[trigger]
            index_of(rows).dom().contains(p) <==> exists|i: int|
                0 <= i < rows.len() && (#[trigger] rows[i]).path == p,
        distinct_paths(rows) ==> forall|i: int|
            0 <= i < rows.len() ==> index_of(rows)[(#[trigger] rows[i]).path] == rows[i].title,
    decreases rows.len(),
{
    if rows.len() == 0 {
    } else {
        let front = rows.drop_last();
        lemma_index_of_rows(front);
        assert forall|p: Seq<char>| #[trigger]
            index_of(rows).dom().contains(p) implies exists|i: int|
            0 <= i < rows.len() && (#[trigger] rows[i]).path == p by {
            if p == rows.last().path {
                assert(rows[rows.len() - 1].path == p);
            } else {
                let i = choose|i: int| 0 <= i < front.len() && (#[trigger] front[i]).path == p;
                assert(rows[i].path == p);
            }
        }
        assert forall|p: Seq<char>|
            (exists|i: int|
                0 <= i < rows.len() && (#[trigger] rows[i]).path == p) implies #[trigger]
            index_of(rows).dom().contains(p) by {
            let i = choose|i: int| 0 <= i < rows.len() && (#[trigger] rows[i]).path == p;
            if i < front.len() {
                assert(front[i].path == p);
            }
        }
        if distinct_paths(rows) {
            assert(distinct_paths(front)) by {
                assert forall|i: int, j: int| 0 <= i < j < front.len() implies front[i].path
                    != front[j].path by {
                    assert(rows[i].path != rows[j].path);
                }
            }
            assert forall|i: int| 0 <= i < rows.len() implies index_of(rows)[(
            #[trigger] rows[i]).path] == rows[i].title by {
                if i < front.len() {
                    assert(front[i] == rows[i]);
                    assert(rows[i].path != rows[rows.len() - 1].path);
                }
            }
        }
    }
}

/// Deleting a note never fails, whether or not its file is there, and doing it again
/// changes nothing more. After it neither the file nor the row is left.
pub proof fn lemma_delete_is_idempotent(world: World, root: Seq<char>, relative: Seq<char>)
    ensures
        run(world, delete_plan(root, relative)).1 is None,
        run(run(world, delete_plan(root, relative)).0, delete_plan(root, relative)) == (
            run(world, delete_plan(root, relative)).0,
            None::<StepView>,
        ),
        read(run(world, delete_plan(root, relative)).0, join(root, relative)) is None,
        !run(world, delete_plan(root, relative)).0.index.dom().contains(relative),
{
    let plan = delete_plan(root, relative);
    lemma_run_delete(world, root, relative);
    let after = run(world, plan).0;
    lemma_run_delete(after, root, relative);
    assert(after.files.remove(location(join(root, relative))) =~= after.files);
    assert(after.index.remove(relative) =~= after.index);
}

/// What deleting a note comes to.
proof fn lemma_run_delete(world: World, root: Seq<char>, relative: Seq<char>)
    ensures
        run(world, delete_plan(root, relative)) == (
            World {
                files: world.files.remove(location(join(root, relative))),
                index: world.index.remove(relative),
            },
            None::<StepView>,
        ),
{
    let plan = delete_plan(root, relative);
    let first = perform(world, plan[0]);
    assert(plan.skip(1)[0] == plan[1]);
    assert(plan.skip(1).skip(1).len() == 0);
    assert(run(perform(first, plan[1]), plan.skip(1).skip(1)) == (
        perform(first, plan[1]),
        None::<StepView>,
    ));
    assert(run(first, plan.skip(1)) == (perform(first, plan[1]), None::<StepView>));
}

/// Moving a note whose file is there and which has a row, to a place where no row is,
/// takes both along: the old path can no longer be read and has no row, and the new
/// path holds the text and the title that the old one had.
pub proof fn lemma_move_takes_file_and_row(
    world: World,
    root: Seq<char>,
    from: Seq<char>,
    to: Seq<char>,
)
    requires
        read(world, join(root, from)) is Some,
        world.index.dom().contains(from),
        !world.index.dom().contains(to),
        location(join(root, from)) != location(join(root, to)),
    ensures
        run(world, move_plan(root, from, to)).1 is None,
        read(run(world, move_plan(root, from, to)).0, join(root, from)) is None,
        read(run(world, move_plan(root, from, to)).0, join(root, to)) == read(
            world,
            join(root, from),
        ),
        !run(world, move_plan(root, from, to)).0.index.dom().contains(from),
        run(world, move_plan(root, from, to)).0.index.dom().contains(to),
        run(world, move_plan(root, from, to)).0.index[to] == world.index[from],
{
    let plan = move_plan(root, from, to);
    let first = perform(world, plan[0]);
    assert(first == world);
    let second = perform(first, plan[1]);
    let third = perform(second, plan[2]);
    assert(plan.skip(1)[0] == plan[1]);
    assert(plan.skip(1).skip(1)[0] == plan[2]);
    assert(plan.skip(1).skip(1).skip(1).len() == 0);
    assert(can_perform(world, plan[0]));
    assert(can_perform(first, plan[1]));
    assert(can_perform(second, plan[2]));
    assert(run(third, plan.skip(1).skip(1).skip(1)) == (third, None::<StepView>));
    assert(run(second, plan.skip(1).skip(1)) == (third, None::<StepView>));
    assert(run(first, plan.skip(1)) == (third, None::<StepView>));
    assert(run(world, plan) == (third, None::<StepView>));
}

/// A note that was moved reads at its new path as it read at the old one, but for
/// the path; and at the old path the read fails, as no file is there.
pub proof fn lemma_moved_note_reads_the_same(
    world: World,
    root: Seq<char>,
    from: Seq<char>,
    to: Seq<char>,
)
    requires
        is_safe(from),
        is_safe(to),
        read(world, join(root, from)) is Some,
        world.index.dom().contains(from),
        !world.index.dom().contains(to),
        location(join(root, from)) != location(join(root, to)),
    ensures
        ({
            let after = run(world, move_plan(root, from, to)).0;
            let before_move = get_outcome(root, from, read(world, join(root, from)));
            let at_new = get_outcome(root, to, read(after, join(root, to)));
            let at_old = get_outcome(root, from, read(after, join(root, from)));
            &&& at_old == Err::<NoteView, ErrorView>(
                ErrorView::Io { operation: FileOperation::Read, path: join(root, from) },
            )
            &&& match before_move {
                Ok(note) => at_new == Ok::<NoteView, ErrorView>(NoteView { path: to, ..note }),
                Err(e) => at_new == Err::<NoteView, ErrorView>(e),
            }
        }),
{
    lemma_move_takes_file_and_row(world, root, from, to);
}

/// Creating a note leaves its text in the file, body behind front matter, and its
/// row in the index.
pub proof fn lemma_create_writes_file_and_row(
    world: World,
    root: Seq<char>,
    relative: Seq<char>,
    content: Seq<char>,
    front: Option<Seq<char>>,
    title: Option<Seq<char>>,
)
    ensures
        run(world, create_plan(root, relative, content, front, title)).1 is None,
        read(
            run(world, create_plan(root, relative, content, front, title)).0,
            join(root, relative),
        ) == Some(framed(front, content)),
        run(world, create_plan(root, relative, content, front, title)).0.index.dom().contains(
            relative,
        ),
        run(world, create_plan(root, relative, content, front, title)).0.index[relative]
            == index_title(title, join(root, relative)),
{
    let plan = create_plan(root, relative, content, front, title);
    let first = perform(world, plan[0]);
    let second = perform(first, plan[1]);
    let third = perform(second, plan[2]);
    assert(plan.skip(1)[0] == plan[1]);
    assert(plan.skip(1).skip(1)[0] == plan[2]);
    assert(plan.skip(1).skip(1).skip(1).len() == 0);
    assert(run(third, plan.skip(1).skip(1).skip(1)) == (third, None::<StepView>));
    assert(run(second, plan.skip(1).skip(1)) == (third, None::<StepView>));
    assert(run(first, plan.skip(1)) == (third, None::<StepView>));
    assert(run(world, plan) == (third, None::<StepView>));
}

/// A note that was created reads back with the body it was given, and with what its
/// front matter holds when read as YAML, as long as the front matter is plain or,
/// where there is none, the body does not start with a delimiter line.
pub proof fn lemma_created_note_reads_back(
    world: World,
    root: Seq<char>,
    relative: Seq<char>,
    content: Seq<char>,
    front: Option<Seq<char>>,
    title: Option<Seq<char>>,
)
    requires
        is_safe(relative),
        match front {
            Some(yaml) => is_plain_front(yaml),
            None => !has_opening(content),
        },
    ensures
        get_outcome(
            root,
            relative,
            read(
                run(world, create_plan(root, relative, content, front, title)).0,
                join(root, relative),
            ),
        ) == note_of(relative, data_of(front), content),
{
    lemma_create_writes_file_and_row(world, root, relative, content, front, title);
    match front {
        Some(yaml) => {
            lemma_framed_front_reads_back(yaml, content);
        },
        None => {
            lemma_framed_body_reads_back(content);
        },
    }
}

/// A note created with metadata reads back as it was given, body and every field of
/// the metadata, wherever the YAML text keeps the metadata.
pub proof fn lemma_created_note_is_the_note_given(
    world: World,
    root: Seq<char>,
    relative: Seq<char>,
    content: Seq<char>,
    metadata: MetadataView,
)
    requires
        is_safe(relative),
        yaml_keeps(metadata),
    ensures
        get_outcome(
            root,
            relative,
            read(
                run(
                    world,
                    create_plan(
                        root,
                        relative,
                        content,
                        yaml_text_of(tree_of_metadata(metadata)),
                        metadata.title,
                    ),
                ).0,
                join(root, relative),
            ),
        ) == Ok::<NoteView, ErrorView>(NoteView { path: relative, metadata, content }),
{
    let front = yaml_text_of(tree_of_metadata(metadata));
    lemma_created_note_reads_back(world, root, relative, content, front, metadata.title);
}

/// A note that was changed reads back as the changed note, wherever the YAML text
/// keeps its metadata: with a new body and no new title, the body is the new one
/// and every field of the metadata is what it was.
pub proof fn lemma_updated_note_is_the_note_changed(
    world: World,
    root: Seq<char>,
    old: NoteView,
    content: Option<Seq<char>>,
    title: Option<Seq<char>>,
)
    requires
        is_safe(old.path),
        yaml_keeps(revised(old, content, title).metadata),
    ensures
        ({
            let changed = revised(old, content, title);
            let plan = update_plan(
                root,
                old.path,
                changed.content,
                yaml_text_of(tree_of_metadata(changed.metadata))->0,
                changed.metadata.title,
            );
            &&& run(world, plan).1 is None
            &&& get_outcome(root, old.path, read(run(world, plan).0, join(root, old.path)))
                == Ok::<NoteView, ErrorView>(changed)
            &&& title is None ==> changed.metadata == old.metadata
        }),
{
    let changed = revised(old, content, title);
    let yaml = yaml_text_of(tree_of_metadata(changed.metadata))->0;
    let plan = update_plan(root, old.path, changed.content, yaml, changed.metadata.title);
    let first = perform(world, plan[0]);
    assert(plan.skip(1).len() == plan.len() - 1);
    if plan.len() == 2 {
        assert(plan.skip(1)[0] == plan[1]);
        let second = perform(first, plan[1]);
        assert(plan.skip(1).skip(1).len() == 0);
        assert(run(second, plan.skip(1).skip(1)) == (second, None::<StepView>));
        assert(run(first, plan.skip(1)) == (second, None::<StepView>));
        assert(second.files == first.files);
    } else {
        assert(run(first, plan.skip(1)) == (first, None::<StepView>));
    }
    assert(read(run(world, plan).0, join(root, old.path)) == Some(
        framed(Some(yaml), changed.content),
    ));
    lemma_framed_front_reads_back(yaml, changed.content);
}

/// A change of the body alone leaves every field of the metadata as it was.
pub proof fn lemma_new_body_keeps_metadata(note: NoteView, content: Option<Seq<char>>)
    ensures
        revised(note, content, None).metadata == note.metadata,
        revised(note, content, None).path == note.path,
{
}

/// A scanned file that the index has a row for.
pub open spec fn is_indexed_file() -> spec_fn(ScannedView) -> bool {
    |file: ScannedView| is_indexed(file.path, file.is_file)
}

/// The row of a scanned file that lies under the root.
pub open spec fn row_under(root: Seq<char>) -> spec_fn(ScannedView) -> SummaryView {
    |file: ScannedView| row_of(root, file)->0
}

/// No two files of a walk have the same path.
pub open spec fn walked_once(files: Seq<ScannedView>) -> bool {
    forall|i: int, j: int| 0 <= i < j < files.len() ==> files[i].path != files[j].path
}

/// The rows of a walk are there exactly where every markdown file lies under the
/// root, and then they are the rows of those files, in the order of the walk.
pub proof fn lemma_sync_rows_are_the_markdown_files(root: Seq<char>, files: Seq<ScannedView>)
    ensures
        sync_rows(root, files) is Ok <==> forall|i: int|
            0 <= i < files.len() && is_indexed((#[trigger] files[i]).path, files[i].is_file)
                ==> strip_root(root, files[i].path) is Some,
        sync_rows(root, files) matches Ok(rows) ==> rows == files.filter(
            is_indexed_file(),
        ).map_values(row_under(root)),
    decreases files.len(),
{
    if files.len() == 0 {
        reveal(Seq::filter);
        assert(files.filter(is_indexed_file()).map_values(row_under(root)) =~= Seq::empty());
    } else {
        let front = files.drop_last();
        let last = files.last();
        lemma_sync_rows_are_the_markdown_files(root, front);
        assert(front.push(last) =~= files);
        front.lemma_filter_push(last, is_indexed_file());
        front.filter(is_indexed_file()).lemma_push_map_commute(row_under(root), last);
        if sync_rows(root, files) is Ok {
            assert forall|i: int|
                0 <= i < files.len() && is_indexed(
                    (#[trigger] files[i]).path,
                    files[i].is_file,
                ) implies strip_root(root, files[i].path) is Some by {
                if i < front.len() {
                    assert(front[i] == files[i]);
                }
            }
        } else {
            if sync_rows(root, front) is Ok {
                assert(is_indexed(files[files.len() - 1].path, files[files.len() - 1].is_file));
            } else {
                let i = choose|i: int|
                    0 <= i < front.len() && is_indexed((#[trigger] front[i]).path, front[i].is_file)
                        && strip_root(root, front[i].path) is None;
                assert(files[i] == front[i]);
            }
        }
    }
}

/// The rows of files that differ in their paths differ in their paths too.
pub proof fn lemma_sync_rows_are_distinct(root: Seq<char>, files: Seq<ScannedView>)
    requires
        walked_once(files),
        sync_rows(root, files) is Ok,
    ensures
        distinct_paths(sync_rows(root, files)->Ok_0),
        sync_rows(root, files)->Ok_0.len() == files.filter(is_indexed_file()).len(),
{
    lemma_sync_rows_are_the_markdown_files(root, files);
    let chosen = files.filter(is_indexed_file());
    let rows = sync_rows(root, files)->Ok_0;
    assert forall|i: int, j: int| 0 <= i < j < rows.len() implies rows[i].path
        != rows[j].path by {
        lemma_filter_keeps_order(files, is_indexed_file(), i, j);
        let (a, b) = choose|a: int, b: int|
            0 <= a < b < files.len() && files[a] == chosen[i] && files[b] == chosen[j];
        assert(strip_root(root, files[a].path) is Some);
        assert(strip_root(root, files[b].path) is Some);
        lemma_joined_of_stripped(root, files[a].path);
        lemma_joined_of_stripped(root, files[b].path);
    }
}

/// Two items that pass a filter stand in the sequence in the order that they come
/// out in.
pub proof fn lemma_filter_keeps_order<A>(s: Seq<A>, pred: spec_fn(A) -> bool, i: int, j: int)
    requires
        0 <= i < j < s.filter(pred).len(),
    ensures
        exists|a: int, b: int|
            0 <= a < b < s.len() && s[a] == s.filter(pred)[i] && s[b] == s.filter(pred)[j]
                && pred(s[a]) && pred(s[b]),
    decreases s.len(),
{
    reveal(Seq::filter);
    if s.len() > 0 {
        let front = s.drop_last();
        let kept = front.filter(pred);
        if j < kept.len() {
            lemma_filter_keeps_order(front, pred, i, j);
            let (a, b) = choose|a: int, b: int|
                0 <= a < b < front.len() && front[a] == kept[i] && front[b] == kept[j] && pred(
                    front[a],
                ) && pred(front[b]);
            assert(s[a] == front[a] && s[b] == front[b]);
        } else {
            lemma_filter_has_source(front, pred, i);
            let a = choose|a: int| 0 <= a < front.len() && front[a] == kept[i] && pred(front[a]);
            assert(s[a] == front[a]);
            assert(s[s.len() - 1] == s.filter(pred)[j]);
        }
    }
}

/// An item that passes a filter stands in the sequence.
pub proof fn lemma_filter_has_source<A>(s: Seq<A>, pred: spec_fn(A) -> bool, i: int)
    requires
        0 <= i < s.filter(pred).len(),
    ensures
        exists|a: int| 0 <= a < s.len() && s[a] == s.filter(pred)[i] && pred(s[a]),
    decreases s.len(),
{
    reveal(Seq::filter);
    if s.len() > 0 {
        let front = s.drop_last();
        if i < front.filter(pred).len() {
            lemma_filter_has_source(front, pred, i);
            let a = choose|a: int|
                0 <= a < front.len() && front[a] == front.filter(pred)[i] && pred(front[a]);
            assert(s[a] == front[a]);
        } else {
            assert(s[s.len() - 1] == s.filter(pred)[i]);
        }
    }
}

/// Rebuilding the index from a walk that names each file once leaves one row for
/// each markdown file and no other row, and leaves the files alone.
pub proof fn lemma_sync_rebuilds_the_index(world: World, root: Seq<char>, files: Seq<ScannedView>)
    requires
        walked_once(files),
        sync_rows(root, files) is Ok,
    ensures
        ({
            let rows = sync_rows(root, files)->Ok_0;
            let ran = run(world, seq![StepView::ReplaceRows { rows }]);
            &&& ran.1 is None
            &&& ran.0.files == world.files
            &&& shows(rows, ran.0.index)
            &&& rows == files.filter(is_indexed_file()).map_values(row_under(root))
        }),
{
    lemma_sync_rows_are_distinct(root, files);
    lemma_sync_rows_are_the_markdown_files(root, files);
    let rows = sync_rows(root, files)->Ok_0;
    let plan = seq![StepView::ReplaceRows { rows }];
    let after = perform(world, plan[0]);
    assert(plan.skip(1).len() == 0);
    assert(run(after, plan.skip(1)) == (after, None::<StepView>));
}

/// Sequences with the same items, each as often, have the same members.
proof fn lemma_same_members<A>(a: Seq<A>, b: Seq<A>, x: A)
    requires
        a.to_multiset() == b.to_multiset(),
        a.contains(x),
    ensures
        b.contains(x),
{
    vstd::seq_lib::to_multiset_contains(a, x);
    vstd::seq_lib::to_multiset_contains(b, x);
}

/// A listing of the index, that is its rows in any order, has each row of the index
/// once: as many rows as the index has, with the paths of the index and their titles.
pub proof fn lemma_listing_shows_the_index(
    rows: Seq<SummaryView>,
    listed: Seq<SummaryView>,
    index: Map<Seq<char>, Option<Seq<char>>>,
)
    requires
        shows(rows, index),
        listed.to_multiset() == rows.to_multiset(),
    ensures
        listed.len() == rows.len(),
        shows(listed, index),
        forall|p: Seq<char>|
            index.dom().contains(p) <==> exists|i: int|
                0 <= i < listed.len() && (#[trigger] listed[i]).path == p,
{
    vstd::seq_lib::to_multiset_len(listed);
    vstd::seq_lib::to_multiset_len(rows);
    assert(rows.no_duplicates()) by {
        assert forall|i: int, j: int| 0 <= i < rows.len() && 0 <= j < rows.len() && i
            != j implies rows[i] != rows[j] by {
            if i < j {
                assert(rows[i].path != rows[j].path);
            } else {
                assert(rows[j].path != rows[i].path);
            }
        }
    }
    rows.lemma_multiset_has_no_duplicates();
    listed.lemma_multiset_has_no_duplicates_conv();
    assert forall|i: int, j: int| 0 <= i < j < listed.len() implies listed[i].path
        != listed[j].path by {
        assert(listed.contains(listed[i]) && listed.contains(listed[j]));
        lemma_same_members(listed, rows, listed[i]);
        lemma_same_members(listed, rows, listed[j]);
        let a = choose|a: int| 0 <= a < rows.len() && rows[a] == listed[i];
        let b = choose|b: int| 0 <= b < rows.len() && rows[b] == listed[j];
        assert(listed[i] != listed[j]);
        if a < b {
            assert(rows[a].path != rows[b].path);
        } else {
            assert(rows[b].path != rows[a].path);
        }
    }
    lemma_index_of_rows(rows);
    lemma_index_of_rows(listed);
    assert forall|p: Seq<char>| index_of(listed).dom().contains(p) == index.dom().contains(
        p,
    ) by {
        if index_of(listed).dom().contains(p) {
            let i = choose|i: int| 0 <= i < listed.len() && (#[trigger] listed[i]).path == p;
            assert(listed.contains(listed[i]));
            lemma_same_members(listed, rows, listed[i]);
            let a = choose|a: int| 0 <= a < rows.len() && rows[a] == listed[i];
            assert(rows[a].path == p);
        }
        if index.dom().contains(p) {
            let a = choose|a: int| 0 <= a < rows.len() && (#[trigger] rows[a]).path == p;
            assert(rows.contains(rows[a]));
            lemma_same_members(rows, listed, rows[a]);
            let i = choose|i: int| 0 <= i < listed.len() && listed[i] == rows[a];
            assert(listed[i].path == p);
        }
    }
    assert forall|p: Seq<char>| index.dom().contains(p) implies #[trigger] index_of(listed)[p]
        == index[p] by {
        let a = choose|a: int| 0 <= a < rows.len() && (#[trigger] rows[a]).path == p;
        assert(rows.contains(rows[a]));
        lemma_same_members(rows, listed, rows[a]);
        let i = choose|i: int| 0 <= i < listed.len() && listed[i] == rows[a];
        assert(index_of(listed)[listed[i].path] == listed[i].title);
        assert(index_of(rows)[rows[a].path] == rows[a].title);
    }
    assert(index_of(listed) =~= index);
}

/// After the index was rebuilt from a walk, a listing in order of path has as many
/// rows as the walk has markdown files, one for each, and no two of the same path.
pub proof fn lemma_listing_after_sync(
    world: World,
    root: Seq<char>,
    files: Seq<ScannedView>,
    listed: Seq<SummaryView>,
)
    requires
        walked_once(files),
        sync_rows(root, files) is Ok,
        listed.to_multiset() == sync_rows(root, files)->Ok_0.to_multiset(),
        ascending_by_path(listed),
    ensures
        listed.len() == files.filter(is_indexed_file()).len(),
        shows(listed, run(world, seq![StepView::ReplaceRows { rows: sync_rows(root, files)->Ok_0 }]).0.index),
        forall|i: int, j: int|
            0 <= i < j < listed.len() ==> listed[i].path != listed[j].path && crate::text::text_le(
                listed[i].path,
                listed[j].path,
            ),
{
    lemma_sync_rebuilds_the_index(world, root, files);
    lemma_sync_rows_are_distinct(root, files);
    let rows = sync_rows(root, files)->Ok_0;
    let after = run(world, seq![StepView::ReplaceRows { rows }]).0;
    lemma_listing_shows_the_index(rows, listed, after.index);
}

} // verus!
