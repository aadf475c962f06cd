//! Paths as text: `/` separates the segments, and a leading `/` marks an absolute path.
//!
//! A segment is idle (empty, or `.`), a step up (`..`), or a name. Walking a path
//! from a directory, a name goes one level down, `..` one level up, and an idle
//! segment stays. A relative path is safe when no prefix of it ends above the
//! directory it started from.

use vstd::prelude::*;
use crate::text::{chars_of, lemma_text_le_order, str_eq, str_le, text_le};

verus! {

/// The segments of a path: the pieces between its `/` characters, empty ones included.
/// A path with `n` separators has `n + 1` segments.
pub open spec fn segments(p: Seq<char>) -> Seq<Seq<char>>
    decreases p.len(),
{
    if p.len() == 0 {
        seq![Seq::empty()]
    } else {
        let before = segments(p.drop_last());
        if p.last() == '/' {
            before.push(Seq::empty())
        } else {
            before.update(before.len() - 1, before.last().push(p.last()))
        }
    }
}

/// A path that starts at the file system's root.
pub open spec fn is_absolute(p: Seq<char>) -> bool {
    p.len() > 0 && p[0] == '/'
}

/// The segment `..`.
pub open spec fn is_parent(seg: Seq<char>) -> bool {
    seg.len() == 2 && seg[0] == '.' && seg[1] == '.'
}

/// A segment that names nothing: the empty one, and `.`.
pub open spec fn is_idle(seg: Seq<char>) -> bool {
    seg.len() == 0 || (seg.len() == 1 && seg[0] == '.')
}

/// How many levels a segment goes down.
pub open spec fn step(seg: Seq<char>) -> int {
    if is_parent(seg) {
        -1
    } else if is_idle(seg) {
        0
    } else {
        1
    }
}

/// The level reached after the given segments, counted from the start.
pub open spec fn depth(segs: Seq<Seq<char>>) -> int
    decreases segs.len(),
{
    if segs.len() == 0 {
        0
    } else {
        depth(segs.drop_last()) + step(segs.last())
    }
}

/// Some prefix of the segments ends above the start.
pub open spec fn escapes(segs: Seq<Seq<char>>) -> bool {
    exists|k: int| 0 <= k <= segs.len() && #[trigger] depth(segs.take(k)) < 0
}

/// A relative path that never leaves the directory it is walked from.
pub open spec fn is_safe(p: Seq<char>) -> bool {
    !is_absolute(p) && !escapes(segments(p))
}

/// `relative` appended to `root`, with one `/` between them where `root` does not
/// bring its own. An empty `root` leaves `relative` as it is.
pub open spec fn join(root: Seq<char>, relative: Seq<char>) -> Seq<char> {
    if root.len() == 0 {
        relative
    } else if root.last() == '/' {
        root + relative
    } else {
        root + seq!['/'] + relative
    }
}

/// The directory reached from `base`, given as the names that lead to it, after
/// walking the segments. A step up from an empty `base` stays there.
pub open spec fn resolve(base: Seq<Seq<char>>, segs: Seq<Seq<char>>) -> Seq<Seq<char>>
    decreases segs.len(),
{
    if segs.len() == 0 {
        base
    } else {
        let at = resolve(base, segs.drop_last());
        let seg = segs.last();
        if is_parent(seg) {
            if at.len() > 0 {
                at.drop_last()
            } else {
                at
            }
        } else if is_idle(seg) {
            at
        } else {
            at.push(seg)
        }
    }
}

/// Where a path leads: the names from the topmost directory down.
pub open spec fn location(p: Seq<char>) -> Seq<Seq<char>> {
    resolve(Seq::empty(), segments(p))
}

/// The last segment that is not idle, unless it is `..`.
pub open spec fn last_name(segs: Seq<Seq<char>>) -> Option<Seq<char>>
    decreases segs.len(),
{
    if segs.len() == 0 {
        None
    } else if is_idle(segs.last()) {
        last_name(segs.drop_last())
    } else if is_parent(segs.last()) {
        None
    } else {
        Some(segs.last())
    }
}

/// The name of the file or directory that a path ends in. A path that ends in `..`,
/// or that names nothing, has none.
pub open spec fn file_name(p: Seq<char>) -> Option<Seq<char>> {
    last_name(segments(p))
}

/// The place of the last `.` in a name, or -1 where it has none.
pub open spec fn last_dot(name: Seq<char>) -> int
    decreases name.len(),
{
    if name.len() == 0 {
        -1
    } else if name.last() == '.' {
        name.len() - 1
    } else {
        last_dot(name.drop_last())
    }
}

/// A name up to its last `.`. A name without one, or whose only `.` stands first,
/// is its own stem.
pub open spec fn stem_of(name: Seq<char>) -> Seq<char> {
    if last_dot(name) <= 0 || is_parent(name) {
        name
    } else {
        name.take(last_dot(name))
    }
}

/// What follows the last `.` of a name, where the name has a stem before it.
pub open spec fn extension_of(name: Seq<char>) -> Option<Seq<char>> {
    if last_dot(name) <= 0 || is_parent(name) {
        None
    } else {
        Some(name.skip(last_dot(name) + 1))
    }
}

/// The stem of a path's file name.
pub open spec fn file_stem(p: Seq<char>) -> Option<Seq<char>> {
    match file_name(p) {
        Some(name) => Some(stem_of(name)),
        None => None,
    }
}

/// The extension of a path's file name.
pub open spec fn extension(p: Seq<char>) -> Option<Seq<char>> {
    match file_name(p) {
        Some(name) => extension_of(name),
        None => None,
    }
}

/// One component of a path: the root, the current directory at the start of a
/// relative path, a step up, or a name.
pub enum Component {
    Root,
    Current,
    Parent,
    Name(Seq<char>),
}

/// The components that segments stand for: `..` is a step up, an idle segment is
/// none, and every other segment is a name.
pub open spec fn named(segs: Seq<Seq<char>>) -> Seq<Component>
    decreases segs.len(),
{
    if segs.len() == 0 {
        Seq::empty()
    } else {
        let rest = named(segs.drop_last());
        let seg = segs.last();
        if is_parent(seg) {
            rest.push(Component::Parent)
        } else if is_idle(seg) {
            rest
        } else {
            rest.push(Component::Name(seg))
        }
    }
}

/// How a path starts: at the root, at the current directory where it is written
/// out as `.`, or with its first name.
pub open spec fn lead(p: Seq<char>) -> Seq<Component> {
    if is_absolute(p) {
        seq![Component::Root]
    } else if segments(p)[0].len() == 1 && segments(p)[0][0] == '.' {
        seq![Component::Current]
    } else {
        Seq::empty()
    }
}

/// The components of a path.
pub open spec fn components(p: Seq<char>) -> Seq<Component> {
    lead(p) + named(segments(p))
}

/// The place of a kind of component among the kinds.
pub open spec fn rank(c: Component) -> int {
    match c {
        Component::Root => 0,
        Component::Current => 1,
        Component::Parent => 2,
        Component::Name(_) => 3,
    }
}

/// The order of components: by kind, and two names by their texts.
pub open spec fn component_le(a: Component, b: Component) -> bool {
    match (a, b) {
        (Component::Name(x), Component::Name(y)) => text_le(x, y),
        _ => rank(a) <= rank(b),
    }
}

/// The order of runs of components: the first two that differ decide, and a run
/// comes before every run that it starts.
pub open spec fn components_le(a: Seq<Component>, b: Seq<Component>) -> bool
    decreases a.len(),
{
    if a.len() == 0 {
        true
    } else if b.len() == 0 {
        false
    } else if a[0] != b[0] {
        component_le(a[0], b[0])
    } else {
        components_le(a.skip(1), b.skip(1))
    }
}

/// The order of paths: component by component, so that what lies in a directory
/// comes before files whose names start with the name of that directory.
pub open spec fn path_le(a: Seq<char>, b: Seq<char>) -> bool {
    components_le(components(a), components(b))
}

/// The order of components is total, and two that precede each other are equal.
pub proof fn lemma_component_le_order(a: Component, b: Component, c: Component)
    ensures
        component_le(a, a),
        component_le(a, b) || component_le(b, a),
        component_le(a, b) && component_le(b, c) ==> component_le(a, c),
        component_le(a, b) && component_le(b, a) ==> a == b,
{
    match (a, b, c) {
        (Component::Name(x), Component::Name(y), Component::Name(z)) => {
            lemma_text_le_order(x, y, z);
        },
        (Component::Name(x), Component::Name(y), _) => {
            lemma_text_le_order(x, y, y);
        },
        (Component::Name(x), _, _) => {
            lemma_text_le_order(x, x, x);
        },
        _ => {},
    }
}

pub proof fn lemma_components_le_reflexive(a: Seq<Component>)
    ensures
        components_le(a, a),
    decreases a.len(),
{
    if a.len() > 0 {
        lemma_components_le_reflexive(a.skip(1));
    }
}

pub proof fn lemma_components_le_total(a: Seq<Component>, b: Seq<Component>)
    ensures
        components_le(a, b) || components_le(b, a),
    decreases a.len(),
{
    if a.len() > 0 && b.len() > 0 {
        if a[0] != b[0] {
            lemma_component_le_order(a[0], b[0], b[0]);
        } else {
            lemma_components_le_total(a.skip(1), b.skip(1));
        }
    }
}

pub proof fn lemma_components_le_transitive(
    a: Seq<Component>,
    b: Seq<Component>,
    c: Seq<Component>,
)
    requires
        components_le(a, b),
        components_le(b, c),
    ensures
        components_le(a, c),
    decreases a.len(),
{
    if a.len() > 0 && b.len() > 0 && c.len() > 0 {
        lemma_component_le_order(a[0], b[0], c[0]);
        lemma_component_le_order(b[0], a[0], c[0]);
        lemma_component_le_order(b[0], c[0], a[0]);
        if a[0] == b[0] && b[0] == c[0] {
            lemma_components_le_transitive(a.skip(1), b.skip(1), c.skip(1));
        }
    }
}

/// The order of paths is total.
pub proof fn lemma_path_le_order(a: Seq<char>, b: Seq<char>, c: Seq<char>)
    ensures
        path_le(a, a),
        path_le(a, b) || path_le(b, a),
        path_le(a, b) && path_le(b, c) ==> path_le(a, c),
{
    lemma_components_le_reflexive(components(a));
    lemma_components_le_total(components(a), components(b));
    if path_le(a, b) && path_le(b, c) {
        lemma_components_le_transitive(components(a), components(b), components(c));
    }
}

/// The rest of `path` behind `root` and the one `/` that parts them: the relative
/// path that [`join`] puts behind `root` to give `path`. A path that does not start
/// with `root` and a separator has none.
pub open spec fn strip_root(root: Seq<char>, path: Seq<char>) -> Option<Seq<char>> {
    let lead = join(root, Seq::empty());
    if lead.is_prefix_of(path) {
        Some(path.skip(lead.len() as int))
    } else {
        None
    }
}

/// Taking the root off a joined path gives the relative path back.
pub proof fn lemma_strip_root_of_joined(root: Seq<char>, relative: Seq<char>)
    ensures
        strip_root(root, join(root, relative)) == Some(relative),
{
    let lead = join(root, Seq::empty());
    assert(join(root, relative) =~= lead + relative);
    assert(lead.is_prefix_of(lead + relative));
    assert((lead + relative).skip(lead.len() as int) =~= relative);
}

/// A path that has a rest behind the root is that rest joined to the root, so two
/// paths with the same rest are the same path.
pub proof fn lemma_joined_of_stripped(root: Seq<char>, path: Seq<char>)
    requires
        strip_root(root, path) is Some,
    ensures
        join(root, strip_root(root, path)->0) == path,
{
    let lead = join(root, Seq::empty());
    let rest = path.skip(lead.len() as int);
    assert(join(root, rest) =~= lead + rest);
    assert(lead + rest =~= path);
}

pub proof fn lemma_segments_nonempty(p: Seq<char>)
    ensures
        segments(p).len() >= 1,
    decreases p.len(),
{
    if p.len() > 0 {
        lemma_segments_nonempty(p.drop_last());
    }
}

/// A text without a separator is one segment.
pub proof fn lemma_segments_of_name(p: Seq<char>)
    requires
        forall|i: int| 0 <= i < p.len() ==> p[i] != '/',
    ensures
        segments(p) == seq![p],
    decreases p.len(),
{
    if p.len() == 0 {
        assert(p =~= Seq::<char>::empty());
    } else {
        let front = p.drop_last();
        assert forall|i: int| 0 <= i < front.len() implies front[i] != '/' by {
            assert(front[i] == p[i]);
        }
        lemma_segments_of_name(front);
        assert(p.last() == p[p.len() - 1]);
        assert(front.push(p.last()) =~= p);
        assert(seq![front].update(0, front.push(p.last())) =~= seq![p]);
    }
}

/// A separator between two texts keeps their segments apart.
pub proof fn lemma_segments_of_separated(a: Seq<char>, b: Seq<char>)
    ensures
        segments(a + seq!['/'] + b) == segments(a) + segments(b),
    decreases b.len(),
{
    let whole = a + seq!['/'] + b;
    lemma_segments_nonempty(b);
    if b.len() == 0 {
        assert(whole.drop_last() =~= a);
        assert(segments(whole) =~= segments(a) + segments(b));
    } else {
        let shorter = a + seq!['/'] + b.drop_last();
        assert(whole.drop_last() =~= shorter);
        assert(whole.last() == b.last());
        lemma_segments_of_separated(a, b.drop_last());
        lemma_segments_nonempty(b.drop_last());
        assert(segments(whole) =~= segments(a) + segments(b));
    }
}

/// Walking two runs of segments in turn is walking their concatenation.
pub proof fn lemma_resolve_concat(base: Seq<Seq<char>>, a: Seq<Seq<char>>, b: Seq<Seq<char>>)
    ensures
        resolve(base, a + b) == resolve(resolve(base, a), b),
    decreases b.len(),
{
    if b.len() == 0 {
        assert(a + b =~= a);
    } else {
        assert((a + b).drop_last() =~= a + b.drop_last());
        assert((a + b).last() == b.last());
        lemma_resolve_concat(base, a, b.drop_last());
    }
}

/// Segments that never go above the start lead to a place below `base`, whatever
/// `base` is: the names of `base`, then as many further names as the depth counts.
pub proof fn lemma_resolve_below(base: Seq<Seq<char>>, segs: Seq<Seq<char>>)
    requires
        !escapes(segs),
    ensures
        resolve(base, segs) == base + resolve(Seq::empty(), segs),
        resolve(Seq::empty(), segs).len() == depth(segs),
    decreases segs.len(),
{
    let none = Seq::<Seq<char>>::empty();
    assert(segs.take(segs.len() as int) =~= segs);
    assert(depth(segs.take(segs.len() as int)) >= 0);
    if segs.len() == 0 {
        assert(resolve(base, segs) =~= base + resolve(none, segs));
    } else {
        let front = segs.drop_last();
        assert forall|k: int| 0 <= k <= front.len() implies #[trigger] depth(front.take(k))
            >= 0 by {
            assert(front.take(k) =~= segs.take(k));
        }
        lemma_resolve_below(base, front);
        assert(resolve(base, segs) =~= base + resolve(none, segs));
    }
}

/// A safe relative path, joined to a root, leads to a place inside that root.
pub proof fn lemma_joined_path_stays_inside(root: Seq<char>, relative: Seq<char>)
    requires
        is_safe(relative),
    ensures
        location(join(root, relative)) == location(root) + location(relative),
        location(root).is_prefix_of(location(join(root, relative))),
        location(relative).len() == depth(segments(relative)),
{
    let none = Seq::<Seq<char>>::empty();
    lemma_resolve_below(none, segments(relative));
    if root.len() == 0 {
        assert(segments(root) =~= seq![Seq::<char>::empty()]);
        assert(segments(root).drop_last() =~= none);
        assert(resolve(none, none) == none);
        assert(is_idle(segments(root).last()));
        assert(location(root) =~= none);
        assert(location(join(root, relative)) =~= location(root) + location(relative));
    } else if root.last() == '/' {
        let head = root.drop_last();
        assert(root + relative =~= head + seq!['/'] + relative);
        lemma_segments_of_separated(head, relative);
        lemma_resolve_concat(none, segments(head), segments(relative));
        lemma_resolve_below(resolve(none, segments(head)), segments(relative));
        assert(segments(root).drop_last() =~= segments(head));
        assert(location(root) == location(head));
    } else {
        lemma_segments_of_separated(root, relative);
        lemma_resolve_concat(none, segments(root), segments(relative));
        lemma_resolve_below(location(root), segments(relative));
    }
}

/// The segments of `p`, each as a string of its own.
pub fn split(p: &str) -> (segs: Vec<String>)
    ensures
        segs.deep_view() == segments(p@),
{
    let cs = chars_of(p);
    let n = cs.len();
    let mut segs: Vec<String> = Vec::new();
    let mut start: usize = 0;
    let mut i: usize = 0;
    assert(p@.take(0) =~= Seq::<char>::empty());
    assert(segs.deep_view().push(p@.subrange(0, 0)) =~= segments(p@.take(0)));
    while i < n
        invariant
            cs@ == p@,
            n == cs.len(),
            start <= i <= n,
            segs.deep_view().push(p@.subrange(start as int, i as int)) == segments(
                p@.take(i as int),
            ),
        decreases n - i,
    {
        let ghost before = segs.deep_view();
        let ghost piece = p@.subrange(start as int, i as int);
        assert(p@.take(i + 1).drop_last() =~= p@.take(i as int));
        assert(p@.take(i + 1).last() == cs@[i as int]);
        if cs[i] == '/' {
            segs.push(p.substring_char(start, i).to_owned());
            assert(segs.deep_view() =~= before.push(piece));
            start = i + 1;
            assert(p@.subrange(start as int, i + 1) =~= Seq::<char>::empty());
        } else {
            assert(p@.subrange(start as int, i + 1) =~= piece.push(cs@[i as int]));
            assert(before.push(piece).update(before.len() as int, piece.push(cs@[i as int]))
                =~= before.push(piece.push(cs@[i as int])));
        }
        i += 1;
    }
    let ghost before = segs.deep_view();
    assert(p@.take(n as int) =~= p@);
    segs.push(p.substring_char(start, n).to_owned());
    assert(segs.deep_view() =~= before.push(p@.subrange(start as int, n as int)));
    segs
}

/// Whether a segment is `..`.
pub fn segment_is_parent(seg: &str) -> (r: bool)
    ensures
        r == is_parent(seg@),
{
    let cs = chars_of(seg);
    cs.len() == 2 && cs[0] == '.' && cs[1] == '.'
}

/// Whether a segment is empty or `.`.
pub fn segment_is_idle(seg: &str) -> (r: bool)
    ensures
        r == is_idle(seg@),
{
    let cs = chars_of(seg);
    cs.len() == 0 || (cs.len() == 1 && cs[0] == '.')
}

/// Whether a path starts with `/`.
pub fn path_is_absolute(p: &str) -> (r: bool)
    ensures
        r == is_absolute(p@),
{
    let cs = chars_of(p);
    cs.len() > 0 && cs[0] == '/'
}

/// Whether `p` is a relative path that stays inside the directory it starts from:
/// it walks the segments from the left and gives up at the first step above level 0.
pub fn is_safe_relative(p: &str) -> (r: bool)
    ensures
        r == is_safe(p@),
{
    if path_is_absolute(p) {
        return false;
    }
    let segs = split(p);
    let mut level: usize = 0;
    let mut i: usize = 0;
    assert(segments(p@).take(0) =~= Seq::<Seq<char>>::empty());
    while i < segs.len()
        invariant
            i <= segs.len(),
            segs.deep_view() == segments(p@),
            level == depth(segments(p@).take(i as int)),
            level <= i,
            forall|k: int| 0 <= k <= i ==> #[trigger] depth(segments(p@).take(k)) >= 0,
        decreases segs.len() - i,
    {
        let ghost all = segments(p@);
        assert(all.take(i + 1).drop_last() =~= all.take(i as int));
        assert(all.take(i + 1).last() == segs.deep_view()[i as int]);
        assert(segs.deep_view()[i as int] == segs@[i as int]@);
        if segment_is_parent(segs[i].as_str()) {
            if level == 0 {
                assert(depth(all.take(i + 1)) < 0);
                return false;
            }
            level -= 1;
        } else if !segment_is_idle(segs[i].as_str()) {
            level += 1;
        }
        i += 1;
    }
    true
}

/// `relative` appended to `root`, with a `/` between them where one is needed.
pub fn join_paths(root: &str, relative: &str) -> (joined: String)
    ensures
        joined@ == join(root@, relative@),
{
    let cs = chars_of(root);
    let mut joined = root.to_owned();
    if cs.len() > 0 && cs[cs.len() - 1] != '/' {
        joined.append("/");
        proof {
            reveal_strlit("/");
            assert("/"@ =~= seq!['/']);
        }
    }
    joined.append(relative);
    proof {
        if cs.len() == 0 {
            assert(joined@ =~= relative@);
        }
    }
    joined
}

/// The name of the file or directory that `p` ends in.
pub fn path_file_name(p: &str) -> (name: Option<String>)
    ensures
        name.is_some() == file_name(p@).is_some(),
        name matches Some(n) ==> n@ == file_name(p@)->0,
{
    let mut segs = split(p);
    let ghost all = segs.deep_view();
    assert(all.take(all.len() as int) =~= all);
    while segs.len() > 0
        invariant
            all == segments(p@),
            segs.deep_view() == all.take(segs.len() as int),
            segs.len() <= all.len(),
            last_name(all) == last_name(all.take(segs.len() as int)),
        decreases segs.len(),
    {
        let ghost here = segs.deep_view();
        let last = segs.pop().unwrap();
        assert(last@ == here.last());
        assert(segs.deep_view() =~= here.drop_last());
        assert(here.drop_last() =~= all.take(segs.len() as int));
        assert(last_name(all) == last_name(here));
        if segment_is_idle(last.as_str()) {
        } else if segment_is_parent(last.as_str()) {
            return None;
        } else {
            return Some(last);
        }
    }
    assert(all.take(0) =~= Seq::<Seq<char>>::empty());
    None
}

/// Where the last `.` of `name` stands.
fn find_last_dot(name: &Vec<char>) -> (at: Option<usize>)
    ensures
        match at {
            Some(i) => i == last_dot(name@) && i < name.len(),
            None => last_dot(name@) == -1,
        },
{
    let mut n = name.len();
    assert(name@.take(n as int) =~= name@);
    while n > 0
        invariant
            n <= name.len(),
            last_dot(name@) == last_dot(name@.take(n as int)),
        decreases n,
    {
        assert(name@.take(n as int).drop_last() =~= name@.take(n - 1));
        if name[n - 1] == '.' {
            return Some(n - 1);
        }
        n -= 1;
    }
    None
}

/// The stem of the file name of `p`: the name without its extension.
pub fn path_file_stem(p: &str) -> (stem: Option<String>)
    ensures
        stem.is_some() == file_stem(p@).is_some(),
        stem matches Some(s) ==> s@ == file_stem(p@)->0,
{
    match path_file_name(p) {
        None => None,
        Some(name) => {
            let cs = chars_of(name.as_str());
            match find_last_dot(&cs) {
                Some(at) => {
                    if at == 0 || segment_is_parent(name.as_str()) {
                        Some(name)
                    } else {
                        Some(name.as_str().substring_char(0, at).to_owned())
                    }
                },
                None => Some(name),
            }
        },
    }
}

/// The extension of the file name of `p`, without the `.` before it.
pub fn path_extension(p: &str) -> (ext: Option<String>)
    ensures
        ext.is_some() == extension(p@).is_some(),
        ext matches Some(e) ==> e@ == extension(p@)->0,
{
    match path_file_name(p) {
        None => None,
        Some(name) => {
            let cs = chars_of(name.as_str());
            match find_last_dot(&cs) {
                Some(at) => {
                    if at == 0 || segment_is_parent(name.as_str()) {
                        None
                    } else {
                        Some(name.as_str().substring_char(at + 1, cs.len()).to_owned())
                    }
                },
                None => None,
            }
        },
    }
}

/// The rest of `path` behind `root` and the separator that follows it.
pub fn relative_to(root: &str, path: &str) -> (rest: Option<String>)
    ensures
        rest.is_some() == strip_root(root@, path@).is_some(),
        rest matches Some(r) ==> r@ == strip_root(root@, path@)->0,
{
    let lead = join_paths(root, "");
    proof {
        reveal_strlit("");
        assert(""@ =~= Seq::<char>::empty());
    }
    let l = chars_of(lead.as_str());
    let p = chars_of(path);
    if l.len() > p.len() {
        return None;
    }
    let mut i: usize = 0;
    while i < l.len()
        invariant
            i <= l.len() <= p.len(),
            l@ == join(root@, Seq::empty()),
            p@ == path@,
            forall|k: int| 0 <= k < i ==> l@[k] == p@[k],
        decreases l.len() - i,
    {
        if l[i] != p[i] {
            assert(p@.subrange(0, l@.len() as int)[i as int] == p@[i as int]);
            return None;
        }
        i += 1;
    }
    assert(l@ =~= p@.subrange(0, l@.len() as int));
    Some(path.substring_char(l.len(), p.len()).to_owned())
}

/// One component of a path.
#[derive(Debug, Clone, PartialEq, Eq)]
pub enum Part {
    Root,
    Current,
    Parent,
    Name(String),
}

impl View for Part {
    type V = Component;

    open spec fn view(&self) -> Component {
        match self {
            Part::Root => Component::Root,
            Part::Current => Component::Current,
            Part::Parent => Component::Parent,
            Part::Name(name) => Component::Name(name@),
        }
    }
}

/// What some parts stand for.
pub open spec fn parts_of(parts: Seq<Part>) -> Seq<Component> {
    Seq::new(parts.len(), |i: int| parts[i]@)
}

/// The components of `p`.
pub fn path_parts(p: &str) -> (parts: Vec<Part>)
    ensures
        parts_of(parts@) == components(p@),
{
    let segs = split(p);
    let ghost all = segments(p@);
    let mut parts: Vec<Part> = Vec::new();
    proof {
        lemma_segments_nonempty(p@);
        assert(segs.deep_view()[0] == segs@[0]@);
    }
    let first = chars_of(segs[0].as_str());
    if path_is_absolute(p) {
        parts.push(Part::Root);
    } else if first.len() == 1 && first[0] == '.' {
        parts.push(Part::Current);
    }
    assert(parts_of(parts@) =~= lead(p@));
    assert(all.take(0) =~= Seq::<Seq<char>>::empty());
    let mut i: usize = 0;
    while i < segs.len()
        invariant
            i <= segs.len(),
            all == segments(p@),
            segs.deep_view() == all,
            parts_of(parts@) == lead(p@) + named(all.take(i as int)),
        decreases segs.len() - i,
    {
        let ghost before = parts_of(parts@);
        proof {
            assert(all.take(i + 1).drop_last() =~= all.take(i as int));
            assert(all.take(i + 1).last() == segs.deep_view()[i as int]);
            assert(segs.deep_view()[i as int] == segs@[i as int]@);
        }
        if segment_is_parent(segs[i].as_str()) {
            parts.push(Part::Parent);
            assert(parts_of(parts@) =~= before.push(Component::Parent));
        } else if !segment_is_idle(segs[i].as_str()) {
            parts.push(Part::Name(segs[i].clone()));
            assert(parts_of(parts@) =~= before.push(Component::Name(segs@[i as int]@)));
        }
        assert(parts_of(parts@) =~= lead(p@) + named(all.take(i + 1)));
        i += 1;
    }
    assert(all.take(segs.len() as int) =~= all);
    parts
}

/// Whether two components are the same.
fn same_part(a: &Part, b: &Part) -> (r: bool)
    ensures
        r == (a@ == b@),
{
    match (a, b) {
        (Part::Root, Part::Root) => true,
        (Part::Current, Part::Current) => true,
        (Part::Parent, Part::Parent) => true,
        (Part::Name(x), Part::Name(y)) => str_eq(x.as_str(), y.as_str()),
        _ => false,
    }
}

/// The place of the kind of a component among the kinds.
fn rank_of(part: &Part) -> (r: u8)
    ensures
        r == rank(part@),
{
    match part {
        Part::Root => 0,
        Part::Current => 1,
        Part::Parent => 2,
        Part::Name(_) => 3,
    }
}

/// Whether the first component comes before the second, or is the same.
fn part_le(a: &Part, b: &Part) -> (r: bool)
    ensures
        r == component_le(a@, b@),
{
    match (a, b) {
        (Part::Name(x), Part::Name(y)) => str_le(x.as_str(), y.as_str()),
        _ => rank_of(a) <= rank_of(b),
    }
}

/// Whether `a` comes before `b`, or equals it, in the order of paths.
pub fn paths_in_order(a: &str, b: &str) -> (r: bool)
    ensures
        r == path_le(a@, b@),
{
    let x = path_parts(a);
    let y = path_parts(b);
    let ghost xs = parts_of(x@);
    let ghost ys = parts_of(y@);
    let mut i: usize = 0;
    assert(xs.skip(0) =~= xs && ys.skip(0) =~= ys);
    while i < x.len() && i < y.len()
        invariant
            i <= x.len(),
            i <= y.len(),
            xs == parts_of(x@),
            ys == parts_of(y@),
            xs == components(a@),
            ys == components(b@),
            components_le(xs, ys) == components_le(xs.skip(i as int), ys.skip(i as int)),
        decreases x.len() - i,
    {
        proof {
            assert(xs.skip(i as int)[0] == x@[i as int]@);
            assert(ys.skip(i as int)[0] == y@[i as int]@);
            assert(xs.skip(i as int).skip(1) =~= xs.skip(i + 1));
            assert(ys.skip(i as int).skip(1) =~= ys.skip(i + 1));
        }
        if !same_part(&x[i], &y[i]) {
            return part_le(&x[i], &y[i]);
        }
        i += 1;
    }
    i == x.len()
}

} // verus!
