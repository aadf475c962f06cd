//! Reading the index: its rows in order of path, and the rows that match a query.

use vstd::prelude::*;
use vstd::seq_lib::to_multiset_insert;
use crate::text::{chars_of, lemma_text_le_order, str_le, text_le};
use crate::types::{NoteSummary, SummaryView};

verus! {

/// What some rows stand for.
pub open spec fn rows_of(rows: Seq<NoteSummary>) -> Seq<SummaryView> {
    Seq::new(rows.len(), |i: int| rows[i]@)
}

/// Each row's path comes before those of the rows behind it, or equals them.
pub open spec fn ascending_by_path(rows: Seq<SummaryView>) -> bool {
    forall|i: int, j: int| 0 <= i <= j < rows.len() ==> text_le(rows[i].path, rows[j].path)
}

/// A character as a pattern compares it: an ASCII capital counts as its small letter.
pub open spec fn folded(c: char) -> int {
    if 'A' <= c <= 'Z' {
        c as int + 32
    } else {
        c as int
    }
}

/// Whether a text matches a pattern. In the pattern `%` stands for any run of
/// characters, the empty one too, and `_` for any one character; every other
/// character stands for itself, and ASCII letters match in either case.
pub open spec fn like(pattern: Seq<char>, text: Seq<char>) -> bool
    decreases pattern.len(), text.len(),
{
    if pattern.len() == 0 {
        text.len() == 0
    } else if pattern[0] == '%' {
        like(pattern.skip(1), text) || (text.len() > 0 && like(pattern, text.skip(1)))
    } else {
        text.len() > 0 && (pattern[0] == '_' || folded(pattern[0]) == folded(text[0])) && like(
            pattern.skip(1),
            text.skip(1),
        )
    }
}

/// The pattern of a search: the query with a `%` before and behind it. The query is
/// taken as it is, so a `%` or `_` in it works as in any pattern.
pub open spec fn search_pattern(query: Seq<char>) -> Seq<char> {
    seq!['%'] + query + seq!['%']
}

/// A row whose path or title matches the pattern. A row without a title can only
/// match by its path.
pub open spec fn row_matches(pattern: Seq<char>) -> spec_fn(SummaryView) -> bool {
    |row: SummaryView|
        like(pattern, row.path) || match row.title {
            Some(title) => like(pattern, title),
            None => false,
        }
}

/// Whether two characters of the same place match.
fn same_folded(a: char, b: char) -> (r: bool)
    ensures
        r == (folded(a) == folded(b)),
{
    let x: u32 = a as u32;
    let y: u32 = b as u32;
    let x: u32 = if 65 <= x && x <= 90 {
        x + 32
    } else {
        x
    };
    let y: u32 = if 65 <= y && y <= 90 {
        y + 32
    } else {
        y
    };
    x == y
}

/// Whether `text` matches `pattern`: it fills in, for each place in the pattern from
/// the last to the first, which ends of the text match the rest of the pattern.
pub fn like_match(pattern: &str, text: &str) -> (r: bool)
    ensures
        r == like(pattern@, text@),
{
    let p = chars_of(pattern);
    let t = chars_of(text);
    let n = t.len();
    // `rest[j]` tells whether the text from `j` on matches the pattern from `i` on.
    let mut rest: Vec<bool> = Vec::new();
    let mut j: usize = 0;
    while j < n
        invariant
            j <= n,
            n == t.len(),
            rest.len() == j,
            forall|k: int| 0 <= k < j ==> !rest[k],
        decreases n - j,
    {
        rest.push(false);
        j += 1;
    }
    rest.push(true);
    let mut i: usize = p.len();
    assert forall|k: int| 0 <= k <= n implies rest[k] == like(
        p@.skip(i as int),
        t@.skip(k),
    ) by {
        assert(p@.skip(i as int).len() == 0);
    }
    while i > 0
        invariant
            i <= p.len(),
            n == t.len(),
            rest.len() == n + 1,
            forall|k: int| 0 <= k <= n ==> rest[k] == like(p@.skip(i as int), t@.skip(k)),
        decreases i,
    {
        i -= 1;
        let ghost tail = p@.skip(i + 1);
        let ghost here = p@.skip(i as int);
        assert(here.skip(1) =~= tail);
        assert(here[0] == p@[i as int]);
        let c = p[i];
        let mut row: Vec<bool> = rest.clone();
        let mut j: usize = n + 1;
        assert(row@ =~= rest@);
        while j > 0
            invariant
                j <= n + 1,
                n == t.len(),
                i < p.len(),
                c == p@[i as int],
                here == p@.skip(i as int),
                tail == p@.skip(i + 1),
                here.skip(1) == tail,
                here.len() > 0,
                here[0] == c,
                row.len() == n + 1,
                rest.len() == n + 1,
                forall|k: int| 0 <= k <= n ==> rest[k] == like(tail, t@.skip(k)),
                forall|k: int| j <= k <= n ==> row[k] == like(here, t@.skip(k)),
            decreases j,
        {
            j -= 1;
            let ghost end = t@.skip(j as int);
            if j < n {
                assert(end.skip(1) =~= t@.skip(j + 1));
                assert(end[0] == t@[j as int]);
            }
            let found = if c == '%' {
                rest[j] || (j < n && row[j + 1])
            } else {
                j < n && (c == '_' || same_folded(c, t[j])) && rest[j + 1]
            };
            row.set(j, found);
        }
        rest = row;
    }
    assert(p@.skip(0) =~= p@ && t@.skip(0) =~= t@);
    rest[0]
}

/// Puts a row into rows that ascend by path, before the first row that comes behind it.
fn insert_by_path(rows: &mut Vec<NoteSummary>, row: NoteSummary)
    requires
        ascending_by_path(rows_of(old(rows)@)),
    ensures
        ascending_by_path(rows_of(final(rows)@)),
        rows_of(final(rows)@).to_multiset() == rows_of(old(rows)@).to_multiset().insert(row@),
{
    let ghost before = rows_of(rows@);
    let mut at: usize = 0;
    while at < rows.len() && str_le(rows[at].path.as_str(), row.path.as_str())
        invariant
            at <= rows.len(),
            rows_of(rows@) == before,
            forall|k: int| 0 <= k < at ==> text_le((#[trigger] before[k]).path, row.path@),
        decreases rows.len() - at,
    {
        assert(before[at as int] == rows@[at as int]@);
        at += 1;
    }
    proof {
        if at < rows.len() {
            assert(before[at as int] == rows@[at as int]@);
        }
        assert forall|k: int| at <= k < before.len() implies text_le(
            row.path@,
            (#[trigger] before[k]).path,
        ) by {
            lemma_text_le_order(before[at as int].path, row.path@, before[k].path);
            lemma_text_le_order(row.path@, before[at as int].path, before[k].path);
        }
    }
    let ghost inserted = row@;
    rows.insert(at, row);
    proof {
        assert(rows_of(rows@) =~= before.insert(at as int, inserted));
        to_multiset_insert(before, at as int, inserted);
        let after = rows_of(rows@);
        assert forall|i: int, j: int| 0 <= i <= j < after.len() implies text_le(
            after[i].path,
            after[j].path,
        ) by {
            lemma_text_le_order(after[i].path, after[i].path, after[i].path);
            if i < at && j > at {
                lemma_text_le_order(before[i].path, inserted.path, before[j - 1].path);
            }
        }
    }
}

/// The rows in ascending order of path.
pub fn sort_by_path(rows: Vec<NoteSummary>) -> (sorted: Vec<NoteSummary>)
    ensures
        ascending_by_path(rows_of(sorted@)),
        rows_of(sorted@).to_multiset() == rows_of(rows@).to_multiset(),
{
    let ghost all = rows_of(rows@);
    let mut sorted: Vec<NoteSummary> = Vec::new();
    proof {
        assert(all.take(0) =~= Seq::empty());
        assert(rows_of(sorted@) =~= Seq::empty());
    }
    for row in it: rows.into_iter()
        invariant
            all == rows_of(it.seq()),
            ascending_by_path(rows_of(sorted@)),
            rows_of(sorted@).to_multiset() == all.take(it.index() as int).to_multiset(),
    {
        proof {
            let seen = all.take(it.index() as int);
            assert(all.take(it.index() + 1) =~= seen.push(row@));
            vstd::seq_lib::to_multiset_build(seen, row@);
        }
        insert_by_path(&mut sorted, row);
    }
    assert(all.take(all.len() as int) =~= all);
    sorted
}

/// The rows whose path or title matches the query, in the order given.
pub fn matching_rows(query: &str, rows: Vec<NoteSummary>) -> (found: Vec<NoteSummary>)
    ensures
        rows_of(found@) == rows_of(rows@).filter(row_matches(search_pattern(query@))),
{
    let mut pattern = "%".to_owned();
    pattern.append(query);
    pattern.append("%");
    proof {
        reveal_strlit("%");
        assert(pattern@ =~= search_pattern(query@));
    }
    let ghost all = rows_of(rows@);
    let ghost accepts = row_matches(pattern@);
    let mut found: Vec<NoteSummary> = Vec::new();
    proof {
        assert(all.take(0) =~= Seq::empty());
        reveal(Seq::filter);
        assert(rows_of(found@) =~= all.take(0).filter(accepts));
    }
    for row in it: rows.into_iter()
        invariant
            all == rows_of(it.seq()),
            accepts == row_matches(pattern@),
            rows_of(found@) == all.take(it.index() as int).filter(accepts),
    {
        proof {
            let seen = all.take(it.index() as int);
            assert(all.take(it.index() + 1) =~= seen.push(row@));
            seen.lemma_filter_push(row@, accepts);
        }
        let by_path = like_match(pattern.as_str(), row.path.as_str());
        let by_title = match &row.title {
            Some(title) => like_match(pattern.as_str(), title.as_str()),
            None => false,
        };
        if by_path || by_title {
            let ghost kept = rows_of(found@);
            let ghost view = row@;
            found.push(row);
            assert(rows_of(found@) =~= kept.push(view));
        }
    }
    assert(all.take(all.len() as int) =~= all);
    found
}

} // verus!
