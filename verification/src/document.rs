//! The text of a note file: an optional block of front matter between two delimiter
//! lines, then the body.
//!
//! A delimiter line is `---`, with nothing behind it but blanks. A text has front
//! matter where its first line is a delimiter line and a later line is one too: what
//! stands between them is the front matter, and what follows the second is the body,
//! character for character. Every other text is all body, except that a first
//! delimiter line without a second is left out of it.

use vstd::prelude::*;
use crate::error::{ErrorView, FileOperation, StoreError};
use crate::node::{Node, Tree};
use crate::text::chars_of;
use crate::types::text_view;
use crate::yaml::{parse_yaml, yaml_tree_of};

verus! {

/// The place of the first line break at or behind `from`, or the length of the text
/// where there is none.
pub open spec fn line_end(text: Seq<char>, from: int) -> int
    decreases text.len() - from,
{
    if from >= text.len() {
        text.len() as int
    } else if text[from] == '\n' {
        from
    } else {
        line_end(text, from + 1)
    }
}

/// The line that starts at `from`, without its line break.
pub open spec fn line_at(text: Seq<char>, from: int) -> Seq<char> {
    text.subrange(from, line_end(text, from))
}

/// A character that may follow the dashes of a delimiter line.
pub open spec fn is_filler(c: char) -> bool {
    c == ' ' || c == '\t' || c == '\r'
}

/// A line of three dashes, with nothing behind them but blanks.
pub open spec fn is_delimiter_line(line: Seq<char>) -> bool {
    &&& line.len() >= 3
    &&& line[0] == '-'
    &&& line[1] == '-'
    &&& line[2] == '-'
    &&& forall|i: int| 3 <= i < line.len() ==> is_filler(#[trigger] line[i])
}

/// The first line is a delimiter line, and the text goes on behind it.
pub open spec fn has_opening(text: Seq<char>) -> bool {
    line_end(text, 0) < text.len() && is_delimiter_line(line_at(text, 0))
}

/// The start of the first delimiter line among the lines from `from` on, where
/// `from` is the start of a line.
pub open spec fn closing_from(text: Seq<char>, from: int) -> Option<int>
    decreases text.len() - from,
{
    let end = line_end(text, from);
    if is_delimiter_line(line_at(text, from)) {
        Some(from)
    } else if end >= text.len() || end < from {
        None
    } else {
        closing_from(text, end + 1)
    }
}

/// A text of blanks and line breaks only.
pub open spec fn is_blank(text: Seq<char>) -> bool {
    forall|i: int| 0 <= i < text.len() ==> is_filler(#[trigger] text[i]) || text[i] == '\n'
}

/// The front matter and the body of a note file. Front matter that is blank counts
/// as none.
pub open spec fn parts_of(text: Seq<char>) -> (Option<Seq<char>>, Seq<char>) {
    if !has_opening(text) {
        (None, text)
    } else {
        let start = line_end(text, 0) + 1;
        match closing_from(text, start) {
            None => (None, text.skip(start)),
            Some(at) => {
                let matter = text.subrange(start, at);
                let end = line_end(text, at);
                let content = if end < text.len() {
                    text.skip(end + 1)
                } else {
                    Seq::empty()
                };
                (
                    if is_blank(matter) {
                        None
                    } else {
                        Some(matter)
                    },
                    content,
                )
            },
        }
    }
}

/// The text of a note file with the given front matter and body. Front matter, where
/// there is any, stands between two delimiter lines; without it the file is the body.
pub open spec fn framed(front: Option<Seq<char>>, content: Seq<char>) -> Seq<char> {
    match front {
        Some(yaml) => "---\n"@ + yaml + "---\n"@ + content,
        None => content,
    }
}

/// Front matter that a file can hold as it is: whole lines, none of them a
/// delimiter line, and not all blank.
pub open spec fn is_plain_front(yaml: Seq<char>) -> bool {
    &&& yaml.len() > 0
    &&& yaml.last() == '\n'
    &&& closing_from(yaml, 0) is None
    &&& !is_blank(yaml)
}

pub proof fn lemma_line_end_bounds(text: Seq<char>, from: int)
    requires
        0 <= from <= text.len(),
    ensures
        from <= line_end(text, from) <= text.len(),
        line_end(text, from) < text.len() ==> text[line_end(text, from)] == '\n',
        forall|i: int| from <= i < line_end(text, from) ==> text[i] != '\n',
    decreases text.len() - from,
{
    if from < text.len() && text[from] != '\n' {
        lemma_line_end_bounds(text, from + 1);
    }
}

/// A line ends where the first line break behind its start stands.
pub proof fn lemma_line_end_is(text: Seq<char>, from: int, end: int)
    requires
        0 <= from <= end <= text.len(),
        forall|i: int| from <= i < end ==> text[i] != '\n',
        end < text.len() ==> text[end] == '\n',
    ensures
        line_end(text, from) == end,
    decreases end - from,
{
    if from < end {
        lemma_line_end_is(text, from + 1, end);
    }
}

/// In a framed text the lines of the front matter lead up to the closing delimiter.
proof fn lemma_closing_of_framed(yaml: Seq<char>, content: Seq<char>, from: int)
    requires
        yaml.len() > 0,
        yaml.last() == '\n',
        0 <= from <= yaml.len(),
        closing_from(yaml, from) is None,
        from == 0 || yaml[from - 1] == '\n',
    ensures
        closing_from(framed(Some(yaml), content), 4 + from) == Some(4 + yaml.len() as int),
    decreases yaml.len() - from,
{
    reveal_strlit("---\n");
    let whole = framed(Some(yaml), content);
    let mark = "---\n"@;
    assert(whole.len() == 8 + yaml.len() + content.len());
    assert forall|i: int| 0 <= i < yaml.len() implies whole[4 + i] == yaml[i] by {}
    assert forall|i: int| 0 <= i < 4 implies whole[4 + yaml.len() + i] == mark[i] by {}
    if from == yaml.len() {
        let at = 4 + yaml.len() as int;
        lemma_line_end_is(whole, at, at + 3);
        assert(line_at(whole, at) =~= seq!['-', '-', '-']);
    } else {
        lemma_line_end_bounds(yaml, from);
        let end = line_end(yaml, from);
        assert(end < yaml.len()) by {
            if end >= yaml.len() {
                assert(yaml[yaml.len() - 1] != '\n');
            }
        }
        lemma_line_end_is(whole, 4 + from, 4 + end);
        assert(line_at(whole, 4 + from) =~= line_at(yaml, from));
        lemma_closing_of_framed(yaml, content, end + 1);
    }
}

/// A note written with front matter that is plain reads back as it was written:
/// the same front matter, and the same body.
pub proof fn lemma_framed_front_reads_back(yaml: Seq<char>, content: Seq<char>)
    requires
        is_plain_front(yaml),
    ensures
        parts_of(framed(Some(yaml), content)) == (Some(yaml), content),
{
    reveal_strlit("---\n");
    let whole = framed(Some(yaml), content);
    let mark = "---\n"@;
    assert(whole.len() == 8 + yaml.len() + content.len());
    assert forall|i: int| 0 <= i < 4 implies whole[i] == mark[i] by {}
    assert forall|i: int| 0 <= i < 4 implies whole[4 + yaml.len() + i] == mark[i] by {}
    lemma_line_end_is(whole, 0, 3);
    assert(line_at(whole, 0) =~= seq!['-', '-', '-']);
    lemma_closing_of_framed(yaml, content, 0);
    let at = 4 + yaml.len() as int;
    lemma_line_end_is(whole, at, at + 3);
    assert(whole.subrange(4, at) =~= yaml);
    assert(whole.skip(at + 4) =~= content);
}

/// A note written without front matter reads back as it was written, unless its
/// body starts with a delimiter line.
pub proof fn lemma_framed_body_reads_back(content: Seq<char>)
    requires
        !has_opening(content),
    ensures
        parts_of(framed(None, content)) == (None::<Seq<char>>, content),
{
}

/// Writes out the text of a note file: the front matter between two `---` lines where
/// there is any, then the body.
pub fn frame(front: Option<&str>, content: &str) -> (text: String)
    ensures
        text@ == framed(
            match front {
                Some(yaml) => Some(yaml@),
                None => None,
            },
            content@,
        ),
{
    let mut text = String::new();
    match front {
        Some(yaml) => {
            text.append("---\n");
            text.append(yaml);
            text.append("---\n");
        },
        None => {},
    }
    text.append(content);
    proof {
        assert(Seq::<char>::empty() + content@ =~= content@);
        if let Some(yaml) = front {
            assert(Seq::<char>::empty() + "---\n"@ =~= "---\n"@);
        }
    }
    text
}

/// The end of the line that starts at `from`.
fn find_line_end(text: &Vec<char>, from: usize) -> (end: usize)
    requires
        from <= text.len(),
    ensures
        end == line_end(text@, from as int),
        from <= end <= text.len(),
{
    let mut end = from;
    while end < text.len() && text[end] != '\n'
        invariant
            from <= end <= text.len(),
            forall|i: int| from <= i < end ==> text@[i] != '\n',
        decreases text.len() - end,
    {
        end += 1;
    }
    proof {
        lemma_line_end_is(text@, from as int, end as int);
    }
    end
}

/// Whether the characters from `from` up to `to` are a delimiter line.
fn delimiter_between(text: &Vec<char>, from: usize, to: usize) -> (r: bool)
    requires
        from <= to <= text.len(),
    ensures
        r == is_delimiter_line(text@.subrange(from as int, to as int)),
{
    let ghost line = text@.subrange(from as int, to as int);
    if to - from < 3 || text[from] != '-' || text[from + 1] != '-' || text[from + 2] != '-' {
        assert(to - from >= 3 ==> line[0] == text@[from as int] && line[1] == text@[from + 1]
            && line[2] == text@[from + 2]);
        return false;
    }
    assert(line[0] == text@[from as int] && line[1] == text@[from + 1] && line[2] == text@[from
        + 2]);
    let mut i = from + 3;
    while i < to
        invariant
            from + 3 <= i <= to <= text.len(),
            line == text@.subrange(from as int, to as int),
            forall|k: int| 3 <= k < i - from ==> is_filler(#[trigger] line[k]),
        decreases to - i,
    {
        let c = text[i];
        assert(line[i - from] == c);
        if !(c == ' ' || c == '\t' || c == '\r') {
            return false;
        }
        i += 1;
    }
    true
}

/// Whether the characters from `from` up to `to` are blanks and line breaks only.
fn blank_between(text: &Vec<char>, from: usize, to: usize) -> (r: bool)
    requires
        from <= to <= text.len(),
    ensures
        r == is_blank(text@.subrange(from as int, to as int)),
{
    let ghost piece = text@.subrange(from as int, to as int);
    let mut i = from;
    while i < to
        invariant
            from <= i <= to <= text.len(),
            piece == text@.subrange(from as int, to as int),
            forall|k: int| 0 <= k < i - from ==> is_filler(#[trigger] piece[k]) || piece[k] == '\n',
        decreases to - i,
    {
        let c = text[i];
        assert(piece[i - from] == c);
        if !(c == ' ' || c == '\t' || c == '\r' || c == '\n') {
            return false;
        }
        i += 1;
    }
    true
}

/// The start of the first delimiter line among the lines from `from` on.
fn find_closing(text: &Vec<char>, from: usize) -> (at: Option<usize>)
    requires
        from <= text.len(),
    ensures
        match at {
            Some(start) => closing_from(text@, from as int) == Some(start as int) && from <= start
                <= text.len(),
            None => closing_from(text@, from as int) is None,
        },
{
    let mut start = from;
    loop
        invariant
            from <= start <= text.len(),
            closing_from(text@, from as int) == closing_from(text@, start as int),
        decreases text.len() - start,
    {
        let end = find_line_end(text, start);
        if delimiter_between(text, start, end) {
            return Some(start);
        }
        if end >= text.len() {
            return None;
        }
        start = end + 1;
    }
}

/// Takes the text of a note file apart into its front matter, if it has any that is
/// not blank, and its body.
pub fn split_note(text: &str) -> (parts: (Option<String>, String))
    ensures
        text_view(parts.0) == parts_of(text@).0,
        parts.1@ == parts_of(text@).1,
{
    let cs = chars_of(text);
    let n = cs.len();
    let first_end = find_line_end(&cs, 0);
    if first_end >= n || !delimiter_between(&cs, 0, first_end) {
        return (None, text.to_owned());
    }
    let start = first_end + 1;
    match find_closing(&cs, start) {
        None => (None, text.substring_char(start, n).to_owned()),
        Some(at) => {
            let end = find_line_end(&cs, at);
            let content = if end < n {
                text.substring_char(end + 1, n).to_owned()
            } else {
                String::new()
            };
            let matter = if blank_between(&cs, start, at) {
                None
            } else {
                Some(text.substring_char(start, at).to_owned())
            };
            (matter, content)
        },
    }
}

/// Whether a text can stand as front matter as it is: whole lines, none of them a
/// delimiter line, and not all blank.
pub fn front_is_plain(yaml: &str) -> (r: bool)
    ensures
        r == is_plain_front(yaml@),
{
    let cs = chars_of(yaml);
    let n = cs.len();
    if n == 0 || cs[n - 1] != '\n' {
        return false;
    }
    assert(cs@.subrange(0, n as int) =~= cs@);
    match find_closing(&cs, 0) {
        Some(_) => false,
        None => !blank_between(&cs, 0, n),
    }
}

/// A note file taken apart: where it lies, its front matter and its body.
#[derive(Debug, Clone, PartialEq)]
pub struct Document {
    pub path: String,
    pub frontmatter: Option<Node>,
    pub content: String,
}

/// What a [`Document`] stands for.
pub struct DocumentView {
    pub path: Seq<char>,
    pub frontmatter: Option<Tree>,
    pub content: Seq<char>,
}

/// What an optional node stands for.
pub open spec fn node_view(node: Option<Node>) -> Option<Tree> {
    match node {
        Some(n) => Some(n@),
        None => None,
    }
}

impl View for Document {
    type V = DocumentView;

    open spec fn view(&self) -> DocumentView {
        DocumentView {
            path: self.path@,
            frontmatter: node_view(self.frontmatter),
            content: self.content@,
        }
    }
}

/// What the front matter of a note holds, read as YAML.
pub open spec fn data_of(matter: Option<Seq<char>>) -> Option<Tree> {
    match matter {
        Some(yaml) => Some(yaml_tree_of(yaml)),
        None => None,
    }
}

/// The front matter that a document shows: what was read, except that a null, which
/// is also what front matter that is no YAML comes out as, counts as none.
pub open spec fn shown_front_matter(data: Option<Tree>) -> Option<Tree> {
    match data {
        Some(Tree::Null) => None,
        other => other,
    }
}

/// Reads front matter as YAML, where there is any.
pub fn read_front_matter(matter: Option<String>) -> (data: Option<Node>)
    ensures
        node_view(data) == data_of(text_view(matter)),
{
    match matter {
        Some(yaml) => Some(parse_yaml(yaml.as_str())),
        None => None,
    }
}

impl Document {
    /// Puts a document together from what was read out of its file. Front matter
    /// that is null is left out.
    pub fn from_parts(path: String, data: Option<Node>, content: String) -> (document: Document)
        ensures
            document@ == (DocumentView {
                path: path@,
                frontmatter: shown_front_matter(node_view(data)),
                content: content@,
            }),
    {
        let frontmatter = match data {
            Some(Node::Null) => None,
            other => other,
        };
        Document { path, frontmatter, content }
    }

    /// Takes apart the file at `path`, given what reading it brought: its text, or
    /// nothing where it could not be read, which is an error. Text without front
    /// matter is all body; front matter that is no YAML is left out.
    pub fn load(path: String, file: Option<String>) -> (r: Result<Document, StoreError>)
        ensures
            match r {
                Ok(document) => file matches Some(text) && document@ == (DocumentView {
                    path: path@,
                    frontmatter: shown_front_matter(data_of(parts_of(text@).0)),
                    content: parts_of(text@).1,
                }),
                Err(e) => file is None && e@ == (ErrorView::Io {
                    operation: FileOperation::Read,
                    path: path@,
                }),
            },
    {
        match file {
            None => Err(StoreError::Io { operation: FileOperation::Read, path }),
            Some(text) => {
                let (matter, content) = split_note(text.as_str());
                Ok(Document::from_parts(path, read_front_matter(matter), content))
            },
        }
    }
}

} // verus!
