//! The list of tasks as text: one task to a line, written `tag = ID`.
//!
//! Lines end at a line feed. White space around a line, a tag or an
//! identifier does not count. Empty lines and lines that begin with `#` are
//! passed over.

use vstd::prelude::*;
use crate::config::TaskConfig;
use crate::config::task_ids_of;
use crate::config::task_names;
use crate::config::TaskTable;
use crate::text::chars_of;
use crate::text::find_char;
use crate::text::first_index_of;
use crate::text::lemma_first_index_of;
use crate::text::parse_unsigned;
use crate::text::string_of;
use crate::text::trim_range;
use crate::text::trimmed;
use crate::text::unsigned_number;

verus! {

/// Why a list of tasks could not be read. Lines count from zero.
#[derive(Debug)]
pub enum ParseError {
    /// The line holds no `=`.
    InvalidSyntax { line: usize },
    /// What follows the `=` is not an unsigned number; `text` is what was found.
    InvalidTaskId { line: usize, text: String },
    /// An earlier line gives a task to the same tag.
    DuplicateTag { line: usize, tag: String },
}

/// A parse error with its texts as sequences of characters.
pub enum ParseErrorView {
    InvalidSyntax { line: usize },
    InvalidTaskId { line: usize, text: Seq<char> },
    DuplicateTag { line: usize, tag: Seq<char> },
}

impl View for ParseError {
    type V = ParseErrorView;

    open spec fn view(&self) -> ParseErrorView {
        match self {
            ParseError::InvalidSyntax { line } => ParseErrorView::InvalidSyntax { line: *line },
            ParseError::InvalidTaskId { line, text } => ParseErrorView::InvalidTaskId {
                line: *line,
                text: text@,
            },
            ParseError::DuplicateTag { line, tag } => ParseErrorView::DuplicateTag {
                line: *line,
                tag: tag@,
            },
        }
    }
}

/// What one line says.
pub enum TaskLine {
    /// Nothing: the line is empty or a comment.
    Blank,
    /// The tag `tag` stands for the task `id`.
    Task { tag: Seq<char>, id: u64 },
    /// The line holds no `=`.
    InvalidSyntax,
    /// What follows the `=` is no task identifier.
    InvalidTaskId { text: Seq<char> },
}

/// The lines of `text`: the pieces between its line feeds.
pub open spec fn lines(text: Seq<char>) -> Seq<Seq<char>>
    decreases text.len(),
{
    let end = first_index_of(text, '\n');
    if 0 <= end < text.len() {
        seq![text.take(end)] + lines(text.skip(end + 1))
    } else {
        seq![text]
    }
}

/// The two parts of `text` around its first `split`, if it holds one.
pub open spec fn spec_partition(text: Seq<char>, split: char) -> Option<(Seq<char>, Seq<char>)> {
    let at = first_index_of(text, split);
    if 0 <= at < text.len() {
        Some((text.take(at), text.skip(at + 1)))
    } else {
        None
    }
}

/// What the line `line` says.
pub open spec fn read_line(line: Seq<char>) -> TaskLine {
    let content = trimmed(line);
    if content.len() == 0 || content[0] == '#' {
        TaskLine::Blank
    } else {
        match spec_partition(content, '=') {
            None => TaskLine::InvalidSyntax,
            Some((tag, id)) => match unsigned_number(trimmed(id), u64::MAX as nat) {
                Some(id) => TaskLine::Task { tag: trimmed(tag), id: id as u64 },
                None => TaskLine::InvalidTaskId { text: trimmed(id) },
            },
        }
    }
}

/// The tags and tasks that the first `upto` lines give, or the error of the
/// first line among them that is at fault.
pub open spec fn tasks_upto(lines: Seq<Seq<char>>, upto: int) -> Result<
    Seq<(Seq<char>, u64)>,
    ParseErrorView,
>
    decreases upto,
{
    if upto <= 0 {
        Ok(Seq::empty())
    } else {
        let line = (upto - 1) as usize;
        match tasks_upto(lines, upto - 1) {
            Err(error) => Err(error),
            Ok(tasks) => match read_line(lines[upto - 1]) {
                TaskLine::Blank => Ok(tasks),
                TaskLine::InvalidSyntax => Err(ParseErrorView::InvalidSyntax { line }),
                TaskLine::InvalidTaskId { text } => Err(
                    ParseErrorView::InvalidTaskId { line, text },
                ),
                TaskLine::Task { tag, id } => if tasks.map_values(
                    |t: (Seq<char>, u64)| t.0,
                ).contains(tag) {
                    Err(ParseErrorView::DuplicateTag { line, tag })
                } else {
                    Ok(tasks.push((tag, id)))
                },
            },
        }
    }
}

/// Once a line is at fault, later lines change nothing.
pub proof fn lemma_error_stays(lines: Seq<Seq<char>>, upto: int, later: int)
    requires
        upto <= later,
        tasks_upto(lines, upto) is Err,
    ensures
        tasks_upto(lines, later) == tasks_upto(lines, upto),
    decreases later - upto,
{
    if upto < later {
        lemma_error_stays(lines, upto, later - 1);
    }
}

/// The tags and tasks that `text` lists, or the error of its first line that is at fault.
pub open spec fn listed_tasks(text: Seq<char>) -> Result<Seq<(Seq<char>, u64)>, ParseErrorView> {
    tasks_upto(lines(text), lines(text).len() as int)
}

/// The tags and tasks of `tasks`, in order.
pub open spec fn task_pairs(tasks: Seq<TaskConfig>) -> Seq<(Seq<char>, u64)> {
    tasks.map_values(|t: TaskConfig| (t.name@, t.id))
}

/// Finds the first `split` in `chars[from..to]`: the two parts around it
/// are `chars[from..at]` and `chars[at + 1..to]`.
pub fn partition(chars: &Vec<char>, from: usize, to: usize, split: char) -> (at: Option<usize>)
    requires
        from <= to <= chars.len(),
    ensures
        match at {
            Some(at) => from <= at < to && spec_partition(
                chars@.subrange(from as int, to as int),
                split,
            ) == Some(
                (chars@.subrange(from as int, at as int), chars@.subrange(at + 1, to as int)),
            ),
            None => spec_partition(chars@.subrange(from as int, to as int), split) is None,
        },
{
    let at = find_char(chars, from, to, split);
    if at < to {
        proof {
            let text = chars@.subrange(from as int, to as int);
            assert(text.take(at - from) == chars@.subrange(from as int, at as int));
            assert(text.skip(at - from + 1) == chars@.subrange(at + 1, to as int));
        }
        Some(at)
    } else {
        None
    }
}

/// What one line says, with its texts as strings.
#[derive(Debug)]
pub enum LineContent {
    Blank,
    Task { tag: String, id: u64 },
    InvalidSyntax,
    InvalidTaskId { text: String },
}

impl View for LineContent {
    type V = TaskLine;

    open spec fn view(&self) -> TaskLine {
        match self {
            LineContent::Blank => TaskLine::Blank,
            LineContent::Task { tag, id } => TaskLine::Task { tag: tag@, id: *id },
            LineContent::InvalidSyntax => TaskLine::InvalidSyntax,
            LineContent::InvalidTaskId { text } => TaskLine::InvalidTaskId { text: text@ },
        }
    }
}

/// Reads the line `chars[from..to]`.
pub fn parse_line(chars: &Vec<char>, from: usize, to: usize) -> (content: LineContent)
    requires
        from <= to <= chars.len(),
    ensures
        content@ == read_line(chars@.subrange(from as int, to as int)),
{
    let (start, end) = trim_range(chars, from, to);
    let ghost content = chars@.subrange(start as int, end as int);
    if start == end {
        return LineContent::Blank;
    }
    assert(content[0] == chars@[start as int]);
    if chars[start] == '#' {
        return LineContent::Blank;
    }
    match partition(chars, start, end, '=') {
        None => LineContent::InvalidSyntax,
        Some(at) => {
            let (tag_start, tag_end) = trim_range(chars, start, at);
            let (id_start, id_end) = trim_range(chars, at + 1, end);
            match parse_unsigned(chars, id_start, id_end, u64::MAX) {
                Some(id) => LineContent::Task { tag: string_of(chars, tag_start, tag_end), id },
                None => LineContent::InvalidTaskId { text: string_of(chars, id_start, id_end) },
            }
        },
    }
}

/// Reads a list of tasks.
///
/// Gives the table of the tasks by tag, in the order of the lines, or the
/// error of the first line that is at fault.
pub fn parse_task_ids(data: &str) -> (result: Result<TaskTable, ParseError>)
    ensures
        match result {
            Ok(table) => table.wf() && listed_tasks(data@) == Ok::<
                Seq<(Seq<char>, u64)>,
                ParseErrorView,
            >(task_pairs(table.tasks@)),
            Err(error) => listed_tasks(data@) == Err::<Seq<(Seq<char>, u64)>, ParseErrorView>(
                error@,
            ),
        },
{
    let chars = chars_of(data);
    let ghost all = lines(chars@);
    let mut table = TaskTable::new();
    let mut line: usize = 0;
    let mut start: usize = 0;
    proof {
        assert(chars@.skip(0) == chars@);
        assert(all.take(0) + all == all);
        assert(task_pairs(table.tasks@) == Seq::<(Seq<char>, u64)>::empty());
    }
    loop
        invariant
            start <= chars.len(),
            line <= start,
            all == lines(chars@),
            chars@ == data@,
            line < all.len(),
            all == all.take(line as int) + lines(chars@.skip(start as int)),
            table.wf(),
            tasks_upto(all, line as int) == Ok::<Seq<(Seq<char>, u64)>, ParseErrorView>(
                task_pairs(table.tasks@),
            ),
        decreases chars.len() - start,
    {
        let end = find_char(&chars, start, chars.len(), '\n');
        let ghost rest = chars@.skip(start as int);
        proof {
            assert(rest == chars@.subrange(start as int, chars@.len() as int));
            lemma_first_index_of(rest, '\n');
            assert(rest.take(end - start) == chars@.subrange(start as int, end as int));
            assert(lines(rest)[0] == rest.take(end - start)) by {
                if end == chars.len() {
                    assert(rest.take(end - start) == rest);
                }
            }
            assert(all[line as int] == lines(rest)[0]);
        }
        let ghost before = table.tasks@;
        match parse_line(&chars, start, end) {
            LineContent::Blank => {},
            LineContent::InvalidSyntax => {
                proof {
                    lemma_error_stays(all, line + 1, all.len() as int);
                }
                return Err(ParseError::InvalidSyntax { line });
            },
            LineContent::InvalidTaskId { text } => {
                proof {
                    lemma_error_stays(all, line + 1, all.len() as int);
                }
                return Err(ParseError::InvalidTaskId { line, text });
            },
            LineContent::Task { tag, id } => {
                let ghost name = tag@;
                proof {
                    assert(task_pairs(before).map_values(|t: (Seq<char>, u64)| t.0) == task_names(
                        before,
                    ));
                }
                let copy = tag.clone();
                if !table.insert(tag, id) {
                    proof {
                        lemma_error_stays(all, line + 1, all.len() as int);
                    }
                    return Err(ParseError::DuplicateTag { line, tag: copy });
                }
                proof {
                    assert(task_pairs(table.tasks@) == task_pairs(before).push((name, id)));
                }
            },
        }
        if end == chars.len() {
            proof {
                assert(lines(rest) == seq![rest]);
                assert(all.len() == line + 1);
            }
            return Ok(table);
        }
        proof {
            assert(rest.skip(end - start + 1) == chars@.skip(end + 1));
            assert(all == all.take(line + 1) + lines(chars@.skip(end + 1))) by {
                let done = all.take(line as int);
                let tail = lines(chars@.skip(end + 1));
                assert(lines(rest) == seq![rest.take(end - start)] + tail);
                assert(all == done + (seq![rest.take(end - start)] + tail));
                assert(all.take(line + 1) == done.push(rest.take(end - start)));
            }
        }
        line += 1;
        start = end + 1;
    }
}

} // verus!
