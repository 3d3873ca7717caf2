//! What a client keeps of the buffer that it shows, and how it follows the
//! editor.

use crate::buffer_content::{clamped, deleted, inserted, ordered, split_lines, BufferContent};
use crate::buffer_position::{BufferPosition, BufferRange};
use crate::cursor::Cursor;
use crate::editor::Config;
use crate::mode::ModeKind;
use crate::text::chars_of;
use vstd::prelude::*;

verus! {

/// What the editor tells a client of the buffer that the client shows.
pub enum EditorOperation {
    /// The whole text of the buffer.
    Content(String),
    /// The path of the buffer.
    Path(Option<String>),
    /// The mode of the editor.
    Mode(ModeKind),
    /// Text that was inserted at a place.
    Insert(BufferPosition, String),
    /// A range that was deleted.
    Delete(BufferRange),
    /// The cursors are about to be told anew.
    ClearCursors,
    /// One more cursor.
    Cursor(Cursor),
    /// The text that is searched for.
    Search(String),
}

/// What a client keeps.
pub struct Client {
    pub config: Config,
    pub mode: ModeKind,
    pub path: Option<String>,
    pub buffer: BufferContent,
    pub scroll: usize,
    pub cursors: Vec<Cursor>,
    pub search_ranges: Vec<BufferRange>,
    pub has_focus: bool,
    pub input: String,
}

/// The ranges of a line in which `pattern` stands, from the column `from`
/// on, behind `out`; an occurrence begins behind the one before it.
pub open spec fn line_matches(
    line: Seq<char>,
    line_index: usize,
    pattern: Seq<char>,
    from: int,
    out: Seq<BufferRange>,
) -> Seq<BufferRange>
    decreases line.len() - from,
{
    if pattern.len() == 0 || from < 0 || from + pattern.len() > line.len() {
        out
    } else if line.subrange(from, from + pattern.len()) == pattern {
        line_matches(
            line,
            line_index,
            pattern,
            from + pattern.len(),
            out.push(
                BufferRange {
                    from: BufferPosition { line_index, column_index: from as usize },
                    to: BufferPosition {
                        line_index,
                        column_index: (from + pattern.len()) as usize,
                    },
                },
            ),
        )
    } else {
        line_matches(line, line_index, pattern, from + 1, out)
    }
}

/// The ranges of the lines from `from` on in which `pattern` stands,
/// behind `out`.
pub open spec fn search_ranges(
    content: Seq<Seq<char>>,
    pattern: Seq<char>,
    from: int,
    out: Seq<BufferRange>,
) -> Seq<BufferRange>
    decreases content.len() - from,
{
    if from < 0 || from >= content.len() {
        out
    } else {
        search_ranges(
            content,
            pattern,
            from + 1,
            line_matches(content[from], from as usize, pattern, 0, out),
        )
    }
}

fn matches_at(line: &Vec<char>, pattern: &Vec<char>, from: usize) -> (r: bool)
    requires
        from + pattern.len() <= line.len(),
    ensures
        r == (line@.subrange(from as int, from + pattern@.len()) == pattern@),
{
    let mut k: usize = 0;
    while k < pattern.len()
        invariant
            0 <= k <= pattern.len(),
            from + pattern.len() <= line.len(),
            forall|j: int| 0 <= j < k ==> line@[from + j] == pattern@[j],
        decreases pattern.len() - k,
    {
        if line[from + k] != pattern[k] {
            assert(line@.subrange(from as int, from + pattern@.len())[k as int] != pattern@[k as int]);
            return false;
        }
        k = k + 1;
    }
    assert(line@.subrange(from as int, from + pattern@.len()) =~= pattern@);
    true
}

impl BufferContent {
    /// Adds the ranges in which `pattern` stands to `ranges`, line by line.
    pub fn find_search_ranges(&self, pattern: &str, ranges: &mut Vec<BufferRange>)
        ensures
            final(ranges)@ == search_ranges(self@, pattern@, 0, old(ranges)@),
    {
        let wanted = chars_of(pattern);
        let count = self.line_count();
        let mut i: usize = 0;
        while i < count
            invariant
                0 <= i <= count,
                count == self@.len(),
                wanted@ == pattern@,
                search_ranges(self@, pattern@, 0, old(ranges)@) == search_ranges(
                    self@,
                    pattern@,
                    i as int,
                    ranges@,
                ),
            decreases count - i,
        {
            let line = chars_of(self.line(i));
            let ghost start = ranges@;
            let mut column: usize = 0;
            while wanted.len() > 0 && wanted.len() <= line.len() && column <= line.len()
                - wanted.len()
                invariant
                    0 <= column,
                    line@ == self@[i as int],
                    wanted@ == pattern@,
                    line_matches(line@, i, pattern@, 0, start) == line_matches(
                        line@,
                        i,
                        pattern@,
                        column as int,
                        ranges@,
                    ),
                decreases line.len() - column,
            {
                if matches_at(&line, &wanted, column) {
                    ranges.push(
                        BufferRange {
                            from: BufferPosition { line_index: i, column_index: column },
                            to: BufferPosition {
                                line_index: i,
                                column_index: column + wanted.len(),
                            },
                        },
                    );
                    column = column + wanted.len();
                } else {
                    column = column + 1;
                }
            }
            i = i + 1;
        }
    }
}

impl Client {
    /// A client that shows an empty buffer.
    pub fn new() -> (r: Self)
        ensures
            r.buffer.well_formed(),
            r.buffer@ == seq![Seq::<char>::empty()],
            r.mode == ModeKind::Normal,
            r.path is None,
            r.scroll == 0,
            r.cursors@.len() == 0,
            r.search_ranges@.len() == 0,
            r.has_focus,
            r.input@.len() == 0,
    {
        Client {
            config: Config::new(),
            mode: ModeKind::Normal,
            path: None,
            buffer: BufferContent::new(),
            scroll: 0,
            cursors: Vec::new(),
            search_ranges: Vec::new(),
            has_focus: true,
            input: String::new(),
        }
    }

    /// Follows what the editor tells.
    pub fn on_editor_operation(&mut self, operation: EditorOperation)
        requires
            old(self).buffer.well_formed(),
        ensures
            final(self).buffer.well_formed(),
            final(self).config == old(self).config,
            final(self).scroll == old(self).scroll,
            final(self).has_focus == old(self).has_focus,
            final(self).input == old(self).input,
            match operation {
                EditorOperation::Content(text) => final(self).buffer@ == split_lines(text@) && final(self).mode == old(self).mode && final(self).path == old(self).path && final(self).cursors == old(self).cursors && final(self).search_ranges == old(self).search_ranges,
                EditorOperation::Path(path) => final(self).path == path && final(self).buffer == old(self).buffer && final(self).mode == old(self).mode && final(self).cursors == old(self).cursors && final(self).search_ranges == old(self).search_ranges,
                EditorOperation::Mode(mode) => final(self).mode == mode && final(self).buffer == old(self).buffer && final(self).path == old(self).path && final(self).cursors == old(self).cursors && final(self).search_ranges == old(self).search_ranges,
                EditorOperation::Insert(position, text) => final(self).buffer@ == inserted(
                    old(self).buffer@,
                    clamped(old(self).buffer@, position),
                    text@,
                ) && final(self).mode == old(self).mode && final(self).path == old(self).path
                    && final(self).cursors == old(self).cursors && final(self).search_ranges == old(self).search_ranges,
                EditorOperation::Delete(range) => {
                    let span = ordered(
                        clamped(old(self).buffer@, range.from),
                        clamped(old(self).buffer@, range.to),
                    );
                    final(self).buffer@ == deleted(old(self).buffer@, span.from, span.to) && final(self).mode == old(self).mode && final(self).path == old(self).path && final(self).cursors == old(self).cursors && final(self).search_ranges == old(self).search_ranges
                },
                EditorOperation::ClearCursors => final(self).cursors@.len() == 0 && final(self).buffer == old(self).buffer && final(self).mode == old(self).mode && final(self).path == old(self).path && final(self).search_ranges == old(self).search_ranges,
                EditorOperation::Cursor(cursor) => final(self).cursors@ == old(self).cursors@.push(
                    cursor,
                ) && final(self).buffer == old(self).buffer && final(self).mode == old(self).mode
                    && final(self).path == old(self).path && final(self).search_ranges == old(self).search_ranges,
                EditorOperation::Search(text) => final(self).search_ranges@ == search_ranges(
                    old(self).buffer@,
                    text@,
                    0,
                    Seq::empty(),
                ) && final(self).buffer == old(self).buffer && final(self).mode == old(self).mode
                    && final(self).path == old(self).path && final(self).cursors == old(self).cursors,
            },
    {
        match operation {
            EditorOperation::Content(text) => {
                self.buffer = BufferContent::from_str(text.as_str());
            },
            EditorOperation::Path(path) => {
                self.path = path;
            },
            EditorOperation::Mode(mode) => {
                self.mode = mode;
            },
            EditorOperation::Insert(position, text) => {
                self.buffer.insert_text(position, text.as_str());
            },
            EditorOperation::Delete(range) => {
                self.buffer.delete_range(range);
            },
            EditorOperation::ClearCursors => {
                self.cursors = Vec::new();
            },
            EditorOperation::Cursor(cursor) => {
                self.cursors.push(cursor);
            },
            EditorOperation::Search(text) => {
                self.search_ranges = Vec::new();
                assert(self.search_ranges@ =~= Seq::<BufferRange>::empty());
                self.buffer.find_search_ranges(text.as_str(), &mut self.search_ranges);
            },
        }
    }
}

impl Default for Client {
    fn default() -> (r: Self)
        ensures
            r.buffer.well_formed(),
            r.mode == ModeKind::Normal,
    {
        Client::new()
    }
}

} // verus!
