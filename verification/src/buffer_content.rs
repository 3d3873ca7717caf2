//! The text of a buffer as a list of lines, with insertion and deletion at
//! positions, and the laws that make the two undo each other.
//!
//! Text is measured in characters: the column of a position counts the
//! characters of its line that stand before it, so every column lies on a
//! character boundary.

use crate::buffer_position::{clip, position_le, BufferPosition, BufferRange};
use crate::history::{
    group_inverses, inverse, is_merge_target, merge_rule, merged_log, shifted, try_merge, EditKind,
    EditView,
};
use crate::text::{chars_of, join_strings, join_with, joined, substring, views};
use vstd::prelude::*;

verus! {

/// The lines of a text: what stands between its line feeds.
pub open spec fn split_lines(text: Seq<char>) -> Seq<Seq<char>>
    decreases text.len(),
{
    if text.len() == 0 {
        seq![Seq::empty()]
    } else {
        let before = split_lines(text.drop_last());
        if text.last() == '\n' {
            before.push(Seq::empty())
        } else {
            before.update(before.len() - 1, before.last().push(text.last()))
        }
    }
}

/// No line feed in the line.
pub open spec fn is_line(line: Seq<char>) -> bool {
    forall|j: int| 0 <= j < line.len() ==> line[j] != '\n'
}

/// At least one line, and no line feed inside a line.
pub open spec fn valid_content(c: Seq<Seq<char>>) -> bool {
    c.len() >= 1 && forall|i: int| 0 <= i < c.len() ==> is_line(#[trigger] c[i])
}

/// The position names a place in the content.
pub open spec fn in_content(c: Seq<Seq<char>>, p: BufferPosition) -> bool {
    p.line_index < c.len() && p.column_index <= c[p.line_index as int].len()
}

/// The place in the content nearest to `p`: the last line where `p` lies
/// below it, the end of the line where `p` lies beyond it.
pub open spec fn clamped(c: Seq<Seq<char>>, p: BufferPosition) -> BufferPosition {
    let line = if p.line_index < c.len() {
        p.line_index
    } else {
        clip(c.len() - 1)
    };
    BufferPosition {
        line_index: line,
        column_index: if p.column_index <= c[line as int].len() {
            p.column_index
        } else {
            clip(c[line as int].len() as int)
        },
    }
}

/// The end of the content.
pub open spec fn end_of(c: Seq<Seq<char>>) -> BufferPosition {
    BufferPosition {
        line_index: clip(c.len() - 1),
        column_index: clip(c[c.len() - 1].len() as int),
    }
}

/// The lines that take the place of `line` when `pieces` are put in at `column`.
pub open spec fn spliced(line: Seq<char>, column: int, pieces: Seq<Seq<char>>) -> Seq<Seq<char>> {
    let head = line.take(column);
    let tail = line.skip(column);
    if pieces.len() == 1 {
        seq![head + pieces[0] + tail]
    } else {
        seq![head + pieces[0]] + pieces.subrange(1, pieces.len() - 1) + seq![pieces.last() + tail]
    }
}

/// The content after `text` was inserted at `p`.
pub open spec fn inserted(c: Seq<Seq<char>>, p: BufferPosition, text: Seq<char>) -> Seq<Seq<char>> {
    c.take(p.line_index as int) + spliced(
        c[p.line_index as int],
        p.column_index as int,
        split_lines(text),
    ) + c.skip(p.line_index + 1)
}

/// Where text that was inserted at `p` ends.
pub open spec fn end_of_insert(p: BufferPosition, text: Seq<char>) -> BufferPosition {
    let pieces = split_lines(text);
    if pieces.len() == 1 {
        BufferPosition {
            line_index: p.line_index,
            column_index: clip(p.column_index + pieces[0].len()),
        }
    } else {
        BufferPosition {
            line_index: clip(p.line_index + pieces.len() - 1),
            column_index: clip(pieces.last().len() as int),
        }
    }
}

/// The content without what stood between `from` and `to`.
pub open spec fn deleted(c: Seq<Seq<char>>, from: BufferPosition, to: BufferPosition) -> Seq<
    Seq<char>,
> {
    c.take(from.line_index as int) + seq![
        c[from.line_index as int].take(from.column_index as int) + c[to.line_index as int].skip(
            to.column_index as int,
        ),
    ] + c.skip(to.line_index + 1)
}

/// What stands between `from` and `to`, line by line.
pub open spec fn lines_between(c: Seq<Seq<char>>, from: BufferPosition, to: BufferPosition) -> Seq<
    Seq<char>,
> {
    if from.line_index == to.line_index {
        seq![c[from.line_index as int].subrange(from.column_index as int, to.column_index as int)]
    } else {
        seq![c[from.line_index as int].skip(from.column_index as int)] + c.subrange(
            from.line_index + 1,
            to.line_index as int,
        ) + seq![c[to.line_index as int].take(to.column_index as int)]
    }
}

/// What stands between `from` and `to`, as one text.
pub open spec fn text_between(c: Seq<Seq<char>>, from: BufferPosition, to: BufferPosition) -> Seq<
    char,
> {
    join_with(lines_between(c, from, to), '\n')
}

/// The content as one text.
pub open spec fn whole_text(c: Seq<Seq<char>>) -> Seq<char> {
    join_with(c, '\n')
}

/// A text always has at least one line, and its lines hold no line feed.
pub proof fn lemma_split_lines_valid(text: Seq<char>)
    ensures
        valid_content(split_lines(text)),
    decreases text.len(),
{
    if text.len() > 0 {
        lemma_split_lines_valid(text.drop_last());
        let before = split_lines(text.drop_last());
        let after = split_lines(text);
        assert forall|i: int| 0 <= i < after.len() implies is_line(#[trigger] after[i]) by {
            if i < before.len() - 1 {
                assert(after[i] == before[i]);
            } else if text.last() != '\n' {
                assert(is_line(before[before.len() - 1]));
            }
        }
    }
}

/// Joining the lines of a text with line feeds gives the text back.
pub proof fn lemma_join_of_split(text: Seq<char>)
    ensures
        join_with(split_lines(text), '\n') == text,
    decreases text.len(),
{
    if text.len() == 0 {
        assert(join_with(seq![Seq::<char>::empty()], '\n') == Seq::<char>::empty());
    } else {
        let shorter = text.drop_last();
        lemma_join_of_split(shorter);
        lemma_split_lines_valid(shorter);
        let before = split_lines(shorter);
        let after = split_lines(text);
        if text.last() == '\n' {
            assert(after.drop_last() =~= before);
            assert(join_with(after, '\n') =~= shorter.push('\n') + Seq::<char>::empty());
            assert(shorter.push('\n') =~= text);
        } else {
            let c = text.last();
            if before.len() == 1 {
                assert(join_with(after, '\n') == before[0].push(c));
                assert(shorter.push(c) =~= text);
            } else {
                assert(after.drop_last() =~= before.drop_last());
                assert(join_with(after, '\n') =~= (join_with(before.drop_last(), '\n').push('\n')
                    + before.last()).push(c));
                assert(shorter.push(c) =~= text);
            }
        }
    }
}

/// Appending characters that are no line feeds extends the last line.
pub proof fn lemma_split_extend(text: Seq<char>, more: Seq<char>)
    requires
        is_line(more),
    ensures
        split_lines(text + more) == split_lines(text).update(
            split_lines(text).len() - 1,
            split_lines(text).last() + more,
        ),
        split_lines(text).len() >= 1,
    decreases more.len(),
{
    lemma_split_lines_valid(text);
    let lines = split_lines(text);
    if more.len() == 0 {
        assert(text + more =~= text);
        assert(lines.last() + more =~= lines.last());
        assert(lines.update(lines.len() - 1, lines.last()) =~= lines);
    } else {
        let shorter = more.drop_last();
        lemma_split_extend(text, shorter);
        assert((text + more).drop_last() =~= text + shorter);
        assert((text + more).last() == more.last());
        assert(more.last() != '\n');
        let mid = split_lines(text + shorter);
        assert(mid.last().push(more.last()) =~= lines.last() + more);
        assert(mid.update(mid.len() - 1, mid.last().push(more.last())) =~= lines.update(
            lines.len() - 1,
            lines.last() + more,
        ));
    }
}

/// Splitting what was joined from lines gives the lines back.
pub proof fn lemma_split_of_join(lines: Seq<Seq<char>>)
    requires
        valid_content(lines),
    ensures
        split_lines(join_with(lines, '\n')) == lines,
    decreases lines.len(),
{
    if lines.len() == 1 {
        lemma_split_extend(Seq::empty(), lines[0]);
        assert(Seq::<char>::empty() + lines[0] =~= lines[0]);
        assert(split_lines(Seq::<char>::empty()) =~= seq![Seq::<char>::empty()]);
        assert(seq![Seq::<char>::empty()].update(0, Seq::<char>::empty() + lines[0]) =~= lines);
    } else {
        let before = lines.drop_last();
        assert(valid_content(before)) by {
            assert forall|i: int| 0 <= i < before.len() implies is_line(#[trigger] before[i]) by {
                assert(before[i] == lines[i]);
            }
        }
        lemma_split_of_join(before);
        let joined = join_with(before, '\n');
        let with_feed = joined.push('\n');
        assert(with_feed.drop_last() =~= joined);
        assert(split_lines(with_feed) == before.push(Seq::<char>::empty()));
        lemma_split_extend(with_feed, lines.last());
        assert(Seq::<char>::empty() + lines.last() =~= lines.last());
        assert(before.push(Seq::<char>::empty()).update(before.len() as int, lines.last())
            =~= lines);
    }
}

/// The number of lines and the length of each line fit the machine's indices.
pub open spec fn fits(c: Seq<Seq<char>>) -> bool {
    c.len() <= usize::MAX && forall|i: int| 0 <= i < c.len() ==> (#[trigger] c[i]).len() <= usize::MAX
}

proof fn lemma_spliced(line: Seq<char>, column: int, pieces: Seq<Seq<char>>)
    requires
        0 <= column <= line.len(),
        is_line(line),
        valid_content(pieces),
    ensures
        spliced(line, column, pieces).len() == pieces.len(),
        valid_content(spliced(line, column, pieces)),
        spliced(line, column, pieces)[0].take(column) == line.take(column),
        pieces.len() == 1 ==> spliced(line, column, pieces)[0] == line.take(column) + pieces[0]
            + line.skip(column),
        pieces.len() > 1 ==> spliced(line, column, pieces)[0] == line.take(column) + pieces[0]
            && spliced(line, column, pieces).last() == pieces.last() + line.skip(column),
        forall|i: int| 0 < i < pieces.len() - 1 ==> spliced(line, column, pieces)[i] == pieces[i],
{
    let out = spliced(line, column, pieces);
    let head = line.take(column);
    let tail = line.skip(column);
    assert(is_line(head));
    assert(is_line(tail));
    assert(is_line(pieces[0]));
    assert(is_line(pieces.last()));
    if pieces.len() == 1 {
        assert(out[0].take(column) =~= head);
        assert(is_line(out[0]));
    } else {
        assert(out[0] == head + pieces[0]);
        assert(out[0].take(column) =~= head);
        assert forall|i: int| 0 <= i < out.len() implies is_line(#[trigger] out[i]) by {
            if 0 < i < pieces.len() - 1 {
                assert(out[i] == pieces[i]);
                assert(is_line(pieces[i]));
            }
        }
    }
}

/// Deleting what was just inserted gives the content back, and what is
/// deleted is the text that was inserted.
pub proof fn law_delete_undoes_insert(c: Seq<Seq<char>>, p: BufferPosition, text: Seq<char>)
    requires
        valid_content(c),
        in_content(c, p),
        fits(inserted(c, p, text)),
    ensures
        valid_content(inserted(c, p, text)),
        in_content(inserted(c, p, text), p),
        in_content(inserted(c, p, text), end_of_insert(p, text)),
        position_le(p, end_of_insert(p, text)),
        deleted(inserted(c, p, text), p, end_of_insert(p, text)) == c,
        text_between(inserted(c, p, text), p, end_of_insert(p, text)) == text,
{
    lemma_split_lines_valid(text);
    lemma_spliced(c[p.line_index as int], p.column_index as int, split_lines(text));
    lemma_delete_undoes_insert(c, p, text);
}

proof fn lemma_delete_undoes_insert(c: Seq<Seq<char>>, p: BufferPosition, text: Seq<char>)
    requires
        valid_content(c),
        in_content(c, p),
        inserted(c, p, text).len() <= usize::MAX,
        inserted(c, p, text)[p.line_index + split_lines(text).len() - 1].len() <= usize::MAX,
    ensures
        valid_content(inserted(c, p, text)),
        in_content(inserted(c, p, text), p),
        in_content(inserted(c, p, text), end_of_insert(p, text)),
        position_le(p, end_of_insert(p, text)),
        deleted(inserted(c, p, text), p, end_of_insert(p, text)) == c,
        text_between(inserted(c, p, text), p, end_of_insert(p, text)) == text,
{
    let pieces = split_lines(text);
    lemma_split_lines_valid(text);
    lemma_join_of_split(text);
    let line = p.line_index as int;
    let column = p.column_index as int;
    let n = pieces.len() as int;
    let old_line = c[line];
    lemma_spliced(old_line, column, pieces);
    let mid = spliced(old_line, column, pieces);
    let c2 = inserted(c, p, text);
    let e = end_of_insert(p, text);
    assert(c2.len() == c.len() + n - 1);
    assert(c2[line] == mid[0]);
    assert(c2[line + n - 1] == mid[n - 1]);
    assert(e.line_index == line + n - 1);
    assert forall|i: int| 0 <= i < c2.len() implies is_line(#[trigger] c2[i]) by {
        if i < line {
            assert(c2[i] == c[i]);
        } else if i < line + n {
            assert(c2[i] == mid[i - line]);
        } else {
            assert(c2[i] == c[i - n + 1]);
        }
    }
    let head = old_line.take(column);
    let tail = old_line.skip(column);
    assert(c2.take(line) =~= c.take(line));
    assert(c2.skip(line + n) =~= c.skip(line + 1));
    if n == 1 {
        assert(c2[line] == head + pieces[0] + tail);
        assert(e.column_index == column + pieces[0].len());
        assert(c2[line].take(column) =~= head);
        assert(c2[line].skip(e.column_index as int) =~= tail);
        assert(c2[line].subrange(column, e.column_index as int) =~= pieces[0]);
        assert(lines_between(c2, p, e) =~= pieces);
    } else {
        assert(c2[line] == head + pieces[0]);
        assert(c2[line + n - 1] == pieces.last() + tail);
        assert(e.column_index == pieces.last().len());
        assert(c2[line].take(column) =~= head);
        assert(c2[line].skip(column) =~= pieces[0]);
        assert(c2[line + n - 1].skip(e.column_index as int) =~= tail);
        assert(c2[line + n - 1].take(e.column_index as int) =~= pieces.last());
        let between = lines_between(c2, p, e);
        assert(between.len() == n);
        assert forall|i: int| 0 <= i < n implies between[i] == pieces[i] by {
            if 0 < i < n - 1 {
                assert(between[i] == c2[line + i]);
                assert(c2[line + i] == mid[i]);
            }
        }
        assert(between =~= pieces);
    }
    assert(head + tail =~= old_line);
    assert(deleted(c2, p, e) =~= c);
}

/// Inserting what was just deleted, where it was deleted, gives the content
/// back, and the inserted text ends where the deleted range ended.
pub proof fn law_insert_undoes_delete(c: Seq<Seq<char>>, from: BufferPosition, to: BufferPosition)
    requires
        valid_content(c),
        in_content(c, from),
        in_content(c, to),
        position_le(from, to),
    ensures
        valid_content(deleted(c, from, to)),
        in_content(deleted(c, from, to), from),
        inserted(deleted(c, from, to), from, text_between(c, from, to)) == c,
        end_of_insert(from, text_between(c, from, to)) == to,
{
    let d = deleted(c, from, to);
    let pieces = lines_between(c, from, to);
    let text = text_between(c, from, to);
    let fl = from.line_index as int;
    let fc = from.column_index as int;
    let tl = to.line_index as int;
    let tc = to.column_index as int;
    assert(is_line(c[fl]));
    assert(is_line(c[tl]));
    assert forall|i: int| 0 <= i < pieces.len() implies is_line(#[trigger] pieces[i]) by {
        if fl != tl && 0 < i < pieces.len() - 1 {
            assert(pieces[i] == c[fl + i]);
            assert(is_line(c[fl + i]));
        }
    }
    lemma_split_of_join(pieces);
    assert(split_lines(text) == pieces);
    let joint = c[fl].take(fc) + c[tl].skip(tc);
    assert(d[fl] == joint);
    assert(is_line(joint));
    assert forall|i: int| 0 <= i < d.len() implies is_line(#[trigger] d[i]) by {
        if i < fl {
            assert(d[i] == c[i]);
        } else if i > fl {
            assert(d[i] == c[i + tl - fl]);
        }
    }
    assert(joint.take(fc) =~= c[fl].take(fc));
    assert(joint.skip(fc) =~= c[tl].skip(tc));
    let mid = spliced(joint, fc, pieces);
    if fl == tl {
        assert(mid[0] =~= c[fl]);
        assert(mid =~= seq![c[fl]]);
    } else {
        assert(c[fl].take(fc) + c[fl].skip(fc) =~= c[fl]);
        assert(c[tl].take(tc) + c[tl].skip(tc) =~= c[tl]);
        assert(mid =~= c.subrange(fl, tl + 1));
    }
    assert(d.take(fl) =~= c.take(fl));
    assert(d.skip(fl + 1) =~= c.skip(tl + 1));
    assert(inserted(d, from, text) =~= c);
}

/// The text of a buffer, line by line.
pub struct BufferContent {
    lines: Vec<String>,
}

impl View for BufferContent {
    type V = Seq<Seq<char>>;

    closed spec fn view(&self) -> Seq<Seq<char>> {
        views(self.lines@)
    }
}

/// The lines of `text`.
pub fn split_text(text: &str) -> (r: Vec<String>)
    ensures
        views(r@) == split_lines(text@),
{
    let chars = chars_of(text);
    let len = chars.len();
    let mut lines: Vec<String> = Vec::new();
    let mut current = String::new();
    let mut i: usize = 0;
    while i < len
        invariant
            0 <= i <= len,
            len == text@.len(),
            chars@ == text@,
            views(lines@).push(current@) == split_lines(text@.take(i as int)),
        decreases len - i,
    {
        let c = chars[i];
        proof {
            assert(text@.take(i + 1).drop_last() =~= text@.take(i as int));
            assert(text@.take(i + 1).last() == c);
        }
        if c == '\n' {
            let ghost before = views(lines@).push(current@);
            lines.push(current);
            current = String::new();
            assert(views(lines@).push(current@) =~= before.push(Seq::<char>::empty()));
        } else {
            let ghost before = views(lines@).push(current@);
            current.push(c);
            assert(views(lines@).push(current@) =~= before.update(
                before.len() - 1,
                before.last().push(c),
            ));
        }
        i = i + 1;
    }
    assert(text@.take(len as int) =~= text@);
    let ghost all = views(lines@).push(current@);
    lines.push(current);
    assert(views(lines@) =~= all);
    lines
}

/// Appends copies of the strings `from..to` of `source` to `target`.
fn push_copies(target: &mut Vec<String>, source: &Vec<String>, from: usize, to: usize)
    requires
        from <= to <= source.len(),
    ensures
        views(final(target)@) == views(old(target)@) + views(source@).subrange(
            from as int,
            to as int,
        ),
{
    let mut i = from;
    while i < to
        invariant
            from <= i <= to <= source.len(),
            views(target@) == views(old(target)@) + views(source@).subrange(from as int, i as int),
        decreases to - i,
    {
        let ghost before = views(target@);
        target.push(source[i].clone());
        assert(views(target@) =~= before.push(source[i as int]@));
        assert(views(target@) =~= views(old(target)@) + views(source@).subrange(
            from as int,
            i + 1,
        ));
        i = i + 1;
    }
    assert(views(target@) =~= views(old(target)@) + views(source@).subrange(
        from as int,
        to as int,
    ));
}

impl BufferContent {
    /// At least one line, and no line feed inside a line.
    pub open spec fn well_formed(&self) -> bool {
        valid_content(self@)
    }

    /// A content of one empty line.
    pub fn new() -> (r: Self)
        ensures
            r.well_formed(),
            r@ == seq![Seq::<char>::empty()],
    {
        let mut lines: Vec<String> = Vec::new();
        lines.push(String::new());
        let r = BufferContent { lines };
        assert(r@ =~= seq![Seq::<char>::empty()]);
        r
    }

    /// The content that holds `text`.
    pub fn from_str(text: &str) -> (r: Self)
        ensures
            r.well_formed(),
            r@ == split_lines(text@),
            whole_text(r@) == text@,
    {
        proof {
            lemma_split_lines_valid(text@);
            lemma_join_of_split(text@);
        }
        BufferContent { lines: split_text(text) }
    }

    pub fn line_count(&self) -> (r: usize)
        ensures
            r == self@.len(),
    {
        self.lines.len()
    }

    /// The line at `index`.
    pub fn line(&self, index: usize) -> (r: &str)
        requires
            index < self@.len(),
        ensures
            r@ == self@[index as int],
    {
        self.lines[index].as_str()
    }

    /// The end of the content.
    pub fn end(&self) -> (r: BufferPosition)
        requires
            self.well_formed(),
        ensures
            r == end_of(self@),
            in_content(self@, r),
            r.line_index == self@.len() - 1,
            r.column_index == self@[self@.len() - 1].len(),
    {
        let last = self.lines.len() - 1;
        BufferPosition { line_index: last, column_index: self.lines[last].as_str().unicode_len() }
    }

    /// The place in the content nearest to `position`.
    pub fn clamp_position(&self, position: BufferPosition) -> (r: BufferPosition)
        requires
            self.well_formed(),
        ensures
            r == clamped(self@, position),
            in_content(self@, r),
    {
        let line = if position.line_index < self.lines.len() {
            position.line_index
        } else {
            self.lines.len() - 1
        };
        let len = self.lines[line].as_str().unicode_len();
        BufferPosition {
            line_index: line,
            column_index: if position.column_index <= len {
                position.column_index
            } else {
                len
            },
        }
    }

    /// The whole content as one text, its lines joined by line feeds.
    pub fn to_text(&self) -> (r: String)
        ensures
            r@ == whole_text(self@),
    {
        join_strings(&self.lines, '\n')
    }

    /// Inserts `text` at the place nearest to `position`, and returns the
    /// range that the text fills afterwards.
    pub fn insert_text(&mut self, position: BufferPosition, text: &str) -> (r: BufferRange)
        requires
            old(self).well_formed(),
        ensures
            final(self).well_formed(),
            r.from == clamped(old(self)@, position),
            r.to == end_of_insert(r.from, text@),
            final(self)@ == inserted(old(self)@, r.from, text@),
            in_content(final(self)@, r.from),
            in_content(final(self)@, r.to),
            position_le(r.from, r.to),
    {
        let from = self.clamp_position(position);
        let pieces = split_text(text);
        let count = pieces.len();
        let ghost content = self@;
        let ghost target = inserted(content, from, text@);
        let ghost mid = spliced(
            content[from.line_index as int],
            from.column_index as int,
            split_lines(text@),
        );
        proof {
            lemma_split_lines_valid(text@);
            assert(is_line(content[from.line_index as int]));
            lemma_spliced(
                content[from.line_index as int],
                from.column_index as int,
                split_lines(text@),
            );
        }
        let line = self.lines[from.line_index].as_str();
        let line_len = line.unicode_len();
        let head = substring(line, 0, from.column_index);
        let tail = substring(line, from.column_index, line_len);
        let tail_len = line_len - from.column_index;
        assert(head@ =~= content[from.line_index as int].take(from.column_index as int));
        assert(tail@ =~= content[from.line_index as int].skip(from.column_index as int));
        let mut lines: Vec<String> = Vec::new();
        push_copies(&mut lines, &self.lines, 0, from.line_index);
        assert(views(lines@) =~= content.take(from.line_index as int));
        let to_column: usize;
        if count == 1 {
            let mut joint = head;
            joint.append(pieces[0].as_str());
            joint.append(tail.as_str());
            assert(joint@ == mid[0]);
            to_column = joint.as_str().unicode_len() - tail_len;
            lines.push(joint);
            assert(views(lines@) =~= content.take(from.line_index as int) + mid);
        } else {
            let first = joined(head.as_str(), pieces[0].as_str());
            assert(first@ == mid[0]);
            lines.push(first);
            assert(views(lines@) =~= content.take(from.line_index as int) + mid.take(1));
            push_copies(&mut lines, &pieces, 1, count - 1);
            assert(views(lines@) =~= content.take(from.line_index as int) + mid.take(count - 1))
                by {
                assert(views(pieces@).subrange(1, count - 1) =~= mid.subrange(1, count - 1));
                assert(mid.take(1) + mid.subrange(1, count - 1) =~= mid.take(count - 1));
            }
            let last = joined(pieces[count - 1].as_str(), tail.as_str());
            assert(last@ == mid.last());
            let last_len = last.as_str().unicode_len();
            to_column = pieces[count - 1].as_str().unicode_len();
            let ghost before = views(lines@);
            lines.push(last);
            assert(views(lines@) =~= before.push(mid.last()));
            assert(mid.take(count - 1).push(mid.last()) =~= mid);
            assert(views(lines@) =~= content.take(from.line_index as int) + mid);
        }
        let to_line = lines.len() - 1;
        push_copies(&mut lines, &self.lines, from.line_index + 1, self.lines.len());
        assert(views(lines@) =~= target);
        self.lines = lines;
        let total: usize = self.lines.len();
        proof {
            assert(target.len() == total);
            assert(target[to_line as int] == mid.last());
            lemma_delete_undoes_insert(content, from, text@);
        }
        BufferRange { from, to: BufferPosition { line_index: to_line, column_index: to_column } }
    }

    /// Deletes what stands between the places nearest to the ends of `range`,
    /// and returns the range that was emptied and the text that stood there.
    pub fn delete_range(&mut self, range: BufferRange) -> (r: (BufferRange, String))
        requires
            old(self).well_formed(),
        ensures
            final(self).well_formed(),
            r.0 == ordered(clamped(old(self)@, range.from), clamped(old(self)@, range.to)),
            in_content(old(self)@, r.0.from),
            in_content(old(self)@, r.0.to),
            position_le(r.0.from, r.0.to),
            final(self)@ == deleted(old(self)@, r.0.from, r.0.to),
            r.1@ == text_between(old(self)@, r.0.from, r.0.to),
            in_content(final(self)@, r.0.from),
    {
        let a = self.clamp_position(range.from);
        let b = self.clamp_position(range.to);
        let span = BufferRange::between(a, b);
        let from = span.from;
        let to = span.to;
        let ghost content = self@;
        let text = self.text_range(span);
        let first = self.lines[from.line_index].as_str();
        let last = self.lines[to.line_index].as_str();
        let head = substring(first, 0, from.column_index);
        let tail = substring(last, to.column_index, last.unicode_len());
        let joint = joined(head.as_str(), tail.as_str());
        assert(joint@ =~= content[from.line_index as int].take(from.column_index as int)
            + content[to.line_index as int].skip(to.column_index as int));
        let mut lines: Vec<String> = Vec::new();
        push_copies(&mut lines, &self.lines, 0, from.line_index);
        assert(views(lines@) =~= content.take(from.line_index as int));
        lines.push(joint);
        push_copies(&mut lines, &self.lines, to.line_index + 1, self.lines.len());
        assert(views(lines@) =~= deleted(content, from, to));
        self.lines = lines;
        proof {
            law_insert_undoes_delete(content, from, to);
        }
        (span, text)
    }

    /// The text that stands between the ends of `range`.
    pub fn text_range(&self, range: BufferRange) -> (r: String)
        requires
            self.well_formed(),
            in_content(self@, range.from),
            in_content(self@, range.to),
            position_le(range.from, range.to),
        ensures
            r@ == text_between(self@, range.from, range.to),
    {
        let from = range.from;
        let to = range.to;
        let mut pieces: Vec<String> = Vec::new();
        if from.line_index == to.line_index {
            let line = self.lines[from.line_index].as_str();
            pieces.push(substring(line, from.column_index, to.column_index));
            assert(views(pieces@) =~= lines_between(self@, from, to));
        } else {
            let first = self.lines[from.line_index].as_str();
            pieces.push(substring(first, from.column_index, first.unicode_len()));
            assert(views(pieces@) =~= seq![
                self@[from.line_index as int].skip(from.column_index as int),
            ]);
            push_copies(&mut pieces, &self.lines, from.line_index + 1, to.line_index);
            let last = self.lines[to.line_index].as_str();
            let ghost before = views(pieces@);
            pieces.push(substring(last, 0, to.column_index));
            assert(views(pieces@) =~= before.push(
                self@[to.line_index as int].take(to.column_index as int),
            ));
            assert(views(pieces@) =~= lines_between(self@, from, to));
        }
        join_strings(&pieces, '\n')
    }
}

/// The two positions as a range, the lesser one first.
pub open spec fn ordered(a: BufferPosition, b: BufferPosition) -> BufferRange {
    if position_le(a, b) {
        BufferRange { from: a, to: b }
    } else {
        BufferRange { from: b, to: a }
    }
}


/// The edit says of the content what is true of it: an insertion starts at a
/// place of the content and its range ends where its text ends; a deletion
/// covers a range of the content and its text is what stands there. What the
/// edit leaves fits the machine's indices.
pub open spec fn applies(c: Seq<Seq<char>>, e: EditView) -> bool {
    &&& fits(after(c, e))
    &&& match e.kind {
        EditKind::Insert => in_content(c, e.range.from) && e.range.to == end_of_insert(
            e.range.from,
            e.text,
        ),
        EditKind::Delete => in_content(c, e.range.from) && in_content(c, e.range.to)
            && position_le(e.range.from, e.range.to) && e.text == text_between(
            c,
            e.range.from,
            e.range.to,
        ),
    }
}

/// The content after the edit.
pub open spec fn after(c: Seq<Seq<char>>, e: EditView) -> Seq<Seq<char>> {
    match e.kind {
        EditKind::Insert => inserted(c, e.range.from, e.text),
        EditKind::Delete => deleted(c, e.range.from, e.range.to),
    }
}

/// The content after the edits, in order.
pub open spec fn replay(c: Seq<Seq<char>>, edits: Seq<EditView>) -> Seq<Seq<char>>
    decreases edits.len(),
{
    if edits.len() == 0 {
        c
    } else {
        after(replay(c, edits.drop_last()), edits.last())
    }
}

/// Each of the edits applies to the content that the edits before it leave.
pub open spec fn replayable(c: Seq<Seq<char>>, edits: Seq<EditView>) -> bool
    decreases edits.len(),
{
    edits.len() == 0 || (replayable(c, edits.drop_last()) && applies(
        replay(c, edits.drop_last()),
        edits.last(),
    ))
}

/// An edit that applies leaves a valid content, and its inverse applies to
/// that content and leads back.
pub proof fn law_inverse_undoes_edit(c: Seq<Seq<char>>, e: EditView)
    requires
        valid_content(c),
        fits(c),
        applies(c, e),
    ensures
        valid_content(after(c, e)),
        applies(after(c, e), inverse(e)),
        after(after(c, e), inverse(e)) == c,
{
    match e.kind {
        EditKind::Insert => {
            law_delete_undoes_insert(c, e.range.from, e.text);
        },
        EditKind::Delete => {
            law_insert_undoes_delete(c, e.range.from, e.range.to);
        },
    }
}

proof fn lemma_replay_keeps_validity(c: Seq<Seq<char>>, edits: Seq<EditView>)
    requires
        valid_content(c),
        fits(c),
        replayable(c, edits),
    ensures
        valid_content(replay(c, edits)),
        fits(replay(c, edits)),
    decreases edits.len(),
{
    if edits.len() > 0 {
        lemma_replay_keeps_validity(c, edits.drop_last());
        let mid = replay(c, edits.drop_last());
        let e = edits.last();
        law_inverse_undoes_edit(mid, e);
    }
}

proof fn lemma_replay_concat(c: Seq<Seq<char>>, a: Seq<EditView>, b: Seq<EditView>)
    ensures
        replay(c, a + b) == replay(replay(c, a), b),
        replayable(c, a + b) == (replayable(c, a) && replayable(replay(c, a), b)),
    decreases b.len(),
{
    if b.len() == 0 {
        assert(a + b =~= a);
    } else {
        lemma_replay_concat(c, a, b.drop_last());
        assert((a + b).drop_last() =~= a + b.drop_last());
        assert((a + b).last() == b.last());
    }
}

/// Undoing a group of edits that were applied to a content leads back to
/// that content, and redoing them leads forward again: replaying the
/// inverses of the edits, last edit first, on the content that the edits
/// left gives the content from before them.
pub proof fn law_undo_restores_content(c: Seq<Seq<char>>, edits: Seq<EditView>)
    requires
        valid_content(c),
        fits(c),
        replayable(c, edits),
    ensures
        replayable(replay(c, edits), group_inverses(edits, 0, edits.len() as int)),
        replay(replay(c, edits), group_inverses(edits, 0, edits.len() as int)) == c,
    decreases edits.len(),
{
    let n = edits.len() as int;
    let back = group_inverses(edits, 0, n);
    if n == 0 {
        assert(back =~= Seq::<EditView>::empty());
    } else {
        let init = edits.drop_last();
        let last = edits.last();
        let mid = replay(c, init);
        lemma_replay_keeps_validity(c, init);
        law_inverse_undoes_edit(mid, last);
        law_undo_restores_content(c, init);
        let first_back = seq![inverse(last)];
        let rest_back = group_inverses(init, 0, n - 1);
        assert(back =~= first_back + rest_back);
        lemma_replay_concat(replay(c, edits), first_back, rest_back);
        assert(first_back.drop_last() =~= Seq::<EditView>::empty());
        assert(first_back.last() == inverse(last));
        reveal_with_fuel(replay, 2);
        reveal_with_fuel(replayable, 2);
        assert(replay(replay(c, edits), first_back) == mid);
        assert(replayable(replay(c, edits), first_back));
    }
}

/// The edit stays within one line, and its text holds no line feed.
pub open spec fn on_line(e: EditView, line: usize) -> bool {
    e.range.from.line_index == line && e.range.to.line_index == line && is_line(e.text)
}

/// What an insertion of text without a line feed does to its line.
pub proof fn lemma_insert_in_line(c: Seq<Seq<char>>, p: BufferPosition, text: Seq<char>)
    requires
        in_content(c, p),
        is_line(text),
    ensures
        split_lines(text) == seq![text],
        inserted(c, p, text) == c.update(
            p.line_index as int,
            c[p.line_index as int].take(p.column_index as int) + text + c[p.line_index as int].skip(
                p.column_index as int,
            ),
        ),
        end_of_insert(p, text) == (BufferPosition {
            line_index: p.line_index,
            column_index: clip(p.column_index + text.len()),
        }),
{
    lemma_split_extend(Seq::empty(), text);
    assert(Seq::<char>::empty() + text =~= text);
    assert(split_lines(Seq::<char>::empty()) =~= seq![Seq::<char>::empty()]);
    assert(seq![Seq::<char>::empty()].update(0, Seq::<char>::empty() + text) =~= seq![text]);
    let line = p.line_index as int;
    assert(inserted(c, p, text) =~= c.update(
        line,
        c[line].take(p.column_index as int) + text + c[line].skip(p.column_index as int),
    ));
}

/// What a deletion within one line does to that line.
pub proof fn lemma_delete_in_line(c: Seq<Seq<char>>, from: BufferPosition, to: BufferPosition)
    requires
        in_content(c, from),
        in_content(c, to),
        from.line_index == to.line_index,
        from.column_index <= to.column_index,
    ensures
        deleted(c, from, to) == c.update(
            from.line_index as int,
            c[from.line_index as int].take(from.column_index as int) + c[from.line_index as int].skip(
                to.column_index as int,
            ),
        ),
        text_between(c, from, to) == c[from.line_index as int].subrange(
            from.column_index as int,
            to.column_index as int,
        ),
{
    let line = from.line_index as int;
    assert(deleted(c, from, to) =~= c.update(
        line,
        c[line].take(from.column_index as int) + c[line].skip(to.column_index as int),
    ));
}

/// What an edit within one line does to that line.
proof fn lemma_edit_in_line(c: Seq<Seq<char>>, e: EditView, line: usize)
    requires
        valid_content(c),
        applies(c, e),
        on_line(e, line),
    ensures
        line < c.len(),
        after(c, e).len() == c.len(),
        after(c, e) == c.update(line as int, after(c, e)[line as int]),
        after(c, e)[line as int].len() <= usize::MAX,
        e.range.from.column_index <= e.range.to.column_index,
        e.kind == EditKind::Insert ==> {
            &&& e.range.from.column_index <= c[line as int].len()
            &&& e.range.to.column_index == e.range.from.column_index + e.text.len()
            &&& after(c, e)[line as int] == c[line as int].take(e.range.from.column_index as int)
                + e.text + c[line as int].skip(e.range.from.column_index as int)
        },
        e.kind == EditKind::Delete ==> {
            &&& e.range.to.column_index <= c[line as int].len()
            &&& e.text == c[line as int].subrange(
                e.range.from.column_index as int,
                e.range.to.column_index as int,
            )
            &&& after(c, e)[line as int] == c[line as int].take(e.range.from.column_index as int)
                + c[line as int].skip(e.range.to.column_index as int)
        },
{
    match e.kind {
        EditKind::Insert => {
            lemma_insert_in_line(c, e.range.from, e.text);
            assert(after(c, e)[line as int].len() <= usize::MAX);
        },
        EditKind::Delete => {
            lemma_delete_in_line(c, e.range.from, e.range.to);
            assert(after(c, e)[line as int].len() <= usize::MAX);
        },
    }
}

proof fn lemma_merge_insert_insert(c: Seq<Seq<char>>, other: EditView, edit: EditView, line: usize)
    requires
        valid_content(c),
        fits(c),
        applies(c, other),
        applies(after(c, other), edit),
        on_line(other, line),
        on_line(edit, line),
        merge_rule(other, edit) is Some,
        other.kind == EditKind::Insert && edit.kind == EditKind::Insert,
    ensures
        applies(c, merge_rule(other, edit).unwrap().0),
        on_line(merge_rule(other, edit).unwrap().0, line),
        after(c, merge_rule(other, edit).unwrap().0) == after(after(c, other), edit),
{
    let merged = merge_rule(other, edit).unwrap().0;
    let c1 = after(c, other);
    lemma_edit_in_line(c, other, line);
    lemma_edit_valid(c, other);
    lemma_edit_in_line(c1, edit, line);
    let c2 = after(c1, edit);
    let l0 = c[line as int];
    let l2 = c2[line as int];
    assert(l0.len() <= usize::MAX);
    let a = other.range.from.column_index as int;
    let b = other.range.to.column_index as int;
    let x = edit.range.from.column_index as int;
    let y = edit.range.to.column_index as int;
    let t1 = other.text;
    let t2 = edit.text;
    assert(c2 =~= c.update(line as int, l2));
    assert(is_line(merged.text));
    lemma_insert_in_line(c, merged.range.from, merged.text);
    if x == b {
        assert(l0.take(a) + (t1 + t2) + l0.skip(a) =~= l2);
    } else {
        assert(l0.take(a) + (t2 + t1) + l0.skip(a) =~= l2);
    }
    assert(after(c, merged) =~= c2);
}

proof fn lemma_merge_delete_delete(c: Seq<Seq<char>>, other: EditView, edit: EditView, line: usize)
    requires
        valid_content(c),
        fits(c),
        applies(c, other),
        applies(after(c, other), edit),
        on_line(other, line),
        on_line(edit, line),
        merge_rule(other, edit) is Some,
        other.kind == EditKind::Delete && edit.kind == EditKind::Delete,
    ensures
        applies(c, merge_rule(other, edit).unwrap().0),
        on_line(merge_rule(other, edit).unwrap().0, line),
        after(c, merge_rule(other, edit).unwrap().0) == after(after(c, other), edit),
{
    let merged = merge_rule(other, edit).unwrap().0;
    let c1 = after(c, other);
    lemma_edit_in_line(c, other, line);
    lemma_edit_valid(c, other);
    lemma_edit_in_line(c1, edit, line);
    let c2 = after(c1, edit);
    let l0 = c[line as int];
    let l2 = c2[line as int];
    assert(l0.len() <= usize::MAX);
    let a = other.range.from.column_index as int;
    let b = other.range.to.column_index as int;
    let x = edit.range.from.column_index as int;
    let y = edit.range.to.column_index as int;
    let t1 = other.text;
    let t2 = edit.text;
    assert(c2 =~= c.update(line as int, l2));
    assert(is_line(merged.text));
    if x == a {
        assert(merged.range.to.column_index == b + y - x);
        lemma_delete_in_line(c, merged.range.from, merged.range.to);
        assert(l0.take(a) + l0.skip(b + y - x) =~= l2);
        assert(l0.subrange(a, b + y - x) =~= t1 + t2);
    } else {
        lemma_delete_in_line(c, merged.range.from, merged.range.to);
        assert(l0.take(x) + l0.skip(b) =~= l2);
        assert(l0.subrange(x, b) =~= t2 + t1);
    }
    assert(after(c, merged) =~= c2);
}

proof fn lemma_merge_insert_shrinks(c: Seq<Seq<char>>, other: EditView, edit: EditView, line: usize)
    requires
        valid_content(c),
        fits(c),
        applies(c, other),
        applies(after(c, other), edit),
        on_line(other, line),
        on_line(edit, line),
        merge_rule(other, edit) is Some,
        other.kind == EditKind::Insert && edit.kind == EditKind::Delete,
        (other.range.from == edit.range.from && position_le(edit.range.to, other.range.to)) || (
        edit.range.to == other.range.to && position_le(other.range.from, edit.range.from)),
    ensures
        applies(c, merge_rule(other, edit).unwrap().0),
        on_line(merge_rule(other, edit).unwrap().0, line),
        after(c, merge_rule(other, edit).unwrap().0) == after(after(c, other), edit),
{
    let merged = merge_rule(other, edit).unwrap().0;
    let c1 = after(c, other);
    lemma_edit_in_line(c, other, line);
    lemma_edit_valid(c, other);
    lemma_edit_in_line(c1, edit, line);
    let c2 = after(c1, edit);
    let l0 = c[line as int];
    let l2 = c2[line as int];
    assert(l0.len() <= usize::MAX);
    let a = other.range.from.column_index as int;
    let b = other.range.to.column_index as int;
    let x = edit.range.from.column_index as int;
    let y = edit.range.to.column_index as int;
    let t1 = other.text;
    let t2 = edit.text;
    assert(c2 =~= c.update(line as int, l2));
    assert(is_line(merged.text));
    if x == a && y <= b {
        assert(t2 =~= t1.subrange(0, y - x));
        assert(merged.range.to.column_index == a + b - y);
        lemma_insert_in_line(c, merged.range.from, merged.text);
        assert(l0.take(a) + t1.subrange(y - x, t1.len() as int) + l0.skip(a) =~= l2);
    } else {
        lemma_insert_in_line(c, merged.range.from, merged.text);
        assert(l0.take(a) + t1.subrange(0, t1.len() - t2.len()) + l0.skip(a) =~= l2);
    }
    assert(after(c, merged) =~= c2);
}

proof fn lemma_merge_insert_outgrown(c: Seq<Seq<char>>, other: EditView, edit: EditView, line: usize)
    requires
        valid_content(c),
        fits(c),
        applies(c, other),
        applies(after(c, other), edit),
        on_line(other, line),
        on_line(edit, line),
        merge_rule(other, edit) is Some,
        other.kind == EditKind::Insert && edit.kind == EditKind::Delete,
        !((other.range.from == edit.range.from && position_le(edit.range.to, other.range.to)) || (
        edit.range.to == other.range.to && position_le(other.range.from, edit.range.from))),
    ensures
        applies(c, merge_rule(other, edit).unwrap().0),
        on_line(merge_rule(other, edit).unwrap().0, line),
        after(c, merge_rule(other, edit).unwrap().0) == after(after(c, other), edit),
{
    let merged = merge_rule(other, edit).unwrap().0;
    let c1 = after(c, other);
    lemma_edit_in_line(c, other, line);
    lemma_edit_valid(c, other);
    lemma_edit_in_line(c1, edit, line);
    let c2 = after(c1, edit);
    let l0 = c[line as int];
    let l2 = c2[line as int];
    assert(l0.len() <= usize::MAX);
    let a = other.range.from.column_index as int;
    let b = other.range.to.column_index as int;
    let x = edit.range.from.column_index as int;
    let y = edit.range.to.column_index as int;
    let t1 = other.text;
    let t2 = edit.text;
    assert(c2 =~= c.update(line as int, l2));
    assert(is_line(merged.text));
    if x == a && b <= y {
        assert(merged.range.to.column_index == a + y - b);
        lemma_delete_in_line(c, merged.range.from, merged.range.to);
        assert(l0.take(a) + l0.skip(a + y - b) =~= l2);
        assert(l0.subrange(a, a + y - b) =~= t2.subrange(t1.len() as int, t2.len() as int));
    } else {
        lemma_delete_in_line(c, merged.range.from, merged.range.to);
        assert(l0.take(x) + l0.skip(a) =~= l2);
        assert(l0.subrange(x, a) =~= t2.subrange(0, t2.len() - t1.len()));
    }
    assert(after(c, merged) =~= c2);
}

/// Merging keeps the effect, for edits within one line: where an edit
/// applies to a content, a second edit applies to what the first leaves, both
/// stay within the same line, and the two can be merged, the merged edit
/// applies to the content and leaves what the two leave one after the other.
pub proof fn law_merge_preserves_effect(
    c: Seq<Seq<char>>,
    other: EditView,
    edit: EditView,
    line: usize,
)
    requires
        valid_content(c),
        fits(c),
        applies(c, other),
        applies(after(c, other), edit),
        on_line(other, line),
        on_line(edit, line),
        merge_rule(other, edit) is Some,
    ensures
        applies(c, merge_rule(other, edit).unwrap().0),
        on_line(merge_rule(other, edit).unwrap().0, line),
        after(c, merge_rule(other, edit).unwrap().0) == after(after(c, other), edit),
{
    match (other.kind, edit.kind) {
        (EditKind::Insert, EditKind::Insert) => lemma_merge_insert_insert(c, other, edit, line),
        (EditKind::Delete, EditKind::Delete) => lemma_merge_delete_delete(c, other, edit, line),
        (EditKind::Insert, EditKind::Delete) => {
            if (other.range.from == edit.range.from && position_le(edit.range.to, other.range.to))
                || (edit.range.to == other.range.to && position_le(
                other.range.from,
                edit.range.from,
            )) {
                lemma_merge_insert_shrinks(c, other, edit, line);
            } else {
                lemma_merge_insert_outgrown(c, other, edit, line);
            }
        },
        (EditKind::Delete, EditKind::Insert) => {},
    }
}

/// What an edit that applies leaves is a valid content.
proof fn lemma_edit_valid(c: Seq<Seq<char>>, e: EditView)
    requires
        valid_content(c),
        applies(c, e),
    ensures
        valid_content(after(c, e)),
{
    match e.kind {
        EditKind::Insert => {
            law_delete_undoes_insert(c, e.range.from, e.text);
        },
        EditKind::Delete => {
            law_insert_undoes_delete(c, e.range.from, e.range.to);
        },
    }
}

/// Each of the edits stays within one line: those of `cursor` within
/// `line`, those of the other cursors within other lines.
pub open spec fn cursors_keep_to_lines(edits: Seq<EditView>, cursor: u8, line: usize) -> bool {
    forall|i: int|
        0 <= i < edits.len() ==> on_line(#[trigger] edits[i], edits[i].range.from.line_index) && ((
        edits[i].cursor_index == cursor) == (edits[i].range.from.line_index == line))
}

/// Each of the edits stays within one line that is not `line`.
pub open spec fn on_other_lines(edits: Seq<EditView>, line: usize) -> bool {
    forall|i: int|
        0 <= i < edits.len() ==> on_line(#[trigger] edits[i], edits[i].range.from.line_index)
            && edits[i].range.from.line_index != line
}

/// The log of an open group after one more edit: merged where it can be,
/// appended otherwise.
pub open spec fn group_with(log: Seq<EditView>, edit: EditView) -> Seq<EditView> {
    match try_merge(log, 0, edit) {
        Some(merged) => merged,
        None => log.push(edit),
    }
}

/// An edit within a line applies to every content that has that line, and
/// changes nothing but that line.
proof fn lemma_applies_alike(c: Seq<Seq<char>>, d: Seq<Seq<char>>, e: EditView, line: usize)
    requires
        valid_content(c),
        fits(c),
        valid_content(d),
        applies(d, e),
        on_line(e, line),
        line < c.len(),
        line < d.len(),
        c[line as int] == d[line as int],
    ensures
        applies(c, e),
        after(c, e) == c.update(line as int, after(d, e)[line as int]),
{
    lemma_edit_in_line(d, e, line);
    let made = after(d, e)[line as int];
    match e.kind {
        EditKind::Insert => {
            lemma_insert_in_line(c, e.range.from, e.text);
        },
        EditKind::Delete => {
            lemma_delete_in_line(c, e.range.from, e.range.to);
            lemma_delete_in_line(d, e.range.from, e.range.to);
        },
    }
    assert(after(c, e) == c.update(line as int, made));
    assert forall|i: int| 0 <= i < after(c, e).len() implies (#[trigger] after(c, e)[i]).len()
        <= usize::MAX by {
        if i != line {
            assert(after(c, e)[i] == c[i]);
        }
    }
}

/// Two edits within two lines can change places.
proof fn lemma_edits_of_two_lines_commute(
    c: Seq<Seq<char>>,
    f: EditView,
    e: EditView,
    at: usize,
    line: usize,
)
    requires
        valid_content(c),
        fits(c),
        applies(c, f),
        applies(after(c, f), e),
        on_line(f, at),
        on_line(e, line),
        at != line,
    ensures
        applies(c, e),
        applies(after(c, e), f),
        after(after(c, e), f) == after(after(c, f), e),
{
    lemma_edit_in_line(c, f, at);
    lemma_edit_valid(c, f);
    let cf = after(c, f);
    lemma_edit_in_line(cf, e, line);
    assert(cf[line as int] == c[line as int]);
    lemma_applies_alike(c, cf, e, line);
    lemma_edit_valid(c, e);
    let ce = after(c, e);
    assert(ce[at as int] == c[at as int]);
    lemma_applies_alike(ce, c, f, at);
    assert(after(ce, f) =~= after(cf, e));
}

/// An edit within a line that applies after edits within other lines
/// applies before them as well, and leads to the same content.
proof fn lemma_edit_moves_ahead(c: Seq<Seq<char>>, others: Seq<EditView>, e: EditView, line: usize)
    requires
        valid_content(c),
        fits(c),
        replayable(c, others),
        applies(replay(c, others), e),
        on_line(e, line),
        on_other_lines(others, line),
    ensures
        applies(c, e),
        replayable(after(c, e), others),
        replay(after(c, e), others) == after(replay(c, others), e),
    decreases others.len(),
{
    if others.len() > 0 {
        let before = others.drop_last();
        let f = others.last();
        let mid = replay(c, before);
        lemma_replay_keeps_validity(c, before);
        assert(on_line(others[others.len() - 1], f.range.from.line_index));
        lemma_edits_of_two_lines_commute(mid, f, e, f.range.from.line_index, line);
        assert forall|i: int| 0 <= i < before.len() implies on_line(
            #[trigger] before[i],
            before[i].range.from.line_index,
        ) && before[i].range.from.line_index != line by {
            assert(before[i] == others[i]);
        }
        lemma_edit_moves_ahead(c, before, e, line);
    }
}

/// An edit within a line is no other after an edit within another line
/// was absorbed before it.
proof fn lemma_other_lines_stay(e: EditView, as_insert: bool, range: BufferRange, line: usize)
    requires
        e.range.from.line_index == e.range.to.line_index,
        e.range.from.line_index != line,
        range.from.line_index == line,
        range.to.line_index == line,
    ensures
        shifted(e, as_insert, range) == e,
{
}

/// The log after an edit within `line` was merged into the edit at `k`,
/// where the edits behind `k` stay within other lines: the edits before
/// `k`, the merged edit, and the edits behind `k` as they were.
proof fn lemma_merged_log_parts(
    log: Seq<EditView>,
    k: int,
    merged: EditView,
    as_insert: bool,
    range: BufferRange,
    line: usize,
)
    requires
        0 <= k < log.len(),
        on_other_lines(log.skip(k + 1), line),
        range.from.line_index == line,
        range.to.line_index == line,
    ensures
        merged_log(log, k, merged, as_insert, range) == log.take(k).push(merged) + log.skip(k + 1),
{
    let others = log.skip(k + 1);
    let stored = merged_log(log, k, merged, as_insert, range);
    let parts = log.take(k).push(merged) + others;
    assert forall|i: int| 0 <= i < stored.len() implies stored[i] == parts[i] by {
        if i > k {
            let e = others[i - k - 1];
            assert(e == log[i]);
            assert(on_line(e, e.range.from.line_index));
            lemma_other_lines_stay(e, as_insert, range, line);
        }
    }
    assert(stored =~= parts);
}

/// An edit within a line that applies after a log whose edits behind `k`
/// stay within other lines applies right behind the edit at `k` as well.
proof fn lemma_edit_behind(
    c: Seq<Seq<char>>,
    log: Seq<EditView>,
    edit: EditView,
    line: usize,
    k: int,
)
    requires
        valid_content(c),
        fits(c),
        replayable(c, log),
        applies(replay(c, log), edit),
        on_line(edit, line),
        0 <= k < log.len(),
        on_other_lines(log.skip(k + 1), line),
    ensures
        valid_content(replay(c, log.take(k))),
        fits(replay(c, log.take(k))),
        applies(replay(c, log.take(k)), log[k]),
        applies(after(replay(c, log.take(k)), log[k]), edit),
        replayable(after(after(replay(c, log.take(k)), log[k]), edit), log.skip(k + 1)),
        replay(after(after(replay(c, log.take(k)), log[k]), edit), log.skip(k + 1)) == after(
            replay(c, log),
            edit,
        ),
{
    let init = log.take(k);
    let others = log.skip(k + 1);
    let upto = init.push(log[k]);
    assert(log =~= upto + others);
    assert(upto.drop_last() =~= init);
    lemma_replay_concat(c, upto, others);
    lemma_replay_keeps_validity(c, init);
    lemma_replay_keeps_validity(c, upto);
    assert(replay(c, upto) == after(replay(c, init), log[k]));
    lemma_edit_moves_ahead(replay(c, upto), others, edit, line);
}

/// Where a merged edit does to the content before `k` what the edit at `k`
/// and then another edit do, and the edits behind `k` apply after these
/// two, the log with the merged edit at `k` leads where they lead.
proof fn lemma_merged_at(
    c: Seq<Seq<char>>,
    log: Seq<EditView>,
    edit: EditView,
    k: int,
    merged: EditView,
)
    requires
        0 <= k < log.len(),
        replayable(c, log.take(k)),
        applies(replay(c, log.take(k)), merged),
        after(replay(c, log.take(k)), merged) == after(
            after(replay(c, log.take(k)), log[k]),
            edit,
        ),
        replayable(after(after(replay(c, log.take(k)), log[k]), edit), log.skip(k + 1)),
    ensures
        replayable(c, log.take(k).push(merged) + log.skip(k + 1)),
        replay(c, log.take(k).push(merged) + log.skip(k + 1)) == replay(
            after(after(replay(c, log.take(k)), log[k]), edit),
            log.skip(k + 1),
        ),
{
    let init = log.take(k);
    let again = init.push(merged);
    assert(again.drop_last() =~= init);
    assert(again.last() == merged);
    lemma_replay_concat(c, again, log.skip(k + 1));
    assert(replay(c, again) == after(replay(c, init), merged));
}

/// Merging is invisible in what a group does, for cursors that each work
/// within a line of their own: where the stored edits of an open group lead
/// from a content to another, and one more edit applies there, the stored
/// edits after that edit was added lead from the first content to what the
/// edit leaves, whether the edit was merged into an earlier one or added
/// behind the others.
pub proof fn law_group_keeps_effect(
    c: Seq<Seq<char>>,
    log: Seq<EditView>,
    edit: EditView,
    line: usize,
)
    requires
        valid_content(c),
        fits(c),
        replayable(c, log),
        applies(replay(c, log), edit),
        cursors_keep_to_lines(log.push(edit), edit.cursor_index, line),
    ensures
        replayable(c, group_with(log, edit)),
        replay(c, group_with(log, edit)) == after(replay(c, log), edit),
        cursors_keep_to_lines(group_with(log, edit), edit.cursor_index, line),
{
    let pushed = log.push(edit);
    let cursor = edit.cursor_index;
    assert(pushed.drop_last() =~= log);
    assert(pushed.last() == edit);
    assert forall|i: int| 0 <= i < log.len() implies on_line(
        #[trigger] log[i],
        log[i].range.from.line_index,
    ) && ((log[i].cursor_index == cursor) == (log[i].range.from.line_index == line)) by {
        assert(pushed[i] == log[i]);
    }
    assert(on_line(edit, line)) by {
        assert(pushed[log.len() as int] == edit);
    }
    if exists|k: int| is_merge_target(log, 0, cursor, k) {
        let k = choose|k: int| is_merge_target(log, 0, cursor, k);
        let target = log[k];
        assert(on_line(target, line));
        if merge_rule(target, edit) is Some {
            let merged = merge_rule(target, edit).unwrap().0;
            let as_insert = merge_rule(target, edit).unwrap().1;
            let init = log.take(k);
            let others = log.skip(k + 1);
            assert forall|i: int| 0 <= i < others.len() implies on_line(
                #[trigger] others[i],
                others[i].range.from.line_index,
            ) && others[i].range.from.line_index != line by {
                assert(others[i] == log[k + 1 + i]);
            }
            assert(log =~= init + log.skip(k));
            lemma_replay_concat(c, init, log.skip(k));
            lemma_edit_behind(c, log, edit, line, k);
            law_merge_preserves_effect(replay(c, init), target, edit, line);
            lemma_merged_at(c, log, edit, k, merged);
            lemma_merged_log_parts(log, k, merged, as_insert, edit.range, line);
            lemma_merge_keeps_cursor(target, edit);
            let stored = merged_log(log, k, merged, as_insert, edit.range);
            assert(group_with(log, edit) == stored);
            assert forall|i: int| 0 <= i < stored.len() implies on_line(
                #[trigger] stored[i],
                stored[i].range.from.line_index,
            ) && ((stored[i].cursor_index == cursor) == (stored[i].range.from.line_index
                == line)) by {
                if i != k {
                    assert(stored[i] == log[i]);
                }
            }
        }
    }
}

/// The edit that stands for two edits is made by the cursor of the first.
proof fn lemma_merge_keeps_cursor(other: EditView, edit: EditView)
    requires
        merge_rule(other, edit) is Some,
    ensures
        merge_rule(other, edit).unwrap().0.cursor_index == other.cursor_index,
{
}

/// Inserting no text changes nothing.
pub proof fn lemma_insert_nothing(c: Seq<Seq<char>>, p: BufferPosition)
    requires
        in_content(c, p),
    ensures
        inserted(c, p, Seq::empty()) == c,
{
    lemma_insert_in_line(c, p, Seq::empty());
    let line = c[p.line_index as int];
    assert(line.take(p.column_index as int) + Seq::<char>::empty() + line.skip(
        p.column_index as int,
    ) =~= line);
    assert(c.update(p.line_index as int, line) =~= c);
}

/// Deleting an empty range changes nothing.
pub proof fn lemma_delete_nothing(c: Seq<Seq<char>>, p: BufferPosition)
    requires
        in_content(c, p),
    ensures
        deleted(c, p, p) == c,
{
    lemma_delete_in_line(c, p, p);
    let line = c[p.line_index as int];
    assert(line.take(p.column_index as int) + line.skip(p.column_index as int) =~= line);
    assert(c.update(p.line_index as int, line) =~= c);
}

/// A character of a word: a letter, a digit or an underscore.
pub open spec fn is_word_char(c: char) -> bool {
    ('a' <= c <= 'z') || ('A' <= c <= 'Z') || ('0' <= c <= '9') || c == '_'
}

/// Where the run of word characters that ends before `end` begins.
pub open spec fn word_start(line: Seq<char>, end: int) -> int
    decreases end,
{
    if 0 < end <= line.len() && is_word_char(line[end - 1]) {
        word_start(line, end - 1)
    } else {
        end
    }
}

/// Where the run of word characters that begins at `start` ends.
pub open spec fn word_end(line: Seq<char>, start: int) -> int
    decreases line.len() - start,
{
    if 0 <= start < line.len() && is_word_char(line[start]) {
        word_end(line, start + 1)
    } else {
        start
    }
}

/// The range of the word around a place of the content: the word
/// characters before and behind the place, within its line.
pub open spec fn word_range(c: Seq<Seq<char>>, p: BufferPosition) -> BufferRange {
    let at = clamped(c, p);
    let line = c[at.line_index as int];
    BufferRange {
        from: BufferPosition {
            line_index: at.line_index,
            column_index: clip(word_start(line, at.column_index as int)),
        },
        to: BufferPosition {
            line_index: at.line_index,
            column_index: clip(word_end(line, at.column_index as int)),
        },
    }
}

fn is_word_character(c: char) -> (r: bool)
    ensures
        r == is_word_char(c),
{
    ('a' <= c && c <= 'z') || ('A' <= c && c <= 'Z') || ('0' <= c && c <= '9') || c == '_'
}

impl BufferContent {
    /// The range of the word around the place nearest to `position`.
    pub fn word_range_at(&self, position: BufferPosition) -> (r: BufferRange)
        requires
            self.well_formed(),
        ensures
            r == word_range(self@, position),
            in_content(self@, r.from),
            in_content(self@, r.to),
            position_le(r.from, r.to),
    {
        let at = self.clamp_position(position);
        let chars = chars_of(self.lines[at.line_index].as_str());
        let mut start = at.column_index;
        while start > 0 && is_word_character(chars[start - 1])
            invariant
                0 <= start <= at.column_index <= chars.len(),
                word_start(chars@, start as int) == word_start(chars@, at.column_index as int),
            decreases start,
        {
            start = start - 1;
        }
        let mut end = at.column_index;
        while end < chars.len() && is_word_character(chars[end])
            invariant
                at.column_index <= end <= chars.len(),
                word_end(chars@, end as int) == word_end(chars@, at.column_index as int),
            decreases chars.len() - end,
        {
            end = end + 1;
        }
        BufferRange {
            from: BufferPosition { line_index: at.line_index, column_index: start },
            to: BufferPosition { line_index: at.line_index, column_index: end },
        }
    }

    /// The text between the places nearest to the ends of `range`.
    pub fn text_in(&self, range: BufferRange) -> (r: String)
        requires
            self.well_formed(),
        ensures
            r@ == text_between(
                self@,
                ordered(clamped(self@, range.from), clamped(self@, range.to)).from,
                ordered(clamped(self@, range.from), clamped(self@, range.to)).to,
            ),
    {
        let a = self.clamp_position(range.from);
        let b = self.clamp_position(range.to);
        self.text_range(BufferRange::between(a, b))
    }
}

/// Deleting everything leaves one empty line.
pub proof fn lemma_delete_everything(c: Seq<Seq<char>>)
    requires
        valid_content(c),
        c.len() - 1 <= usize::MAX,
        c[c.len() - 1].len() <= usize::MAX,
    ensures
        clamped(c, BufferPosition { line_index: 0, column_index: 0 }) == (BufferPosition {
            line_index: 0,
            column_index: 0,
        }),
        clamped(c, end_of(c)) == end_of(c),
        position_le(BufferPosition { line_index: 0, column_index: 0 }, end_of(c)),
        deleted(c, BufferPosition { line_index: 0, column_index: 0 }, end_of(c)) == seq![
            Seq::<char>::empty(),
        ],
{
    let zero = BufferPosition { line_index: 0, column_index: 0 };
    let end = end_of(c);
    assert(deleted(c, zero, end) =~= seq![Seq::<char>::empty()]) by {
        assert(c[0].take(0) + c[c.len() - 1].skip(c[c.len() - 1].len() as int)
            =~= Seq::<char>::empty());
    }
}

/// Inserting a text into an empty content gives the lines of the text.
pub proof fn lemma_insert_into_empty(text: Seq<char>)
    ensures
        inserted(
            seq![Seq::<char>::empty()],
            BufferPosition { line_index: 0, column_index: 0 },
            text,
        ) == split_lines(text),
        clamped(seq![Seq::<char>::empty()], BufferPosition { line_index: 0, column_index: 0 })
            == (BufferPosition { line_index: 0, column_index: 0 }),
{
    lemma_split_lines_valid(text);
    let pieces = split_lines(text);
    let empty = Seq::<char>::empty();
    let mid = spliced(empty, 0, pieces);
    if pieces.len() == 1 {
        assert(empty.take(0) + pieces[0] + empty.skip(0) =~= pieces[0]);
        assert(mid =~= pieces);
    } else {
        assert(empty.take(0) + pieces[0] =~= pieces[0]);
        assert(pieces.last() + empty.skip(0) =~= pieces.last());
        assert(mid =~= pieces);
    }
    let c = seq![empty];
    assert(c.take(0) + mid + c.skip(1) =~= pieces);
}

} // verus!
