//! Applying the edits that a language server sends to the buffers of the
//! editor.

use crate::buffer::{Buffer, BufferCollection};
use crate::buffer_content::{
    clamped,
    deleted,
    end_of_insert,
    in_content,
    inserted,
    is_line,
    law_delete_undoes_insert,
    ordered,
    valid_content,
};
use crate::buffer_position::{position_le, position_lt, BufferRange};
use crate::editor::Editor;
use crate::events::{BufferHandle, EditorEventQueue};
use crate::lsp::protocol::{
    position_from_document, range_from_document, text_edit_views, uri_path, DocumentEditsView,
    TextEdit, TextEditView, WorkspaceEdit, parse_uri,
};
use vstd::prelude::*;

verus! {

/// Where an edit goes into a list that is ordered from the end of the
/// document to its start: before the first edit that starts before it.
pub open spec fn edit_place(sorted: Seq<TextEditView>, e: TextEditView, from: int) -> int
    decreases sorted.len() - from,
{
    if from < 0 || from >= sorted.len() || position_lt(
        position_from_document(sorted[from].range.start),
        position_from_document(e.range.start),
    ) {
        from
    } else {
        edit_place(sorted, e, from + 1)
    }
}

/// The first `count` edits, ordered by where they start, the last place
/// first; edits that start at the same place keep their order.
pub open spec fn bottom_up(edits: Seq<TextEditView>, count: int) -> Seq<TextEditView>
    decreases count,
{
    if count <= 0 || count > edits.len() {
        Seq::empty()
    } else {
        let before = bottom_up(edits, count - 1);
        before.insert(edit_place(before, edits[count - 1], 0), edits[count - 1])
    }
}

/// Each edit starts no earlier than the next.
pub open spec fn is_bottom_up(edits: Seq<TextEditView>) -> bool {
    forall|i: int, j: int|
        0 <= i < j < edits.len() ==> position_le(
            position_from_document((#[trigger] edits[j]).range.start),
            position_from_document((#[trigger] edits[i]).range.start),
        )
}

proof fn lemma_edit_place(sorted: Seq<TextEditView>, e: TextEditView, from: int)
    requires
        0 <= from <= sorted.len(),
    ensures
        from <= edit_place(sorted, e, from) <= sorted.len(),
        forall|k: int|
            from <= k < edit_place(sorted, e, from) ==> position_le(
                position_from_document(e.range.start),
                position_from_document((#[trigger] sorted[k]).range.start),
            ),
        edit_place(sorted, e, from) < sorted.len() ==> position_lt(
            position_from_document(sorted[edit_place(sorted, e, from)].range.start),
            position_from_document(e.range.start),
        ),
    decreases sorted.len() - from,
{
    if from < sorted.len() && !position_lt(
        position_from_document(sorted[from].range.start),
        position_from_document(e.range.start),
    ) {
        lemma_edit_place(sorted, e, from + 1);
    }
}

/// Ordering keeps every edit and puts the edits bottom up.
pub proof fn law_bottom_up_is_ordered(edits: Seq<TextEditView>, count: int)
    requires
        0 <= count <= edits.len(),
    ensures
        bottom_up(edits, count).len() == count,
        is_bottom_up(bottom_up(edits, count)),
    decreases count,
{
    if count > 0 {
        law_bottom_up_is_ordered(edits, count - 1);
        let before = bottom_up(edits, count - 1);
        let e = edits[count - 1];
        lemma_edit_place(before, e, 0);
        let p = edit_place(before, e, 0);
        let after = before.insert(p, e);
        assert forall|i: int, j: int| 0 <= i < j < after.len() implies position_le(
            position_from_document((#[trigger] after[j]).range.start),
            position_from_document((#[trigger] after[i]).range.start),
        ) by {
            if j < p {
                assert(after[i] == before[i] && after[j] == before[j]);
            } else if j == p {
                assert(after[i] == before[i]);
            } else if i == p {
                assert(after[j] == before[j - 1]);
                if j - 1 > p {
                    assert(position_le(
                        position_from_document(before[j - 1].range.start),
                        position_from_document(before[p].range.start),
                    ));
                }
            } else if i < p {
                assert(after[i] == before[i] && after[j] == before[j - 1]);
            } else {
                assert(after[i] == before[i - 1] && after[j] == before[j - 1]);
            }
        }
    }
}

/// The range of the content that an edit replaces: its range, with both
/// ends brought to the nearest place of the content.
pub open spec fn replaced_range(c: Seq<Seq<char>>, e: TextEditView) -> BufferRange {
    let range = range_from_document(e.range);
    ordered(clamped(c, range.from), clamped(c, range.to))
}

/// The content after an edit: what stands in the range of the edit is
/// deleted, and the new text is inserted where the range began.
pub open spec fn content_after_edit(c: Seq<Seq<char>>, e: TextEditView) -> Seq<Seq<char>> {
    let range = replaced_range(c, e);
    let without = deleted(c, range.from, range.to);
    inserted(without, clamped(without, range.from), e.new_text)
}

/// The content after the edits, in order.
pub open spec fn content_after_edits(c: Seq<Seq<char>>, edits: Seq<TextEditView>) -> Seq<Seq<char>>
    decreases edits.len(),
{
    if edits.len() == 0 {
        c
    } else {
        content_after_edit(content_after_edits(c, edits.drop_last()), edits.last())
    }
}

/// An edit replaces text by text of the same extent: its range lies in the
/// content, and the new text ends where the range ends.
pub open spec fn is_pure_replacement(c: Seq<Seq<char>>, e: TextEditView) -> bool {
    let range = range_from_document(e.range);
    &&& in_content(c, range.from)
    &&& in_content(c, range.to)
    &&& position_le(range.from, range.to)
    &&& end_of_insert(range.from, e.new_text) == range.to
}

/// An edit that replaces text by text of the same extent changes nothing
/// when it is applied again: afterwards its range holds its new text.
pub proof fn law_pure_replacement_is_idempotent(c: Seq<Seq<char>>, e: TextEditView)
    requires
        valid_content(c),
        is_pure_replacement(c, e),
        crate::buffer_content::fits(content_after_edit(c, e)),
    ensures
        content_after_edit(content_after_edit(c, e), e) == content_after_edit(c, e),
        is_pure_replacement(content_after_edit(c, e), e),
        valid_content(content_after_edit(c, e)),
{
    let range = range_from_document(e.range);
    crate::buffer_content::law_insert_undoes_delete(c, range.from, range.to);
    let without = deleted(c, range.from, range.to);
    assert(replaced_range(c, e) == range);
    assert(clamped(without, range.from) == range.from);
    let once = inserted(without, range.from, e.new_text);
    assert(content_after_edit(c, e) == once);
    law_delete_undoes_insert(without, range.from, e.new_text);
    assert(in_content(once, range.from));
    assert(in_content(once, range.to));
    assert(replaced_range(once, e) == range);
    assert(deleted(once, range.from, range.to) == without);
}

/// Where an edit goes among the edits that are in order already.
#[verifier::loop_isolation(false)]
fn find_place(sorted: &Vec<TextEdit>, edit: &TextEdit) -> (r: usize)
    ensures
        r == edit_place(text_edit_views(sorted@), edit@, 0),
        r <= sorted.len(),
{
    let start = edit.range.start.into_buffer_position();
    let mut place: usize = 0;
    while place < sorted.len() && !sorted[place].range.start.into_buffer_position().lt(start)
        invariant
            0 <= place <= sorted.len(),
            edit_place(text_edit_views(sorted@), edit@, 0) == edit_place(
                text_edit_views(sorted@),
                edit@,
                place as int,
            ),
        decreases sorted.len() - place,
    {
        place = place + 1;
    }
    place
}

/// Copies of the edits, bottom up.
#[verifier::loop_isolation(false)]
pub fn sort_bottom_up(edits: &Vec<TextEdit>) -> (r: Vec<TextEdit>)
    ensures
        text_edit_views(r@) == bottom_up(text_edit_views(edits@), edits@.len() as int),
        is_bottom_up(text_edit_views(r@)),
        r@.len() == edits@.len(),
{
    let ghost all = text_edit_views(edits@);
    let mut sorted: Vec<TextEdit> = Vec::new();
    let mut i: usize = 0;
    assert(text_edit_views(sorted@) =~= Seq::<TextEditView>::empty());
    while i < edits.len()
        invariant
            0 <= i <= edits.len(),
            text_edit_views(sorted@) == bottom_up(all, i as int),
        decreases edits.len() - i,
    {
        let edit = TextEdit { range: edits[i].range, new_text: edits[i].new_text.clone() };
        assert(edit@ == all[i as int]);
        let ghost before = text_edit_views(sorted@);
        let place = find_place(&sorted, &edit);
        sorted.insert(place, edit);
        assert(text_edit_views(sorted@) =~= before.insert(place as int, all[i as int]));
        i = i + 1;
    }
    proof {
        law_bottom_up_is_ordered(all, edits@.len() as int);
    }
    sorted
}

/// Applies the edits to a buffer, bottom up, as one group of its history:
/// for each edit, what stands in its range is deleted and its new text is
/// inserted there.
#[verifier::loop_isolation(false)]
pub fn apply_text_edits(buffer: &mut Buffer, edits: &Vec<TextEdit>, events: &mut EditorEventQueue)
    requires
        old(buffer).well_formed(),
    ensures
        final(buffer).well_formed(),
        final(buffer).handle == old(buffer).handle,
        final(buffer).path == old(buffer).path,
        final(buffer).capabilities == old(buffer).capabilities,
        final(buffer).content@ == content_after_edits(
            old(buffer).content@,
            bottom_up(text_edit_views(edits@), edits@.len() as int),
        ),
        final(buffer).history@.state is IterIndex,
        final(events).reading() == old(events).reading(),
{
    let sorted = sort_bottom_up(edits);
    let ghost all = text_edit_views(sorted@);
    buffer.commit_edits();
    let mut i: usize = 0;
    assert(all.take(0) =~= Seq::<TextEditView>::empty());
    while i < sorted.len()
        invariant
            0 <= i <= sorted.len(),
            buffer.well_formed(),
            buffer.handle == old(buffer).handle,
            buffer.path == old(buffer).path,
            buffer.capabilities == old(buffer).capabilities,
            buffer.content@ == content_after_edits(old(buffer).content@, all.take(i as int)),
            events.reading() == old(events).reading(),
        decreases sorted.len() - i,
    {
        let edit = &sorted[i];
        proof {
            assert(all.take(i + 1).drop_last() =~= all.take(i as int));
            assert(all.take(i + 1).last() == edit@);
        }
        let range = edit.range.into_buffer_range();
        let deleted_range = buffer.delete_range(range, 0, events);
        buffer.insert_text(deleted_range.from, edit.new_text.as_str(), 0, events);
        proof {
            let before = content_after_edits(old(buffer).content@, all.take(i as int));
            assert(deleted_range == replaced_range(before, edit@));
            if deleted_range.from == deleted_range.to {
                crate::buffer_content::lemma_delete_nothing(before, deleted_range.from);
            }
            if edit.new_text@.len() == 0 {
                let without = deleted(before, deleted_range.from, deleted_range.to);
                crate::buffer_content::lemma_insert_nothing(
                    without,
                    clamped(without, deleted_range.from),
                );
            }
        }
        i = i + 1;
    }
    assert(all.take(sorted.len() as int) =~= all);
    buffer.commit_edits();
}

/// The buffer that an entry of a workspace edit names: the first buffer
/// whose path is the path that the URI of the entry names.
pub open spec fn edited_buffer(
    buffers: &BufferCollection,
    root: Seq<char>,
    entry: DocumentEditsView,
) -> Option<BufferHandle> {
    match uri_path(root, entry.uri) {
        Some(path) => buffers.path_handle(path),
        None => None,
    }
}

/// The content of the buffer `handle` after the first `count` entries of a
/// workspace edit were applied, in order: the edits of each entry that names
/// the buffer are applied bottom up.
pub open spec fn content_after_workspace_edit(
    buffers: &BufferCollection,
    root: Seq<char>,
    entries: Seq<DocumentEditsView>,
    count: int,
    handle: BufferHandle,
) -> Seq<Seq<char>>
    decreases count,
{
    if count <= 0 || count > entries.len() {
        buffers.buffer(handle).content@
    } else {
        let before = content_after_workspace_edit(buffers, root, entries, count - 1, handle);
        if edited_buffer(buffers, root, entries[count - 1]) == Some(handle) {
            content_after_edits(
                before,
                bottom_up(entries[count - 1].edits, entries[count - 1].edits.len() as int),
            )
        } else {
            before
        }
    }
}

/// The buffers hold what the workspace edit makes of them, and are the
/// same buffers with the same paths otherwise.
pub open spec fn workspace_edit_applied(
    before: &Editor,
    after: &Editor,
    root: Seq<char>,
    entries: Seq<DocumentEditsView>,
    count: int,
) -> bool {
    &&& crate::editor::same_but_buffers(after, before)
    &&& after.buffer_views == before.buffer_views
    &&& after.editor_events.reading() == before.editor_events.reading()
    &&& after.buffers.buffers@.len() == before.buffers.buffers@.len()
    &&& forall|h: BufferHandle|
        after.buffers.contains(h) == before.buffers.contains(h) && (#[trigger] before.buffers.contains(
            h,
        ) ==> after.buffers.buffer(h).path == before.buffers.buffer(h).path && after.buffers.buffer(
            h,
        ).capabilities == before.buffers.buffer(h).capabilities && after.buffers.buffer(h).content@
            == content_after_workspace_edit(&before.buffers, root, entries, count, h))
}

proof fn lemma_same_paths(a: Seq<Option<Buffer>>, b: Seq<Option<Buffer>>, path: Seq<char>, from: int)
    requires
        a.len() == b.len(),
        forall|i: int|
            0 <= i < a.len() ==> (#[trigger] a[i]).is_some() == b[i].is_some() && (a[i].is_some()
                ==> a[i].unwrap().path == b[i].unwrap().path),
    ensures
        crate::buffer::path_handle_from(a, path, from) == crate::buffer::path_handle_from(
            b,
            path,
            from,
        ),
    decreases a.len() - from,
{
    if 0 <= from < a.len() && from <= u32::MAX {
        assert(a[from].is_some() == b[from].is_some());
        lemma_same_paths(a, b, path, from + 1);
    }
}

impl WorkspaceEdit {
    /// Applies the edits to the buffers of the editor, entry by entry. An
    /// entry whose document no buffer holds is passed over.
    #[verifier::loop_isolation(false)]
    pub fn apply(&self, editor: &mut Editor, root: &str)
        requires
            old(editor).well_formed(),
        ensures
            final(editor).well_formed(),
            workspace_edit_applied(old(editor), final(editor), root@, self@, self@.len() as int),
    {
        let mut i: usize = 0;
        while i < self.documents.len()
            invariant
                0 <= i <= self.documents.len(),
                editor.well_formed(),
                workspace_edit_applied(old(editor), editor, root@, self@, i as int),
            decreases self.documents.len() - i,
        {
            let entry = &self.documents[i];
            assert(self@[i as int] == entry@);
            let ghost before = *editor;
            let target = match parse_uri(root, entry.uri.as_str()) {
                Some(path) => editor.buffers.find_with_path(path.as_str()),
                None => None,
            };
            proof {
                match uri_path(root@, entry.uri@) {
                    Some(path) => {
                        assert forall|k: int| 0 <= k < before.buffers.buffers@.len() implies (
                        #[trigger] before.buffers.buffers@[k]).is_some() == old(editor).buffers.buffers@[k].is_some() && (before.buffers.buffers@[k].is_some()
                            ==> before.buffers.buffers@[k].unwrap().path == old(editor).buffers.buffers@[k].unwrap().path) by {
                            if k <= u32::MAX {
                                let h = BufferHandle(k as u32);
                                assert(before.buffers.contains(h) == old(editor).buffers.contains(
                                    h,
                                ));
                            }
                        }
                        lemma_same_paths(
                            before.buffers.buffers@,
                            old(editor).buffers.buffers@,
                            path,
                            0,
                        );
                    },
                    None => {},
                }
                assert(target == edited_buffer(&old(editor).buffers, root@, entry@));
            }
            if let Some(handle) = target {
                editor.apply_edits_to_buffer(handle, &entry.edits);
            }
            proof {
                assert forall|h: BufferHandle|
                    editor.buffers.contains(h) == old(editor).buffers.contains(h) && (
                    #[trigger] old(editor).buffers.contains(h) ==> editor.buffers.buffer(h).path
                        == old(editor).buffers.buffer(h).path && editor.buffers.buffer(
                        h,
                    ).capabilities == old(editor).buffers.buffer(h).capabilities
                        && editor.buffers.buffer(h).content@ == content_after_workspace_edit(
                        &old(editor).buffers,
                        root@,
                        self@,
                        i + 1,
                        h,
                    )) by {
                    assert(before.buffers.contains(h) == old(editor).buffers.contains(h));
                }
            }
            i = i + 1;
        }
    }
}

/// The edit replaces text within one line of the content by as much text,
/// which holds no line feed.
pub open spec fn replaces_in_line(c: Seq<Seq<char>>, e: TextEditView) -> bool {
    let range = range_from_document(e.range);
    &&& range.from.line_index == range.to.line_index
    &&& range.from.line_index < c.len()
    &&& range.from.column_index <= range.to.column_index
    &&& range.to.column_index <= c[range.from.line_index as int].len()
    &&& is_line(e.new_text)
    &&& e.new_text.len() == range.to.column_index - range.from.column_index
}

/// Whether the range of the edit holds the place `column` of the line `line`.
pub open spec fn covers(e: TextEditView, line: int, column: int) -> bool {
    let range = range_from_document(e.range);
    range.from.line_index == line && range.from.column_index <= column < range.to.column_index
}

/// Whether the range of one of the edits holds the place.
pub open spec fn covered(edits: Seq<TextEditView>, line: int, column: int) -> bool {
    exists|i: int| 0 <= i < edits.len() && covers(#[trigger] edits[i], line, column)
}

/// As many lines, and each line as long.
pub open spec fn same_shape(a: Seq<Seq<char>>, b: Seq<Seq<char>>) -> bool {
    a.len() == b.len() && forall|l: int| 0 <= l < a.len() ==> (#[trigger] a[l]).len() == b[l].len()
}

/// Each of the edits replaces text within one line by as much text.
pub open spec fn replace_in_lines(c: Seq<Seq<char>>, edits: Seq<TextEditView>) -> bool {
    forall|i: int| 0 <= i < edits.len() ==> replaces_in_line(c, #[trigger] edits[i])
}

/// An edit that replaces text within one line by as much text is a pure
/// replacement; it leaves the content in its shape, with its text in its
/// range and every other place as it was.
pub proof fn lemma_replaced_in_line(c: Seq<Seq<char>>, e: TextEditView)
    requires
        valid_content(c),
        replaces_in_line(c, e),
    ensures
        is_pure_replacement(c, e),
        same_shape(c, content_after_edit(c, e)),
        valid_content(content_after_edit(c, e)),
        forall|l: int, k: int|
            0 <= l < c.len() && 0 <= k < c[l].len() ==> #[trigger] content_after_edit(c, e)[l][k]
                == if covers(e, l, k) {
                e.new_text[k - range_from_document(e.range).from.column_index]
            } else {
                c[l][k]
            },
{
    let range = range_from_document(e.range);
    let line = range.from.line_index as int;
    let a = range.from.column_index as int;
    let b = range.to.column_index as int;
    assert(is_line(c[line]));
    assert(replaced_range(c, e) == range);
    crate::buffer_content::lemma_delete_in_line(c, range.from, range.to);
    let without = deleted(c, range.from, range.to);
    assert(without[line] == c[line].take(a) + c[line].skip(b));
    assert(clamped(without, range.from) == range.from);
    crate::buffer_content::lemma_insert_in_line(without, range.from, e.new_text);
    let once = content_after_edit(c, e);
    let made = c[line].take(a) + e.new_text + c[line].skip(b);
    assert(without[line].take(a) =~= c[line].take(a));
    assert(without[line].skip(a) =~= c[line].skip(b));
    assert(once =~= c.update(line, made));
    assert forall|l: int| 0 <= l < once.len() implies is_line(#[trigger] once[l]) by {
        if l != line {
            assert(once[l] == c[l]);
        }
    }
}

/// Edits that each replace text within one line by as much text leave the
/// content in its shape, and leave every place that none of them covers as
/// it was.
pub proof fn lemma_replacements_keep_the_rest(c: Seq<Seq<char>>, edits: Seq<TextEditView>)
    requires
        valid_content(c),
        replace_in_lines(c, edits),
    ensures
        same_shape(c, content_after_edits(c, edits)),
        valid_content(content_after_edits(c, edits)),
        replace_in_lines(content_after_edits(c, edits), edits),
        forall|l: int, k: int|
            0 <= l < c.len() && 0 <= k < c[l].len() && !covered(edits, l, k)
                ==> #[trigger] content_after_edits(c, edits)[l][k] == c[l][k],
    decreases edits.len(),
{
    if edits.len() > 0 {
        let before = edits.drop_last();
        let e = edits.last();
        assert forall|i: int| 0 <= i < before.len() implies replaces_in_line(
            c,
            #[trigger] before[i],
        ) by {
            assert(before[i] == edits[i]);
        }
        lemma_replacements_keep_the_rest(c, before);
        let mid = content_after_edits(c, before);
        let line = range_from_document(e.range).from.line_index as int;
        assert(replaces_in_line(c, edits[edits.len() - 1]));
        assert(c[line].len() == mid[line].len());
        lemma_replaced_in_line(mid, e);
        let end = content_after_edits(c, edits);
        assert(end == content_after_edit(mid, e));
        assert forall|l: int| 0 <= l < c.len() implies (#[trigger] c[l]).len() == end[l].len() by {
            assert(c[l].len() == mid[l].len());
            assert(mid[l].len() == end[l].len());
        }
        assert forall|i: int| 0 <= i < edits.len() implies replaces_in_line(
            end,
            #[trigger] edits[i],
        ) by {
            let at = range_from_document(edits[i].range).from.line_index as int;
            assert(replaces_in_line(c, edits[i]));
            assert(c[at].len() == end[at].len());
        }
        assert forall|l: int, k: int|
            0 <= l < c.len() && 0 <= k < c[l].len() && !covered(edits, l, k) implies #[trigger] end[l][k]
            == c[l][k] by {
            assert(c[l].len() == mid[l].len());
            assert(!covers(edits[edits.len() - 1], l, k));
            if covered(before, l, k) {
                let i = choose|i: int| 0 <= i < before.len() && covers(#[trigger] before[i], l, k);
                assert(before[i] == edits[i]);
                assert(covers(edits[i], l, k));
            }
            assert(end[l][k] == mid[l][k]);
            assert(mid[l][k] == c[l][k]);
        }
    }
}

/// Two contents of one shape that are alike at certain places are alike,
/// after the same replacements within lines, at those places and at every
/// place that one of the replacements covers.
pub proof fn lemma_replacements_agree(
    x: Seq<Seq<char>>,
    y: Seq<Seq<char>>,
    edits: Seq<TextEditView>,
    alike: spec_fn(int, int) -> bool,
)
    requires
        valid_content(x),
        valid_content(y),
        same_shape(x, y),
        replace_in_lines(x, edits),
        forall|l: int, k: int|
            0 <= l < x.len() && 0 <= k < x[l].len() && alike(l, k) ==> #[trigger] x[l][k] == y[l][k],
    ensures
        forall|l: int, k: int|
            0 <= l < x.len() && 0 <= k < x[l].len() && (alike(l, k) || covered(edits, l, k))
                ==> #[trigger] content_after_edits(x, edits)[l][k] == content_after_edits(
                y,
                edits,
            )[l][k],
    decreases edits.len(),
{
    if edits.len() > 0 {
        let before = edits.drop_last();
        let e = edits.last();
        assert forall|i: int| 0 <= i < before.len() implies replaces_in_line(
            x,
            #[trigger] before[i],
        ) by {
            assert(before[i] == edits[i]);
        }
        assert forall|i: int| 0 <= i < before.len() implies replaces_in_line(
            y,
            #[trigger] before[i],
        ) by {
            let at = range_from_document(before[i].range).from.line_index as int;
            assert(replaces_in_line(x, before[i]));
            assert(x[at].len() == y[at].len());
        }
        lemma_replacements_agree(x, y, before, alike);
        lemma_replacements_keep_the_rest(x, before);
        lemma_replacements_keep_the_rest(y, before);
        let mx = content_after_edits(x, before);
        let my = content_after_edits(y, before);
        let line = range_from_document(e.range).from.line_index as int;
        assert(replaces_in_line(x, edits[edits.len() - 1]));
        assert(x[line].len() == mx[line].len());
        assert(x[line].len() == y[line].len());
        assert(y[line].len() == my[line].len());
        lemma_replaced_in_line(mx, e);
        lemma_replaced_in_line(my, e);
        let ex = content_after_edits(x, edits);
        let ey = content_after_edits(y, edits);
        assert(ex == content_after_edit(mx, e));
        assert(ey == content_after_edit(my, e));
        assert forall|l: int, k: int|
            0 <= l < x.len() && 0 <= k < x[l].len() && (alike(l, k) || covered(
                edits,
                l,
                k,
            )) implies #[trigger] ex[l][k] == ey[l][k] by {
            assert(x[l].len() == mx[l].len());
            assert(x[l].len() == y[l].len());
            assert(y[l].len() == my[l].len());
            if !covers(e, l, k) {
                if covered(edits, l, k) {
                    let i = choose|i: int| 0 <= i < edits.len() && covers(#[trigger] edits[i], l, k);
                    assert(i < edits.len() - 1);
                    assert(before[i] == edits[i]);
                    assert(covered(before, l, k));
                }
                assert(mx[l][k] == my[l][k]);
                assert(ex[l][k] == mx[l][k]);
                assert(ey[l][k] == my[l][k]);
            }
        }
    }
}

/// Edits that each replace text within one line of a content by as much
/// text are pure replacements, and change nothing when they are applied,
/// in the same order, to what they have left.
pub proof fn law_replacements_are_idempotent(c: Seq<Seq<char>>, edits: Seq<TextEditView>)
    requires
        valid_content(c),
        replace_in_lines(c, edits),
    ensures
        forall|i: int| 0 <= i < edits.len() ==> is_pure_replacement(c, #[trigger] edits[i]),
        content_after_edits(content_after_edits(c, edits), edits) == content_after_edits(c, edits),
{
    assert forall|i: int| 0 <= i < edits.len() implies is_pure_replacement(
        c,
        #[trigger] edits[i],
    ) by {
        lemma_replaced_in_line(c, edits[i]);
    }
    let once = content_after_edits(c, edits);
    lemma_replacements_keep_the_rest(c, edits);
    lemma_replacements_keep_the_rest(once, edits);
    let twice = content_after_edits(once, edits);
    let alike = |l: int, k: int| !covered(edits, l, k);
    assert forall|l: int, k: int|
        0 <= l < c.len() && 0 <= k < c[l].len() && alike(l, k) implies #[trigger] c[l][k]
        == once[l][k] by {}
    lemma_replacements_agree(c, once, edits, alike);
    assert forall|l: int| 0 <= l < once.len() implies #[trigger] once[l] == twice[l] by {
        assert(c[l].len() == once[l].len());
        assert(once[l].len() == twice[l].len());
        assert forall|k: int| 0 <= k < once[l].len() implies once[l][k] == twice[l][k] by {
            assert(alike(l, k) || covered(edits, l, k));
        }
        assert(once[l] =~= twice[l]);
    }
    assert(once =~= twice);
}

} // verus!
