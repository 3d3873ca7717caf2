//! Undo history: a log of edits, cut into groups that are undone and redone
//! as one, where consecutive edits of one cursor are merged as they arrive.

use crate::buffer_position::{
    position_after_delete, position_after_insert, position_le, range_after_delete,
    range_after_insert, BufferRange,
};
use vstd::prelude::*;

verus! {

#[derive(Debug, Clone, Copy, PartialEq, Eq, Structural)]
pub enum EditKind {
    Insert,
    Delete,
}

/// One change to a buffer: text that was inserted at, or deleted from, `range`.
#[derive(Clone, Copy)]
pub struct Edit<'a> {
    pub kind: EditKind,
    pub range: BufferRange,
    pub text: &'a str,
    pub cursor_index: u8,
}

/// What an edit says, with its text as a sequence of characters.
pub struct EditView {
    pub kind: EditKind,
    pub range: BufferRange,
    pub text: Seq<char>,
    pub cursor_index: u8,
}

impl<'a> View for Edit<'a> {
    type V = EditView;

    open spec fn view(&self) -> EditView {
        EditView {
            kind: self.kind,
            range: self.range,
            text: self.text@,
            cursor_index: self.cursor_index,
        }
    }
}

/// An edit as the history stores it.
pub struct EditInternal {
    pub kind: EditKind,
    pub buffer_range: BufferRange,
    pub text: String,
    pub cursor_index: u8,
}

impl View for EditInternal {
    type V = EditView;

    open spec fn view(&self) -> EditView {
        EditView {
            kind: self.kind,
            range: self.buffer_range,
            text: self.text@,
            cursor_index: self.cursor_index,
        }
    }
}

impl EditInternal {
    pub fn as_edit_ref<'a>(&'a self) -> (r: Edit<'a>)
        ensures
            r@ == self@,
    {
        Edit {
            kind: self.kind,
            range: self.buffer_range,
            text: self.text.as_str(),
            cursor_index: self.cursor_index,
        }
    }
}

/// Whether the history is collecting edits into an open group, or stands
/// between committed groups.
pub enum HistoryStateView {
    /// `index` committed groups lie behind the undo pointer.
    IterIndex(int),
    /// The open group holds the edits from `start` to the end of the log.
    InsertGroup(int),
}

/// A history as a value: the log, the committed groups as half-open index
/// ranges into it, and the state.
pub struct HistoryView {
    pub edits: Seq<EditView>,
    pub groups: Seq<(int, int)>,
    pub state: HistoryStateView,
}

enum HistoryState {
    IterIndex(usize),
    InsertGroup(usize, usize),
}

pub struct History {
    edits: Vec<EditInternal>,
    group_ranges: Vec<(usize, usize)>,
    state: HistoryState,
}

/// The other kind.
pub open spec fn inverted(kind: EditKind) -> EditKind {
    match kind {
        EditKind::Insert => EditKind::Delete,
        EditKind::Delete => EditKind::Insert,
    }
}

/// The edit that takes `e` back.
pub open spec fn inverse(e: EditView) -> EditView {
    EditView { kind: inverted(e.kind), ..e }
}

/// The edits `from..to` of the log, in order.
pub open spec fn group_edits(edits: Seq<EditView>, from: int, to: int) -> Seq<EditView> {
    edits.subrange(from, to)
}

/// The inverses of the edits `from..to` of the log, last edit first.
pub open spec fn group_inverses(edits: Seq<EditView>, from: int, to: int) -> Seq<EditView> {
    Seq::new((to - from) as nat, |i: int| inverse(edits[to - 1 - i]))
}

/// `k` is the last edit at or after `start` that `cursor` made.
pub open spec fn is_merge_target(edits: Seq<EditView>, start: int, cursor: u8, k: int) -> bool {
    &&& start <= k < edits.len()
    &&& edits[k].cursor_index == cursor
    &&& forall|j: int| k < j < edits.len() ==> (#[trigger] edits[j]).cursor_index != cursor
}

/// `a` begins with `b`.
pub open spec fn has_prefix(a: Seq<char>, b: Seq<char>) -> bool {
    b.len() <= a.len() && a.subrange(0, b.len() as int) == b
}

/// `a` ends with `b`.
pub open spec fn has_suffix(a: Seq<char>, b: Seq<char>) -> bool {
    b.len() <= a.len() && a.subrange(a.len() - b.len(), a.len() as int) == b
}

/// The single edit that stands for `other` followed by `edit`, where the two
/// can be merged, together with how later edits of the group move: `true` as
/// by an insertion of `edit.range`, `false` as by its deletion.
///
/// Insert after insert merges where the new text starts at the end or at the
/// start of the old one. Delete after delete merges where the new range starts
/// where the old one started, or ends there. Delete after insert merges where
/// one of the two texts is a prefix or a suffix of the other and the ranges
/// share that end: the shorter text is cancelled, and what is left of an
/// insert stays an insert, what is left of a delete becomes a delete.
pub open spec fn merge_rule(other: EditView, edit: EditView) -> Option<(EditView, bool)> {
    let o = other.range;
    let n = edit.range;
    let olen = other.text.len() as int;
    let nlen = edit.text.len() as int;
    match (other.kind, edit.kind) {
        (EditKind::Insert, EditKind::Insert) => {
            if n.from == o.to {
                Some(
                    (
                        EditView {
                            range: BufferRange { from: o.from, to: n.to },
                            text: other.text + edit.text,
                            ..other
                        },
                        true,
                    ),
                )
            } else if n.from == o.from {
                Some(
                    (
                        EditView {
                            range: BufferRange { from: o.from, to: position_after_insert(o.to, n) },
                            text: edit.text + other.text,
                            ..other
                        },
                        true,
                    ),
                )
            } else {
                None
            }
        },
        (EditKind::Delete, EditKind::Delete) => {
            if n.from == o.from {
                Some(
                    (
                        EditView {
                            range: BufferRange { from: o.from, to: position_after_insert(o.to, n) },
                            text: other.text + edit.text,
                            ..other
                        },
                        false,
                    ),
                )
            } else if n.to == o.from {
                Some(
                    (
                        EditView {
                            range: BufferRange { from: n.from, to: o.to },
                            text: edit.text + other.text,
                            ..other
                        },
                        false,
                    ),
                )
            } else {
                None
            }
        },
        (EditKind::Insert, EditKind::Delete) => {
            if o.from == n.from && position_le(n.to, o.to) {
                if has_prefix(other.text, edit.text) {
                    Some(
                        (
                            EditView {
                                range: BufferRange {
                                    from: o.from,
                                    to: position_after_delete(o.to, n),
                                },
                                text: other.text.subrange(nlen, olen),
                                ..other
                            },
                            false,
                        ),
                    )
                } else {
                    None
                }
            } else if n.to == o.to && position_le(o.from, n.from) {
                if has_suffix(other.text, edit.text) {
                    Some(
                        (
                            EditView {
                                range: BufferRange { from: o.from, to: n.from },
                                text: other.text.subrange(0, olen - nlen),
                                ..other
                            },
                            false,
                        ),
                    )
                } else {
                    None
                }
            } else if n.from == o.from && position_le(o.to, n.to) {
                if has_prefix(edit.text, other.text) {
                    Some(
                        (
                            EditView {
                                kind: EditKind::Delete,
                                range: BufferRange {
                                    from: o.from,
                                    to: position_after_delete(n.to, o),
                                },
                                text: edit.text.subrange(olen, nlen),
                                ..other
                            },
                            false,
                        ),
                    )
                } else {
                    None
                }
            } else if o.to == n.to && position_le(n.from, o.from) {
                if has_suffix(edit.text, other.text) {
                    Some(
                        (
                            EditView {
                                kind: EditKind::Delete,
                                range: BufferRange { from: n.from, to: o.from },
                                text: edit.text.subrange(0, nlen - olen),
                                ..other
                            },
                            false,
                        ),
                    )
                } else {
                    None
                }
            } else {
                None
            }
        },
        (EditKind::Delete, EditKind::Insert) => None,
    }
}

/// A later edit of the group after an earlier one absorbed an edit of `range`.
pub open spec fn shifted(e: EditView, as_insert: bool, range: BufferRange) -> EditView {
    EditView {
        range: if as_insert {
            range_after_insert(e.range, range)
        } else {
            range_after_delete(e.range, range)
        },
        ..e
    }
}

/// The log after the edit at `k` became `merged` and the edits behind it moved.
pub open spec fn merged_log(
    edits: Seq<EditView>,
    k: int,
    merged: EditView,
    as_insert: bool,
    range: BufferRange,
) -> Seq<EditView> {
    Seq::new(
        edits.len(),
        |i: int|
            if i < k {
                edits[i]
            } else if i == k {
                merged
            } else {
                shifted(edits[i], as_insert, range)
            },
    )
}

/// The log after `edit` was tried against the edits from `start` on: merged
/// into the last edit of its cursor where `merge_rule` allows it, else `None`.
pub open spec fn try_merge(edits: Seq<EditView>, start: int, edit: EditView) -> Option<
    Seq<EditView>,
> {
    if exists|k: int| is_merge_target(edits, start, edit.cursor_index, k) {
        let k = choose|k: int| is_merge_target(edits, start, edit.cursor_index, k);
        match merge_rule(edits[k], edit) {
            Some((merged, as_insert)) => Some(
                merged_log(edits, k, merged, as_insert, edit.range),
            ),
            None => None,
        }
    } else {
        None
    }
}

/// The log and the groups that adding an edit starts from: while a group is
/// open, everything; between groups, what lies behind the undo pointer, so
/// that undone groups are dropped.
pub open spec fn insertion_base(h: HistoryView) -> (Seq<EditView>, Seq<(int, int)>, int) {
    match h.state {
        HistoryStateView::IterIndex(index) => {
            let cut = if index < h.groups.len() {
                h.groups[index].0
            } else {
                h.edits.len() as int
            };
            (h.edits.take(cut), h.groups.take(index), cut)
        },
        HistoryStateView::InsertGroup(start) => (h.edits, h.groups, start),
    }
}

/// The history after `edit` was added.
pub open spec fn with_edit(h: HistoryView, edit: EditView) -> HistoryView {
    let (edits, groups, start) = insertion_base(h);
    HistoryView {
        edits: match try_merge(edits, start, edit) {
            Some(merged) => merged,
            None => edits.push(edit),
        },
        groups,
        state: HistoryStateView::InsertGroup(start),
    }
}

/// The history after the open group, if any, was closed.
pub open spec fn committed(h: HistoryView) -> HistoryView {
    match h.state {
        HistoryStateView::IterIndex(_) => h,
        HistoryStateView::InsertGroup(start) => HistoryView {
            edits: h.edits,
            groups: h.groups.push((start, h.edits.len() as int)),
            state: HistoryStateView::IterIndex(h.groups.len() as int + 1),
        },
    }
}

/// The undo pointer of a history that stands between groups.
pub open spec fn index_of(h: HistoryView) -> int {
    match h.state {
        HistoryStateView::IterIndex(index) => index,
        HistoryStateView::InsertGroup(_) => 0,
    }
}

/// The history after one step back, and the edits that undo the group passed.
pub open spec fn undone(h: HistoryView) -> (HistoryView, Seq<EditView>) {
    let c = committed(h);
    let index = index_of(c);
    if index > 0 {
        (
            HistoryView { state: HistoryStateView::IterIndex(index - 1), ..c },
            group_inverses(c.edits, c.groups[index - 1].0, c.groups[index - 1].1),
        )
    } else {
        (c, Seq::empty())
    }
}

/// The history after one step forward, and the edits of the group passed.
pub open spec fn redone(h: HistoryView) -> (HistoryView, Seq<EditView>) {
    let c = committed(h);
    let index = index_of(c);
    if index < c.groups.len() {
        (
            HistoryView { state: HistoryStateView::IterIndex(index + 1), ..c },
            group_edits(c.edits, c.groups[index].0, c.groups[index].1),
        )
    } else {
        (c, Seq::empty())
    }
}

/// The groups tile the log from its start, in order.
pub open spec fn groups_tile(groups: Seq<(int, int)>, end: int) -> bool {
    &&& forall|i: int| 0 <= i < groups.len() ==> 0 <= (#[trigger] groups[i]).0 <= groups[i].1
    &&& forall|i: int| 0 < i < groups.len() ==> (#[trigger] groups[i]).0 == groups[i - 1].1
    &&& groups.len() > 0 ==> groups[0].0 == 0 && groups[groups.len() - 1].1 == end
    &&& groups.len() == 0 ==> end == 0
}

/// What holds of every history: the committed groups tile the log up to the
/// open group, the open group runs to the end of the log, and the undo
/// pointer lies within the groups.
pub open spec fn valid(h: HistoryView) -> bool {
    match h.state {
        HistoryStateView::IterIndex(index) => 0 <= index <= h.groups.len() && groups_tile(
            h.groups,
            h.edits.len() as int,
        ),
        HistoryStateView::InsertGroup(start) => 0 <= start <= h.edits.len() && groups_tile(
            h.groups,
            start,
        ),
    }
}

/// Every group of a tiling ends within the log.
proof fn lemma_tile_bounds(groups: Seq<(int, int)>, end: int, i: int)
    requires
        groups_tile(groups, end),
        0 <= i < groups.len(),
    ensures
        0 <= groups[i].0 <= groups[i].1 <= end,
    decreases groups.len() - i,
{
    if i + 1 < groups.len() {
        lemma_tile_bounds(groups, end, i + 1);
        assert(groups[i + 1].0 == groups[i].1);
    }
}

/// The first `index` groups of a tiling tile the log up to where the next
/// group starts.
proof fn lemma_tile_take(groups: Seq<(int, int)>, end: int, index: int)
    requires
        groups_tile(groups, end),
        0 <= index <= groups.len(),
    ensures
        groups_tile(
            groups.take(index),
            if index < groups.len() {
                groups[index].0
            } else {
                end
            },
        ),
{
    let taken = groups.take(index);
    assert forall|i: int| 0 <= i < taken.len() implies 0 <= (#[trigger] taken[i]).0
        <= taken[i].1 by {
        assert(taken[i] == groups[i]);
    }
    assert forall|i: int| 0 < i < taken.len() implies (#[trigger] taken[i]).0 == taken[i - 1].1 by {
        assert(taken[i] == groups[i]);
        assert(taken[i - 1] == groups[i - 1]);
    }
    if index < groups.len() && index > 0 {
        assert(groups[index].0 == groups[index - 1].1);
    }
    if index == groups.len() {
        assert(taken =~= groups);
    }
}

/// The characters of `text` from `from` to `to`, as a new string.
fn substring(text: &str, from: usize, to: usize) -> (r: String)
    requires
        from <= to <= text@.len(),
    ensures
        r@ == text@.subrange(from as int, to as int),
{
    String::from_str(text.substring_char(from, to))
}

/// `a` followed by `b`, as a new string.
fn joined(a: &str, b: &str) -> (r: String)
    ensures
        r@ == a@ + b@,
{
    String::from_str(a).concat(b)
}

fn same_text(a: &str, b: &str) -> (r: bool)
    ensures
        r == (a@ == b@),
{
    String::from_str(a) == String::from_str(b)
}

fn starts_with(a: &str, b: &str) -> (r: bool)
    ensures
        r == has_prefix(a@, b@),
{
    let alen = a.unicode_len();
    let blen = b.unicode_len();
    blen <= alen && same_text(a.substring_char(0, blen), b)
}

fn ends_with(a: &str, b: &str) -> (r: bool)
    ensures
        r == has_suffix(a@, b@),
{
    let alen = a.unicode_len();
    let blen = b.unicode_len();
    blen <= alen && same_text(a.substring_char(alen - blen, alen), b)
}

/// The stored edit that stands for `other` followed by `edit`, where
/// `merge_rule` gives one.
fn merge(other: &EditInternal, edit: &Edit) -> (r: Option<(EditInternal, bool)>)
    ensures
        match merge_rule(other@, edit@) {
            Some((merged, as_insert)) => r.is_some() && r.unwrap().0@ == merged && r.unwrap().1
                == as_insert,
            None => r.is_none(),
        },
{
    let o = other.buffer_range;
    let n = edit.range;
    let old_text = other.text.as_str();
    let olen = old_text.unicode_len();
    let nlen = edit.text.unicode_len();
    let cursor_index = other.cursor_index;
    match (other.kind, edit.kind) {
        (EditKind::Insert, EditKind::Insert) => {
            if n.from == o.to {
                Some(
                    (
                        EditInternal {
                            kind: EditKind::Insert,
                            buffer_range: BufferRange { from: o.from, to: n.to },
                            text: joined(old_text, edit.text),
                            cursor_index,
                        },
                        true,
                    ),
                )
            } else if n.from == o.from {
                Some(
                    (
                        EditInternal {
                            kind: EditKind::Insert,
                            buffer_range: BufferRange { from: o.from, to: o.to.insert(n) },
                            text: joined(edit.text, old_text),
                            cursor_index,
                        },
                        true,
                    ),
                )
            } else {
                None
            }
        },
        (EditKind::Delete, EditKind::Delete) => {
            if n.from == o.from {
                Some(
                    (
                        EditInternal {
                            kind: EditKind::Delete,
                            buffer_range: BufferRange { from: o.from, to: o.to.insert(n) },
                            text: joined(old_text, edit.text),
                            cursor_index,
                        },
                        false,
                    ),
                )
            } else if n.to == o.from {
                Some(
                    (
                        EditInternal {
                            kind: EditKind::Delete,
                            buffer_range: BufferRange { from: n.from, to: o.to },
                            text: joined(edit.text, old_text),
                            cursor_index,
                        },
                        false,
                    ),
                )
            } else {
                None
            }
        },
        (EditKind::Insert, EditKind::Delete) => {
            if o.from == n.from && n.to.le(o.to) {
                if starts_with(old_text, edit.text) {
                    Some(
                        (
                            EditInternal {
                                kind: EditKind::Insert,
                                buffer_range: BufferRange { from: o.from, to: o.to.delete(n) },
                                text: substring(old_text, nlen, olen),
                                cursor_index,
                            },
                            false,
                        ),
                    )
                } else {
                    None
                }
            } else if n.to == o.to && o.from.le(n.from) {
                if ends_with(old_text, edit.text) {
                    Some(
                        (
                            EditInternal {
                                kind: EditKind::Insert,
                                buffer_range: BufferRange { from: o.from, to: n.from },
                                text: substring(old_text, 0, olen - nlen),
                                cursor_index,
                            },
                            false,
                        ),
                    )
                } else {
                    None
                }
            } else if n.from == o.from && o.to.le(n.to) {
                if starts_with(edit.text, old_text) {
                    Some(
                        (
                            EditInternal {
                                kind: EditKind::Delete,
                                buffer_range: BufferRange { from: o.from, to: n.to.delete(o) },
                                text: substring(edit.text, olen, nlen),
                                cursor_index,
                            },
                            false,
                        ),
                    )
                } else {
                    None
                }
            } else if o.to == n.to && n.from.le(o.from) {
                if ends_with(edit.text, old_text) {
                    Some(
                        (
                            EditInternal {
                                kind: EditKind::Delete,
                                buffer_range: BufferRange { from: n.from, to: o.from },
                                text: substring(edit.text, 0, nlen - olen),
                                cursor_index,
                            },
                            false,
                        ),
                    )
                } else {
                    None
                }
            } else {
                None
            }
        },
        (EditKind::Delete, EditKind::Insert) => None,
    }
}

/// The values of a list of edits.
pub open spec fn edits_view(edits: Seq<Edit>) -> Seq<EditView> {
    Seq::new(edits.len(), |i: int| edits[i]@)
}

pub open spec fn log_view(edits: Seq<EditInternal>) -> Seq<EditView> {
    Seq::new(edits.len(), |i: int| edits[i]@)
}

pub open spec fn groups_view(groups: Seq<(usize, usize)>) -> Seq<(int, int)> {
    Seq::new(groups.len(), |i: int| (groups[i].0 as int, groups[i].1 as int))
}

impl View for History {
    type V = HistoryView;

    closed spec fn view(&self) -> HistoryView {
        HistoryView {
            edits: log_view(self.edits@),
            groups: groups_view(self.group_ranges@),
            state: match self.state {
                HistoryState::IterIndex(index) => HistoryStateView::IterIndex(index as int),
                HistoryState::InsertGroup(start, _) => HistoryStateView::InsertGroup(start as int),
            },
        }
    }
}

impl History {
    /// The invariant of the history: its value is valid, and the recorded end
    /// of an open group is the end of the log.
    pub closed spec fn well_formed(&self) -> bool {
        &&& valid(self@)
        &&& match self.state {
            HistoryState::IterIndex(_) => true,
            HistoryState::InsertGroup(_, end) => end == self.edits.len(),
        }
    }

    /// A history that is well formed has a valid value: the laws of undo
    /// and redo hold of it.
    pub proof fn lemma_valid(&self)
        requires
            self.well_formed(),
        ensures
            valid(self@),
    {
    }

    pub fn new() -> (r: Self)
        ensures
            r.well_formed(),
            r@.edits.len() == 0,
            r@.groups.len() == 0,
            r@.state == HistoryStateView::IterIndex(0),
    {
        History { edits: Vec::new(), group_ranges: Vec::new(), state: HistoryState::IterIndex(0) }
    }

    pub fn clear(&mut self)
        ensures
            final(self).well_formed(),
            final(self)@.edits.len() == 0,
            final(self)@.groups.len() == 0,
            final(self)@.state == HistoryStateView::IterIndex(0),
    {
        self.edits.clear();
        self.group_ranges.clear();
        self.state = HistoryState::IterIndex(0);
    }

    /// Records `edit`. Between groups this first drops the groups that were
    /// undone, and opens a new group. The edit is merged into the last edit of
    /// its cursor in the open group where the two can be merged, and is
    /// appended to the log otherwise.
    pub fn add_edit(&mut self, edit: Edit)
        requires
            old(self).well_formed(),
        ensures
            final(self).well_formed(),
            final(self)@ == with_edit(old(self)@, edit@),
    {
        let current_group_len = self.open_group();
        let ghost base = insertion_base(old(self)@);

        let merged = self.try_merge_edit(current_group_len, &edit);
        if !merged {
            self.edits.push(
                EditInternal {
                    kind: edit.kind,
                    buffer_range: edit.range,
                    text: String::from_str(edit.text),
                    cursor_index: edit.cursor_index,
                },
            );
            if let HistoryState::InsertGroup(start, _) = self.state {
                self.state = HistoryState::InsertGroup(start, self.edits.len());
            }
            proof {
                assert(log_view(self.edits@) =~= base.0.push(edit@));
            }
        }
        proof {
            assert(groups_view(self.group_ranges@) == base.1);
        }
    }

    /// Makes the history ready to take an edit: between groups, drops what was
    /// undone and opens a group at the end of what is left. Returns the number
    /// of edits in the open group.
    fn open_group(&mut self) -> (current_group_len: usize)
        requires
            old(self).well_formed(),
        ensures
            log_view(final(self).edits@) == insertion_base(old(self)@).0,
            groups_view(final(self).group_ranges@) == insertion_base(old(self)@).1,
            final(self).state == HistoryState::InsertGroup(
                insertion_base(old(self)@).2 as usize,
                final(self).edits.len(),
            ),
            0 <= insertion_base(old(self)@).2 <= final(self).edits.len(),
            final(self).edits.len() - current_group_len == insertion_base(old(self)@).2,
            groups_tile(insertion_base(old(self)@).1, insertion_base(old(self)@).2),
    {
        match self.state {
            HistoryState::IterIndex(index) => {
                let edit_index = if index < self.group_ranges.len() {
                    self.group_ranges[index].0
                } else {
                    self.edits.len()
                };
                proof {
                    let groups = groups_view(self.group_ranges@);
                    assert(groups_tile(groups, self.edits.len() as int));
                    if index < groups.len() {
                        assert(groups[index as int].0 <= groups[index as int].1);
                        lemma_tile_bounds(groups, self.edits.len() as int, index as int);
                    }
                    lemma_tile_take(groups, self.edits.len() as int, index as int);
                }
                self.edits.truncate(edit_index);
                self.state = HistoryState::InsertGroup(edit_index, edit_index);
                self.group_ranges.truncate(index);
                proof {
                    assert(log_view(self.edits@) =~= insertion_base(old(self)@).0);
                    assert(groups_view(self.group_ranges@) =~= insertion_base(old(self)@).1);
                }
                0
            },
            HistoryState::InsertGroup(start, end) => end - start,
        }
    }

    /// Tries to merge `edit` into the last edit that its cursor made among the
    /// last `current_group_len` edits of the log. Returns whether it did.
    fn try_merge_edit(&mut self, current_group_len: usize, edit: &Edit) -> (merged: bool)
        requires
            current_group_len <= old(self).edits.len(),
        ensures
            final(self).group_ranges == old(self).group_ranges,
            final(self).state == old(self).state,
            final(self).edits.len() == old(self).edits.len(),
            match try_merge(
                log_view(old(self).edits@),
                old(self).edits.len() - current_group_len,
                edit@,
            ) {
                Some(log) => merged && log_view(final(self).edits@) == log,
                None => !merged && log_view(final(self).edits@) == log_view(old(self).edits@),
            },
    {
        let ghost log = log_view(self.edits@);
        let current_group_start = self.edits.len() - current_group_len;
        let mut index = self.edits.len();
        let mut found = false;
        while index > current_group_start && !found
            invariant
                current_group_start <= index <= self.edits.len(),
                *self == *old(self),
                log == log_view(self.edits@),
                found ==> index < self.edits.len() && self.edits[index as int].cursor_index
                    == edit.cursor_index,
                forall|j: int|
                    (if found {
                        index + 1
                    } else {
                        index as int
                    }) <= j < self.edits.len() ==> (#[trigger] log[j]).cursor_index
                        != edit.cursor_index,
            decreases index + (if found { 0int } else { 1int }),
        {
            if self.edits[index - 1].cursor_index == edit.cursor_index {
                found = true;
            }
            index = index - 1;
        }
        if !found {
            proof {
                assert forall|k: int|
                    !is_merge_target(log, current_group_start as int, edit.cursor_index, k) by {
                    if current_group_start <= k < log.len() {
                        assert(log[k].cursor_index != edit.cursor_index);
                    }
                }
            }
            return false;
        }
        proof {
            assert(is_merge_target(log, current_group_start as int, edit.cursor_index, index as int));
            assert forall|k: int|
                is_merge_target(
                    log,
                    current_group_start as int,
                    edit.cursor_index,
                    k,
                ) implies k == index by {
                if k < index {
                    assert(log[index as int].cursor_index != edit.cursor_index);
                }
                if k > index {
                    assert(log[k].cursor_index != edit.cursor_index);
                }
            }
        }
        let (merged, as_insert) = match merge(&self.edits[index], edit) {
            Some(m) => m,
            None => {
                return false;
            },
        };
        let ghost merged_view = merged@;
        self.edits.set(index, merged);
        let mut i = index + 1;
        while i < self.edits.len()
            invariant
                index < i <= self.edits.len(),
                self.edits.len() == old(self).edits.len(),
                self.group_ranges == old(self).group_ranges,
                self.state == old(self).state,
                log.len() == self.edits.len(),
                forall|j: int| 0 <= j < index ==> (#[trigger] self.edits[j])@ == log[j],
                self.edits[index as int]@ == merged_view,
                forall|j: int|
                    index < j < i ==> (#[trigger] self.edits[j])@ == shifted(
                        log[j],
                        as_insert,
                        edit.range,
                    ),
                forall|j: int| i <= j < self.edits.len() ==> (#[trigger] self.edits[j])@ == log[j],
            decreases self.edits.len() - i,
        {
            let moved = {
                let e = &self.edits[i];
                EditInternal {
                    kind: e.kind,
                    buffer_range: if as_insert {
                        e.buffer_range.insert(edit.range)
                    } else {
                        e.buffer_range.delete(edit.range)
                    },
                    text: e.text.clone(),
                    cursor_index: e.cursor_index,
                }
            };
            self.edits.set(i, moved);
            i = i + 1;
        }
        proof {
            assert(log_view(self.edits@) =~= merged_log(
                log,
                index as int,
                merged_view,
                as_insert,
                edit.range,
            ));
        }
        true
    }

    /// Closes the open group, if there is one.
    pub fn commit_edits(&mut self)
        requires
            old(self).well_formed(),
        ensures
            final(self).well_formed(),
            final(self)@ == committed(old(self)@),
    {
        if let HistoryState::InsertGroup(start, end) = self.state {
            self.group_ranges.push((start, end));
            self.state = HistoryState::IterIndex(self.group_ranges.len());
            proof {
                assert(final(self)@.groups =~= old(self)@.groups.push((start as int, end as int)));
            }
        }
    }

    /// Steps one group back and returns the edits that undo it: the inverses
    /// of the group's edits, last edit first. An open group is closed first.
    /// At the start of the history nothing changes and nothing is returned.
    pub fn undo_edits(&mut self) -> (r: Vec<Edit<'_>>)
        requires
            old(self).well_formed(),
        ensures
            final(self).well_formed(),
            final(self)@ == undone(old(self)@).0,
            edits_view(r@) == undone(old(self)@).1,
    {
        self.commit_edits();
        let mut from: usize = 0;
        let mut to: usize = 0;
        if let HistoryState::IterIndex(index) = self.state {
            if index > 0 {
                proof {
                    lemma_tile_bounds(
                        groups_view(self.group_ranges@),
                        self.edits.len() as int,
                        index - 1,
                    );
                }
                from = self.group_ranges[index - 1].0;
                to = self.group_ranges[index - 1].1;
                self.state = HistoryState::IterIndex(index - 1);
            }
        }
        let mut edits: Vec<Edit<'_>> = Vec::new();
        let mut i = to;
        while i > from
            invariant
                from <= i <= to <= self.edits.len(),
                edits.len() == to - i,
                forall|j: int|
                    0 <= j < edits.len() ==> (#[trigger] edits[j])@ == inverse(
                        self.edits[to - 1 - j]@,
                    ),
            decreases i,
        {
            i = i - 1;
            let e = &self.edits[i];
            edits.push(
                Edit {
                    kind: match e.kind {
                        EditKind::Insert => EditKind::Delete,
                        EditKind::Delete => EditKind::Insert,
                    },
                    range: e.buffer_range,
                    text: e.text.as_str(),
                    cursor_index: e.cursor_index,
                },
            );
        }
        proof {
            assert(edits_view(edits@) =~= undone(old(self)@).1);
        }
        edits
    }

    /// Steps one group forward and returns its edits in order. An open group
    /// is closed first. At the end of the history nothing changes and nothing
    /// is returned.
    pub fn redo_edits(&mut self) -> (r: Vec<Edit<'_>>)
        requires
            old(self).well_formed(),
        ensures
            final(self).well_formed(),
            final(self)@ == redone(old(self)@).0,
            edits_view(r@) == redone(old(self)@).1,
    {
        self.commit_edits();
        let mut from: usize = 0;
        let mut to: usize = 0;
        if let HistoryState::IterIndex(index) = self.state {
            if index < self.group_ranges.len() {
                proof {
                    lemma_tile_bounds(
                        groups_view(self.group_ranges@),
                        self.edits.len() as int,
                        index as int,
                    );
                }
                from = self.group_ranges[index].0;
                to = self.group_ranges[index].1;
                self.state = HistoryState::IterIndex(index + 1);
            }
        }
        let mut edits: Vec<Edit<'_>> = Vec::new();
        let mut i = from;
        while i < to
            invariant
                from <= i <= to <= self.edits.len(),
                edits.len() == i - from,
                forall|j: int| 0 <= j < edits.len() ==> (#[trigger] edits[j])@ == self.edits[from + j]@,
            decreases to - i,
        {
            edits.push(self.edits[i].as_edit_ref());
            i = i + 1;
        }
        proof {
            assert(edits_view(edits@) =~= redone(old(self)@).1);
        }
        edits
    }
}

/// Adding an edit, closing a group, undoing and redoing all keep a history valid.
pub proof fn law_steps_keep_validity(h: HistoryView, edit: EditView)
    requires
        valid(h),
    ensures
        valid(with_edit(h, edit)),
        valid(committed(h)),
        valid(undone(h).0),
        valid(redone(h).0),
{
    let (edits, groups, start) = insertion_base(h);
    match h.state {
        HistoryStateView::IterIndex(index) => {
            if index < h.groups.len() {
                lemma_tile_bounds(h.groups, h.edits.len() as int, index);
            }
            lemma_tile_take(h.groups, h.edits.len() as int, index);
        },
        HistoryStateView::InsertGroup(_) => {},
    }
    lemma_committed_is_valid(h);
}

proof fn lemma_committed_is_valid(h: HistoryView)
    requires
        valid(h),
    ensures
        valid(committed(h)),
{
    match h.state {
        HistoryStateView::IterIndex(_) => {},
        HistoryStateView::InsertGroup(start) => {
            let pushed = h.groups.push((start, h.edits.len() as int));
            assert forall|i: int| 0 < i < pushed.len() implies (#[trigger] pushed[i]).0 == pushed[i
                - 1].1 by {
                if i < h.groups.len() {
                    assert(pushed[i] == h.groups[i]);
                    assert(pushed[i - 1] == h.groups[i - 1]);
                }
            }
            assert forall|i: int| 0 <= i < pushed.len() implies 0 <= (#[trigger] pushed[i]).0
                <= pushed[i].1 by {
                if i < h.groups.len() {
                    assert(pushed[i] == h.groups[i]);
                }
            }
            if h.groups.len() > 0 {
                assert(pushed[0] == h.groups[0]);
            }
        },
    }
}

/// Undo followed by redo is the identity on a history that stands behind at
/// least one closed group, and the two steps hand out mirror images: redo
/// yields the group's edits in order, undo had yielded their inverses in
/// reverse order, each with the range and the cursor of the edit it undoes.
pub proof fn law_undo_then_redo(h: HistoryView)
    requires
        valid(h),
        index_of(committed(h)) > 0,
    ensures
        redone(undone(h).0).0 == committed(h),
        undone(h).1.len() == redone(undone(h).0).1.len(),
        forall|i: int|
            0 <= i < undone(h).1.len() ==> (#[trigger] undone(h).1[i]) == inverse(
                redone(undone(h).0).1[undone(h).1.len() - 1 - i],
            ),
{
    lemma_committed_is_valid(h);
    let c = committed(h);
    let index = index_of(c);
    lemma_tile_bounds(c.groups, c.edits.len() as int, index - 1);
    let u = undone(h).0;
    assert(committed(u) == u);
}

/// Redo followed by undo is the identity on a history that has a group ahead.
pub proof fn law_redo_then_undo(h: HistoryView)
    requires
        valid(h),
        index_of(committed(h)) < committed(h).groups.len(),
    ensures
        undone(redone(h).0).0 == committed(h),
{
    lemma_committed_is_valid(h);
    let r = redone(h).0;
    assert(committed(r) == r);
}

/// Closing a group twice is closing it once.
pub proof fn law_commit_is_idempotent(h: HistoryView)
    ensures
        committed(committed(h)) == committed(h),
{
}

} // verus!
