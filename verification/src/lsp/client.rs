//! One language server: what it can do, what was asked of it, and what it
//! was told of the buffers.

use crate::buffer_position::{position_le, position_lt, BufferPosition, BufferRange};
use crate::buffer::{Buffer, BufferCollection};
use crate::buffer_view::BufferViewHandle;
use crate::editor::Editor;
use crate::connection::TargetClient;
use crate::events::BufferHandle;
use crate::glob::Glob;
use crate::buffer_content::whole_text;
use crate::editor::{StatusMessage, StatusMessageKind};
use crate::json::{json_array, json_string, json_text, json_views, Json, JsonValue, ObjectBuilder};
use crate::lsp::capabilities::TextDocumentSyncKind;
use crate::lsp::protocol::{
    clip_i64, document_uri, error_json, format_document_uri, language_id, notification_json,
    path_to_language_id, position_json, position_to_document, range_json, range_to_document,
    request_json, response_json, with_message, DocumentPosition, DocumentRange, ResponseError,
    ResponseErrorView,
};
use crate::platform::{Platform, PlatformRequestView};
use crate::lsp::capabilities::ServerCapabilities;
use crate::lsp::capabilities::ServerCapabilitiesView;
use crate::lsp::protocol::{PendingRequestCollection, Protocol, RequestId};
use crate::platform::ProcessHandle;
use crate::text::{chars_of, same_text, views};
use vstd::prelude::*;

verus! {

/// The number of a language server client.
#[derive(Clone, Copy, PartialEq, Eq, Structural)]
pub struct ClientHandle(pub u8);

impl ClientHandle {
    /// The handle that a text of decimal digits names.
    pub fn from_str(s: &str) -> (r: Result<Self, ()>)
        ensures
            match crate::keymap::small_number(s@, 0, s@.len() as int) {
                Some(v) => if s@.len() > 0 {
                    r == Ok::<Self, ()>(ClientHandle(v as u8))
                } else {
                    r is Err
                },
                None => r is Err,
            },
    {
        let chars = chars_of(s);
        if chars.len() == 0 {
            return Err(());
        }
        let mut value: u32 = 0;
        let mut i: usize = 0;
        while i < chars.len()
            invariant
                0 <= i <= chars.len(),
                chars@ == s@,
                crate::keymap::small_number(s@, 0, i as int) == Some(value as int),
                value <= 255,
            decreases chars.len() - i,
        {
            let c = chars[i];
            if c < '0' || c > '9' {
                proof {
                    lemma_number_fail(s@, 0, i + 1, s@.len() as int);
                }
                return Err(());
            }
            let next = value * 10 + (c as u32 - '0' as u32);
            if next > 255 {
                proof {
                    lemma_number_fail(s@, 0, i + 1, s@.len() as int);
                }
                return Err(());
            }
            value = next;
            i = i + 1;
        }
        Ok(ClientHandle(value as u8))
    }
}

proof fn lemma_number_fail(text: Seq<char>, from: int, mid: int, to: int)
    requires
        from <= mid <= to,
        crate::keymap::small_number(text, from, mid) is None,
    ensures
        crate::keymap::small_number(text, from, to) is None,
    decreases to - mid,
{
    if mid < to {
        lemma_number_fail(text, from, mid, to - 1);
    }
}

/// Something that a server found in a document.
pub struct Diagnostic {
    pub message: String,
    pub range: BufferRange,
    pub data: JsonValue,
}

pub struct DiagnosticView {
    pub message: Seq<char>,
    pub range: BufferRange,
    pub data: Json,
}

impl View for Diagnostic {
    type V = DiagnosticView;

    open spec fn view(&self) -> DiagnosticView {
        DiagnosticView { message: self.message@, range: self.range, data: self.data@ }
    }
}

impl Diagnostic {
    /// The diagnostic as the protocol tells it.
    pub fn as_document_diagnostic(&self) -> (r: crate::lsp::protocol::DocumentDiagnostic)
        ensures
            r@ == (crate::lsp::protocol::DocumentDiagnosticView {
                message: self.message@,
                range: crate::lsp::protocol::range_to_document(self.range),
                data: self.data@,
            }),
    {
        crate::lsp::protocol::DocumentDiagnostic {
            message: String::from_str(self.message.as_str()),
            range: crate::lsp::protocol::DocumentRange::from_buffer_range(self.range),
            data: crate::lsp::protocol::clone_json(&self.data),
        }
    }
}

/// The views of a list of diagnostics.
pub open spec fn diagnostic_views(diagnostics: Seq<Diagnostic>) -> Seq<DiagnosticView> {
    Seq::new(diagnostics.len(), |i: int| diagnostics[i]@)
}

/// Where a diagnostic goes into a list that is in order: before the first
/// diagnostic that starts behind it.
pub open spec fn insertion_place(sorted: Seq<DiagnosticView>, d: DiagnosticView, from: int) -> int
    decreases sorted.len() - from,
{
    if from < 0 || from >= sorted.len() || position_lt(d.range.from, sorted[from].range.from) {
        from
    } else {
        insertion_place(sorted, d, from + 1)
    }
}

/// The first `count` diagnostics, in the order of where they start; those
/// that start at the same place keep their order.
pub open spec fn sorted_diagnostics(diagnostics: Seq<DiagnosticView>, count: int) -> Seq<
    DiagnosticView,
>
    decreases count,
{
    if count <= 0 || count > diagnostics.len() {
        Seq::empty()
    } else {
        let before = sorted_diagnostics(diagnostics, count - 1);
        before.insert(insertion_place(before, diagnostics[count - 1], 0), diagnostics[count - 1])
    }
}

/// Each diagnostic starts no later than the next.
pub open spec fn in_order(diagnostics: Seq<DiagnosticView>) -> bool {
    forall|i: int, j: int|
        0 <= i < j < diagnostics.len() ==> position_le(
            (#[trigger] diagnostics[i]).range.from,
            (#[trigger] diagnostics[j]).range.from,
        )
}

proof fn lemma_insertion_place(sorted: Seq<DiagnosticView>, d: DiagnosticView, from: int)
    requires
        0 <= from <= sorted.len(),
    ensures
        from <= insertion_place(sorted, d, from) <= sorted.len(),
        forall|k: int|
            from <= k < insertion_place(sorted, d, from) ==> position_le(
                (#[trigger] sorted[k]).range.from,
                d.range.from,
            ),
        insertion_place(sorted, d, from) < sorted.len() ==> position_lt(
            d.range.from,
            sorted[insertion_place(sorted, d, from)].range.from,
        ),
    decreases sorted.len() - from,
{
    if from < sorted.len() && !position_lt(d.range.from, sorted[from].range.from) {
        lemma_insertion_place(sorted, d, from + 1);
    }
}

/// Sorting gives a list of the same length that is in order.
pub proof fn law_sorted_diagnostics_in_order(diagnostics: Seq<DiagnosticView>, count: int)
    requires
        0 <= count <= diagnostics.len(),
    ensures
        sorted_diagnostics(diagnostics, count).len() == count,
        in_order(sorted_diagnostics(diagnostics, count)),
    decreases count,
{
    if count > 0 {
        law_sorted_diagnostics_in_order(diagnostics, count - 1);
        let before = sorted_diagnostics(diagnostics, count - 1);
        let d = diagnostics[count - 1];
        lemma_insertion_place(before, d, 0);
        let p = insertion_place(before, d, 0);
        let after = before.insert(p, d);
        assert forall|i: int, j: int| 0 <= i < j < after.len() implies position_le(
            (#[trigger] after[i]).range.from,
            (#[trigger] after[j]).range.from,
        ) by {
            if j < p {
                assert(after[i] == before[i] && after[j] == before[j]);
            } else if j == p {
                assert(after[i] == before[i]);
            } else if i == p {
                assert(after[j] == before[j - 1]);
                if j - 1 > p {
                    assert(position_le(before[p].range.from, before[j - 1].range.from));
                }
            } else if i < p {
                assert(after[i] == before[i] && after[j] == before[j - 1]);
            } else {
                assert(after[i] == before[i - 1] && after[j] == before[j - 1]);
            }
        }
    }
}

/// The diagnostics of one document.
pub struct BufferDiagnosticCollection {
    pub path: String,
    pub buffer_handle: Option<BufferHandle>,
    pub diagnostics: Vec<Diagnostic>,
}

impl BufferDiagnosticCollection {
    /// Adds a diagnostic behind those that are there.
    pub fn add(&mut self, diagnostic: Diagnostic)
        ensures
            final(self).path == old(self).path,
            final(self).buffer_handle == old(self).buffer_handle,
            diagnostic_views(final(self).diagnostics@) == diagnostic_views(
                old(self).diagnostics@,
            ).push(diagnostic@),
    {
        self.diagnostics.push(diagnostic);
        assert(diagnostic_views(self.diagnostics@) =~= diagnostic_views(
            old(self).diagnostics@,
        ).push(diagnostic@));
    }

    /// Puts the diagnostics in the order of where they start; those that
    /// start at the same place keep their order.
    pub fn sort(&mut self)
        ensures
            final(self).path == old(self).path,
            final(self).buffer_handle == old(self).buffer_handle,
            diagnostic_views(final(self).diagnostics@) == sorted_diagnostics(
                diagnostic_views(old(self).diagnostics@),
                old(self).diagnostics@.len() as int,
            ),
            in_order(diagnostic_views(final(self).diagnostics@)),
    {
        let ghost all = diagnostic_views(self.diagnostics@);
        let mut source: Vec<Diagnostic> = Vec::new();
        core::mem::swap(&mut self.diagnostics, &mut source);
        let mut sorted: Vec<Diagnostic> = Vec::new();
        let total = source.len();
        let mut taken: usize = 0;
        assert(diagnostic_views(sorted@) =~= Seq::<DiagnosticView>::empty());
        while source.len() > 0
            invariant
                taken + source.len() == total,
                total == all.len(),
                self.path == old(self).path,
                self.buffer_handle == old(self).buffer_handle,
                diagnostic_views(source@) == all.skip(taken as int),
                diagnostic_views(sorted@) == sorted_diagnostics(all, taken as int),
            decreases source.len(),
        {
            let ghost source_before = diagnostic_views(source@);
            let d = source.remove(0);
            let ghost before = diagnostic_views(sorted@);
            assert(d@ == source_before[0]);
            assert(d@ == all[taken as int]) by {
                assert(all.skip(taken as int)[0] == all[taken as int]);
            }
            let mut place: usize = 0;
            proof {
                law_sorted_diagnostics_in_order(all, taken as int);
            }
            while place < sorted.len() && !d.range.from.lt(sorted[place].range.from)
                invariant
                    0 <= place <= sorted.len(),
                    insertion_place(diagnostic_views(sorted@), d@, 0) == insertion_place(
                        diagnostic_views(sorted@),
                        d@,
                        place as int,
                    ),
                decreases sorted.len() - place,
            {
                place = place + 1;
            }
            sorted.insert(place, d);
            assert(diagnostic_views(sorted@) =~= before.insert(place as int, all[taken as int]));
            assert forall|k: int| 0 <= k < source@.len() implies diagnostic_views(source@)[k]
                == all.skip(taken + 1)[k] by {
                assert(diagnostic_views(source@)[k] == source_before[k + 1]);
            }
            assert(diagnostic_views(source@) =~= all.skip(taken + 1));
            taken = taken + 1;
        }
        self.diagnostics = sorted;
        proof {
            law_sorted_diagnostics_in_order(all, total as int);
        }
    }
}

/// The parts of a path between its slashes.
pub open spec fn split_path(path: Seq<char>) -> Seq<Seq<char>>
    decreases path.len(),
{
    if path.len() == 0 {
        seq![Seq::empty()]
    } else {
        let before = split_path(path.drop_last());
        if path.last() == '/' {
            before.push(Seq::empty())
        } else {
            before.update(before.len() - 1, before.last().push(path.last()))
        }
    }
}

/// Whether a part of a path counts as a component: not where it is empty or
/// a single dot.
pub open spec fn is_component(part: Seq<char>) -> bool {
    part.len() > 0 && part != seq!['.']
}

/// The components among the first `count` parts.
pub open spec fn kept_components(parts: Seq<Seq<char>>, count: int) -> Seq<Seq<char>>
    decreases count,
{
    if count <= 0 || count > parts.len() {
        Seq::empty()
    } else if is_component(parts[count - 1]) {
        kept_components(parts, count - 1).push(parts[count - 1])
    } else {
        kept_components(parts, count - 1)
    }
}

/// The components of a path: a slash for the root where the path starts
/// with one, and then what stands between its slashes, without empty parts
/// and single dots.
pub open spec fn path_components(path: Seq<char>) -> Seq<Seq<char>> {
    let parts = split_path(path);
    let kept = kept_components(parts, parts.len() as int);
    if path.len() > 0 && path[0] == '/' {
        seq![seq!['/']] + kept
    } else {
        kept
    }
}

/// Whether a path of the editor and a path of a server name the same file:
/// the path of the editor, taken below the editor's root unless it starts at
/// the root of the file system, has the components of the server's root
/// followed by those of the server's path.
pub open spec fn same_file(
    editor_root: Seq<char>,
    editor_path: Seq<char>,
    lsp_root: Seq<char>,
    lsp_path: Seq<char>,
) -> bool {
    let lsp = path_components(lsp_root) + path_components(lsp_path);
    if editor_path.len() > 0 && editor_path[0] == '/' {
        path_components(editor_path) == lsp
    } else {
        path_components(editor_root) + path_components(editor_path) == lsp
    }
}

/// Appends the components of `path` to `out`.
fn push_components(path: &str, out: &mut Vec<String>)
    ensures
        views(final(out)@) == views(old(out)@) + path_components(path@),
{
    let chars = chars_of(path);
    let ghost start = views(out@);
    if chars.len() > 0 && chars[0] == '/' {
        let mut root = String::new();
        root.push('/');
        out.push(root);
        assert(views(out@) =~= start + seq![seq!['/']]);
    } else {
        assert(views(out@) =~= start + Seq::<Seq<char>>::empty());
    }
    let ghost lead = views(out@);
    let mut current = String::new();
    let mut i: usize = 0;
    assert(path@.take(0) =~= Seq::<char>::empty());
    assert(views(out@) =~= lead + Seq::<Seq<char>>::empty());
    while i < chars.len()
        invariant
            0 <= i <= chars.len(),
            chars@ == path@,
            split_path(path@.take(i as int)).len() >= 1,
            current@ == split_path(path@.take(i as int)).last(),
            views(out@) == lead + kept_components(
                split_path(path@.take(i as int)),
                split_path(path@.take(i as int)).len() - 1,
            ),
        decreases chars.len() - i,
    {
        let c = chars[i];
        let ghost parts = split_path(path@.take(i as int));
        proof {
            assert(path@.take(i + 1).drop_last() =~= path@.take(i as int));
            assert(path@.take(i + 1).last() == c);
        }
        let ghost next = split_path(path@.take(i + 1));
        if c == '/' {
            proof {
                assert(next == parts.push(Seq::<char>::empty()));
                lemma_kept_prefix(parts, next, parts.len() as int);
            }
            let is_dot = same_text(current.as_str(), ".");
            proof {
                reveal_strlit(".");
                assert("."@ =~= seq!['.']);
            }
            if current.as_str().unicode_len() > 0 && !is_dot {
                let ghost before = views(out@);
                out.push(current);
                assert(views(out@) =~= before.push(parts.last()));
            }
            current = String::new();
        } else {
            proof {
                assert(next == parts.update(parts.len() - 1, parts.last().push(c)));
                lemma_kept_prefix(parts, next, parts.len() - 1);
            }
            current.push(c);
        }
        i = i + 1;
    }
    assert(path@.take(chars.len() as int) =~= path@);
    let ghost parts = split_path(path@);
    let is_dot = same_text(current.as_str(), ".");
    proof {
        reveal_strlit(".");
        assert("."@ =~= seq!['.']);
    }
    if current.as_str().unicode_len() > 0 && !is_dot {
        let ghost before = views(out@);
        out.push(current);
        assert(views(out@) =~= before.push(parts.last()));
    }
    assert(views(out@) =~= start + path_components(path@));
}

/// The components among the first parts depend on those parts alone.
proof fn lemma_kept_prefix(a: Seq<Seq<char>>, b: Seq<Seq<char>>, count: int)
    requires
        0 <= count <= a.len(),
        count <= b.len(),
        forall|i: int| 0 <= i < count ==> a[i] == b[i],
    ensures
        kept_components(a, count) == kept_components(b, count),
    decreases count,
{
    if count > 0 {
        lemma_kept_prefix(a, b, count - 1);
    }
}

fn texts_equal(a: &Vec<String>, b: &Vec<String>) -> (r: bool)
    ensures
        r == (views(a@) == views(b@)),
{
    if a.len() != b.len() {
        assert(views(a@).len() != views(b@).len());
        return false;
    }
    let mut i: usize = 0;
    while i < a.len()
        invariant
            0 <= i <= a.len(),
            a.len() == b.len(),
            forall|j: int| 0 <= j < i ==> a@[j]@ == b@[j]@,
        decreases a.len() - i,
    {
        if !same_text(a[i].as_str(), b[i].as_str()) {
            assert(views(a@)[i as int] != views(b@)[i as int]);
            return false;
        }
        i = i + 1;
    }
    assert(views(a@) =~= views(b@));
    true
}

/// Whether a path of the editor and a path of a server name the same file.
pub fn is_editor_path_equals_to_lsp_path(
    editor_root: &str,
    editor_path: &str,
    lsp_root: &str,
    lsp_path: &str,
) -> (r: bool)
    ensures
        r == same_file(editor_root@, editor_path@, lsp_root@, lsp_path@),
{
    let mut lsp: Vec<String> = Vec::new();
    push_components(lsp_root, &mut lsp);
    push_components(lsp_path, &mut lsp);
    let mut editor: Vec<String> = Vec::new();
    let absolute = editor_path.unicode_len() > 0 && editor_path.get_char(0) == '/';
    if !absolute {
        push_components(editor_root, &mut editor);
    }
    push_components(editor_path, &mut editor);
    assert(views(lsp@) =~= path_components(lsp_root@) + path_components(lsp_path@));
    assert(views(editor@) =~= if absolute {
        path_components(editor_path@)
    } else {
        path_components(editor_root@) + path_components(editor_path@)
    });
    texts_equal(&editor, &lsp)
}

/// A change to a buffer that a server was not told of yet.
pub struct VersionedBufferEdit {
    pub buffer_range: BufferRange,
    pub text: String,
}

pub struct VersionedBufferEditView {
    pub buffer_range: BufferRange,
    pub text: Seq<char>,
}

impl View for VersionedBufferEdit {
    type V = VersionedBufferEditView;

    open spec fn view(&self) -> VersionedBufferEditView {
        VersionedBufferEditView { buffer_range: self.buffer_range, text: self.text@ }
    }
}

/// What a server knows of a buffer: the version it was told last, and the
/// changes since.
pub struct VersionedBuffer {
    pub version: usize,
    pub pending_edits: Vec<VersionedBufferEdit>,
}

pub struct VersionedBufferView {
    pub version: usize,
    pub pending_edits: Seq<VersionedBufferEditView>,
}

impl View for VersionedBuffer {
    type V = VersionedBufferView;

    open spec fn view(&self) -> VersionedBufferView {
        VersionedBufferView {
            version: self.version,
            pending_edits: Seq::new(
                self.pending_edits@.len(),
                |i: int| self.pending_edits@[i]@,
            ),
        }
    }
}

/// A number that is one more, but for the greatest one.
pub open spec fn next_number(n: usize) -> usize {
    if n < usize::MAX {
        (n + 1) as usize
    } else {
        usize::MAX
    }
}

impl VersionedBuffer {
    /// A buffer that the server was told nothing of yet.
    pub fn new() -> (r: Self)
        ensures
            r@ == (VersionedBufferView { version: 0, pending_edits: Seq::empty() }),
    {
        let r = VersionedBuffer { version: 0, pending_edits: Vec::new() };
        assert(r@.pending_edits =~= Seq::<VersionedBufferEditView>::empty());
        r
    }

    /// Drops the pending changes, which were told to the server, and steps
    /// the version. The version grows with every flush.
    pub fn flush(&mut self)
        ensures
            final(self)@ == (VersionedBufferView {
                version: next_number(old(self).version),
                pending_edits: Seq::empty(),
            }),
            old(self).version < usize::MAX ==> final(self).version > old(self).version,
    {
        self.pending_edits = Vec::new();
        self.version = self.version.saturating_add(1);
        assert(self@.pending_edits =~= Seq::<VersionedBufferEditView>::empty());
    }

    /// Forgets the buffer: no pending changes, and version one, the version
    /// of a buffer that is told anew.
    pub fn dispose(&mut self)
        ensures
            final(self)@ == (VersionedBufferView { version: 1, pending_edits: Seq::empty() }),
    {
        self.flush();
        self.version = 1;
    }
}

/// What a server knows of the buffers, by the number of their handle.
pub struct VersionedBufferCollection {
    pub buffers: Vec<VersionedBuffer>,
}

impl View for VersionedBufferCollection {
    type V = Seq<VersionedBufferView>;

    open spec fn view(&self) -> Seq<VersionedBufferView> {
        Seq::new(self.buffers@.len(), |i: int| self.buffers@[i]@)
    }
}

/// What is known of the buffer `index`: what is recorded, or, where nothing
/// is recorded, a buffer at version zero that the server was told nothing of.
pub open spec fn versioned_at(buffers: Seq<VersionedBufferView>, index: int) -> VersionedBufferView {
    if 0 <= index < buffers.len() {
        buffers[index]
    } else {
        VersionedBufferView { version: 0, pending_edits: Seq::empty() }
    }
}

impl VersionedBufferCollection {
    pub fn new() -> (r: Self)
        ensures
            r@ == Seq::<VersionedBufferView>::empty(),
    {
        let r = VersionedBufferCollection { buffers: Vec::new() };
        assert(r@ =~= Seq::<VersionedBufferView>::empty());
        r
    }

    /// Notes a change to a buffer behind the changes that are pending for it.
    pub fn add_edit(&mut self, buffer_handle: BufferHandle, range: BufferRange, text: &str)
        ensures
            final(self)@.len() == if old(self)@.len() > buffer_handle.0 {
                old(self)@.len()
            } else {
                (buffer_handle.0 + 1) as nat
            },
            forall|i: int|
                0 <= i < final(self)@.len() && i != buffer_handle.0 ==> final(self)@[i]
                    == versioned_at(old(self)@, i),
            final(self)@[buffer_handle.0 as int] == (VersionedBufferView {
                version: versioned_at(old(self)@, buffer_handle.0 as int).version,
                pending_edits: versioned_at(old(self)@, buffer_handle.0 as int).pending_edits.push(
                    VersionedBufferEditView { buffer_range: range, text: text@ },
                ),
            }),
    {
        let index = buffer_handle.0 as usize;
        while self.buffers.len() <= index
            invariant
                self.buffers@.len() >= old(self).buffers@.len(),
                forall|i: int|
                    0 <= i < self@.len() ==> #[trigger] self@[i] == versioned_at(old(self)@, i),
                self@.len() <= index + 1 || self@.len() == old(self)@.len(),
            decreases index + 1 - self.buffers.len(),
        {
            let ghost grown = self@;
            self.buffers.push(VersionedBuffer::new());
            assert forall|i: int| 0 <= i < self@.len() implies #[trigger] self@[i] == versioned_at(
                old(self)@,
                i,
            ) by {
                if i < grown.len() {
                    assert(self@[i] == grown[i]);
                }
            }
        }
        let ghost before = self@;
        let mut buffer = VersionedBuffer::new();
        core::mem::swap(&mut self.buffers[index], &mut buffer);
        buffer.pending_edits.push(
            VersionedBufferEdit { buffer_range: range, text: String::from_str(text) },
        );
        assert(buffer@.pending_edits =~= before[index as int].pending_edits.push(
            VersionedBufferEditView { buffer_range: range, text: text@ },
        ));
        self.buffers.set(index, buffer);
        assert forall|i: int| 0 <= i < self@.len() && i != buffer_handle.0 implies self@[i]
            == versioned_at(old(self)@, i) by {
            assert(self@[i] == before[i]);
        }
    }

    /// Forgets what the server knows of a buffer.
    pub fn dispose(&mut self, buffer_handle: BufferHandle)
        ensures
            final(self)@.len() == old(self)@.len(),
            forall|i: int|
                0 <= i < final(self)@.len() && i != buffer_handle.0 ==> final(self)@[i] == old(self)@[i],
            buffer_handle.0 < old(self)@.len() ==> final(self)@[buffer_handle.0 as int] == (
            VersionedBufferView { version: 1, pending_edits: Seq::empty() }),
    {
        let index = buffer_handle.0 as usize;
        if index < self.buffers.len() {
            let mut buffer = VersionedBuffer::new();
            buffer.dispose();
            self.buffers.set(index, buffer);
        }
    }

    /// The handles of the buffers that have pending changes, in order.
    pub fn iter_pending_mut(&self) -> (r: Vec<BufferHandle>)
        ensures
            forall|k: int|
                0 <= k < r@.len() ==> (#[trigger] r@[k]).0 < self@.len() && self@[r@[k].0 as int].pending_edits.len()
                    > 0,
            forall|k: int, l: int| 0 <= k < l < r@.len() ==> r@[k].0 < r@[l].0,
            forall|i: int|
                0 <= i < self@.len() && i <= u32::MAX && (#[trigger] self@[i]).pending_edits.len()
                    > 0 ==> exists|k: int| 0 <= k < r@.len() && (#[trigger] r@[k]).0 == i,
    {
        let mut out: Vec<BufferHandle> = Vec::new();
        let mut i: usize = 0;
        while i < self.buffers.len() && i <= u32::MAX as usize
            invariant
                0 <= i <= self.buffers.len(),
                forall|k: int|
                    0 <= k < out@.len() ==> (#[trigger] out@[k]).0 < i && self@[out@[k].0 as int].pending_edits.len()
                        > 0,
                forall|k: int, l: int| 0 <= k < l < out@.len() ==> out@[k].0 < out@[l].0,
                forall|j: int|
                    0 <= j < i && (#[trigger] self@[j]).pending_edits.len() > 0 ==> exists|k: int|
                        0 <= k < out@.len() && (#[trigger] out@[k]).0 == j,
            decreases self.buffers.len() - i,
        {
            if self.buffers[i].pending_edits.len() > 0 {
                let ghost before = out@;
                out.push(BufferHandle(i as u32));
                proof {
                    assert forall|j: int|
                        0 <= j < i + 1 && (#[trigger] self@[j]).pending_edits.len()
                            > 0 implies exists|k: int|
                        0 <= k < out@.len() && (#[trigger] out@[k]).0 == j by {
                        if j < i {
                            let k = choose|k: int|
                                0 <= k < before.len() && (#[trigger] before[k]).0 == j;
                            assert(out@[k] == before[k]);
                        } else {
                            assert(out@[before.len() as int].0 == j);
                        }
                    }
                }
            }
            i = i + 1;
        }
        out
    }
}

/// What a client is waiting for.
#[derive(Clone, Copy, PartialEq, Eq, Structural)]
pub enum RequestState {
    Idle,
    Definition { client: TargetClient },
    References { client: TargetClient, context_len: usize, auto_close_buffer: bool },
    FinishReferences { client: TargetClient, context_len: usize, auto_close_buffer: bool },
    Rename { client: TargetClient, buffer_handle: BufferHandle, buffer_position: BufferPosition },
    FinishRename { buffer_handle: BufferHandle, buffer_position: BufferPosition },
    CodeAction { client: TargetClient },
    FinishCodeAction,
    DocumentSymbols { client: TargetClient, buffer_view_handle: BufferViewHandle },
    FinishDocumentSymbols { buffer_view_handle: BufferViewHandle },
    WorkspaceSymbols { client: TargetClient, auto_close_buffer: bool },
    Formatting { buffer_handle: BufferHandle },
}

impl RequestState {
    pub fn is_idle(&self) -> (r: bool)
        ensures
            r == (*self == RequestState::Idle),
    {
        match self {
            RequestState::Idle => true,
            _ => false,
        }
    }
}

pub struct BufferDiagnosticsView {
    pub path: Seq<char>,
    pub buffer_handle: Option<BufferHandle>,
    pub diagnostics: Seq<DiagnosticView>,
}

impl View for BufferDiagnosticCollection {
    type V = BufferDiagnosticsView;

    open spec fn view(&self) -> BufferDiagnosticsView {
        BufferDiagnosticsView {
            path: self.path@,
            buffer_handle: self.buffer_handle,
            diagnostics: diagnostic_views(self.diagnostics@),
        }
    }
}

/// The diagnostics that a server published, document by document.
pub struct DiagnosticCollection {
    pub buffer_diagnostics: Vec<BufferDiagnosticCollection>,
}

impl View for DiagnosticCollection {
    type V = Seq<BufferDiagnosticsView>;

    open spec fn view(&self) -> Seq<BufferDiagnosticsView> {
        Seq::new(self.buffer_diagnostics@.len(), |i: int| self.buffer_diagnostics@[i]@)
    }
}

/// A language server client.
pub struct Client {
    pub handle: ClientHandle,
    pub protocol: Protocol,
    pub root: String,
    pub pending_requests: PendingRequestCollection,
    pub initialized: bool,
    pub server_capabilities: ServerCapabilities,
    pub log_write_buf: String,
    pub log_buffer_handle: Option<BufferHandle>,
    pub document_selectors: Vec<Glob>,
    pub versioned_buffers: VersionedBufferCollection,
    pub diagnostics: DiagnosticCollection,
    pub request_state: RequestState,
    pub request_raw_json: JsonValue,
}

/// A language server client as a value.
pub struct ClientModel {
    pub handle: ClientHandle,
    pub process_handle: Option<ProcessHandle>,
    pub next_request_id: usize,
    pub read_buf: Seq<u8>,
    pub root: Seq<char>,
    pub pending_requests: Seq<(RequestId, Seq<char>)>,
    pub initialized: bool,
    pub capabilities: ServerCapabilitiesView,
    pub log: Seq<char>,
    pub log_buffer_handle: Option<BufferHandle>,
    pub document_selectors: Seq<Glob>,
    pub versioned_buffers: Seq<VersionedBufferView>,
    pub diagnostics: Seq<BufferDiagnosticsView>,
    pub request_state: RequestState,
    pub request_raw_json: Json,
}

impl View for Client {
    type V = ClientModel;

    open spec fn view(&self) -> ClientModel {
        ClientModel {
            handle: self.handle,
            process_handle: self.protocol.process_handle,
            next_request_id: self.protocol.next_request_id,
            read_buf: self.protocol.read_buf@,
            root: self.root@,
            pending_requests: self.pending_requests@,
            initialized: self.initialized,
            capabilities: self.server_capabilities@,
            log: self.log_write_buf@,
            log_buffer_handle: self.log_buffer_handle,
            document_selectors: self.document_selectors@,
            versioned_buffers: self.versioned_buffers@,
            diagnostics: self.diagnostics@,
            request_state: self.request_state,
            request_raw_json: self.request_raw_json@,
        }
    }
}

/// A rule that starts a language server for the files that a glob matches.
pub struct ClientRecipe {
    pub glob: Glob,
    pub command: String,
    pub environment: String,
    pub root: String,
    pub log_buffer_name: String,
    pub running_client: Option<ClientHandle>,
}

/// A slot of the table of clients.
pub enum ClientEntry {
    Vacant,
    /// The client of the slot is taken out for a while.
    Reserved,
    Occupied(Client),
}

impl ClientEntry {
    /// Takes the client out of the slot, if there is one, and leaves the
    /// slot reserved.
    pub fn reserve_and_take(&mut self) -> (r: Option<Client>)
        ensures
            *final(self) == ClientEntry::Reserved,
            match *old(self) {
                ClientEntry::Occupied(client) => r == Some(client),
                _ => r is None,
            },
    {
        let mut entry = ClientEntry::Reserved;
        core::mem::swap(self, &mut entry);
        match entry {
            ClientEntry::Occupied(client) => Some(client),
            _ => None,
        }
    }
}

/// The language server clients of the editor, and the recipes that start them.
pub struct ClientManager {
    pub entries: Vec<ClientEntry>,
    pub recipes: Vec<ClientRecipe>,
}

impl ClientManager {
    pub fn new() -> (r: Self)
        ensures
            r.entries@.len() == 0,
            r.recipes@.len() == 0,
    {
        ClientManager { entries: Vec::new(), recipes: Vec::new() }
    }
}

/// The handle of the first buffer from `from` on whose path names the file
/// that `lsp_path` below `lsp_root` names.
pub open spec fn buffer_of_file(
    buffers: Seq<Option<Buffer>>,
    editor_root: Seq<char>,
    lsp_root: Seq<char>,
    lsp_path: Seq<char>,
    from: int,
) -> Option<BufferHandle>
    decreases buffers.len() - from,
{
    if from < 0 || from >= buffers.len() || from > u32::MAX {
        None
    } else if buffers[from].is_some() && same_file(
        editor_root,
        buffers[from].unwrap().path@,
        lsp_root,
        lsp_path,
    ) {
        Some(BufferHandle(from as u32))
    } else {
        buffer_of_file(buffers, editor_root, lsp_root, lsp_path, from + 1)
    }
}

fn find_buffer_with_path(editor: &Editor, root: &str, path: &str) -> (r: Option<BufferHandle>)
    ensures
        r == buffer_of_file(
            editor.buffers.buffers@,
            editor.current_directory@,
            root@,
            path@,
            0,
        ),
{
    let mut i: usize = 0;
    while i < editor.buffers.buffers.len() && i <= u32::MAX as usize
        invariant
            0 <= i <= editor.buffers.buffers.len(),
            buffer_of_file(
                editor.buffers.buffers@,
                editor.current_directory@,
                root@,
                path@,
                0,
            ) == buffer_of_file(
                editor.buffers.buffers@,
                editor.current_directory@,
                root@,
                path@,
                i as int,
            ),
        decreases editor.buffers.buffers.len() - i,
    {
        if let Some(buffer) = &editor.buffers.buffers[i] {
            if is_editor_path_equals_to_lsp_path(
                editor.current_directory.as_str(),
                buffer.path.as_str(),
                root,
                path,
            ) {
                return Some(BufferHandle(i as u32));
            }
        }
        i = i + 1;
    }
    None
}

/// The place of the first entry from `from` on that is bound to `handle`, or
/// the number of entries.
pub open spec fn entry_of_buffer(
    entries: Seq<BufferDiagnosticsView>,
    handle: BufferHandle,
    from: int,
) -> int
    decreases entries.len() - from,
{
    if from < 0 || from >= entries.len() {
        entries.len() as int
    } else if entries[from].buffer_handle == Some(handle) {
        from
    } else {
        entry_of_buffer(entries, handle, from + 1)
    }
}

/// The place of the first entry from `from` on for the path `path`, or the
/// number of entries.
pub open spec fn entry_of_path(entries: Seq<BufferDiagnosticsView>, path: Seq<char>, from: int) -> int
    decreases entries.len() - from,
{
    if from < 0 || from >= entries.len() {
        entries.len() as int
    } else if entries[from].path == path {
        from
    } else {
        entry_of_path(entries, path, from + 1)
    }
}

/// The place of the first entry from `from` on that is bound to no buffer
/// and whose path names the file of the path `buffer_path` of the editor.
pub open spec fn unbound_entry_of_file(
    entries: Seq<BufferDiagnosticsView>,
    editor_root: Seq<char>,
    buffer_path: Seq<char>,
    root: Seq<char>,
    from: int,
) -> int
    decreases entries.len() - from,
{
    if from < 0 || from >= entries.len() {
        entries.len() as int
    } else if entries[from].buffer_handle.is_none() && same_file(
        editor_root,
        buffer_path,
        root,
        entries[from].path,
    ) {
        from
    } else {
        unbound_entry_of_file(entries, editor_root, buffer_path, root, from + 1)
    }
}

/// The entries after a buffer was saved under a path: from `from` on, each
/// entry bound to the buffer is unbound, up to the first one whose path
/// names the file of the buffer's path, which stays bound and ends the walk.
pub open spec fn entries_after_save(
    entries: Seq<BufferDiagnosticsView>,
    handle: BufferHandle,
    editor_root: Seq<char>,
    buffer_path: Seq<char>,
    root: Seq<char>,
    from: int,
) -> Seq<BufferDiagnosticsView>
    decreases entries.len() - from,
{
    if from < 0 || from >= entries.len() {
        entries
    } else if entries[from].buffer_handle == Some(handle) {
        if same_file(editor_root, buffer_path, root, entries[from].path) {
            entries
        } else {
            entries_after_save(
                entries.update(
                    from,
                    BufferDiagnosticsView { buffer_handle: None, ..entries[from] },
                ),
                handle,
                editor_root,
                buffer_path,
                root,
                from + 1,
            )
        }
    } else {
        entries_after_save(entries, handle, editor_root, buffer_path, root, from + 1)
    }
}

/// The entries among the first `count` that hold diagnostics.
pub open spec fn filled_entries(entries: Seq<BufferDiagnosticsView>, count: int) -> Seq<
    BufferDiagnosticsView,
>
    decreases count,
{
    if count <= 0 || count > entries.len() {
        Seq::empty()
    } else if entries[count - 1].diagnostics.len() > 0 {
        filled_entries(entries, count - 1).push(entries[count - 1])
    } else {
        filled_entries(entries, count - 1)
    }
}

impl DiagnosticCollection {
    pub fn new() -> (r: Self)
        ensures
            r@ == Seq::<BufferDiagnosticsView>::empty(),
    {
        let r = DiagnosticCollection { buffer_diagnostics: Vec::new() };
        assert(r@ =~= Seq::<BufferDiagnosticsView>::empty());
        r
    }

    /// The diagnostics of the first entry that is bound to the buffer; none
    /// where no entry is bound to it.
    pub fn buffer_diagnostics(&self, buffer_handle: BufferHandle) -> (r: &[Diagnostic])
        ensures
            ({
                let i = entry_of_buffer(self@, buffer_handle, 0);
                if i < self@.len() {
                    diagnostic_views(r@) == self@[i].diagnostics
                } else {
                    r@.len() == 0
                }
            }),
    {
        let mut i: usize = 0;
        while i < self.buffer_diagnostics.len()
            invariant
                0 <= i <= self.buffer_diagnostics.len(),
                entry_of_buffer(self@, buffer_handle, 0) == entry_of_buffer(
                    self@,
                    buffer_handle,
                    i as int,
                ),
            decreases self.buffer_diagnostics.len() - i,
        {
            if self.buffer_diagnostics[i].buffer_handle == Some(buffer_handle) {
                return self.buffer_diagnostics[i].diagnostics.as_slice();
            }
            i = i + 1;
        }
        &[]
    }

    /// The entry for the path `path` of the server, emptied of its
    /// diagnostics: the first entry for that path, bound to the buffer of
    /// that file where it was bound to none, or a new entry behind the
    /// others. Returns the place of the entry.
    pub fn diagnostics_at_path(&mut self, editor: &Editor, root: &str, path: &str) -> (r: usize)
        ensures
            ({
                let i = entry_of_path(old(self)@, path@, 0);
                let found = buffer_of_file(
                    editor.buffers.buffers@,
                    editor.current_directory@,
                    root@,
                    path@,
                    0,
                );
                &&& r == i
                &&& if i < old(self)@.len() {
                    final(self)@ == old(self)@.update(
                        i,
                        BufferDiagnosticsView {
                            path: path@,
                            buffer_handle: if old(self)@[i].buffer_handle is None {
                                found
                            } else {
                                old(self)@[i].buffer_handle
                            },
                            diagnostics: Seq::empty(),
                        },
                    )
                } else {
                    final(self)@ == old(self)@.push(
                        BufferDiagnosticsView {
                            path: path@,
                            buffer_handle: found,
                            diagnostics: Seq::empty(),
                        },
                    )
                }
            }),
    {
        let mut i: usize = 0;
        while i < self.buffer_diagnostics.len()
            invariant
                0 <= i <= self.buffer_diagnostics.len(),
                *self == *old(self),
                entry_of_path(self@, path@, 0) == entry_of_path(self@, path@, i as int),
            decreases self.buffer_diagnostics.len() - i,
        {
            if same_text(self.buffer_diagnostics[i].path.as_str(), path) {
                let buffer_handle = match self.buffer_diagnostics[i].buffer_handle {
                    Some(handle) => Some(handle),
                    None => find_buffer_with_path(editor, root, path),
                };
                let entry = BufferDiagnosticCollection {
                    path: String::from_str(path),
                    buffer_handle,
                    diagnostics: Vec::new(),
                };
                assert(entry@.diagnostics =~= Seq::<DiagnosticView>::empty());
                self.buffer_diagnostics.set(i, entry);
                assert(self@ =~= old(self)@.update(i as int, entry@));
                return i;
            }
            i = i + 1;
        }
        let entry = BufferDiagnosticCollection {
            path: String::from_str(path),
            buffer_handle: find_buffer_with_path(editor, root, path),
            diagnostics: Vec::new(),
        };
        assert(entry@.diagnostics =~= Seq::<DiagnosticView>::empty());
        self.buffer_diagnostics.push(entry);
        assert(self@ =~= old(self)@.push(entry@));
        i
    }

    /// Drops the entries that hold no diagnostics.
    pub fn clear_empty(&mut self)
        ensures
            final(self)@ == filled_entries(old(self)@, old(self)@.len() as int),
    {
        let ghost all = self@;
        let mut source: Vec<BufferDiagnosticCollection> = Vec::new();
        core::mem::swap(&mut self.buffer_diagnostics, &mut source);
        let total = source.len();
        let mut taken: usize = 0;
        assert(self@ =~= Seq::<BufferDiagnosticsView>::empty());
        while source.len() > 0
            invariant
                taken + source.len() == total,
                total == all.len(),
                forall|k: int| 0 <= k < source@.len() ==> (#[trigger] source@[k])@ == all[taken + k],
                self@ == filled_entries(all, taken as int),
            decreases source.len(),
        {
            let ghost before = self@;
            let ghost source_before = source@;
            let entry = source.remove(0);
            assert(entry@ == all[taken as int]) by {
                assert(source_before[0]@ == all[taken + 0]);
            }
            assert forall|k: int| 0 <= k < source@.len() implies (#[trigger] source@[k])@
                == all[taken + 1 + k] by {
                assert(source@[k] == source_before[k + 1]);
            }
            if entry.diagnostics.len() > 0 {
                self.buffer_diagnostics.push(entry);
                assert(self@ =~= before.push(all[taken as int]));
            }
            taken = taken + 1;
        }
    }

    /// The entries: the path, the buffer and the diagnostics of each.
    pub fn iter(&self) -> (r: Vec<(&str, Option<BufferHandle>, &[Diagnostic])>)
        ensures
            r@.len() == self@.len(),
            forall|i: int|
                0 <= i < r@.len() ==> (#[trigger] r@[i]).0@ == self@[i].path && r@[i].1
                    == self@[i].buffer_handle && diagnostic_views(r@[i].2@) == self@[i].diagnostics,
    {
        let mut out: Vec<(&str, Option<BufferHandle>, &[Diagnostic])> = Vec::new();
        let mut i: usize = 0;
        while i < self.buffer_diagnostics.len()
            invariant
                0 <= i <= self.buffer_diagnostics.len(),
                out@.len() == i,
                forall|k: int|
                    0 <= k < i ==> (#[trigger] out@[k]).0@ == self@[k].path && out@[k].1
                        == self@[k].buffer_handle && diagnostic_views(out@[k].2@)
                        == self@[k].diagnostics,
            decreases self.buffer_diagnostics.len() - i,
        {
            let entry = &self.buffer_diagnostics[i];
            out.push((entry.path.as_str(), entry.buffer_handle, entry.diagnostics.as_slice()));
            i = i + 1;
        }
        out
    }

    /// Binds the first unbound entry for the file of a buffer that was
    /// loaded to that buffer. Nothing changes where the buffer does not exist.
    #[verifier::loop_isolation(false)]
    pub fn on_load_buffer(&mut self, editor: &Editor, buffer_handle: BufferHandle, root: &str)
        ensures
            ({
                let entries = old(self)@;
                if editor.buffers.contains(buffer_handle) {
                    let i = unbound_entry_of_file(
                        entries,
                        editor.current_directory@,
                        editor.buffers.buffer(buffer_handle).path@,
                        root@,
                        0,
                    );
                    if i < entries.len() {
                        final(self)@ == entries.update(
                            i,
                            BufferDiagnosticsView { buffer_handle: Some(buffer_handle), ..entries[i] },
                        )
                    } else {
                        final(self)@ == entries
                    }
                } else {
                    final(self)@ == entries
                }
            }),
    {
        let buffer_path = match editor.buffers.get(buffer_handle) {
            Some(buffer) => buffer.path.as_str(),
            None => {
                return ;
            },
        };
        let mut i: usize = 0;
        while i < self.buffer_diagnostics.len()
            invariant
                0 <= i <= self.buffer_diagnostics.len(),
                *self == *old(self),
                unbound_entry_of_file(
                    self@,
                    editor.current_directory@,
                    buffer_path@,
                    root@,
                    0,
                ) == unbound_entry_of_file(
                    self@,
                    editor.current_directory@,
                    buffer_path@,
                    root@,
                    i as int,
                ),
            decreases self.buffer_diagnostics.len() - i,
        {
            if self.buffer_diagnostics[i].buffer_handle.is_none() {
                if is_editor_path_equals_to_lsp_path(
                    editor.current_directory.as_str(),
                    buffer_path,
                    root,
                    self.buffer_diagnostics[i].path.as_str(),
                ) {
                    self.bind(i, Some(buffer_handle));
                    return ;
                }
            }
            i = i + 1;
        }
    }

    /// Sets the buffer of the entry at `index`.
    fn bind(&mut self, index: usize, buffer_handle: Option<BufferHandle>)
        requires
            index < old(self)@.len(),
        ensures
            final(self).buffer_diagnostics@.len() == old(self).buffer_diagnostics@.len(),
            final(self)@ == old(self)@.update(
                index as int,
                BufferDiagnosticsView { buffer_handle, ..old(self)@[index as int] },
            ),
    {
        let mut entry = BufferDiagnosticCollection {
            path: String::new(),
            buffer_handle: None,
            diagnostics: Vec::new(),
        };
        core::mem::swap(&mut self.buffer_diagnostics[index], &mut entry);
        entry.buffer_handle = buffer_handle;
        self.buffer_diagnostics.set(index, entry);
        assert(self@ =~= old(self)@.update(
            index as int,
            BufferDiagnosticsView { buffer_handle, ..old(self)@[index as int] },
        ));
    }

    /// Unbinds the entries of a buffer that was saved, up to the first one
    /// whose path names the file that the buffer has now. Nothing changes
    /// where the buffer does not exist.
    #[verifier::loop_isolation(false)]
    pub fn on_save_buffer(&mut self, editor: &Editor, buffer_handle: BufferHandle, root: &str)
        ensures
            final(self)@ == if editor.buffers.contains(buffer_handle) {
                entries_after_save(
                    old(self)@,
                    buffer_handle,
                    editor.current_directory@,
                    editor.buffers.buffer(buffer_handle).path@,
                    root@,
                    0,
                )
            } else {
                old(self)@
            },
    {
        let buffer_path = match editor.buffers.get(buffer_handle) {
            Some(buffer) => buffer.path.as_str(),
            None => {
                return ;
            },
        };
        let ghost goal = entries_after_save(
            self@,
            buffer_handle,
            editor.current_directory@,
            buffer_path@,
            root@,
            0,
        );
        let mut i: usize = 0;
        while i < self.buffer_diagnostics.len()
            invariant
                0 <= i <= self.buffer_diagnostics.len(),
                entries_after_save(
                    self@,
                    buffer_handle,
                    editor.current_directory@,
                    buffer_path@,
                    root@,
                    i as int,
                ) == goal,
            decreases self.buffer_diagnostics.len() - i,
        {
            if self.buffer_diagnostics[i].buffer_handle == Some(buffer_handle) {
                if is_editor_path_equals_to_lsp_path(
                    editor.current_directory.as_str(),
                    buffer_path,
                    root,
                    self.buffer_diagnostics[i].path.as_str(),
                ) {
                    return ;
                }
                self.bind(i, None);
            }
            i = i + 1;
        }
    }

    /// Unbinds the first entry that is bound to a buffer that was closed.
    pub fn on_close_buffer(&mut self, buffer_handle: BufferHandle)
        ensures
            ({
                let i = entry_of_buffer(old(self)@, buffer_handle, 0);
                if i < old(self)@.len() {
                    final(self)@ == old(self)@.update(
                        i,
                        BufferDiagnosticsView { buffer_handle: None, ..old(self)@[i] },
                    )
                } else {
                    final(self)@ == old(self)@
                }
            }),
    {
        let mut i: usize = 0;
        while i < self.buffer_diagnostics.len()
            invariant
                0 <= i <= self.buffer_diagnostics.len(),
                *self == *old(self),
                entry_of_buffer(self@, buffer_handle, 0) == entry_of_buffer(
                    self@,
                    buffer_handle,
                    i as int,
                ),
            decreases self.buffer_diagnostics.len() - i,
        {
            if self.buffer_diagnostics[i].buffer_handle == Some(buffer_handle) {
                self.bind(i, None);
                return ;
            }
            i = i + 1;
        }
    }
}

/// The client after `entry` was written to its log; the log is kept only
/// where the client has a log buffer.
pub open spec fn logged(m: ClientModel, entry: Seq<char>) -> ClientModel {
    if m.log_buffer_handle is Some {
        ClientModel { log: m.log + entry + "\n----\n\n"@, ..m }
    } else {
        m
    }
}

/// What the log says of a request that is sent.
pub open spec fn request_log(method: Seq<char>, params: Json) -> Seq<char> {
    "send request\nmethod: '"@ + method + "'\nparams:\n"@ + json_text(params)
}

/// What the log says of a notification that is sent.
pub open spec fn notification_log(method: Seq<char>, params: Json) -> Seq<char> {
    "send notification\nmethod: '"@ + method + "'\nparams:\n"@ + json_text(params)
}

/// What the log says of a response that is sent.
pub open spec fn response_log(id: Json, result: Result<Json, ResponseErrorView>) -> Seq<char> {
    "send response\nid: "@ + json_text(id) + (match result {
        Ok(value) => "\nresult:\n"@ + json_text(value),
        Err(error) => "\nerror:\n"@ + json_text(error_json(error)),
    })
}

/// The client and the requests to the platform after the client asked the
/// server for `method`. A client that is not initialized asks nothing.
pub open spec fn requested(
    m: ClientModel,
    p: Seq<PlatformRequestView>,
    method: Seq<char>,
    params: Json,
) -> (ClientModel, Seq<PlatformRequestView>) {
    if !m.initialized {
        (m, p)
    } else {
        (
            ClientModel {
                next_request_id: next_number(m.next_request_id),
                pending_requests: m.pending_requests.push((RequestId(m.next_request_id), method)),
                ..logged(m, request_log(method, params))
            },
            with_message(
                p,
                m.process_handle,
                request_json(clip_i64(m.next_request_id as int) as int, method, params),
            ),
        )
    }
}

/// The client and the requests to the platform after the client notified
/// the server of `method`.
pub open spec fn notified(
    m: ClientModel,
    p: Seq<PlatformRequestView>,
    method: Seq<char>,
    params: Json,
) -> (ClientModel, Seq<PlatformRequestView>) {
    (
        logged(m, notification_log(method, params)),
        with_message(p, m.process_handle, notification_json(method, params)),
    )
}

/// The client and the requests to the platform after the client answered a
/// request of the server.
pub open spec fn responded(
    m: ClientModel,
    p: Seq<PlatformRequestView>,
    id: Json,
    result: Result<Json, ResponseErrorView>,
) -> (ClientModel, Seq<PlatformRequestView>) {
    (logged(m, response_log(id, result)), with_message(p, m.process_handle, response_json(id, result)))
}

/// The JSON that names a document: an object with its URI.
pub open spec fn document_id_json(root: Seq<char>, path: Seq<char>) -> Json {
    Json::Object(seq!["uri"@], seq![Json::String(document_uri(root, path))])
}

/// The text that a `MarkupContent` or a plain string holds; empty for
/// anything else.
pub open spec fn markup_text(content: Json) -> Seq<char> {
    match content {
        Json::String(text) => text,
        Json::Object(_, _) => match crate::json::member(content, "value"@) {
            Json::String(text) => text,
            _ => Seq::empty(),
        },
        _ => Seq::empty(),
    }
}

/// Shows the message of an error on the status bar.
pub fn write_response_error(status_bar: &mut StatusMessage, error: &ResponseError)
    ensures
        final(status_bar).kind() == StatusMessageKind::Error,
        final(status_bar).text() == error@.message,
{
    status_bar.write_str(StatusMessageKind::Error, error.message.as_str());
}

/// The JSON that names the document of a path of the editor.
pub fn text_document_with_id(root: &str, path: &str) -> (r: JsonValue)
    ensures
        r@ == document_id_json(root@, path@),
{
    let uri = format_document_uri(root, path);
    let mut id = ObjectBuilder::new();
    id.set("uri", JsonValue::String(uri));
    let r = id.build();
    assert(r@->Object_0 =~= seq!["uri"@]);
    assert(r@->Object_1 =~= seq![Json::String(document_uri(root@, path@))]);
    r
}

/// The text that a `MarkupContent` or a plain string holds.
pub fn extract_markup_content(content: &JsonValue) -> (r: &str)
    ensures
        r@ == markup_text(content@),
{
    let empty = "";
    proof {
        reveal_strlit("");
    }
    assert(empty@ =~= Seq::<char>::empty());
    match content {
        JsonValue::String(text) => text.as_str(),
        JsonValue::Object(_, _) => match content.get("value") {
            Some(JsonValue::String(text)) => text.as_str(),
            _ => empty,
        },
        _ => empty,
    }
}

impl Client {
    /// A client that was not initialized yet.
    pub fn new(handle: ClientHandle, root: String, log_buffer_handle: Option<BufferHandle>) -> (r:
        Self)
        ensures
            r@.handle == handle,
            r@.process_handle is None,
            r@.next_request_id == 1,
            r@.read_buf.len() == 0,
            r@.root == root@,
            r@.pending_requests.len() == 0,
            !r@.initialized,
            r@.capabilities == ServerCapabilities::none(),
            r@.log.len() == 0,
            r@.log_buffer_handle == log_buffer_handle,
            r@.document_selectors.len() == 0,
            r@.versioned_buffers.len() == 0,
            r@.diagnostics.len() == 0,
            r@.request_state == RequestState::Idle,
            r@.request_raw_json == Json::Null,
    {
        let r = Client {
            handle,
            protocol: Protocol::new(),
            root,
            pending_requests: PendingRequestCollection::new(),
            initialized: false,
            server_capabilities: ServerCapabilities::new(),
            log_write_buf: String::new(),
            log_buffer_handle,
            document_selectors: Vec::new(),
            versioned_buffers: VersionedBufferCollection::new(),
            diagnostics: DiagnosticCollection::new(),
            request_state: RequestState::Idle,
            request_raw_json: JsonValue::Null,
        };
        r
    }

    pub fn handle(&self) -> (r: ClientHandle)
        ensures
            r == self@.handle,
    {
        self.handle
    }

    /// Whether the client cares for a path: where the server named document
    /// selectors, one of them has to match; else every path is cared for.
    pub fn handles_path(&self, path: &[u8]) -> (r: bool)
        ensures
            r == (self@.document_selectors.len() == 0 || exists|i: int|
                0 <= i < self@.document_selectors.len() && (
                #[trigger] self@.document_selectors[i]).accepts(path@)),
    {
        if self.document_selectors.len() == 0 {
            return true;
        }
        let mut i: usize = 0;
        while i < self.document_selectors.len()
            invariant
                0 <= i <= self.document_selectors.len(),
                forall|j: int| 0 <= j < i ==> !(#[trigger] self.document_selectors@[j]).accepts(path@),
            decreases self.document_selectors.len() - i,
        {
            if self.document_selectors[i].matches(path) {
                return true;
            }
            i = i + 1;
        }
        false
    }

    pub fn diagnostics(&self) -> (r: &DiagnosticCollection)
        ensures
            r@ == self@.diagnostics,
    {
        &self.diagnostics
    }

    pub fn completion_triggers(&self) -> (r: &str)
        ensures
            r@ == self@.capabilities.completion_provider.trigger_characters,
    {
        self.server_capabilities.completion_provider.trigger_characters.as_str()
    }

    pub fn signature_help_triggers(&self) -> (r: &str)
        ensures
            r@ == self@.capabilities.signature_help_provider.trigger_characters,
    {
        self.server_capabilities.signature_help_provider.trigger_characters.as_str()
    }

    /// Gives up waiting for the response to the current request. The server
    /// is not told: its response is dropped when it comes.
    pub fn cancel_current_request(&mut self)
        ensures
            final(self)@ == (ClientModel { request_state: RequestState::Idle, ..old(self)@ }),
    {
        self.request_state = RequestState::Idle;
    }

    /// Writes an entry to the log, where the client keeps one.
    pub fn write_to_log_buffer(&mut self, entry: &str)
        ensures
            final(self)@ == logged(old(self)@, entry@),
    {
        if self.log_buffer_handle.is_some() {
            self.log_write_buf.append(entry);
            self.log_write_buf.append("\n----\n\n");
        }
    }

    /// Asks the server for `method`.
    pub fn request(&mut self, platform: &mut Platform, method: &str, params: JsonValue)
        ensures
            (final(self)@, final(platform)@) == requested(
                old(self)@,
                old(platform)@,
                method@,
                params@,
            ),
    {
        if !self.initialized {
            return ;
        }
        if self.log_buffer_handle.is_some() {
            let mut entry = String::from_str("send request\nmethod: '");
            entry.append(method);
            entry.append("'\nparams:\n");
            params.write(&mut entry);
            self.write_to_log_buffer(entry.as_str());
        }
        let id = self.protocol.request(platform, method, params);
        self.pending_requests.add(id, method);
    }

    /// Notifies the server of `method`.
    pub fn notify(&mut self, platform: &mut Platform, method: &str, params: JsonValue)
        ensures
            (final(self)@, final(platform)@) == notified(
                old(self)@,
                old(platform)@,
                method@,
                params@,
            ),
    {
        if self.log_buffer_handle.is_some() {
            let mut entry = String::from_str("send notification\nmethod: '");
            entry.append(method);
            entry.append("'\nparams:\n");
            params.write(&mut entry);
            self.write_to_log_buffer(entry.as_str());
        }
        self.protocol.notify(platform, method, params);
    }

    /// Answers a request of the server.
    pub fn respond(
        &mut self,
        platform: &mut Platform,
        request_id: JsonValue,
        result: Result<JsonValue, ResponseError>,
    )
        ensures
            (final(self)@, final(platform)@) == responded(
                old(self)@,
                old(platform)@,
                request_id@,
                match result {
                    Ok(value) => Ok(value@),
                    Err(error) => Err(error@),
                },
            ),
    {
        if self.log_buffer_handle.is_some() {
            let mut entry = String::from_str("send response\nid: ");
            request_id.write(&mut entry);
            match &result {
                Ok(value) => {
                    entry.append("\nresult:\n");
                    value.write(&mut entry);
                },
                Err(error) => {
                    entry.append("\nerror:\n");
                    let copy = ResponseError {
                        code: error.code,
                        message: error.message.clone(),
                        data: crate::lsp::protocol::clone_json(&error.data),
                    };
                    let ghost view = copy@;
                    let mut object = ObjectBuilder::new();
                    object.set("code", JsonValue::Integer(copy.code));
                    object.set("message", JsonValue::String(copy.message));
                    object.set("data", copy.data);
                    let object = object.build();
                    assert(object@->Object_0 =~= seq!["code"@, "message"@, "data"@]);
                    assert(object@->Object_1 =~= seq![
                        Json::Integer(view.code),
                        Json::String(view.message),
                        view.data,
                    ]);
                    object.write(&mut entry);
                },
            }
            assert(entry@ =~= response_log(
                request_id@,
                match result {
                    Ok(value) => Ok(value@),
                    Err(error) => Err(error@),
                },
            ));
            self.write_to_log_buffer(entry.as_str());
        }
        self.protocol.respond(platform, request_id, result);
    }

    /// Tells the server that a message of it could not be read.
    pub fn on_parse_error(&mut self, platform: &mut Platform, request_id: JsonValue)
        ensures
            (final(self)@, final(platform)@) == responded(
                logged(old(self)@, "send parse error\nrequest_id: "@ + json_text(request_id@)),
                old(platform)@,
                request_id@,
                Err(ResponseErrorView { code: -32700, message: "ParseError"@, data: Json::Null }),
            ),
    {
        if self.log_buffer_handle.is_some() {
            let mut entry = String::from_str("send parse error\nrequest_id: ");
            request_id.write(&mut entry);
            self.write_to_log_buffer(entry.as_str());
        }
        self.respond(platform, request_id, Err(ResponseError::parse_error()));
    }
}

/// Whether a buffer is one that servers are told of: it exists and can be saved.
pub open spec fn is_synced(buffers: &BufferCollection, handle: BufferHandle) -> bool {
    buffers.contains(handle) && buffers.buffer(handle).capabilities.can_save
}

/// The parameters that tell of a document that was opened: its URI, the
/// name of its language, the version zero, and its text.
pub open spec fn did_open_params(root: Seq<char>, buffer: Buffer) -> Json {
    Json::Object(
        seq!["textDocument"@],
        seq![
            Json::Object(
                seq!["uri"@, "languageId"@, "version"@, "text"@],
                seq![
                    Json::String(document_uri(root, buffer.path@)),
                    Json::String(language_id(buffer.path@)),
                    Json::Integer(0),
                    Json::String(whole_text(buffer.content@)),
                ],
            ),
        ],
    )
}

/// The client and the requests after the server was told that a buffer was
/// opened; it is told only where it asked for that and the buffer is synced.
pub open spec fn opened(
    m: ClientModel,
    p: Seq<PlatformRequestView>,
    buffers: &BufferCollection,
    handle: BufferHandle,
) -> (ClientModel, Seq<PlatformRequestView>) {
    if !m.capabilities.text_document_sync.open_close || !is_synced(buffers, handle) {
        (m, p)
    } else {
        notified(m, p, "textDocument/didOpen"@, did_open_params(m.root, buffers.buffer(handle)))
    }
}

/// The JSON of one change: the range that was changed and the text that
/// stands there now.
pub open spec fn change_event_json(edit: VersionedBufferEditView) -> Json {
    Json::Object(
        seq!["range"@, "text"@],
        seq![range_json(range_to_document(edit.buffer_range)), Json::String(edit.text)],
    )
}

/// The changes that are told: the whole text where the server takes whole
/// texts, each pending change in order where it takes changes.
pub open spec fn change_events(
    kind: TextDocumentSyncKind,
    content: Seq<Seq<char>>,
    edits: Seq<VersionedBufferEditView>,
) -> Seq<Json> {
    match kind {
        TextDocumentSyncKind::Off => Seq::empty(),
        TextDocumentSyncKind::Full => seq![
            Json::Object(seq!["text"@], seq![Json::String(whole_text(content))]),
        ],
        TextDocumentSyncKind::Incremental => Seq::new(
            edits.len(),
            |i: int| change_event_json(edits[i]),
        ),
    }
}

/// The parameters that tell of the changes to a document: its URI, the
/// version that the changes lead to, and the changes.
pub open spec fn did_change_params(
    root: Seq<char>,
    buffer: Buffer,
    versioned: VersionedBufferView,
    kind: TextDocumentSyncKind,
) -> Json {
    Json::Object(
        seq!["textDocument"@, "contentChanges"@],
        seq![
            Json::Object(
                seq!["uri"@, "version"@],
                seq![
                    Json::String(document_uri(root, buffer.path@)),
                    Json::Integer(clip_i64(versioned.version as int) as int),
                ],
            ),
            Json::Array(change_events(kind, buffer.content@, versioned.pending_edits)),
        ],
    )
}

/// The client and the requests after the pending changes of the buffer `i`
/// were told, if it has any and is synced: the server is notified, the
/// pending changes are dropped and the version of the buffer is stepped.
pub open spec fn change_sent_for(
    m: ClientModel,
    p: Seq<PlatformRequestView>,
    buffers: &BufferCollection,
    i: int,
) -> (ClientModel, Seq<PlatformRequestView>) {
    if 0 <= i < m.versioned_buffers.len() && i <= u32::MAX
        && m.versioned_buffers[i].pending_edits.len() > 0 && is_synced(
        buffers,
        BufferHandle(i as u32),
    ) {
        notified(
            ClientModel {
                versioned_buffers: m.versioned_buffers.update(
                    i,
                    VersionedBufferView {
                        version: next_number(m.versioned_buffers[i].version),
                        pending_edits: Seq::empty(),
                    },
                ),
                ..m
            },
            p,
            "textDocument/didChange"@,
            did_change_params(
                m.root,
                buffers.buffer(BufferHandle(i as u32)),
                m.versioned_buffers[i],
                m.capabilities.text_document_sync.change,
            ),
        )
    } else {
        (m, p)
    }
}

/// The client and the requests after the pending changes of the first
/// `count` buffers were told, in the order of the buffers.
pub open spec fn changes_sent(
    m: ClientModel,
    p: Seq<PlatformRequestView>,
    buffers: &BufferCollection,
    count: int,
) -> (ClientModel, Seq<PlatformRequestView>)
    decreases count,
{
    if count <= 0 {
        (m, p)
    } else {
        let (m1, w1) = changes_sent(m, p, buffers, count - 1);
        change_sent_for(m1, w1, buffers, count - 1)
    }
}

/// The client and the requests after all pending changes were told; none
/// are told where the server does not take changes.
pub open spec fn pending_changes_sent(
    m: ClientModel,
    p: Seq<PlatformRequestView>,
    buffers: &BufferCollection,
) -> (ClientModel, Seq<PlatformRequestView>) {
    if m.capabilities.text_document_sync.change == TextDocumentSyncKind::Off {
        (m, p)
    } else {
        changes_sent(m, p, buffers, m.versioned_buffers.len() as int)
    }
}

/// The parameters that tell of a document that was saved: its URI, and its
/// text where the server wants it.
pub open spec fn did_save_params(root: Seq<char>, buffer: Buffer, kind: TextDocumentSyncKind) -> Json {
    if kind == TextDocumentSyncKind::Full {
        Json::Object(
            seq!["textDocument"@, "text"@],
            seq![
                document_id_json(root, buffer.path@),
                Json::String(whole_text(buffer.content@)),
            ],
        )
    } else {
        Json::Object(seq!["textDocument"@], seq![document_id_json(root, buffer.path@)])
    }
}

/// The client and the requests after the server was told that a buffer was
/// saved; it is told only where it asked for that and the buffer is synced.
pub open spec fn saved(
    m: ClientModel,
    p: Seq<PlatformRequestView>,
    buffers: &BufferCollection,
    handle: BufferHandle,
) -> (ClientModel, Seq<PlatformRequestView>) {
    if m.capabilities.text_document_sync.save == TextDocumentSyncKind::Off || !is_synced(
        buffers,
        handle,
    ) {
        (m, p)
    } else {
        notified(
            m,
            p,
            "textDocument/didSave"@,
            did_save_params(m.root, buffers.buffer(handle), m.capabilities.text_document_sync.save),
        )
    }
}

/// The client and the requests after the server was told that a buffer was
/// closed; it is told only where it asked for that and the buffer is synced.
pub open spec fn closed(
    m: ClientModel,
    p: Seq<PlatformRequestView>,
    buffers: &BufferCollection,
    handle: BufferHandle,
) -> (ClientModel, Seq<PlatformRequestView>) {
    if !m.capabilities.text_document_sync.open_close || !is_synced(buffers, handle) {
        (m, p)
    } else {
        notified(
            m,
            p,
            "textDocument/didClose"@,
            Json::Object(
                seq!["textDocument"@],
                seq![document_id_json(m.root, buffers.buffer(handle).path@)],
            ),
        )
    }
}

/// Tells the server that a buffer was opened.
pub fn send_did_open(
    client: &mut Client,
    editor: &Editor,
    platform: &mut Platform,
    buffer_handle: BufferHandle,
)
    ensures
        (final(client)@, final(platform)@) == opened(
            old(client)@,
            old(platform)@,
            &editor.buffers,
            buffer_handle,
        ),
{
    if !client.server_capabilities.text_document_sync.open_close {
        return ;
    }
    let buffer = match editor.buffers.get(buffer_handle) {
        Some(buffer) => buffer,
        None => {
            return ;
        },
    };
    if !buffer.capabilities.can_save {
        return ;
    }
    let path = buffer.path.as_str();
    let mut document = ObjectBuilder::new();
    document.set("uri", JsonValue::String(format_document_uri(client.root.as_str(), path)));
    document.set("languageId", json_string(path_to_language_id(path)));
    document.set("version", JsonValue::Integer(0));
    document.set("text", JsonValue::String(buffer.content.to_text()));
    let document = document.build();
    assert(document@->Object_0 =~= seq!["uri"@, "languageId"@, "version"@, "text"@]);
    assert(document@->Object_1 =~= seq![
        Json::String(document_uri(client.root@, buffer.path@)),
        Json::String(language_id(buffer.path@)),
        Json::Integer(0),
        Json::String(whole_text(buffer.content@)),
    ]);
    let ghost document_view = document@;
    let mut params = ObjectBuilder::new();
    params.set("textDocument", document);
    let params = params.build();
    assert(params@->Object_0 =~= seq!["textDocument"@]);
    assert(params@->Object_1 =~= seq![document_view]);
    client.notify(platform, "textDocument/didOpen", params);
}

fn change_events_json(
    kind: TextDocumentSyncKind,
    buffer: &Buffer,
    versioned: &VersionedBuffer,
) -> (r: JsonValue)
    ensures
        r@ == Json::Array(change_events(kind, buffer.content@, versioned@.pending_edits)),
{
    let mut changes: Vec<JsonValue> = Vec::new();
    match kind {
        TextDocumentSyncKind::Off => {
            assert(json_views(changes@) =~= Seq::<Json>::empty());
        },
        TextDocumentSyncKind::Full => {
            let mut event = ObjectBuilder::new();
            event.set("text", JsonValue::String(buffer.content.to_text()));
            let event = event.build();
            assert(event@->Object_0 =~= seq!["text"@]);
            assert(event@->Object_1 =~= seq![Json::String(whole_text(buffer.content@))]);
            changes.push(event);
            assert(json_views(changes@) =~= change_events(
                kind,
                buffer.content@,
                versioned@.pending_edits,
            ));
        },
        TextDocumentSyncKind::Incremental => {
            let mut i: usize = 0;
            while i < versioned.pending_edits.len()
                invariant
                    0 <= i <= versioned.pending_edits.len(),
                    changes@.len() == i,
                    forall|k: int|
                        0 <= k < i ==> (#[trigger] changes@[k])@ == change_event_json(
                            versioned@.pending_edits[k],
                        ),
                decreases versioned.pending_edits.len() - i,
            {
                let edit = &versioned.pending_edits[i];
                let mut event = ObjectBuilder::new();
                event.set(
                    "range",
                    DocumentRange::from_buffer_range(edit.buffer_range).to_json_value(),
                );
                event.set("text", json_string(edit.text.as_str()));
                let event = event.build();
                assert(event@->Object_0 =~= seq!["range"@, "text"@]);
                assert(event@->Object_1 =~= seq![
                    range_json(range_to_document(edit.buffer_range)),
                    Json::String(edit.text@),
                ]);
                changes.push(event);
                i = i + 1;
            }
            assert(json_views(changes@) =~= change_events(
                kind,
                buffer.content@,
                versioned@.pending_edits,
            ));
        },
    }
    json_array(changes)
}

/// Tells the server of the changes to the buffers that it was not told of
/// yet, buffer by buffer.
pub fn send_pending_did_change(client: &mut Client, editor: &Editor, platform: &mut Platform)
    ensures
        (final(client)@, final(platform)@) == pending_changes_sent(
            old(client)@,
            old(platform)@,
            &editor.buffers,
        ),
{
    let kind = client.server_capabilities.text_document_sync.change;
    if kind == TextDocumentSyncKind::Off {
        return ;
    }
    let count = client.versioned_buffers.buffers.len();
    let mut i: usize = 0;
    while i < count
        invariant
            0 <= i <= count,
            count == client@.versioned_buffers.len(),
            count == old(client)@.versioned_buffers.len(),
            kind == old(client)@.capabilities.text_document_sync.change,
            kind == client@.capabilities.text_document_sync.change,
            client@.root == old(client)@.root,
            (client@, platform@) == changes_sent(
                old(client)@,
                old(platform)@,
                &editor.buffers,
                i as int,
            ),
        decreases count - i,
    {
        if i <= u32::MAX as usize && client.versioned_buffers.buffers[i].pending_edits.len() > 0 {
            if let Some(buffer) = editor.buffers.get(BufferHandle(i as u32)) {
                if buffer.capabilities.can_save {
                    let ghost before = client@;
                    let ghost versioned = client@.versioned_buffers[i as int];
                    let version = client.versioned_buffers.buffers[i].version;
                    let version_value: i64 = if version as u64 > i64::MAX as u64 {
                        i64::MAX
                    } else {
                        version as i64
                    };
                    let mut document = ObjectBuilder::new();
                    document.set(
                        "uri",
                        JsonValue::String(
                            format_document_uri(client.root.as_str(), buffer.path.as_str()),
                        ),
                    );
                    document.set("version", JsonValue::Integer(version_value));
                    let document = document.build();
                    assert(document@->Object_0 =~= seq!["uri"@, "version"@]);
                    assert(document@->Object_1 =~= seq![
                        Json::String(document_uri(client.root@, buffer.path@)),
                        Json::Integer(clip_i64(version as int) as int),
                    ]);
                    let changes = change_events_json(
                        kind,
                        buffer,
                        &client.versioned_buffers.buffers[i],
                    );
                    let ghost document_view = document@;
                    let ghost changes_view = changes@;
                    let mut params = ObjectBuilder::new();
                    params.set("textDocument", document);
                    params.set("contentChanges", changes);
                    let params = params.build();
                    assert(params@->Object_0 =~= seq!["textDocument"@, "contentChanges"@]);
                    assert(params@->Object_1 =~= seq![document_view, changes_view]);
                    assert(params@ == did_change_params(before.root, *buffer, versioned, kind));
                    client.versioned_buffers.buffers[i].flush();
                    assert(client@.versioned_buffers =~= before.versioned_buffers.update(
                        i as int,
                        VersionedBufferView {
                            version: next_number(versioned.version),
                            pending_edits: Seq::empty(),
                        },
                    ));
                    client.notify(platform, "textDocument/didChange", params);
                }
            }
        }
        i = i + 1;
    }
}

/// Tells the server that a buffer was saved.
pub fn send_did_save(
    client: &mut Client,
    editor: &Editor,
    platform: &mut Platform,
    buffer_handle: BufferHandle,
)
    ensures
        (final(client)@, final(platform)@) == saved(
            old(client)@,
            old(platform)@,
            &editor.buffers,
            buffer_handle,
        ),
{
    let kind = client.server_capabilities.text_document_sync.save;
    if kind == TextDocumentSyncKind::Off {
        return ;
    }
    let buffer = match editor.buffers.get(buffer_handle) {
        Some(buffer) => buffer,
        None => {
            return ;
        },
    };
    if !buffer.capabilities.can_save {
        return ;
    }
    let document = text_document_with_id(client.root.as_str(), buffer.path.as_str());
    let ghost document_view = document@;
    let mut params = ObjectBuilder::new();
    params.set("textDocument", document);
    if kind == TextDocumentSyncKind::Full {
        params.set("text", JsonValue::String(buffer.content.to_text()));
        let params = params.build();
        assert(params@->Object_0 =~= seq!["textDocument"@, "text"@]);
        assert(params@->Object_1 =~= seq![
            document_view,
            Json::String(whole_text(buffer.content@)),
        ]);
        client.notify(platform, "textDocument/didSave", params);
    } else {
        let params = params.build();
        assert(params@->Object_0 =~= seq!["textDocument"@]);
        assert(params@->Object_1 =~= seq![document_view]);
        client.notify(platform, "textDocument/didSave", params);
    }
}

/// Tells the server that a buffer was closed.
pub fn send_did_close(
    client: &mut Client,
    editor: &Editor,
    platform: &mut Platform,
    buffer_handle: BufferHandle,
)
    ensures
        (final(client)@, final(platform)@) == closed(
            old(client)@,
            old(platform)@,
            &editor.buffers,
            buffer_handle,
        ),
{
    if !client.server_capabilities.text_document_sync.open_close {
        return ;
    }
    let buffer = match editor.buffers.get(buffer_handle) {
        Some(buffer) => buffer,
        None => {
            return ;
        },
    };
    if !buffer.capabilities.can_save {
        return ;
    }
    let document = text_document_with_id(client.root.as_str(), buffer.path.as_str());
    let ghost document_view = document@;
    let mut params = ObjectBuilder::new();
    params.set("textDocument", document);
    let params = params.build();
    assert(params@->Object_0 =~= seq!["textDocument"@]);
    assert(params@->Object_1 =~= seq![document_view]);
    client.notify(platform, "textDocument/didClose", params);
}

/// A buffer's pending changes are told under the version that the buffer
/// has, and step that version: what is told next for the buffer is told
/// under a greater version. Where nothing is told, nothing changes.
pub proof fn law_versions_increase(
    m: ClientModel,
    p: Seq<PlatformRequestView>,
    buffers: &BufferCollection,
    i: int,
)
    requires
        0 <= i < m.versioned_buffers.len(),
    ensures
        ({
            let (m1, w1) = change_sent_for(m, p, buffers, i);
            let told = i <= u32::MAX && m.versioned_buffers[i].pending_edits.len() > 0
                && is_synced(buffers, BufferHandle(i as u32));
            &&& told ==> m1.versioned_buffers[i].version == next_number(
                m.versioned_buffers[i].version,
            ) && m1.versioned_buffers[i].pending_edits.len() == 0 && (m.versioned_buffers[i].version
                < usize::MAX ==> m1.versioned_buffers[i].version > m.versioned_buffers[i].version)
            &&& !told ==> m1 == m && w1 == p
            &&& forall|j: int|
                0 <= j < m.versioned_buffers.len() && j != i ==> m1.versioned_buffers[j]
                    == m.versioned_buffers[j]
        }),
{
}

/// Telling pending changes touches nothing of a client but what it knows of
/// the buffers and its log.
pub open spec fn same_but_sync(a: ClientModel, b: ClientModel) -> bool {
    a == (ClientModel { versioned_buffers: a.versioned_buffers, log: a.log, ..b })
        && a.versioned_buffers.len() == b.versioned_buffers.len()
}

pub proof fn lemma_changes_sent_keep(
    m: ClientModel,
    p: Seq<PlatformRequestView>,
    buffers: &BufferCollection,
    count: int,
)
    ensures
        same_but_sync(changes_sent(m, p, buffers, count).0, m),
    decreases count,
{
    if count > 0 {
        lemma_changes_sent_keep(m, p, buffers, count - 1);
    }
}

pub proof fn lemma_pending_changes_keep(
    m: ClientModel,
    p: Seq<PlatformRequestView>,
    buffers: &BufferCollection,
)
    ensures
        same_but_sync(pending_changes_sent(m, p, buffers).0, m),
{
    lemma_changes_sent_keep(m, p, buffers, m.versioned_buffers.len() as int);
}

/// The parameters of a request about a place in a document.
pub open spec fn position_params(root: Seq<char>, path: Seq<char>, position: BufferPosition) -> Json {
    Json::Object(
        seq!["textDocument"@, "position"@],
        seq![document_id_json(root, path), position_json(position_to_document(position))],
    )
}

/// The parameters of a request for the references to what stands at a place.
pub open spec fn references_params(
    root: Seq<char>,
    path: Seq<char>,
    position: BufferPosition,
) -> Json {
    Json::Object(
        seq!["textDocument"@, "position"@, "context"@],
        seq![
            document_id_json(root, path),
            position_json(position_to_document(position)),
            Json::Object(seq!["includeDeclaration"@], seq![Json::Boolean(true)]),
        ],
    )
}

/// The client and the requests after a request about a place in a buffer:
/// the pending changes are told first, then the client takes the state
/// given, if any, and asks.
pub open spec fn place_requested(
    m: ClientModel,
    p: Seq<PlatformRequestView>,
    buffers: &BufferCollection,
    state: Option<RequestState>,
    method: Seq<char>,
    params: Json,
) -> (ClientModel, Seq<PlatformRequestView>) {
    let (m1, w1) = pending_changes_sent(m, p, buffers);
    requested(
        match state {
            Some(state) => ClientModel { request_state: state, ..m1 },
            None => m1,
        },
        w1,
        method,
        params,
    )
}

/// The client and the requests after the client was asked to show what a
/// server knows of a place. Nothing happens where the server cannot tell or
/// the buffer does not exist.
pub open spec fn hover_requested(
    m: ClientModel,
    p: Seq<PlatformRequestView>,
    buffers: &BufferCollection,
    handle: BufferHandle,
    position: BufferPosition,
) -> (ClientModel, Seq<PlatformRequestView>) {
    if !m.capabilities.hover_provider || !buffers.contains(handle) {
        (m, p)
    } else {
        place_requested(
            m,
            p,
            buffers,
            None,
            "textDocument/hover"@,
            position_params(m.root, buffers.buffer(handle).path@, position),
        )
    }
}

pub open spec fn signature_help_requested(
    m: ClientModel,
    p: Seq<PlatformRequestView>,
    buffers: &BufferCollection,
    handle: BufferHandle,
    position: BufferPosition,
) -> (ClientModel, Seq<PlatformRequestView>) {
    if !m.capabilities.signature_help_provider.on || !buffers.contains(handle) {
        (m, p)
    } else {
        place_requested(
            m,
            p,
            buffers,
            None,
            "textDocument/signatureHelp"@,
            position_params(m.root, buffers.buffer(handle).path@, position),
        )
    }
}

/// The client and the requests after the client was asked for the
/// definition of what stands at a place. Nothing happens where the server
/// cannot tell, the client waits for another response, or the buffer does
/// not exist.
pub open spec fn definition_requested(
    m: ClientModel,
    p: Seq<PlatformRequestView>,
    buffers: &BufferCollection,
    handle: BufferHandle,
    position: BufferPosition,
    client: TargetClient,
) -> (ClientModel, Seq<PlatformRequestView>) {
    if !m.capabilities.definition_provider || m.request_state != RequestState::Idle
        || !buffers.contains(handle) {
        (m, p)
    } else {
        place_requested(
            m,
            p,
            buffers,
            Some(RequestState::Definition { client }),
            "textDocument/definition"@,
            position_params(m.root, buffers.buffer(handle).path@, position),
        )
    }
}

pub open spec fn references_requested(
    m: ClientModel,
    p: Seq<PlatformRequestView>,
    buffers: &BufferCollection,
    handle: BufferHandle,
    position: BufferPosition,
    context_len: usize,
    auto_close_buffer: bool,
    client: TargetClient,
) -> (ClientModel, Seq<PlatformRequestView>) {
    if !m.capabilities.references_provider || m.request_state != RequestState::Idle
        || !buffers.contains(handle) {
        (m, p)
    } else {
        place_requested(
            m,
            p,
            buffers,
            Some(RequestState::References { client, context_len, auto_close_buffer }),
            "textDocument/references"@,
            references_params(m.root, buffers.buffer(handle).path@, position),
        )
    }
}

/// The parameters of a request for the symbols of the workspace.
pub open spec fn workspace_symbols_params(query: Seq<char>) -> Json {
    Json::Object(seq!["query"@], seq![Json::String(query)])
}

pub open spec fn workspace_symbols_requested(
    m: ClientModel,
    p: Seq<PlatformRequestView>,
    buffers: &BufferCollection,
    client: TargetClient,
    query: Seq<char>,
    auto_close_buffer: bool,
) -> (ClientModel, Seq<PlatformRequestView>) {
    if !m.capabilities.workspace_symbol_provider || m.request_state != RequestState::Idle {
        (m, p)
    } else {
        place_requested(
            m,
            p,
            buffers,
            Some(RequestState::WorkspaceSymbols { client, auto_close_buffer }),
            "workspace/symbol"@,
            workspace_symbols_params(query),
        )
    }
}

/// The parameters of a request to format a document.
pub open spec fn formatting_params(
    root: Seq<char>,
    path: Seq<char>,
    tab_size: u8,
    indent_with_tabs: bool,
) -> Json {
    Json::Object(
        seq!["textDocument"@, "options"@],
        seq![
            document_id_json(root, path),
            Json::Object(
                seq!["tabSize"@, "insertSpaces"@, "trimTrailingWhitespace"@, "trimFinalNewlines"@],
                seq![
                    Json::Integer(tab_size as int),
                    Json::Boolean(!indent_with_tabs),
                    Json::Boolean(true),
                    Json::Boolean(true),
                ],
            ),
        ],
    )
}

pub open spec fn formatting_requested(
    m: ClientModel,
    p: Seq<PlatformRequestView>,
    editor: &Editor,
    handle: BufferHandle,
) -> (ClientModel, Seq<PlatformRequestView>) {
    if !m.capabilities.document_formatting_provider || m.request_state != RequestState::Idle
        || !editor.buffers.contains(handle) {
        (m, p)
    } else {
        place_requested(
            m,
            p,
            &editor.buffers,
            Some(RequestState::Formatting { buffer_handle: handle }),
            "textDocument/formatting"@,
            formatting_params(
                m.root,
                editor.buffers.buffer(handle).path@,
                editor.config.tab_size,
                editor.config.indent_with_tabs,
            ),
        )
    }
}

/// The buffer that a view shows, where the view and the buffer exist.
pub open spec fn buffer_of_view(editor: &Editor, view: BufferViewHandle) -> Option<BufferHandle> {
    if editor.buffer_views.contains(view) && editor.buffers.contains(
        editor.buffer_views.view_of(view).buffer_handle,
    ) {
        Some(editor.buffer_views.view_of(view).buffer_handle)
    } else {
        None
    }
}

pub open spec fn document_symbols_requested(
    m: ClientModel,
    p: Seq<PlatformRequestView>,
    editor: &Editor,
    client: TargetClient,
    view: BufferViewHandle,
) -> (ClientModel, Seq<PlatformRequestView>) {
    if !m.capabilities.document_symbol_provider || m.request_state != RequestState::Idle
        || buffer_of_view(editor, view) is None {
        (m, p)
    } else {
        place_requested(
            m,
            p,
            &editor.buffers,
            Some(RequestState::DocumentSymbols { client, buffer_view_handle: view }),
            "textDocument/documentSymbol"@,
            Json::Object(
                seq!["textDocument"@],
                seq![
                    document_id_json(
                        m.root,
                        editor.buffers.buffer(buffer_of_view(editor, view).unwrap()).path@,
                    ),
                ],
            ),
        )
    }
}

fn build_position_params(root: &str, path: &str, position: BufferPosition) -> (r: ObjectBuilder)
    ensures
        r.built() == position_params(root@, path@, position),
        r.keys@.len() == r.values@.len(),
{
    let mut params = ObjectBuilder::new();
    params.set("textDocument", text_document_with_id(root, path));
    params.set("position", DocumentPosition::from_buffer_position(position).to_json_value());
    assert(params.built()->Object_0 =~= seq!["textDocument"@, "position"@]);
    assert(params.built()->Object_1 =~= seq![
        document_id_json(root@, path@),
        position_json(position_to_document(position)),
    ]);
    params
}

impl Client {
    /// Asks the server what it knows of a place, to show it on the status bar.
    pub fn hover(
        &mut self,
        editor: &Editor,
        platform: &mut Platform,
        buffer_handle: BufferHandle,
        position: BufferPosition,
    )
        ensures
            (final(self)@, final(platform)@) == hover_requested(
                old(self)@,
                old(platform)@,
                &editor.buffers,
                buffer_handle,
                position,
            ),
    {
        if !self.server_capabilities.hover_provider {
            return ;
        }
        let buffer_path = match editor.buffers.get(buffer_handle) {
            Some(buffer) => buffer.path.as_str(),
            None => {
                return ;
            },
        };
        proof {
            lemma_pending_changes_keep(self@, platform@, &editor.buffers);
        }
        send_pending_did_change(self, editor, platform);
        let params = build_position_params(self.root.as_str(), buffer_path, position);
        self.request(platform, "textDocument/hover", params.build());
    }

    /// Asks the server for the signature of what is being called at a place.
    pub fn signature_help(
        &mut self,
        editor: &Editor,
        platform: &mut Platform,
        buffer_handle: BufferHandle,
        position: BufferPosition,
    )
        ensures
            (final(self)@, final(platform)@) == signature_help_requested(
                old(self)@,
                old(platform)@,
                &editor.buffers,
                buffer_handle,
                position,
            ),
    {
        if !self.server_capabilities.signature_help_provider.on {
            return ;
        }
        let buffer_path = match editor.buffers.get(buffer_handle) {
            Some(buffer) => buffer.path.as_str(),
            None => {
                return ;
            },
        };
        proof {
            lemma_pending_changes_keep(self@, platform@, &editor.buffers);
        }
        send_pending_did_change(self, editor, platform);
        let params = build_position_params(self.root.as_str(), buffer_path, position);
        self.request(platform, "textDocument/signatureHelp", params.build());
    }

    /// Asks the server where what stands at a place is defined, for `client`
    /// to be taken there.
    pub fn definition(
        &mut self,
        editor: &Editor,
        platform: &mut Platform,
        buffer_handle: BufferHandle,
        position: BufferPosition,
        client: TargetClient,
    )
        ensures
            (final(self)@, final(platform)@) == definition_requested(
                old(self)@,
                old(platform)@,
                &editor.buffers,
                buffer_handle,
                position,
                client,
            ),
    {
        if !self.server_capabilities.definition_provider || !self.request_state.is_idle() {
            return ;
        }
        let buffer_path = match editor.buffers.get(buffer_handle) {
            Some(buffer) => buffer.path.as_str(),
            None => {
                return ;
            },
        };
        proof {
            lemma_pending_changes_keep(self@, platform@, &editor.buffers);
        }
        send_pending_did_change(self, editor, platform);
        let params = build_position_params(self.root.as_str(), buffer_path, position);
        self.request_state = RequestState::Definition { client };
        self.request(platform, "textDocument/definition", params.build());
    }

    /// Asks the server where what stands at a place is referred to, for
    /// `client` to be shown the places, each with `context_len` lines around it.
    pub fn references(
        &mut self,
        editor: &Editor,
        platform: &mut Platform,
        buffer_handle: BufferHandle,
        position: BufferPosition,
        context_len: usize,
        auto_close_buffer: bool,
        client: TargetClient,
    )
        ensures
            (final(self)@, final(platform)@) == references_requested(
                old(self)@,
                old(platform)@,
                &editor.buffers,
                buffer_handle,
                position,
                context_len,
                auto_close_buffer,
                client,
            ),
    {
        if !self.server_capabilities.references_provider || !self.request_state.is_idle() {
            return ;
        }
        let buffer_path = match editor.buffers.get(buffer_handle) {
            Some(buffer) => buffer.path.as_str(),
            None => {
                return ;
            },
        };
        proof {
            lemma_pending_changes_keep(self@, platform@, &editor.buffers);
        }
        send_pending_did_change(self, editor, platform);
        let mut context = ObjectBuilder::new();
        context.set("includeDeclaration", JsonValue::Boolean(true));
        let context = context.build();
        assert(context@->Object_0 =~= seq!["includeDeclaration"@]);
        assert(context@->Object_1 =~= seq![Json::Boolean(true)]);
        let mut params = build_position_params(self.root.as_str(), buffer_path, position);
        let ghost context_view = context@;
        params.set("context", context);
        assert(params.built()->Object_0 =~= seq!["textDocument"@, "position"@, "context"@]);
        assert(params.built()->Object_1 =~= seq![
            document_id_json(self.root@, buffer_path@),
            position_json(position_to_document(position)),
            context_view,
        ]);
        self.request_state = RequestState::References { client, context_len, auto_close_buffer };
        self.request(platform, "textDocument/references", params.build());
    }

    /// Asks the server for the symbols of the document that a view shows.
    pub fn document_symbols(
        &mut self,
        editor: &Editor,
        platform: &mut Platform,
        client: TargetClient,
        buffer_view_handle: BufferViewHandle,
    )
        ensures
            (final(self)@, final(platform)@) == document_symbols_requested(
                old(self)@,
                old(platform)@,
                editor,
                client,
                buffer_view_handle,
            ),
    {
        if !self.server_capabilities.document_symbol_provider || !self.request_state.is_idle() {
            return ;
        }
        let buffer_handle = match editor.buffer_views.get(buffer_view_handle) {
            Some(view) => view.buffer_handle,
            None => {
                return ;
            },
        };
        let buffer_path = match editor.buffers.get(buffer_handle) {
            Some(buffer) => buffer.path.as_str(),
            None => {
                return ;
            },
        };
        proof {
            lemma_pending_changes_keep(self@, platform@, &editor.buffers);
        }
        send_pending_did_change(self, editor, platform);
        let document = text_document_with_id(self.root.as_str(), buffer_path);
        let ghost document_view = document@;
        let mut params = ObjectBuilder::new();
        params.set("textDocument", document);
        assert(params.built()->Object_0 =~= seq!["textDocument"@]);
        assert(params.built()->Object_1 =~= seq![document_view]);
        self.request_state = RequestState::DocumentSymbols { client, buffer_view_handle };
        self.request(platform, "textDocument/documentSymbol", params.build());
    }

    /// Asks the server for the symbols of the workspace that match `query`.
    pub fn workspace_symbols(
        &mut self,
        editor: &Editor,
        platform: &mut Platform,
        client: TargetClient,
        query: &str,
        auto_close_buffer: bool,
    )
        ensures
            (final(self)@, final(platform)@) == workspace_symbols_requested(
                old(self)@,
                old(platform)@,
                &editor.buffers,
                client,
                query@,
                auto_close_buffer,
            ),
    {
        if !self.server_capabilities.workspace_symbol_provider || !self.request_state.is_idle() {
            return ;
        }
        proof {
            lemma_pending_changes_keep(self@, platform@, &editor.buffers);
        }
        send_pending_did_change(self, editor, platform);
        let mut params = ObjectBuilder::new();
        params.set("query", json_string(query));
        assert(params.built()->Object_0 =~= seq!["query"@]);
        assert(params.built()->Object_1 =~= seq![Json::String(query@)]);
        self.request_state = RequestState::WorkspaceSymbols { client, auto_close_buffer };
        self.request(platform, "workspace/symbol", params.build());
    }

    /// Asks the server to format a buffer.
    pub fn formatting(&mut self, editor: &Editor, platform: &mut Platform, buffer_handle: BufferHandle)
        ensures
            (final(self)@, final(platform)@) == formatting_requested(
                old(self)@,
                old(platform)@,
                editor,
                buffer_handle,
            ),
    {
        if !self.server_capabilities.document_formatting_provider || !self.request_state.is_idle() {
            return ;
        }
        let buffer_path = match editor.buffers.get(buffer_handle) {
            Some(buffer) => buffer.path.as_str(),
            None => {
                return ;
            },
        };
        proof {
            lemma_pending_changes_keep(self@, platform@, &editor.buffers);
        }
        send_pending_did_change(self, editor, platform);
        let mut options = ObjectBuilder::new();
        options.set("tabSize", JsonValue::Integer(editor.config.tab_size as i64));
        options.set("insertSpaces", JsonValue::Boolean(!editor.config.indent_with_tabs));
        options.set("trimTrailingWhitespace", JsonValue::Boolean(true));
        options.set("trimFinalNewlines", JsonValue::Boolean(true));
        let options = options.build();
        assert(options@->Object_0 =~= seq![
            "tabSize"@,
            "insertSpaces"@,
            "trimTrailingWhitespace"@,
            "trimFinalNewlines"@,
        ]);
        assert(options@->Object_1 =~= seq![
            Json::Integer(editor.config.tab_size as int),
            Json::Boolean(!editor.config.indent_with_tabs),
            Json::Boolean(true),
            Json::Boolean(true),
        ]);
        let document = text_document_with_id(self.root.as_str(), buffer_path);
        let ghost document_view = document@;
        let ghost options_view = options@;
        let mut params = ObjectBuilder::new();
        params.set("textDocument", document);
        params.set("options", options);
        assert(params.built()->Object_0 =~= seq!["textDocument"@, "options"@]);
        assert(params.built()->Object_1 =~= seq![document_view, options_view]);
        self.request_state = RequestState::Formatting { buffer_handle };
        self.request(platform, "textDocument/formatting", params.build());
    }
}

} // verus!
