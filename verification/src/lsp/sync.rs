//! How a client keeps its server up to date with what happens to the buffers.

use crate::buffer_position::BufferRange;
use crate::editor::Editor;
use crate::events::{event_views, BufferHandle, EditorEvent, EditorEventView};
use crate::lsp::client::{
    closed, entries_after_save, entry_of_buffer, opened, pending_changes_sent, saved,
    send_did_close, send_did_open, send_did_save, send_pending_did_change, unbound_entry_of_file,
    versioned_at, BufferDiagnosticsView, Client, ClientModel, VersionedBufferEditView,
    VersionedBufferView,
};
use crate::buffer::BufferCollection;
use crate::lsp::capabilities::TextDocumentSyncKind;
use crate::platform::{Platform, PlatformRequestView};
use vstd::prelude::*;

verus! {

/// The table of versions once a change to a buffer was noted: the change
/// stands behind those that are pending for the buffer; the table has grown
/// to hold the buffer where it did not.
pub open spec fn edit_noted(
    table: Seq<VersionedBufferView>,
    handle: BufferHandle,
    range: BufferRange,
    text: Seq<char>,
) -> Seq<VersionedBufferView> {
    Seq::new(
        if table.len() > handle.0 {
            table.len()
        } else {
            (handle.0 + 1) as nat
        },
        |i: int|
            if i == handle.0 {
                VersionedBufferView {
                    version: versioned_at(table, i).version,
                    pending_edits: versioned_at(table, i).pending_edits.push(
                        VersionedBufferEditView { buffer_range: range, text },
                    ),
                }
            } else {
                versioned_at(table, i)
            },
    )
}

/// The table of versions once what the server knows of a buffer was
/// forgotten.
pub open spec fn forgotten(table: Seq<VersionedBufferView>, handle: BufferHandle) -> Seq<
    VersionedBufferView,
> {
    if handle.0 < table.len() {
        table.update(
            handle.0 as int,
            VersionedBufferView { version: 1, pending_edits: Seq::empty() },
        )
    } else {
        table
    }
}

/// The diagnostics once a buffer was loaded: the first unbound entry for
/// its file is bound to it.
pub open spec fn entries_after_load(
    entries: Seq<BufferDiagnosticsView>,
    editor: &Editor,
    handle: BufferHandle,
    root: Seq<char>,
) -> Seq<BufferDiagnosticsView> {
    if editor.buffers.contains(handle) {
        let i = unbound_entry_of_file(
            entries,
            editor.current_directory@,
            editor.buffers.buffer(handle).path@,
            root,
            0,
        );
        if i < entries.len() {
            entries.update(i, BufferDiagnosticsView { buffer_handle: Some(handle), ..entries[i] })
        } else {
            entries
        }
    } else {
        entries
    }
}

/// The diagnostics once a buffer was saved: its entries follow the file
/// that it has now.
pub open spec fn entries_after_saving(
    entries: Seq<BufferDiagnosticsView>,
    editor: &Editor,
    handle: BufferHandle,
    root: Seq<char>,
) -> Seq<BufferDiagnosticsView> {
    if editor.buffers.contains(handle) {
        entries_after_save(
            entries,
            handle,
            editor.current_directory@,
            editor.buffers.buffer(handle).path@,
            root,
            0,
        )
    } else {
        entries
    }
}

/// The diagnostics once a buffer was closed: the first entry that was bound
/// to it is bound to none.
pub open spec fn entries_after_close(
    entries: Seq<BufferDiagnosticsView>,
    handle: BufferHandle,
) -> Seq<BufferDiagnosticsView> {
    let i = entry_of_buffer(entries, handle, 0);
    if i < entries.len() {
        entries.update(i, BufferDiagnosticsView { buffer_handle: None, ..entries[i] })
    } else {
        entries
    }
}

/// The client and the requests to the platform once the client has seen
/// one event of the editor. When the editor is idle the pending changes are
/// told. A buffer that was loaded starts afresh and is told as opened. A
/// change is noted as pending. A buffer that was saved has its pending
/// changes told, then the save. A buffer that was closed has its pending
/// changes told, is told as closed, and then starts afresh; it is no longer
/// the log of the client.
pub open spec fn event_handled(
    m: ClientModel,
    p: Seq<PlatformRequestView>,
    editor: &Editor,
    event: EditorEventView,
) -> (ClientModel, Seq<PlatformRequestView>) {
    match event {
        EditorEventView::Idle => pending_changes_sent(m, p, &editor.buffers),
        EditorEventView::BufferLoad { handle } => opened(
            ClientModel {
                versioned_buffers: forgotten(m.versioned_buffers, handle),
                diagnostics: entries_after_load(m.diagnostics, editor, handle, m.root),
                ..m
            },
            p,
            &editor.buffers,
            handle,
        ),
        EditorEventView::BufferInsertText { handle, range, text } => (
            ClientModel {
                versioned_buffers: edit_noted(
                    m.versioned_buffers,
                    handle,
                    BufferRange { from: range.from, to: range.from },
                    text,
                ),
                ..m
            },
            p,
        ),
        EditorEventView::BufferDeleteText { handle, range } => (
            ClientModel {
                versioned_buffers: edit_noted(m.versioned_buffers, handle, range, Seq::empty()),
                ..m
            },
            p,
        ),
        EditorEventView::BufferSave { handle, new_path } => {
            let (m1, w1) = pending_changes_sent(
                ClientModel {
                    diagnostics: entries_after_saving(m.diagnostics, editor, handle, m.root),
                    ..m
                },
                p,
                &editor.buffers,
            );
            saved(m1, w1, &editor.buffers, handle)
        },
        EditorEventView::BufferClose { handle } => {
            let (m1, w1) = pending_changes_sent(
                ClientModel {
                    log_buffer_handle: if m.log_buffer_handle == Some(handle) {
                        None
                    } else {
                        m.log_buffer_handle
                    },
                    diagnostics: entries_after_close(m.diagnostics, handle),
                    ..m
                },
                p,
                &editor.buffers,
            );
            let (m2, w2) = closed(m1, w1, &editor.buffers, handle);
            (ClientModel { versioned_buffers: forgotten(m2.versioned_buffers, handle), ..m2 }, w2)
        },
        EditorEventView::ClientChangeBufferView { client } => (m, p),
    }
}

/// The client and the requests to the platform once the client has seen
/// the first `count` events, oldest first.
pub open spec fn events_handled(
    m: ClientModel,
    p: Seq<PlatformRequestView>,
    editor: &Editor,
    events: Seq<EditorEventView>,
    count: int,
) -> (ClientModel, Seq<PlatformRequestView>)
    decreases count,
{
    if count <= 0 || count > events.len() {
        (m, p)
    } else {
        let (m1, w1) = events_handled(m, p, editor, events, count - 1);
        event_handled(m1, w1, editor, events[count - 1])
    }
}

impl Client {
    fn on_editor_event(&mut self, editor: &Editor, platform: &mut Platform, event: &EditorEvent)
        ensures
            (final(self)@, final(platform)@) == event_handled(
                old(self)@,
                old(platform)@,
                editor,
                event@,
            ),
    {
        match event {
            EditorEvent::Idle => {
                send_pending_did_change(self, editor, platform);
            },
            EditorEvent::BufferLoad { handle } => {
                self.versioned_buffers.dispose(*handle);
                assert(self.versioned_buffers@ =~= forgotten(old(self).versioned_buffers@, *handle));
                self.diagnostics.on_load_buffer(editor, *handle, self.root.as_str());
                send_did_open(self, editor, platform, *handle);
            },
            EditorEvent::BufferInsertText { handle, range, text } => {
                let place = BufferRange { from: range.from, to: range.from };
                self.versioned_buffers.add_edit(*handle, place, text.as_str());
                assert(self.versioned_buffers@ =~= edit_noted(
                    old(self).versioned_buffers@,
                    *handle,
                    place,
                    text@,
                ));
            },
            EditorEvent::BufferDeleteText { handle, range } => {
                proof {
                    reveal_strlit("");
                    assert(""@ =~= Seq::<char>::empty());
                }
                self.versioned_buffers.add_edit(*handle, *range, "");
                assert(self.versioned_buffers@ =~= edit_noted(
                    old(self).versioned_buffers@,
                    *handle,
                    *range,
                    Seq::empty(),
                ));
            },
            EditorEvent::BufferSave { handle, new_path } => {
                self.diagnostics.on_save_buffer(editor, *handle, self.root.as_str());
                send_pending_did_change(self, editor, platform);
                send_did_save(self, editor, platform, *handle);
            },
            EditorEvent::BufferClose { handle } => {
                if self.log_buffer_handle == Some(*handle) {
                    self.log_buffer_handle = None;
                }
                self.diagnostics.on_close_buffer(*handle);
                send_pending_did_change(self, editor, platform);
                send_did_close(self, editor, platform, *handle);
                let ghost told = self.versioned_buffers@;
                self.versioned_buffers.dispose(*handle);
                assert(self.versioned_buffers@ =~= forgotten(told, *handle));
            },
            EditorEvent::ClientChangeBufferView { client } => {},
        }
    }

    /// Lets the client see the events that the editor is reading, oldest
    /// first. A client that is not initialized sees none.
    pub fn on_editor_events(&mut self, editor: &Editor, platform: &mut Platform)
        ensures
            (final(self)@, final(platform)@) == if old(self)@.initialized {
                events_handled(
                    old(self)@,
                    old(platform)@,
                    editor,
                    editor.editor_events.reading(),
                    editor.editor_events.reading().len() as int,
                )
            } else {
                (old(self)@, old(platform)@)
            },
    {
        if !self.initialized {
            return ;
        }
        let events = editor.editor_events.events();
        let mut i: usize = 0;
        while i < events.len()
            invariant
                0 <= i <= events.len(),
                event_views(events@) == editor.editor_events.reading(),
                (self@, platform@) == events_handled(
                    old(self)@,
                    old(platform)@,
                    editor,
                    editor.editor_events.reading(),
                    i as int,
                ),
            decreases events.len() - i,
        {
            assert(event_views(events@)[i as int] == events@[i as int]@);
            self.on_editor_event(editor, platform, &events[i]);
            i = i + 1;
        }
    }
}

/// Whether no buffer has changes that the server was not told of.
pub open spec fn nothing_pending(table: Seq<VersionedBufferView>) -> bool {
    forall|j: int| 0 <= j < table.len() ==> (#[trigger] table[j]).pending_edits.len() == 0
}

/// Whether no buffer but the one at the place `only` has changes that the
/// server was not told of.
pub open spec fn pending_only_at(table: Seq<VersionedBufferView>, only: int) -> bool {
    forall|j: int|
        0 <= j < table.len() && j != only ==> (#[trigger] table[j]).pending_edits.len() == 0
}

/// Where one buffer alone has pending changes, telling the pending changes
/// of the first `count` buffers tells those of that buffer, once `count`
/// reaches it, and nothing else.
pub proof fn lemma_one_buffer_told(
    m: ClientModel,
    w: Seq<PlatformRequestView>,
    buffers: &BufferCollection,
    only: int,
    count: int,
)
    requires
        pending_only_at(m.versioned_buffers, only),
        0 <= count <= m.versioned_buffers.len(),
    ensures
        crate::lsp::client::changes_sent(m, w, buffers, count) == if only < count {
            crate::lsp::client::change_sent_for(m, w, buffers, only)
        } else {
            (m, w)
        },
    decreases count,
{
    if count > 0 {
        lemma_one_buffer_told(m, w, buffers, only, count - 1);
        let j = count - 1;
        let (m1, w1) = crate::lsp::client::changes_sent(m, w, buffers, count - 1);
        if j != only {
            assert(m.versioned_buffers[j].pending_edits.len() == 0);
            if only < j && 0 <= only {
                assert(m1.versioned_buffers[j] == m.versioned_buffers[j]);
            }
        }
    }
}

/// Two insertions into a buffer and then its save, with no idle time
/// between them, tell a server that takes changes and whole texts on save
/// exactly one change, which holds the two insertions in order, and then
/// the save with the text of the buffer: these two messages and nothing
/// else are sent.
pub proof fn law_changes_are_flushed_on_save(
    m: ClientModel,
    w: Seq<PlatformRequestView>,
    editor: &Editor,
    handle: BufferHandle,
    first: (BufferRange, Seq<char>),
    second: (BufferRange, Seq<char>),
    new_path: bool,
)
    requires
        m.capabilities.text_document_sync.change == TextDocumentSyncKind::Incremental,
        m.capabilities.text_document_sync.save == TextDocumentSyncKind::Full,
        nothing_pending(m.versioned_buffers),
        crate::lsp::client::is_synced(&editor.buffers, handle),
    ensures
        ({
            let events = seq![
                EditorEventView::BufferInsertText { handle, range: first.0, text: first.1 },
                EditorEventView::BufferInsertText { handle, range: second.0, text: second.1 },
                EditorEventView::BufferSave { handle, new_path },
            ];
            let edits = seq![
                VersionedBufferEditView {
                    buffer_range: BufferRange { from: first.0.from, to: first.0.from },
                    text: first.1,
                },
                VersionedBufferEditView {
                    buffer_range: BufferRange { from: second.0.from, to: second.0.from },
                    text: second.1,
                },
            ];
            let buffer = editor.buffers.buffer(handle);
            let (m1, w1) = events_handled(m, w, editor, events, 3);
            let change = crate::lsp::protocol::notification_json(
                "textDocument/didChange"@,
                crate::lsp::client::did_change_params(
                    m.root,
                    buffer,
                    VersionedBufferView {
                        version: versioned_at(m.versioned_buffers, handle.0 as int).version,
                        pending_edits: edits,
                    },
                    TextDocumentSyncKind::Incremental,
                ),
            );
            let save = crate::lsp::protocol::notification_json(
                "textDocument/didSave"@,
                crate::lsp::client::did_save_params(m.root, buffer, TextDocumentSyncKind::Full),
            );
            &&& w1 == crate::lsp::protocol::with_message(
                crate::lsp::protocol::with_message(w, m.process_handle, change),
                m.process_handle,
                save,
            )
            &&& crate::lsp::client::change_events(
                TextDocumentSyncKind::Incremental,
                buffer.content@,
                edits,
            ) == seq![
                crate::lsp::client::change_event_json(edits[0]),
                crate::lsp::client::change_event_json(edits[1]),
            ]
            &&& nothing_pending(m1.versioned_buffers)
        }),
{
    let e1 = EditorEventView::BufferInsertText { handle, range: first.0, text: first.1 };
    let e2 = EditorEventView::BufferInsertText { handle, range: second.0, text: second.1 };
    let e3 = EditorEventView::BufferSave { handle, new_path };
    let events = seq![e1, e2, e3];
    let h = handle.0 as int;
    reveal_with_fuel(events_handled, 4);
    let s0 = events_handled(m, w, editor, events, 0);
    assert(s0 == (m, w));
    let s1 = events_handled(m, w, editor, events, 1);
    assert(s1 == event_handled(m, w, editor, e1));
    let s2 = events_handled(m, w, editor, events, 2);
    assert(s2 == event_handled(s1.0, s1.1, editor, e2));
    let s3 = events_handled(m, w, editor, events, 3);
    assert(s3 == event_handled(s2.0, s2.1, editor, e3));
    let t1 = s1.0.versioned_buffers;
    let t2 = s2.0.versioned_buffers;
    let edit1 = VersionedBufferEditView {
        buffer_range: BufferRange { from: first.0.from, to: first.0.from },
        text: first.1,
    };
    let edit2 = VersionedBufferEditView {
        buffer_range: BufferRange { from: second.0.from, to: second.0.from },
        text: second.1,
    };
    let edits = seq![edit1, edit2];
    assert(t1 == edit_noted(m.versioned_buffers, handle, edit1.buffer_range, first.1));
    assert(t2 == edit_noted(t1, handle, edit2.buffer_range, second.1));
    assert(versioned_at(m.versioned_buffers, h).pending_edits =~= Seq::<
        VersionedBufferEditView,
    >::empty());
    assert(t2[h].pending_edits =~= edits);
    assert(t2[h].version == versioned_at(m.versioned_buffers, h).version);
    assert(pending_only_at(t2, h)) by {
        assert forall|j: int| 0 <= j < t2.len() && j != h implies (
        #[trigger] t2[j]).pending_edits.len() == 0 by {
            assert(t2[j] == versioned_at(t1, j));
            if j < t1.len() {
                assert(t1[j] == versioned_at(m.versioned_buffers, j));
            }
        }
    }
    let saving = ClientModel {
        diagnostics: entries_after_saving(s2.0.diagnostics, editor, handle, s2.0.root),
        ..s2.0
    };
    lemma_one_buffer_told(saving, s2.1, &editor.buffers, h, t2.len() as int);
    assert(crate::lsp::client::change_events(
        TextDocumentSyncKind::Incremental,
        editor.buffers.buffer(handle).content@,
        edits,
    ) =~= seq![
        crate::lsp::client::change_event_json(edits[0]),
        crate::lsp::client::change_event_json(edits[1]),
    ]);
    let told = crate::lsp::client::change_sent_for(saving, s2.1, &editor.buffers, h);
    assert forall|j: int| 0 <= j < s3.0.versioned_buffers.len() implies (
    #[trigger] s3.0.versioned_buffers[j]).pending_edits.len() == 0 by {
        if j != h {
            assert(told.0.versioned_buffers[j] == t2[j]);
        }
    }
}

} // verus!
