//! What a language server says it can do.

use crate::json::{elements, has_member, json_views, member, Json, JsonValue};
use crate::lsp::protocol::JsonConvertError;
use vstd::prelude::*;

verus! {

/// How a server wants to be told of changes to a document.
#[derive(Debug, Clone, Copy, PartialEq, Eq, Structural)]
pub enum TextDocumentSyncKind {
    Off,
    Full,
    Incremental,
}

#[derive(Debug, Clone, Copy, PartialEq, Eq, Structural)]
pub struct TextDocumentSyncCapability {
    pub open_close: bool,
    pub change: TextDocumentSyncKind,
    pub save: TextDocumentSyncKind,
}

#[derive(Debug, Clone, Copy, PartialEq, Eq, Structural)]
pub struct RenameCapability {
    pub on: bool,
    pub prepare_provider: bool,
}

pub struct TriggerCharactersCapability {
    pub on: bool,
    pub trigger_characters: String,
}

pub struct TriggerCharactersView {
    pub on: bool,
    pub trigger_characters: Seq<char>,
}

impl View for TriggerCharactersCapability {
    type V = TriggerCharactersView;

    open spec fn view(&self) -> TriggerCharactersView {
        TriggerCharactersView { on: self.on, trigger_characters: self.trigger_characters@ }
    }
}

pub struct ServerCapabilities {
    pub text_document_sync: TextDocumentSyncCapability,
    pub completion_provider: TriggerCharactersCapability,
    pub hover_provider: bool,
    pub signature_help_provider: TriggerCharactersCapability,
    pub declaration_provider: bool,
    pub definition_provider: bool,
    pub implementation_provider: bool,
    pub references_provider: bool,
    pub document_symbol_provider: bool,
    pub code_action_provider: bool,
    pub document_formatting_provider: bool,
    pub rename_provider: RenameCapability,
    pub workspace_symbol_provider: bool,
}

pub struct ServerCapabilitiesView {
    pub text_document_sync: TextDocumentSyncCapability,
    pub completion_provider: TriggerCharactersView,
    pub hover_provider: bool,
    pub signature_help_provider: TriggerCharactersView,
    pub declaration_provider: bool,
    pub definition_provider: bool,
    pub implementation_provider: bool,
    pub references_provider: bool,
    pub document_symbol_provider: bool,
    pub code_action_provider: bool,
    pub document_formatting_provider: bool,
    pub rename_provider: RenameCapability,
    pub workspace_symbol_provider: bool,
}

impl View for ServerCapabilities {
    type V = ServerCapabilitiesView;

    open spec fn view(&self) -> ServerCapabilitiesView {
        ServerCapabilitiesView {
            text_document_sync: self.text_document_sync,
            completion_provider: self.completion_provider@,
            hover_provider: self.hover_provider,
            signature_help_provider: self.signature_help_provider@,
            declaration_provider: self.declaration_provider,
            definition_provider: self.definition_provider,
            implementation_provider: self.implementation_provider,
            references_provider: self.references_provider,
            document_symbol_provider: self.document_symbol_provider,
            code_action_provider: self.code_action_provider,
            document_formatting_provider: self.document_formatting_provider,
            rename_provider: self.rename_provider,
            workspace_symbol_provider: self.workspace_symbol_provider,
        }
    }
}

/// Whether a plain capability is there: not where the value is `null` or
/// `false`, yes where it is `true` or an object of options.
pub open spec fn generic_of(j: Json) -> Option<bool> {
    match j {
        Json::Null => Some(false),
        Json::Boolean(b) => Some(b),
        Json::Object(_, _) => Some(true),
        _ => None,
    }
}

/// The texts among the first `count` of the values, one after another.
pub open spec fn joined_strings(items: Seq<Json>, count: int) -> Seq<char>
    decreases count,
{
    if count <= 0 || count > items.len() {
        Seq::empty()
    } else {
        joined_strings(items, count - 1) + (match items[count - 1] {
            Json::String(text) => text,
            _ => Seq::empty(),
        })
    }
}

/// A capability with trigger characters: off where the value is `null`; on,
/// with the texts of its member `triggerCharacters` joined, where it is an
/// object.
pub open spec fn trigger_characters_of(j: Json) -> Option<TriggerCharactersView> {
    match j {
        Json::Null => Some(TriggerCharactersView { on: false, trigger_characters: Seq::empty() }),
        Json::Object(_, _) => {
            let items = elements(member(j, "triggerCharacters"@));
            Some(
                TriggerCharactersView {
                    on: true,
                    trigger_characters: joined_strings(items, items.len() as int),
                },
            )
        },
        _ => None,
    }
}

/// The capability to rename: off for `null`, as told for a boolean, and on
/// for an object, whose member `prepareProvider` tells whether the server
/// prepares renames.
pub open spec fn rename_of(j: Json) -> Option<RenameCapability> {
    match j {
        Json::Null => Some(RenameCapability { on: false, prepare_provider: false }),
        Json::Boolean(b) => Some(RenameCapability { on: b, prepare_provider: false }),
        Json::Object(_, _) => Some(
            RenameCapability {
                on: true,
                prepare_provider: member(j, "prepareProvider"@) == Json::Boolean(true),
            },
        ),
        _ => None,
    }
}

/// The kind of synchronisation that a number names.
pub open spec fn sync_kind_of(j: Json) -> Option<TextDocumentSyncKind> {
    match j {
        Json::Integer(i) => if i == 0 {
            Some(TextDocumentSyncKind::Off)
        } else if i == 1 {
            Some(TextDocumentSyncKind::Full)
        } else if i == 2 {
            Some(TextDocumentSyncKind::Incremental)
        } else {
            None
        },
        _ => None,
    }
}

/// How saves are to be told: not for `false`, without the text for `true`,
/// and for an object with the text where its member `includeText` is `true`.
pub open spec fn save_kind_of(j: Json) -> Option<TextDocumentSyncKind> {
    match j {
        Json::Boolean(b) => if b {
            Some(TextDocumentSyncKind::Incremental)
        } else {
            Some(TextDocumentSyncKind::Off)
        },
        Json::Object(_, _) => if member(j, "includeText"@) == Json::Boolean(true) {
            Some(TextDocumentSyncKind::Full)
        } else {
            Some(TextDocumentSyncKind::Incremental)
        },
        _ => None,
    }
}

/// How documents are to be synchronised. A number stands for the same kind
/// for changes and saves, with opening and closing told for all but zero. An
/// object has the members `openClose`, `change` and `save`, each at its
/// default where it is missing.
pub open spec fn sync_of(j: Json) -> Option<TextDocumentSyncCapability> {
    match j {
        Json::Integer(i) => match sync_kind_of(j) {
            Some(kind) => Some(
                TextDocumentSyncCapability { open_close: i != 0, change: kind, save: kind },
            ),
            None => None,
        },
        Json::Object(_, _) => {
            let open_close = if has_member(j, "openClose"@) {
                match member(j, "openClose"@) {
                    Json::Boolean(b) => Some(b),
                    _ => None,
                }
            } else {
                Some(false)
            };
            let change = if has_member(j, "change"@) {
                sync_kind_of(member(j, "change"@))
            } else {
                Some(TextDocumentSyncKind::Off)
            };
            let save = if has_member(j, "save"@) {
                save_kind_of(member(j, "save"@))
            } else {
                Some(TextDocumentSyncKind::Off)
            };
            match (open_close, change, save) {
                (Some(open_close), Some(change), Some(save)) => Some(
                    TextDocumentSyncCapability { open_close, change, save },
                ),
                _ => None,
            }
        },
        _ => None,
    }
}

/// The capabilities that a JSON value holds: the members of an object, each
/// read by its own rule, with a missing member read as `null`. `None` where
/// the value is no object or a member is malformed.
pub open spec fn capabilities_of(j: Json) -> Option<ServerCapabilitiesView> {
    match j {
        Json::Object(_, _) => {
            let sync = if has_member(j, "textDocumentSync"@) {
                sync_of(member(j, "textDocumentSync"@))
            } else {
                Some(
                    TextDocumentSyncCapability {
                        open_close: false,
                        change: TextDocumentSyncKind::Off,
                        save: TextDocumentSyncKind::Off,
                    },
                )
            };
            match (
                sync,
                trigger_characters_of(member(j, "completionProvider"@)),
                generic_of(member(j, "hoverProvider"@)),
                trigger_characters_of(member(j, "signatureHelpProvider"@)),
                generic_of(member(j, "declarationProvider"@)),
                generic_of(member(j, "definitionProvider"@)),
                generic_of(member(j, "implementationProvider"@)),
                generic_of(member(j, "referencesProvider"@)),
                generic_of(member(j, "documentSymbolProvider"@)),
                generic_of(member(j, "codeActionProvider"@)),
                generic_of(member(j, "documentFormattingProvider"@)),
                rename_of(member(j, "renameProvider"@)),
                generic_of(member(j, "workspaceSymbolProvider"@)),
            ) {
                (
                    Some(text_document_sync),
                    Some(completion_provider),
                    Some(hover_provider),
                    Some(signature_help_provider),
                    Some(declaration_provider),
                    Some(definition_provider),
                    Some(implementation_provider),
                    Some(references_provider),
                    Some(document_symbol_provider),
                    Some(code_action_provider),
                    Some(document_formatting_provider),
                    Some(rename_provider),
                    Some(workspace_symbol_provider),
                ) => Some(
                    ServerCapabilitiesView {
                        text_document_sync,
                        completion_provider,
                        hover_provider,
                        signature_help_provider,
                        declaration_provider,
                        definition_provider,
                        implementation_provider,
                        references_provider,
                        document_symbol_provider,
                        code_action_provider,
                        document_formatting_provider,
                        rename_provider,
                        workspace_symbol_provider,
                    },
                ),
                _ => None,
            }
        },
        _ => None,
    }
}

fn member_or_null<'a>(value: &'a JsonValue, key: &str, null: &'a JsonValue) -> (r: &'a JsonValue)
    requires
        null@ == Json::Null,
    ensures
        r@ == member(value@, key@),
{
    match value.get(key) {
        Some(member) => member,
        None => null,
    }
}

fn generic_from_json(value: &JsonValue) -> (r: Result<bool, JsonConvertError>)
    ensures
        match generic_of(value@) {
            Some(b) => r == Ok::<bool, JsonConvertError>(b),
            None => r is Err,
        },
{
    match value {
        JsonValue::Null => Ok(false),
        JsonValue::Boolean(b) => Ok(*b),
        JsonValue::Object(_, _) => Ok(true),
        _ => Err(JsonConvertError),
    }
}

fn is_true(value: &JsonValue) -> (r: bool)
    ensures
        r == (value@ == Json::Boolean(true)),
{
    match value {
        JsonValue::Boolean(b) => *b,
        _ => false,
    }
}

impl RenameCapability {
    pub fn from_json(value: &JsonValue) -> (r: Result<Self, JsonConvertError>)
        ensures
            match rename_of(value@) {
                Some(capability) => r == Ok::<Self, JsonConvertError>(capability),
                None => r is Err,
            },
    {
        match value {
            JsonValue::Null => Ok(RenameCapability { on: false, prepare_provider: false }),
            JsonValue::Boolean(b) => Ok(RenameCapability { on: *b, prepare_provider: false }),
            JsonValue::Object(_, _) => {
                let null = JsonValue::Null;
                Ok(
                    RenameCapability {
                        on: true,
                        prepare_provider: is_true(member_or_null(value, "prepareProvider", &null)),
                    },
                )
            },
            _ => Err(JsonConvertError),
        }
    }
}

impl TriggerCharactersCapability {
    pub fn new() -> (r: Self)
        ensures
            r@ == (TriggerCharactersView { on: false, trigger_characters: Seq::empty() }),
    {
        TriggerCharactersCapability { on: false, trigger_characters: String::new() }
    }

    pub fn from_json(value: &JsonValue) -> (r: Result<Self, JsonConvertError>)
        ensures
            match trigger_characters_of(value@) {
                Some(capability) => r is Ok && r->Ok_0@ == capability,
                None => r is Err,
            },
    {
        match value {
            JsonValue::Null => Ok(TriggerCharactersCapability::new()),
            JsonValue::Object(_, _) => {
                let null = JsonValue::Null;
                let characters = member_or_null(value, "triggerCharacters", &null);
                let mut trigger_characters = String::new();
                if let Some(items) = characters.items() {
                    let mut i: usize = 0;
                    while i < items.len()
                        invariant
                            0 <= i <= items.len(),
                            json_views(items@) == elements(characters@),
                            trigger_characters@ == joined_strings(elements(characters@), i as int),
                        decreases items.len() - i,
                    {
                        if let JsonValue::String(text) = &items[i] {
                            trigger_characters.append(text.as_str());
                        } else {
                            assert(trigger_characters@ + Seq::<char>::empty()
                                =~= trigger_characters@);
                        }
                        i = i + 1;
                    }
                }
                Ok(TriggerCharactersCapability { on: true, trigger_characters })
            },
            _ => Err(JsonConvertError),
        }
    }
}

fn sync_kind_from_json(value: &JsonValue) -> (r: Option<TextDocumentSyncKind>)
    ensures
        r == sync_kind_of(value@),
{
    match value {
        JsonValue::Integer(i) => {
            if *i == 0 {
                Some(TextDocumentSyncKind::Off)
            } else if *i == 1 {
                Some(TextDocumentSyncKind::Full)
            } else if *i == 2 {
                Some(TextDocumentSyncKind::Incremental)
            } else {
                None
            }
        },
        _ => None,
    }
}

fn save_kind_from_json(value: &JsonValue) -> (r: Option<TextDocumentSyncKind>)
    ensures
        r == save_kind_of(value@),
{
    match value {
        JsonValue::Boolean(b) => {
            if *b {
                Some(TextDocumentSyncKind::Incremental)
            } else {
                Some(TextDocumentSyncKind::Off)
            }
        },
        JsonValue::Object(_, _) => {
            let null = JsonValue::Null;
            if is_true(member_or_null(value, "includeText", &null)) {
                Some(TextDocumentSyncKind::Full)
            } else {
                Some(TextDocumentSyncKind::Incremental)
            }
        },
        _ => None,
    }
}

impl TextDocumentSyncCapability {
    pub fn new() -> (r: Self)
        ensures
            r == (TextDocumentSyncCapability {
                open_close: false,
                change: TextDocumentSyncKind::Off,
                save: TextDocumentSyncKind::Off,
            }),
    {
        TextDocumentSyncCapability {
            open_close: false,
            change: TextDocumentSyncKind::Off,
            save: TextDocumentSyncKind::Off,
        }
    }

    pub fn from_json(value: &JsonValue) -> (r: Result<Self, JsonConvertError>)
        ensures
            match sync_of(value@) {
                Some(capability) => r == Ok::<Self, JsonConvertError>(capability),
                None => r is Err,
            },
    {
        match value {
            JsonValue::Integer(i) => match sync_kind_from_json(value) {
                Some(kind) => Ok(
                    TextDocumentSyncCapability { open_close: *i != 0, change: kind, save: kind },
                ),
                None => Err(JsonConvertError),
            },
            JsonValue::Object(_, _) => {
                let open_close = match value.get("openClose") {
                    Some(JsonValue::Boolean(b)) => Some(*b),
                    Some(_) => None,
                    None => Some(false),
                };
                let change = match value.get("change") {
                    Some(change) => sync_kind_from_json(change),
                    None => Some(TextDocumentSyncKind::Off),
                };
                let save = match value.get("save") {
                    Some(save) => save_kind_from_json(save),
                    None => Some(TextDocumentSyncKind::Off),
                };
                match (open_close, change, save) {
                    (Some(open_close), Some(change), Some(save)) => Ok(
                        TextDocumentSyncCapability { open_close, change, save },
                    ),
                    _ => Err(JsonConvertError),
                }
            },
            _ => Err(JsonConvertError),
        }
    }
}

impl ServerCapabilities {
    /// No capabilities at all.
    pub open spec fn none() -> ServerCapabilitiesView {
        ServerCapabilitiesView {
            text_document_sync: TextDocumentSyncCapability {
                open_close: false,
                change: TextDocumentSyncKind::Off,
                save: TextDocumentSyncKind::Off,
            },
            completion_provider: TriggerCharactersView {
                on: false,
                trigger_characters: Seq::empty(),
            },
            hover_provider: false,
            signature_help_provider: TriggerCharactersView {
                on: false,
                trigger_characters: Seq::empty(),
            },
            declaration_provider: false,
            definition_provider: false,
            implementation_provider: false,
            references_provider: false,
            document_symbol_provider: false,
            code_action_provider: false,
            document_formatting_provider: false,
            rename_provider: RenameCapability { on: false, prepare_provider: false },
            workspace_symbol_provider: false,
        }
    }

    /// No capabilities at all.
    pub fn new() -> (r: Self)
        ensures
            r@ == Self::none(),
            r@ == (ServerCapabilitiesView {
                text_document_sync: TextDocumentSyncCapability {
                    open_close: false,
                    change: TextDocumentSyncKind::Off,
                    save: TextDocumentSyncKind::Off,
                },
                completion_provider: TriggerCharactersView {
                    on: false,
                    trigger_characters: Seq::empty(),
                },
                hover_provider: false,
                signature_help_provider: TriggerCharactersView {
                    on: false,
                    trigger_characters: Seq::empty(),
                },
                declaration_provider: false,
                definition_provider: false,
                implementation_provider: false,
                references_provider: false,
                document_symbol_provider: false,
                code_action_provider: false,
                document_formatting_provider: false,
                rename_provider: RenameCapability { on: false, prepare_provider: false },
                workspace_symbol_provider: false,
            }),
    {
        ServerCapabilities {
            text_document_sync: TextDocumentSyncCapability::new(),
            completion_provider: TriggerCharactersCapability::new(),
            hover_provider: false,
            signature_help_provider: TriggerCharactersCapability::new(),
            declaration_provider: false,
            definition_provider: false,
            implementation_provider: false,
            references_provider: false,
            document_symbol_provider: false,
            code_action_provider: false,
            document_formatting_provider: false,
            rename_provider: RenameCapability { on: false, prepare_provider: false },
            workspace_symbol_provider: false,
        }
    }

    pub fn from_json(value: &JsonValue) -> (r: Result<Self, JsonConvertError>)
        ensures
            match capabilities_of(value@) {
                Some(capabilities) => r is Ok && r->Ok_0@ == capabilities,
                None => r is Err,
            },
    {
        match value {
            JsonValue::Object(_, _) => {},
            _ => {
                return Err(JsonConvertError);
            },
        }
        let null = JsonValue::Null;
        let text_document_sync = match value.get("textDocumentSync") {
            Some(sync) => match TextDocumentSyncCapability::from_json(sync) {
                Ok(sync) => sync,
                Err(e) => {
                    return Err(e);
                },
            },
            None => TextDocumentSyncCapability::new(),
        };
        let completion_provider = match TriggerCharactersCapability::from_json(
            member_or_null(value, "completionProvider", &null),
        ) {
            Ok(c) => c,
            Err(e) => {
                return Err(e);
            },
        };
        let hover_provider = match generic_from_json(member_or_null(value, "hoverProvider", &null)) {
            Ok(c) => c,
            Err(e) => {
                return Err(e);
            },
        };
        let signature_help_provider = match TriggerCharactersCapability::from_json(
            member_or_null(value, "signatureHelpProvider", &null),
        ) {
            Ok(c) => c,
            Err(e) => {
                return Err(e);
            },
        };
        let declaration_provider = match generic_from_json(
            member_or_null(value, "declarationProvider", &null),
        ) {
            Ok(c) => c,
            Err(e) => {
                return Err(e);
            },
        };
        let definition_provider = match generic_from_json(
            member_or_null(value, "definitionProvider", &null),
        ) {
            Ok(c) => c,
            Err(e) => {
                return Err(e);
            },
        };
        let implementation_provider = match generic_from_json(
            member_or_null(value, "implementationProvider", &null),
        ) {
            Ok(c) => c,
            Err(e) => {
                return Err(e);
            },
        };
        let references_provider = match generic_from_json(
            member_or_null(value, "referencesProvider", &null),
        ) {
            Ok(c) => c,
            Err(e) => {
                return Err(e);
            },
        };
        let document_symbol_provider = match generic_from_json(
            member_or_null(value, "documentSymbolProvider", &null),
        ) {
            Ok(c) => c,
            Err(e) => {
                return Err(e);
            },
        };
        let code_action_provider = match generic_from_json(
            member_or_null(value, "codeActionProvider", &null),
        ) {
            Ok(c) => c,
            Err(e) => {
                return Err(e);
            },
        };
        let document_formatting_provider = match generic_from_json(
            member_or_null(value, "documentFormattingProvider", &null),
        ) {
            Ok(c) => c,
            Err(e) => {
                return Err(e);
            },
        };
        let rename_provider = match RenameCapability::from_json(
            member_or_null(value, "renameProvider", &null),
        ) {
            Ok(c) => c,
            Err(e) => {
                return Err(e);
            },
        };
        let workspace_symbol_provider = match generic_from_json(
            member_or_null(value, "workspaceSymbolProvider", &null),
        ) {
            Ok(c) => c,
            Err(e) => {
                return Err(e);
            },
        };
        Ok(
            ServerCapabilities {
                text_document_sync,
                completion_provider,
                hover_provider,
                signature_help_provider,
                declaration_provider,
                definition_provider,
                implementation_provider,
                references_provider,
                document_symbol_provider,
                code_action_provider,
                document_formatting_provider,
                rename_provider,
                workspace_symbol_provider,
            },
        )
    }
}

impl Default for ServerCapabilities {
    fn default() -> (r: Self)
        ensures
            r@.definition_provider == false,
    {
        ServerCapabilities::new()
    }
}

} // verus!
