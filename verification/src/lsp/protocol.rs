//! The messages of the language server protocol: positions, ranges and edits
//! as the protocol names them, and their JSON.

use crate::buffer_position::{clip, BufferPosition, BufferRange};
use crate::json::{
    elements,
    has_member,
    json_string,
    json_views,
    member,
    Json,
    JsonValue,
    ObjectBuilder,
};
use crate::platform::{Platform, PlatformRequest, PlatformRequestView, ProcessHandle};
use crate::text::{
    chars_of,
    decimal,
    find_last,
    has_prefix,
    joined,
    last_index_of,
    push_decimal,
    same_text,
    starts_with,
    substring,
    views,
};
use crate::json::json_text;
use crate::json_parser::{parse, parsed};
use vstd::slice::slice_subrange;
use vstd::utf8::{decode_utf8, encode_utf8, valid_utf8};
use vstd::prelude::*;

verus! {

/// The JSON is not what was expected.
#[derive(Debug, Clone, Copy, PartialEq, Eq, Structural)]
pub struct JsonConvertError;

#[derive(Debug, Clone, Copy, PartialEq, Eq, Structural)]
pub struct DocumentPosition {
    pub line: u32,
    pub character: u32,
}

#[derive(Debug, Clone, Copy, PartialEq, Eq, Structural)]
pub struct DocumentRange {
    pub start: DocumentPosition,
    pub end: DocumentPosition,
}

/// A number brought into the range of `u32`.
pub open spec fn clip32(i: int) -> u32 {
    if i < 0 {
        0
    } else if i > u32::MAX {
        u32::MAX
    } else {
        i as u32
    }
}

pub open spec fn position_to_document(p: BufferPosition) -> DocumentPosition {
    DocumentPosition { line: clip32(p.line_index as int), character: clip32(p.column_index as int) }
}

pub open spec fn position_from_document(p: DocumentPosition) -> BufferPosition {
    BufferPosition { line_index: clip(p.line as int), column_index: clip(p.character as int) }
}

pub open spec fn range_to_document(r: BufferRange) -> DocumentRange {
    DocumentRange { start: position_to_document(r.from), end: position_to_document(r.to) }
}

pub open spec fn range_from_document(r: DocumentRange) -> BufferRange {
    BufferRange { from: position_from_document(r.start), to: position_from_document(r.end) }
}

/// The number that a JSON value holds, where it is a whole number that fits
/// thirty-two bits without a sign.
pub open spec fn as_u32(j: Json) -> Option<u32> {
    match j {
        Json::Integer(i) => if 0 <= i <= u32::MAX {
            Some(i as u32)
        } else {
            None
        },
        _ => None,
    }
}

/// The number that the member `key` of an object holds: zero where there is
/// no such member, `None` where the member holds something else.
pub open spec fn member_u32(j: Json, key: Seq<char>) -> Option<u32> {
    if has_member(j, key) {
        as_u32(member(j, key))
    } else {
        Some(0)
    }
}

/// The position that a JSON value holds: an object whose members `line` and
/// `character` are numbers, each zero where it is missing.
pub open spec fn position_of(j: Json) -> Option<DocumentPosition> {
    match j {
        Json::Object(_, _) => match (member_u32(j, "line"@), member_u32(j, "character"@)) {
            (Some(line), Some(character)) => Some(DocumentPosition { line, character }),
            _ => None,
        },
        _ => None,
    }
}

/// The position that the member `key` of an object holds: the start of the
/// document where there is no such member.
pub open spec fn member_position(j: Json, key: Seq<char>) -> Option<DocumentPosition> {
    if has_member(j, key) {
        position_of(member(j, key))
    } else {
        Some(DocumentPosition { line: 0, character: 0 })
    }
}

/// The range that a JSON value holds: an object whose members `start` and
/// `end` are positions.
pub open spec fn range_of(j: Json) -> Option<DocumentRange> {
    match j {
        Json::Object(_, _) => match (member_position(j, "start"@), member_position(j, "end"@)) {
            (Some(start), Some(end)) => Some(DocumentRange { start, end }),
            _ => None,
        },
        _ => None,
    }
}

/// The range that the member `key` of an object holds: the empty range at
/// the start of the document where there is no such member.
pub open spec fn member_range(j: Json, key: Seq<char>) -> Option<DocumentRange> {
    if has_member(j, key) {
        range_of(member(j, key))
    } else {
        Some(
            DocumentRange {
                start: DocumentPosition { line: 0, character: 0 },
                end: DocumentPosition { line: 0, character: 0 },
            },
        )
    }
}

/// The text that the member `key` of an object holds: the empty text where
/// there is no such member, `None` where the member holds something else.
pub open spec fn member_text(j: Json, key: Seq<char>) -> Option<Seq<char>> {
    if has_member(j, key) {
        match member(j, key) {
            Json::String(text) => Some(text),
            _ => None,
        }
    } else {
        Some(Seq::empty())
    }
}

/// The JSON of a position.
pub open spec fn position_json(p: DocumentPosition) -> Json {
    Json::Object(
        seq!["line"@, "character"@],
        seq![Json::Integer(p.line as int), Json::Integer(p.character as int)],
    )
}

/// The JSON of a range.
pub open spec fn range_json(r: DocumentRange) -> Json {
    Json::Object(seq!["start"@, "end"@], seq![position_json(r.start), position_json(r.end)])
}

fn to_u32(n: usize) -> (r: u32)
    ensures
        r == clip32(n as int),
{
    if n > u32::MAX as usize {
        u32::MAX
    } else {
        n as u32
    }
}

fn json_u32(value: &JsonValue) -> (r: Option<u32>)
    ensures
        r == as_u32(value@),
{
    match value {
        JsonValue::Integer(i) => {
            if 0 <= *i && *i <= u32::MAX as i64 {
                Some(*i as u32)
            } else {
                None
            }
        },
        _ => None,
    }
}

/// The number that the member `key` of `value` holds.
pub fn get_u32(value: &JsonValue, key: &str) -> (r: Option<u32>)
    ensures
        r == member_u32(value@, key@),
{
    match value.get(key) {
        Some(member) => json_u32(member),
        None => Some(0),
    }
}

/// The text that the member `key` of `value` holds.
pub fn get_text<'a>(value: &'a JsonValue, key: &str) -> (r: Option<&'a str>)
    ensures
        match member_text(value@, key@) {
            Some(text) => r.is_some() && r.unwrap()@ == text,
            None => r.is_none(),
        },
{
    match value.get(key) {
        Some(member) => member.as_str(),
        None => {
            let empty = "";
            proof {
                reveal_strlit("");
            }
            assert(empty@ =~= Seq::<char>::empty());
            Some(empty)
        },
    }
}

impl DocumentPosition {
    pub fn from_buffer_position(position: BufferPosition) -> (r: Self)
        ensures
            r == position_to_document(position),
    {
        DocumentPosition {
            line: to_u32(position.line_index),
            character: to_u32(position.column_index),
        }
    }

    pub fn into_buffer_position(self) -> (r: BufferPosition)
        ensures
            r == position_from_document(self),
    {
        BufferPosition { line_index: self.line as usize, column_index: self.character as usize }
    }

    pub fn to_json_value(self) -> (r: JsonValue)
        ensures
            r@ == position_json(self),
    {
        let mut object = ObjectBuilder::new();
        object.set("line", JsonValue::Integer(self.line as i64));
        object.set("character", JsonValue::Integer(self.character as i64));
        let r = object.build();
        assert(r@->Object_0 =~= seq!["line"@, "character"@]);
        assert(r@->Object_1 =~= seq![
            Json::Integer(self.line as int),
            Json::Integer(self.character as int),
        ]);
        r
    }

    pub fn from_json(value: &JsonValue) -> (r: Result<Self, JsonConvertError>)
        ensures
            match position_of(value@) {
                Some(p) => r == Ok::<Self, JsonConvertError>(p),
                None => r is Err,
            },
    {
        match value {
            JsonValue::Object(_, _) => {
                let line = get_u32(value, "line");
                let character = get_u32(value, "character");
                match (line, character) {
                    (Some(line), Some(character)) => Ok(DocumentPosition { line, character }),
                    _ => Err(JsonConvertError),
                }
            },
            _ => Err(JsonConvertError),
        }
    }
}

fn get_position(value: &JsonValue, key: &str) -> (r: Option<DocumentPosition>)
    ensures
        r == member_position(value@, key@),
{
    match value.get(key) {
        Some(member) => match DocumentPosition::from_json(member) {
            Ok(p) => Some(p),
            Err(_) => None,
        },
        None => Some(DocumentPosition { line: 0, character: 0 }),
    }
}

/// The range that the member `key` of `value` holds.
pub fn get_range(value: &JsonValue, key: &str) -> (r: Option<DocumentRange>)
    ensures
        r == member_range(value@, key@),
{
    match value.get(key) {
        Some(member) => match DocumentRange::from_json(member) {
            Ok(range) => Some(range),
            Err(_) => None,
        },
        None => Some(
            DocumentRange {
                start: DocumentPosition { line: 0, character: 0 },
                end: DocumentPosition { line: 0, character: 0 },
            },
        ),
    }
}

impl DocumentRange {
    pub fn from_buffer_range(range: BufferRange) -> (r: Self)
        ensures
            r == range_to_document(range),
    {
        DocumentRange {
            start: DocumentPosition::from_buffer_position(range.from),
            end: DocumentPosition::from_buffer_position(range.to),
        }
    }

    pub fn into_buffer_range(self) -> (r: BufferRange)
        ensures
            r == range_from_document(self),
    {
        BufferRange {
            from: self.start.into_buffer_position(),
            to: self.end.into_buffer_position(),
        }
    }

    pub fn to_json_value(self) -> (r: JsonValue)
        ensures
            r@ == range_json(self),
    {
        let mut object = ObjectBuilder::new();
        object.set("start", self.start.to_json_value());
        object.set("end", self.end.to_json_value());
        let r = object.build();
        assert(r@->Object_0 =~= seq!["start"@, "end"@]);
        assert(r@->Object_1 =~= seq![position_json(self.start), position_json(self.end)]);
        r
    }

    pub fn from_json(value: &JsonValue) -> (r: Result<Self, JsonConvertError>)
        ensures
            match range_of(value@) {
                Some(range) => r == Ok::<Self, JsonConvertError>(range),
                None => r is Err,
            },
    {
        match value {
            JsonValue::Object(_, _) => {
                let start = get_position(value, "start");
                let end = get_position(value, "end");
                match (start, end) {
                    (Some(start), Some(end)) => Ok(DocumentRange { start, end }),
                    _ => Err(JsonConvertError),
                }
            },
            _ => Err(JsonConvertError),
        }
    }
}

/// A place in a document of the server.
pub struct DocumentLocation {
    pub uri: String,
    pub range: DocumentRange,
}

pub struct DocumentLocationView {
    pub uri: Seq<char>,
    pub range: DocumentRange,
}

impl View for DocumentLocation {
    type V = DocumentLocationView;

    open spec fn view(&self) -> DocumentLocationView {
        DocumentLocationView { uri: self.uri@, range: self.range }
    }
}

/// The location that a JSON value holds: an object whose member `uri` is a
/// text and whose member `range` is a range.
pub open spec fn location_of(j: Json) -> Option<DocumentLocationView> {
    match j {
        Json::Object(_, _) => match (member_text(j, "uri"@), member_range(j, "range"@)) {
            (Some(uri), Some(range)) => Some(DocumentLocationView { uri, range }),
            _ => None,
        },
        _ => None,
    }
}

impl DocumentLocation {
    pub fn from_json(value: &JsonValue) -> (r: Result<Self, JsonConvertError>)
        ensures
            match location_of(value@) {
                Some(location) => r is Ok && r->Ok_0@ == location,
                None => r is Err,
            },
    {
        match value {
            JsonValue::Object(_, _) => {
                let uri = get_text(value, "uri");
                let range = get_range(value, "range");
                match (uri, range) {
                    (Some(uri), Some(range)) => Ok(
                        DocumentLocation { uri: String::from_str(uri), range },
                    ),
                    _ => Err(JsonConvertError),
                }
            },
            _ => Err(JsonConvertError),
        }
    }
}

/// A change to a document: `new_text` takes the place of what stands in `range`.
pub struct TextEdit {
    pub range: DocumentRange,
    pub new_text: String,
}

pub struct TextEditView {
    pub range: DocumentRange,
    pub new_text: Seq<char>,
}

impl View for TextEdit {
    type V = TextEditView;

    open spec fn view(&self) -> TextEditView {
        TextEditView { range: self.range, new_text: self.new_text@ }
    }
}

/// The views of a list of edits.
pub open spec fn text_edit_views(edits: Seq<TextEdit>) -> Seq<TextEditView> {
    Seq::new(edits.len(), |i: int| edits[i]@)
}

/// The edit that a JSON value holds: an object whose member `range` is a
/// range and whose member `newText` is a text.
pub open spec fn text_edit_of(j: Json) -> Option<TextEditView> {
    match j {
        Json::Object(_, _) => match (member_range(j, "range"@), member_text(j, "newText"@)) {
            (Some(range), Some(new_text)) => Some(TextEditView { range, new_text }),
            _ => None,
        },
        _ => None,
    }
}

/// The edits that the first `count` of the values hold, or `None` where one
/// of them holds none.
pub open spec fn text_edits_of(items: Seq<Json>, count: int) -> Option<Seq<TextEditView>>
    decreases count,
{
    if count <= 0 {
        Some(Seq::empty())
    } else if count > items.len() {
        None
    } else {
        match (text_edits_of(items, count - 1), text_edit_of(items[count - 1])) {
            (Some(before), Some(edit)) => Some(before.push(edit)),
            _ => None,
        }
    }
}

impl TextEdit {
    pub fn from_json(value: &JsonValue) -> (r: Result<Self, JsonConvertError>)
        ensures
            match text_edit_of(value@) {
                Some(edit) => r is Ok && r->Ok_0@ == edit,
                None => r is Err,
            },
    {
        match value {
            JsonValue::Object(_, _) => {
                let range = get_range(value, "range");
                let new_text = get_text(value, "newText");
                match (range, new_text) {
                    (Some(range), Some(new_text)) => Ok(
                        TextEdit { range, new_text: String::from_str(new_text) },
                    ),
                    _ => Err(JsonConvertError),
                }
            },
            _ => Err(JsonConvertError),
        }
    }

    /// The edits that the elements of an array hold; none where the value is
    /// no array.
    #[verifier::loop_isolation(false)]
    pub fn list_from_json(value: &JsonValue) -> (r: Result<Vec<TextEdit>, JsonConvertError>)
        ensures
            match text_edits_of(elements(value@), elements(value@).len() as int) {
                Some(edits) => r is Ok && text_edit_views(r->Ok_0@) == edits,
                None => r is Err,
            },
    {
        let mut edits: Vec<TextEdit> = Vec::new();
        assert(text_edit_views(edits@) =~= Seq::<TextEditView>::empty());
        let items = match value.items() {
            Some(items) => items,
            None => {
                return Ok(edits);
            },
        };
        let mut i: usize = 0;
        while i < items.len()
            invariant
                0 <= i <= items.len(),
                edits@.len() == i,
                json_views(items@) == elements(value@),
                text_edits_of(elements(value@), i as int) == Some(text_edit_views(edits@)),
            decreases items.len() - i,
        {
            let ghost before = text_edit_views(edits@);
            match TextEdit::from_json(&items[i]) {
                Ok(edit) => {
                    edits.push(edit);
                    assert(text_edit_views(edits@) =~= before.push(edits@[i as int]@));
                },
                Err(_) => {
                    proof {
                        lemma_text_edits_fail(elements(value@), i + 1, items.len() as int);
                    }
                    return Err(JsonConvertError);
                },
            }
            i = i + 1;
        }
        Ok(edits)
    }
}

proof fn lemma_text_edits_fail(items: Seq<Json>, bad: int, count: int)
    requires
        0 < bad <= count <= items.len(),
        text_edits_of(items, bad) is None,
    ensures
        text_edits_of(items, count) is None,
    decreases count - bad,
{
    if bad < count {
        lemma_text_edits_fail(items, bad, count - 1);
    }
}

/// The edits to one document.
pub struct DocumentEdits {
    pub uri: String,
    pub edits: Vec<TextEdit>,
}

pub struct DocumentEditsView {
    pub uri: Seq<char>,
    pub edits: Seq<TextEditView>,
}

impl View for DocumentEdits {
    type V = DocumentEditsView;

    open spec fn view(&self) -> DocumentEditsView {
        DocumentEditsView { uri: self.uri@, edits: text_edit_views(self.edits@) }
    }
}

/// Edits to the documents of a workspace, one entry for each document named.
pub struct WorkspaceEdit {
    pub documents: Vec<DocumentEdits>,
}

impl View for WorkspaceEdit {
    type V = Seq<DocumentEditsView>;

    open spec fn view(&self) -> Seq<DocumentEditsView> {
        Seq::new(self.documents@.len(), |i: int| self.documents@[i]@)
    }
}

/// The entries that the first `count` members of the object `changes` hold:
/// each member names a document and holds the array of its edits.
pub open spec fn changes_of(changes: Json, count: int) -> Option<Seq<DocumentEditsView>>
    decreases count,
{
    match changes {
        Json::Object(keys, values) => {
            if count <= 0 {
                Some(Seq::empty())
            } else if count > keys.len() || count > values.len() {
                None
            } else {
                match (
                    changes_of(changes, count - 1),
                    text_edits_of(
                        elements(values[count - 1]),
                        elements(values[count - 1]).len() as int,
                    ),
                ) {
                    (Some(before), Some(edits)) => Some(
                        before.push(DocumentEditsView { uri: keys[count - 1], edits }),
                    ),
                    _ => None,
                }
            }
        },
        _ => Some(Seq::empty()),
    }
}

/// The entry that one element of `documentChanges` holds: the member `uri`
/// of its member `textDocument` names the document, and its member `edits`
/// holds the array of edits.
pub open spec fn document_change_of(j: Json) -> Option<DocumentEditsView> {
    match (
        member_text(member(j, "textDocument"@), "uri"@),
        text_edits_of(
            elements(member(j, "edits"@)),
            elements(member(j, "edits"@)).len() as int,
        ),
    ) {
        (Some(uri), Some(edits)) => Some(DocumentEditsView { uri, edits }),
        _ => None,
    }
}

/// The entries that the first `count` elements of `documentChanges` hold.
pub open spec fn document_changes_of(items: Seq<Json>, count: int) -> Option<
    Seq<DocumentEditsView>,
>
    decreases count,
{
    if count <= 0 {
        Some(Seq::empty())
    } else if count > items.len() {
        None
    } else {
        match (document_changes_of(items, count - 1), document_change_of(items[count - 1])) {
            (Some(before), Some(entry)) => Some(before.push(entry)),
            _ => None,
        }
    }
}

/// The workspace edit that a JSON value holds: the entries of its member
/// `changes`, followed by those of its member `documentChanges`. `None`
/// where an edit among them is malformed.
pub open spec fn workspace_edit_of(j: Json) -> Option<Seq<DocumentEditsView>> {
    let changes = member(j, "changes"@);
    let document_changes = elements(member(j, "documentChanges"@));
    match (
        changes_of(changes, crate::json::member_count(changes)),
        document_changes_of(document_changes, document_changes.len() as int),
    ) {
        (Some(a), Some(b)) => Some(a + b),
        _ => None,
    }
}

proof fn lemma_changes_fail(changes: Json, bad: int, count: int)
    requires
        0 < bad <= count <= crate::json::member_count(changes),
        changes_of(changes, bad) is None,
    ensures
        changes_of(changes, count) is None,
    decreases count - bad,
{
    if bad < count {
        lemma_changes_fail(changes, bad, count - 1);
    }
}

proof fn lemma_document_changes_fail(items: Seq<Json>, bad: int, count: int)
    requires
        0 < bad <= count <= items.len(),
        document_changes_of(items, bad) is None,
    ensures
        document_changes_of(items, count) is None,
    decreases count - bad,
{
    if bad < count {
        lemma_document_changes_fail(items, bad, count - 1);
    }
}

impl WorkspaceEdit {
    pub open spec fn views_of(documents: Seq<DocumentEdits>) -> Seq<DocumentEditsView> {
        Seq::new(documents.len(), |i: int| documents[i]@)
    }

    #[verifier::loop_isolation(false)]
    pub fn from_json(value: &JsonValue) -> (r: Result<Self, JsonConvertError>)
        ensures
            match workspace_edit_of(value@) {
                Some(documents) => r is Ok && r->Ok_0@ == documents,
                None => r is Err,
            },
    {
        let mut documents: Vec<DocumentEdits> = Vec::new();
        assert(Self::views_of(documents@) =~= Seq::<DocumentEditsView>::empty());
        let ghost changes_view = member(value@, "changes"@);
        if let Some(changes) = value.get("changes") {
            if let JsonValue::Object(keys, values) = changes {
                proof {
                    crate::json::lemma_object_view(*keys, *values);
                }
                let mut i: usize = 0;
                while i < keys.len() && i < values.len()
                    invariant
                        0 <= i <= keys.len(),
                        i <= values.len(),
                        documents@.len() == i,
                        changes_view == Json::Object(views(keys@), json_views(values@)),
                        changes_of(changes_view, i as int) == Some(Self::views_of(documents@)),
                    decreases keys.len() - i,
                {
                    let ghost before = Self::views_of(documents@);
                    match TextEdit::list_from_json(&values[i]) {
                        Ok(edits) => {
                            documents.push(
                                DocumentEdits { uri: String::from_str(keys[i].as_str()), edits },
                            );
                            assert(Self::views_of(documents@) =~= before.push(
                                documents@[i as int]@,
                            ));
                        },
                        Err(_) => {
                            proof {
                                lemma_changes_fail(
                                    changes_view,
                                    i + 1,
                                    crate::json::member_count(changes_view),
                                );
                            }
                            return Err(JsonConvertError);
                        },
                    }
                    i = i + 1;
                }
            }
        }
        let ghost from_changes = Self::views_of(documents@);
        let ghost items_view = elements(member(value@, "documentChanges"@));
        if let Some(document_changes) = value.get("documentChanges") {
            if let Some(items) = document_changes.items() {
                let mut i: usize = 0;
                assert(from_changes + Seq::<DocumentEditsView>::empty() =~= from_changes);
                while i < items.len()
                    invariant
                        0 <= i <= items.len(),
                        json_views(items@) == items_view,
                        match document_changes_of(items_view, i as int) {
                            Some(entries) => Self::views_of(documents@) == from_changes + entries,
                            None => false,
                        },
                    decreases items.len() - i,
                {
                    let ghost before = Self::views_of(documents@);
                    let item = &items[i];
                    let uri = match item.get("textDocument") {
                        Some(document) => get_text(document, "uri"),
                        None => get_text(&JsonValue::Null, "uri"),
                    };
                    let edits = match item.get("edits") {
                        Some(edits) => TextEdit::list_from_json(edits),
                        None => TextEdit::list_from_json(&JsonValue::Null),
                    };
                    match (uri, edits) {
                        (Some(uri), Ok(edits)) => {
                            documents.push(DocumentEdits { uri: String::from_str(uri), edits });
                            let ghost entry = documents@[documents@.len() - 1]@;
                            assert(Self::views_of(documents@) =~= before.push(entry));
                            assert(Self::views_of(documents@) =~= from_changes
                                + document_changes_of(items_view, i + 1).unwrap());
                        },
                        _ => {
                            proof {
                                lemma_document_changes_fail(items_view, i + 1, items.len() as int);
                            }
                            return Err(JsonConvertError);
                        },
                    }
                    i = i + 1;
                }
            }
        }
        let r = WorkspaceEdit { documents };
        assert(r@ =~= Self::views_of(r.documents@));
        Ok(r)
    }
}

/// The URI of a path: the path behind `file://`.
pub open spec fn path_uri(path: Seq<char>) -> Seq<char> {
    "file://"@ + path
}

/// The path that a URI names: what stands behind `file://`, taken relative
/// to `root` where it lies below `root`. `None` for another kind of URI.
pub open spec fn uri_path(root: Seq<char>, uri: Seq<char>) -> Option<Seq<char>> {
    if has_prefix(uri, "file://"@) {
        let path = uri.skip("file://"@.len() as int);
        if root.len() > 0 && has_prefix(path, root.push('/')) {
            Some(path.skip(root.len() as int + 1))
        } else {
            Some(path)
        }
    } else {
        None
    }
}

/// The URI of a path of the editor: of the path itself where it starts at the
/// root of the file system, else of the path below `root`.
pub open spec fn document_uri(root: Seq<char>, path: Seq<char>) -> Seq<char> {
    if path.len() > 0 && path[0] == '/' {
        path_uri(path)
    } else {
        path_uri(root).push('/') + path
    }
}

/// The path that `uri` names.
pub fn parse_uri(root: &str, uri: &str) -> (r: Option<String>)
    ensures
        match uri_path(root@, uri@) {
            Some(path) => r.is_some() && r.unwrap()@ == path,
            None => r.is_none(),
        },
{
    let scheme = "file://";
    if !starts_with(uri, scheme) {
        return None;
    }
    let path = substring(uri, scheme.unicode_len(), uri.unicode_len());
    assert(path@ =~= uri@.skip(scheme@.len() as int));
    let root_len = root.unicode_len();
    if root_len > 0 {
        let mut below = String::from_str(root);
        below.push('/');
        if starts_with(path.as_str(), below.as_str()) {
            let relative = substring(path.as_str(), root_len + 1, path.as_str().unicode_len());
            assert(relative@ =~= path@.skip(root_len + 1));
            return Some(relative);
        }
    }
    Some(path)
}

/// The URI of the path `path` of the editor.
pub fn format_document_uri(root: &str, path: &str) -> (r: String)
    ensures
        r@ == document_uri(root@, path@),
{
    let scheme = "file://";
    if path.unicode_len() > 0 && path.get_char(0) == '/' {
        joined(scheme, path)
    } else {
        let mut uri = joined(scheme, root);
        uri.push('/');
        uri.append(path);
        uri
    }
}

/// What stands behind the last dot of a path; nothing where it has no dot.
pub open spec fn extension_of(path: Seq<char>) -> Seq<char> {
    let dot = last_index_of(path, '.');
    if dot < 0 {
        Seq::empty()
    } else {
        path.skip(dot + 1)
    }
}

/// The name that the protocol gives to the language of a file, by the
/// extension of its path; empty where the extension is not known.
pub open spec fn language_id(path: Seq<char>) -> Seq<char> {
    let e = extension_of(path);
    if e == "rs"@ {
        "rust"@
    } else if e == "c"@ || e == "h"@ {
        "c"@
    } else if e == "cpp"@ || e == "hpp"@ || e == "cc"@ {
        "cpp"@
    } else if e == "cs"@ {
        "csharp"@
    } else if e == "go"@ {
        "go"@
    } else if e == "java"@ {
        "java"@
    } else if e == "js"@ {
        "javascript"@
    } else if e == "ts"@ {
        "typescript"@
    } else if e == "py"@ {
        "python"@
    } else if e == "rb"@ {
        "ruby"@
    } else if e == "lua"@ {
        "lua"@
    } else if e == "json"@ {
        "json"@
    } else if e == "md"@ {
        "markdown"@
    } else if e == "html"@ {
        "html"@
    } else if e == "css"@ {
        "css"@
    } else if e == "sh"@ {
        "shellscript"@
    } else {
        ""@
    }
}

pub fn path_to_language_id(path: &str) -> (r: &'static str)
    ensures
        r@ == language_id(path@),
{
    let chars = chars_of(path);
    let extension = match find_last(&chars, '.') {
        Some(dot) => {
            let e = substring(path, dot + 1, chars.len());
            assert(e@ =~= path@.skip(dot + 1));
            e
        },
        None => String::new(),
    };
    let e = extension.as_str();
    if same_text(e, "rs") {
        "rust"
    } else if same_text(e, "c") || same_text(e, "h") {
        "c"
    } else if same_text(e, "cpp") || same_text(e, "hpp") || same_text(e, "cc") {
        "cpp"
    } else if same_text(e, "cs") {
        "csharp"
    } else if same_text(e, "go") {
        "go"
    } else if same_text(e, "java") {
        "java"
    } else if same_text(e, "js") {
        "javascript"
    } else if same_text(e, "ts") {
        "typescript"
    } else if same_text(e, "py") {
        "python"
    } else if same_text(e, "rb") {
        "ruby"
    } else if same_text(e, "lua") {
        "lua"
    } else if same_text(e, "json") {
        "json"
    } else if same_text(e, "md") {
        "markdown"
    } else if same_text(e, "html") {
        "html"
    } else if same_text(e, "css") {
        "css"
    } else if same_text(e, "sh") {
        "shellscript"
    } else {
        ""
    }
}

/// A copy of a JSON value.
#[verifier::loop_isolation(false)]
pub fn clone_json(value: &JsonValue) -> (r: JsonValue)
    ensures
        r@ == value@,
    decreases value,
{
    match value {
        JsonValue::Null => JsonValue::Null,
        JsonValue::Boolean(b) => JsonValue::Boolean(*b),
        JsonValue::Integer(i) => JsonValue::Integer(*i),
        JsonValue::Float(text) => JsonValue::Float(text.clone()),
        JsonValue::String(text) => JsonValue::String(text.clone()),
        JsonValue::Array(items) => {
            let mut copy: Vec<JsonValue> = Vec::new();
            let mut i: usize = 0;
            assert(json_views(copy@) =~= json_views(items@).take(0));
            while i < items.len()
                invariant
                    0 <= i <= items.len(),
                    copy@.len() == i,
                    json_views(copy@) == json_views(items@).take(i as int),
                decreases items.len() - i,
            {
                proof {
                    vstd::std_specs::vec::axiom_vec_index_decreases(*items, i as int);
                    assert(decreases_to!(*value => *items));
                    assert(decreases_to!(*items => items[i as int]));
                }
                let ghost before = json_views(copy@);
                let item = clone_json(&items[i]);
                copy.push(item);
                assert(json_views(copy@) =~= json_views(items@).take(i + 1));
                i = i + 1;
            }
            proof {
                crate::json::lemma_array_view(*items);
                crate::json::lemma_array_view(copy);
                assert(json_views(items@).take(items.len() as int) =~= json_views(items@));
            }
            JsonValue::Array(copy)
        },
        JsonValue::Object(keys, values) => {
            let mut key_copy: Vec<String> = Vec::new();
            let mut i: usize = 0;
            assert(views(key_copy@) =~= views(keys@).take(0));
            while i < keys.len()
                invariant
                    0 <= i <= keys.len(),
                    key_copy@.len() == i,
                    views(key_copy@) == views(keys@).take(i as int),
                decreases keys.len() - i,
            {
                key_copy.push(keys[i].clone());
                assert(views(key_copy@) =~= views(keys@).take(i + 1));
                i = i + 1;
            }
            let mut copy: Vec<JsonValue> = Vec::new();
            let mut i: usize = 0;
            assert(json_views(copy@) =~= json_views(values@).take(0));
            while i < values.len()
                invariant
                    0 <= i <= values.len(),
                    copy@.len() == i,
                    json_views(copy@) == json_views(values@).take(i as int),
                decreases values.len() - i,
            {
                proof {
                    vstd::std_specs::vec::axiom_vec_index_decreases(*values, i as int);
                    assert(decreases_to!(*value => *values));
                    assert(decreases_to!(*values => values[i as int]));
                }
                let item = clone_json(&values[i]);
                copy.push(item);
                assert(json_views(copy@) =~= json_views(values@).take(i + 1));
                i = i + 1;
            }
            proof {
                crate::json::lemma_object_view(*keys, *values);
                crate::json::lemma_object_view(key_copy, copy);
                assert(json_views(values@).take(values.len() as int) =~= json_views(values@));
                assert(views(keys@).take(keys.len() as int) =~= views(keys@));
            }
            JsonValue::Object(key_copy, copy)
        },
    }
}

/// The number of a request that the client made.
#[derive(Debug, Clone, Copy, PartialEq, Eq, Structural)]
pub struct RequestId(pub usize);

/// Why a request failed, as the protocol tells it.
pub struct ResponseError {
    pub code: i64,
    pub message: String,
    pub data: JsonValue,
}

pub struct ResponseErrorView {
    pub code: int,
    pub message: Seq<char>,
    pub data: Json,
}

impl View for ResponseError {
    type V = ResponseErrorView;

    open spec fn view(&self) -> ResponseErrorView {
        ResponseErrorView { code: self.code as int, message: self.message@, data: self.data@ }
    }
}

impl ResponseError {
    /// The message could not be read.
    pub fn parse_error() -> (r: Self)
        ensures
            r@ == (ResponseErrorView { code: -32700, message: "ParseError"@, data: Json::Null }),
    {
        ResponseError {
            code: -32700,
            message: String::from_str("ParseError"),
            data: JsonValue::Null,
        }
    }

    /// The method is not known.
    pub fn method_not_found() -> (r: Self)
        ensures
            r@ == (ResponseErrorView {
                code: -32601,
                message: "MethodNotFound"@,
                data: Json::Null,
            }),
    {
        ResponseError {
            code: -32601,
            message: String::from_str("MethodNotFound"),
            data: JsonValue::Null,
        }
    }
}

pub struct ServerRequest {
    pub id: JsonValue,
    pub method: String,
    pub params: JsonValue,
}

pub struct ServerNotification {
    pub method: String,
    pub params: JsonValue,
}

pub struct ServerResponse {
    pub id: RequestId,
    pub result: Result<JsonValue, ResponseError>,
}

/// What a language server said.
pub enum ServerEvent {
    Closed,
    ParseError,
    Request(ServerRequest),
    Notification(ServerNotification),
    Response(ServerResponse),
}

pub enum ServerEventView {
    Closed,
    ParseError,
    Request { id: Json, method: Seq<char>, params: Json },
    Notification { method: Seq<char>, params: Json },
    Response { request: RequestId, result: Result<Json, ResponseErrorView> },
}

impl View for ServerEvent {
    type V = ServerEventView;

    open spec fn view(&self) -> ServerEventView {
        match self {
            ServerEvent::Closed => ServerEventView::Closed,
            ServerEvent::ParseError => ServerEventView::ParseError,
            ServerEvent::Request(request) => ServerEventView::Request {
                id: request.id@,
                method: request.method@,
                params: request.params@,
            },
            ServerEvent::Notification(notification) => ServerEventView::Notification {
                method: notification.method@,
                params: notification.params@,
            },
            ServerEvent::Response(response) => ServerEventView::Response {
                request: response.id,
                result: match response.result {
                    Ok(value) => Ok(value@),
                    Err(error) => Err(error@),
                },
            },
        }
    }
}

/// The error that a JSON value holds: its members `code`, `message` and
/// `data`, each at its default where it is missing or of another kind.
pub open spec fn error_of(j: Json) -> ResponseErrorView {
    ResponseErrorView {
        code: match member(j, "code"@) {
            Json::Integer(i) => if i64::MIN <= i <= i64::MAX {
                i
            } else {
                0
            },
            _ => 0,
        },
        message: match member(j, "message"@) {
            Json::String(text) => text,
            _ => Seq::empty(),
        },
        data: member(j, "data"@),
    }
}

/// What a message of the server says. A message with a `method` is a
/// request where it has an `id`, and a notification where it has none; a
/// message without a `method` whose `id` is a number is a response, failed
/// where it has an `error`; anything else cannot be read.
pub open spec fn message_of(j: Json) -> ServerEventView {
    match member(j, "method"@) {
        Json::String(method) => if has_member(j, "id"@) {
            ServerEventView::Request { id: member(j, "id"@), method, params: member(j, "params"@) }
        } else {
            ServerEventView::Notification { method, params: member(j, "params"@) }
        },
        _ => match member(j, "id"@) {
            Json::Integer(id) => if 0 <= id <= usize::MAX {
                ServerEventView::Response {
                    request: RequestId(id as usize),
                    result: if has_member(j, "error"@) {
                        Err(error_of(member(j, "error"@)))
                    } else {
                        Ok(member(j, "result"@))
                    },
                }
            } else {
                ServerEventView::ParseError
            },
            _ => ServerEventView::ParseError,
        },
    }
}

fn clone_member(value: &JsonValue, key: &str) -> (r: JsonValue)
    ensures
        r@ == member(value@, key@),
{
    match value.get(key) {
        Some(member) => clone_json(member),
        None => JsonValue::Null,
    }
}

fn error_from_json(value: &JsonValue) -> (r: ResponseError)
    ensures
        r@ == error_of(value@),
{
    let code = match value.get("code") {
        Some(JsonValue::Integer(i)) => *i,
        _ => 0,
    };
    let message = match value.get("message") {
        Some(JsonValue::String(text)) => text.clone(),
        _ => String::new(),
    };
    ResponseError { code, message, data: clone_member(value, "data") }
}

impl ServerEvent {
    /// Reads the message that a JSON value holds.
    pub fn from_json(body: &JsonValue) -> (r: Self)
        ensures
            r@ == message_of(body@),
    {
        if let Some(JsonValue::String(method)) = body.get("method") {
            if body.get("id").is_some() {
                return ServerEvent::Request(
                    ServerRequest {
                        id: clone_member(body, "id"),
                        method: method.clone(),
                        params: clone_member(body, "params"),
                    },
                );
            } else {
                return ServerEvent::Notification(
                    ServerNotification {
                        method: method.clone(),
                        params: clone_member(body, "params"),
                    },
                );
            }
        }
        if let Some(JsonValue::Integer(id)) = body.get("id") {
            if 0 <= *id && (*id as u64) <= usize::MAX as u64 {
                let result = match body.get("error") {
                    Some(error) => Err(error_from_json(error)),
                    None => Ok(clone_member(body, "result")),
                };
                return ServerEvent::Response(
                    ServerResponse { id: RequestId(*id as usize), result },
                );
            }
        }
        ServerEvent::ParseError
    }
}

/// The JSON of a request.
pub open spec fn request_json(id: int, method: Seq<char>, params: Json) -> Json {
    Json::Object(
        seq!["jsonrpc"@, "id"@, "method"@, "params"@],
        seq![Json::String("2.0"@), Json::Integer(id), Json::String(method), params],
    )
}

/// The JSON of a notification.
pub open spec fn notification_json(method: Seq<char>, params: Json) -> Json {
    Json::Object(
        seq!["jsonrpc"@, "method"@, "params"@],
        seq![Json::String("2.0"@), Json::String(method), params],
    )
}

/// The JSON of an error.
pub open spec fn error_json(error: ResponseErrorView) -> Json {
    Json::Object(
        seq!["code"@, "message"@, "data"@],
        seq![Json::Integer(error.code), Json::String(error.message), error.data],
    )
}

/// The JSON of a response.
pub open spec fn response_json(id: Json, result: Result<Json, ResponseErrorView>) -> Json {
    match result {
        Ok(value) => Json::Object(
            seq!["jsonrpc"@, "id"@, "result"@],
            seq![Json::String("2.0"@), id, value],
        ),
        Err(error) => Json::Object(
            seq!["jsonrpc"@, "id"@, "error"@],
            seq![Json::String("2.0"@), id, error_json(error)],
        ),
    }
}

/// A message as it goes over the wire: a header that tells the number of
/// bytes of the body, an empty line, and the body.
pub open spec fn frame_text(body: Seq<char>) -> Seq<char> {
    "Content-Length: "@ + decimal(encode_utf8(body).len()) + "\r\n\r\n"@ + body
}

/// The bytes of the message that holds the JSON value.
pub open spec fn framed(j: Json) -> Seq<u8> {
    encode_utf8(frame_text(json_text(j)))
}

/// The requests of the platform after the message `j` was sent to the
/// process `handle`; nothing is sent where there is no process.
pub open spec fn with_message(
    requests: Seq<PlatformRequestView>,
    handle: Option<ProcessHandle>,
    j: Json,
) -> Seq<PlatformRequestView> {
    match handle {
        Some(handle) => requests.push(
            PlatformRequestView::WriteToProcess { handle, buf: framed(j) },
        ),
        None => requests,
    }
}

/// The connection to the process of a language server.
pub struct Protocol {
    pub process_handle: Option<ProcessHandle>,
    pub next_request_id: usize,
    pub read_buf: Vec<u8>,
}

impl Protocol {
    pub fn new() -> (r: Self)
        ensures
            r.process_handle is None,
            r.next_request_id == 1,
            r.read_buf@.len() == 0,
    {
        Protocol { process_handle: None, next_request_id: 1, read_buf: Vec::new() }
    }

    pub fn set_process_handle(&mut self, handle: ProcessHandle)
        ensures
            final(self).process_handle == Some(handle),
            final(self).next_request_id == old(self).next_request_id,
            final(self).read_buf == old(self).read_buf,
    {
        self.process_handle = Some(handle);
    }

    /// Sends a message to the process, if there is one.
    pub fn send(&self, platform: &mut Platform, body: &JsonValue)
        ensures
            final(platform)@ == with_message(old(platform)@, self.process_handle, body@),
    {
        if let Some(handle) = self.process_handle {
            let text = body.to_text();
            let length = text.as_str().as_bytes().len();
            let mut message = String::from_str("Content-Length: ");
            push_decimal(&mut message, length as u128);
            message.append("\r\n\r\n");
            message.append(text.as_str());
            assert(message@ =~= frame_text(json_text(body@)));
            let buf = message.as_str().as_bytes_vec();
            platform.enqueue_request(PlatformRequest::WriteToProcess { handle, buf });
        }
    }

    /// Sends a request with the next free number and returns that number.
    /// The numbers given out grow by one with each request.
    pub fn request(&mut self, platform: &mut Platform, method: &str, params: JsonValue) -> (r:
        RequestId)
        ensures
            r.0 == old(self).next_request_id,
            final(self).process_handle == old(self).process_handle,
            final(self).read_buf == old(self).read_buf,
            final(self).next_request_id == if old(self).next_request_id < usize::MAX {
                (old(self).next_request_id + 1) as usize
            } else {
                usize::MAX
            },
            final(platform)@ == with_message(
                old(platform)@,
                old(self).process_handle,
                request_json(
                    clip_i64(old(self).next_request_id as int) as int,
                    method@,
                    params@,
                ),
            ),
    {
        let id = self.next_request_id;
        let id_value: i64 = if id as u64 > i64::MAX as u64 {
            i64::MAX
        } else {
            id as i64
        };
        let mut body = ObjectBuilder::new();
        body.set("jsonrpc", json_string("2.0"));
        body.set("id", JsonValue::Integer(id_value));
        body.set("method", json_string(method));
        let ghost params_view = params@;
        body.set("params", params);
        let body = body.build();
        assert(body@->Object_0 =~= seq!["jsonrpc"@, "id"@, "method"@, "params"@]);
        assert(body@->Object_1 =~= seq![
            Json::String("2.0"@),
            Json::Integer(id_value as int),
            Json::String(method@),
            params_view,
        ]);
        self.send(platform, &body);
        self.next_request_id = id.saturating_add(1);
        RequestId(id)
    }

    /// Sends a notification.
    pub fn notify(&self, platform: &mut Platform, method: &str, params: JsonValue)
        ensures
            final(platform)@ == with_message(
                old(platform)@,
                self.process_handle,
                notification_json(method@, params@),
            ),
    {
        let mut body = ObjectBuilder::new();
        body.set("jsonrpc", json_string("2.0"));
        body.set("method", json_string(method));
        let ghost params_view = params@;
        body.set("params", params);
        let body = body.build();
        assert(body@->Object_0 =~= seq!["jsonrpc"@, "method"@, "params"@]);
        assert(body@->Object_1 =~= seq![
            Json::String("2.0"@),
            Json::String(method@),
            params_view,
        ]);
        self.send(platform, &body);
    }

    /// Sends the response to a request of the server.
    pub fn respond(
        &self,
        platform: &mut Platform,
        id: JsonValue,
        result: Result<JsonValue, ResponseError>,
    )
        ensures
            final(platform)@ == with_message(
                old(platform)@,
                self.process_handle,
                response_json(
                    id@,
                    match result {
                        Ok(value) => Ok(value@),
                        Err(error) => Err(error@),
                    },
                ),
            ),
    {
        let mut body = ObjectBuilder::new();
        body.set("jsonrpc", json_string("2.0"));
        let ghost id_view = id@;
        body.set("id", id);
        match result {
            Ok(value) => {
                let ghost value_view = value@;
                body.set("result", value);
                let body = body.build();
                assert(body@->Object_0 =~= seq!["jsonrpc"@, "id"@, "result"@]);
                assert(body@->Object_1 =~= seq![Json::String("2.0"@), id_view, value_view]);
                self.send(platform, &body);
            },
            Err(error) => {
                let ghost error_view = error@;
                let mut object = ObjectBuilder::new();
                object.set("code", JsonValue::Integer(error.code));
                object.set("message", JsonValue::String(error.message));
                object.set("data", error.data);
                let object = object.build();
                assert(object@->Object_0 =~= seq!["code"@, "message"@, "data"@]);
                assert(object@->Object_1 =~= seq![
                    Json::Integer(error_view.code),
                    Json::String(error_view.message),
                    error_view.data,
                ]);
                body.set("error", object);
                let body = body.build();
                assert(body@->Object_0 =~= seq!["jsonrpc"@, "id"@, "error"@]);
                assert(body@->Object_1 =~= seq![
                    Json::String("2.0"@),
                    id_view,
                    error_json(error_view),
                ]);
                self.send(platform, &body);
            },
        }
    }
}

/// A number brought into the range of `i64`.
pub open spec fn clip_i64(i: int) -> i64 {
    if i > i64::MAX {
        i64::MAX
    } else if i < i64::MIN {
        i64::MIN
    } else {
        i as i64
    }
}

/// The requests that wait for their response, with the method of each.
pub struct PendingRequestCollection {
    pub requests: Vec<(RequestId, String)>,
}

impl View for PendingRequestCollection {
    type V = Seq<(RequestId, Seq<char>)>;

    open spec fn view(&self) -> Seq<(RequestId, Seq<char>)> {
        Seq::new(self.requests@.len(), |i: int| (self.requests@[i].0, self.requests@[i].1@))
    }
}

/// The place of the first request numbered `id` from `from` on, or the
/// length of the list.
pub open spec fn pending_index(pending: Seq<(RequestId, Seq<char>)>, id: RequestId, from: int) -> int
    decreases pending.len() - from,
{
    if from < 0 || from >= pending.len() {
        pending.len() as int
    } else if pending[from].0 == id {
        from
    } else {
        pending_index(pending, id, from + 1)
    }
}

impl PendingRequestCollection {
    pub fn new() -> (r: Self)
        ensures
            r@ == Seq::<(RequestId, Seq<char>)>::empty(),
    {
        let r = PendingRequestCollection { requests: Vec::new() };
        assert(r@ =~= Seq::<(RequestId, Seq<char>)>::empty());
        r
    }

    /// Notes that the request `id` was made with `method`.
    pub fn add(&mut self, id: RequestId, method: &str)
        ensures
            final(self)@ == old(self)@.push((id, method@)),
    {
        self.requests.push((id, String::from_str(method)));
        assert(self@ =~= old(self)@.push((id, method@)));
    }

    /// Takes the first request numbered `id` off the list, and returns its
    /// method; `None`, leaving the list alone, where there is none.
    pub fn take(&mut self, id: RequestId) -> (r: Option<String>)
        ensures
            ({
                let i = pending_index(old(self)@, id, 0);
                if i < old(self)@.len() {
                    r.is_some() && r.unwrap()@ == old(self)@[i].1 && final(self)@ == old(self)@.remove(i)
                } else {
                    r.is_none() && final(self)@ == old(self)@
                }
            }),
    {
        let mut i: usize = 0;
        while i < self.requests.len()
            invariant
                0 <= i <= self.requests.len(),
                *self == *old(self),
                pending_index(self@, id, 0) == pending_index(self@, id, i as int),
            decreases self.requests.len() - i,
        {
            if self.requests[i].0 == id {
                let (_, method) = self.requests.remove(i);
                assert(self@ =~= old(self)@.remove(i as int));
                return Some(method);
            }
            i = i + 1;
        }
        None
    }
}

/// The place of the first empty line at or behind `from`: of the first
/// carriage return that starts two line ends in a row; `-1` where there is
/// none.
pub open spec fn header_end(buf: Seq<u8>, from: int) -> int
    decreases buf.len() - from,
{
    if from < 0 || from + 4 > buf.len() {
        -1
    } else if buf[from] == 13 && buf[from + 1] == 10 && buf[from + 2] == 13 && buf[from + 3]
        == 10 {
        from
    } else {
        header_end(buf, from + 1)
    }
}

/// The place of the first carriage return at or behind `from`, or the length
/// of `buf`.
pub open spec fn line_end(buf: Seq<u8>, from: int) -> int
    decreases buf.len() - from,
{
    if from < 0 || from >= buf.len() || buf[from] == 13 {
        from
    } else {
        line_end(buf, from + 1)
    }
}

/// The number that the decimal digits `from..to` of `buf` spell, where they
/// are digits and the number fits `usize`.
pub open spec fn length_value(buf: Seq<u8>, from: int, to: int) -> Option<int>
    decreases to - from,
{
    if from >= to {
        Some(0)
    } else if 0 <= to - 1 < buf.len() && 48 <= buf[to - 1] <= 57 {
        match length_value(buf, from, to - 1) {
            Some(v) => if v * 10 + (buf[to - 1] - 48) <= usize::MAX {
                Some(v * 10 + (buf[to - 1] - 48))
            } else {
                None
            },
            None => None,
        }
    } else {
        None
    }
}

/// The bytes of the header name that starts a message.
pub open spec fn length_key() -> Seq<u8> {
    encode_utf8("Content-Length: "@)
}

/// What stands at the start of the bytes received.
pub enum Frame {
    /// A message that is not whole yet.
    Incomplete,
    /// A header that tells no length: the first `skip` bytes are dropped.
    Invalid { skip: int },
    /// A message whose body fills the bytes `from..to`.
    Body { from: int, to: int },
}

/// What stands at the start of `buf`: the header runs up to the first empty
/// line; it has to begin with `Content-Length: ` and the length of the body
/// in decimal digits, which run to the end of the line.
pub open spec fn frame_of(buf: Seq<u8>) -> Frame {
    let h = header_end(buf, 0);
    if h < 0 {
        Frame::Incomplete
    } else {
        let key = length_key();
        let digits_end = line_end(buf, key.len() as int);
        if key.len() <= h && buf.subrange(0, key.len() as int) == key && key.len() < digits_end {
            match length_value(buf, key.len() as int, digits_end) {
                Some(n) => if h + 4 + n <= buf.len() {
                    Frame::Body { from: h + 4, to: h + 4 + n }
                } else {
                    Frame::Incomplete
                },
                None => Frame::Invalid { skip: h + 4 },
            }
        } else {
            Frame::Invalid { skip: h + 4 }
        }
    }
}

/// What the body of a message says: what its JSON says, where it is text
/// that holds a JSON value, and a parse error otherwise.
pub open spec fn body_event(body: Seq<u8>) -> ServerEventView {
    if valid_utf8(body) {
        match parsed(decode_utf8(body)) {
            Some(j) => message_of(j),
            None => ServerEventView::ParseError,
        }
    } else {
        ServerEventView::ParseError
    }
}

/// The next event in the bytes received, if a whole message is there, and
/// the bytes that are left behind it.
pub open spec fn next_in(buf: Seq<u8>) -> (Option<ServerEventView>, Seq<u8>) {
    match frame_of(buf) {
        Frame::Incomplete => (None, buf),
        Frame::Invalid { skip } => (Some(ServerEventView::ParseError), buf.skip(skip)),
        Frame::Body { from, to } => (Some(body_event(buf.subrange(from, to))), buf.skip(to)),
    }
}

fn find_header_end(buf: &Vec<u8>) -> (r: Option<usize>)
    ensures
        match r {
            Some(h) => h == header_end(buf@, 0) && h + 4 <= buf.len(),
            None => header_end(buf@, 0) == -1,
        },
{
    let mut i: usize = 0;
    while buf.len() >= 4 && i <= buf.len() - 4
        invariant
            0 <= i <= buf.len(),
            header_end(buf@, 0) == header_end(buf@, i as int),
        decreases buf.len() - i,
    {
        if buf[i] == 13 && buf[i + 1] == 10 && buf[i + 2] == 13 && buf[i + 3] == 10 {
            return Some(i);
        }
        i = i + 1;
    }
    None
}

fn find_line_end(buf: &Vec<u8>, from: usize) -> (r: usize)
    requires
        from <= buf.len(),
    ensures
        r == line_end(buf@, from as int),
        from <= r <= buf.len(),
{
    let mut i = from;
    while i < buf.len() && buf[i] != 13
        invariant
            from <= i <= buf.len(),
            line_end(buf@, from as int) == line_end(buf@, i as int),
        decreases buf.len() - i,
    {
        i = i + 1;
    }
    i
}

#[verifier::loop_isolation(false)]
fn read_length(buf: &Vec<u8>, from: usize, to: usize) -> (r: Option<usize>)
    requires
        from <= to <= buf.len(),
    ensures
        match length_value(buf@, from as int, to as int) {
            Some(v) => r == Some(v as usize) && 0 <= v <= usize::MAX,
            None => r is None,
        },
{
    let mut value: usize = 0;
    let mut i = from;
    while i < to
        invariant
            from <= i <= to,
            length_value(buf@, from as int, i as int) == Some(value as int),
        decreases to - i,
    {
        let b = buf[i];
        if b < 48 || b > 57 {
            proof {
                lemma_length_fail(buf@, from as int, i + 1, to as int);
            }
            return None;
        }
        let digit = (b - 48) as usize;
        if value > (usize::MAX - digit) / 10 {
            proof {
                lemma_length_fail(buf@, from as int, i + 1, to as int);
            }
            return None;
        }
        value = value * 10 + digit;
        i = i + 1;
    }
    Some(value)
}

proof fn lemma_length_fail(buf: Seq<u8>, from: int, mid: int, to: int)
    requires
        from <= mid <= to,
        length_value(buf, from, mid) is None,
    ensures
        length_value(buf, from, to) is None,
    decreases to - mid,
{
    if mid < to {
        lemma_length_fail(buf, from, mid, to - 1);
    }
}

fn bytes_start_with(buf: &Vec<u8>, key: &[u8]) -> (r: bool)
    ensures
        r == (key@.len() <= buf@.len() && buf@.subrange(0, key@.len() as int) == key@),
{
    if buf.len() < key.len() {
        return false;
    }
    let mut i: usize = 0;
    while i < key.len()
        invariant
            0 <= i <= key.len() <= buf.len(),
            forall|j: int| 0 <= j < i ==> buf@[j] == key@[j],
        decreases key.len() - i,
    {
        if buf[i] != key[i] {
            assert(buf@.subrange(0, key@.len() as int)[i as int] != key@[i as int]);
            return false;
        }
        i = i + 1;
    }
    assert(buf@.subrange(0, key@.len() as int) =~= key@);
    true
}

/// What stands at the start of the bytes.
pub enum FrameBounds {
    Incomplete,
    Invalid { skip: usize },
    Body { from: usize, to: usize },
}

fn find_frame(buf: &Vec<u8>) -> (r: FrameBounds)
    ensures
        match frame_of(buf@) {
            Frame::Incomplete => r is Incomplete,
            Frame::Invalid { skip } => r == (FrameBounds::Invalid { skip: skip as usize }) && 0
                <= skip <= buf.len(),
            Frame::Body { from, to } => r == (FrameBounds::Body {
                from: from as usize,
                to: to as usize,
            }) && 0 <= from <= to <= buf.len(),
        },
{
    let h = match find_header_end(buf) {
        Some(h) => h,
        None => {
            return FrameBounds::Incomplete;
        },
    };
    let key = "Content-Length: ".as_bytes();
    assert(key@ == length_key());
    assert(h == header_end(buf@, 0));
    if key.len() > h || !bytes_start_with(buf, key) {
        return FrameBounds::Invalid { skip: h + 4 };
    }
    let digits_end = find_line_end(buf, key.len());
    if key.len() >= digits_end {
        return FrameBounds::Invalid { skip: h + 4 };
    }
    let length = read_length(buf, key.len(), digits_end);
    assert(digits_end == line_end(buf@, length_key().len() as int));
    assert(buf@.subrange(0, length_key().len() as int) == length_key());
    match length {
        Some(n) => {
            assert(length_value(buf@, length_key().len() as int, digits_end as int) == Some(
                n as int,
            ));
            if n <= buf.len() - (h + 4) {
                assert(frame_of(buf@) == (Frame::Body { from: h + 4, to: h + 4 + n }));
                FrameBounds::Body { from: h + 4, to: h + 4 + n }
            } else {
                assert(frame_of(buf@) == Frame::Incomplete);
                FrameBounds::Incomplete
            }
        },
        None => {
            assert(frame_of(buf@) == (Frame::Invalid { skip: h + 4 }));
            FrameBounds::Invalid { skip: h + 4 }
        },
    }
}

fn read_body(body: &[u8]) -> (r: ServerEvent)
    ensures
        r@ == body_event(body@),
{
    match core::str::from_utf8(body) {
        Ok(text) => match parse(text) {
            Ok(value) => ServerEvent::from_json(&value),
            Err(_) => ServerEvent::ParseError,
        },
        Err(_) => ServerEvent::ParseError,
    }
}

impl Protocol {
    /// Takes in bytes that the process wrote.
    pub fn receive(&mut self, bytes: &[u8])
        ensures
            final(self).read_buf@ == old(self).read_buf@ + bytes@,
            final(self).process_handle == old(self).process_handle,
            final(self).next_request_id == old(self).next_request_id,
    {
        let mut i: usize = 0;
        while i < bytes.len()
            invariant
                0 <= i <= bytes.len(),
                self.read_buf@ == old(self).read_buf@ + bytes@.take(i as int),
                self.process_handle == old(self).process_handle,
                self.next_request_id == old(self).next_request_id,
            decreases bytes.len() - i,
        {
            self.read_buf.push(bytes[i]);
            assert(self.read_buf@ =~= old(self).read_buf@ + bytes@.take(i + 1));
            i = i + 1;
        }
        assert(bytes@.take(bytes.len() as int) =~= bytes@);
    }

    /// Takes the next message off the bytes received, if a whole message is
    /// there, and tells what it says.
    pub fn next_event(&mut self) -> (r: Option<ServerEvent>)
        ensures
            final(self).process_handle == old(self).process_handle,
            final(self).next_request_id == old(self).next_request_id,
            final(self).read_buf@ == next_in(old(self).read_buf@).1,
            match next_in(old(self).read_buf@).0 {
                Some(event) => r is Some && r.unwrap()@ == event,
                None => r is None,
            },
    {
        match find_frame(&self.read_buf) {
            FrameBounds::Incomplete => None,
            FrameBounds::Invalid { skip } => {
                let rest = self.read_buf.split_off(skip);
                self.read_buf = rest;
                assert(self.read_buf@ =~= old(self).read_buf@.skip(skip as int));
                Some(ServerEvent::ParseError)
            },
            FrameBounds::Body { from, to } => {
                let rest = self.read_buf.split_off(to);
                let event = read_body(slice_subrange(self.read_buf.as_slice(), from, to));
                assert(self.read_buf@.subrange(from as int, to as int) =~= old(self).read_buf@.subrange(from as int, to as int));
                self.read_buf = rest;
                assert(self.read_buf@ =~= old(self).read_buf@.skip(to as int));
                Some(event)
            },
        }
    }
}

/// A diagnostic as the protocol tells it.
pub struct DocumentDiagnostic {
    pub message: String,
    pub range: DocumentRange,
    pub data: JsonValue,
}

pub struct DocumentDiagnosticView {
    pub message: Seq<char>,
    pub range: DocumentRange,
    pub data: Json,
}

impl View for DocumentDiagnostic {
    type V = DocumentDiagnosticView;

    open spec fn view(&self) -> DocumentDiagnosticView {
        DocumentDiagnosticView { message: self.message@, range: self.range, data: self.data@ }
    }
}

/// The diagnostic that a JSON value holds: an object whose members
/// `message` and `range` are a text and a range, with its member `data`.
pub open spec fn diagnostic_of(j: Json) -> Option<DocumentDiagnosticView> {
    match j {
        Json::Object(_, _) => match (member_text(j, "message"@), member_range(j, "range"@)) {
            (Some(message), Some(range)) => Some(
                DocumentDiagnosticView { message, range, data: member(j, "data"@) },
            ),
            _ => None,
        },
        _ => None,
    }
}

/// The JSON of a diagnostic.
pub open spec fn diagnostic_json(d: DocumentDiagnosticView) -> Json {
    Json::Object(
        seq!["message"@, "range"@, "data"@],
        seq![Json::String(d.message), range_json(d.range), d.data],
    )
}

impl DocumentDiagnostic {
    pub fn from_json(value: &JsonValue) -> (r: Result<Self, JsonConvertError>)
        ensures
            match diagnostic_of(value@) {
                Some(diagnostic) => r is Ok && r->Ok_0@ == diagnostic,
                None => r is Err,
            },
    {
        match value {
            JsonValue::Object(_, _) => {
                let message = get_text(value, "message");
                let range = get_range(value, "range");
                match (message, range) {
                    (Some(message), Some(range)) => Ok(
                        DocumentDiagnostic {
                            message: String::from_str(message),
                            range,
                            data: clone_member(value, "data"),
                        },
                    ),
                    _ => Err(JsonConvertError),
                }
            },
            _ => Err(JsonConvertError),
        }
    }

    pub fn to_json_value(self) -> (r: JsonValue)
        ensures
            r@ == diagnostic_json(self@),
    {
        let ghost view = self@;
        let mut object = ObjectBuilder::new();
        object.set("message", JsonValue::String(self.message));
        object.set("range", self.range.to_json_value());
        object.set("data", self.data);
        let r = object.build();
        assert(r@->Object_0 =~= seq!["message"@, "range"@, "data"@]);
        assert(r@->Object_1 =~= seq![Json::String(view.message), range_json(view.range), view.data]);
        r
    }
}

/// What a server offers to do to the code.
pub struct DocumentCodeAction {
    pub title: String,
    pub edit: WorkspaceEdit,
    pub disabled: bool,
}

pub struct DocumentCodeActionView {
    pub title: Seq<char>,
    pub edit: Seq<DocumentEditsView>,
    pub disabled: bool,
}

impl View for DocumentCodeAction {
    type V = DocumentCodeActionView;

    open spec fn view(&self) -> DocumentCodeActionView {
        DocumentCodeActionView { title: self.title@, edit: self.edit@, disabled: self.disabled }
    }
}

/// The code action that a JSON value holds: an object whose member `title`
/// is a text and whose member `edit` holds a workspace edit; it is disabled
/// where it has a member `disabled`.
pub open spec fn code_action_of(j: Json) -> Option<DocumentCodeActionView> {
    match j {
        Json::Object(_, _) => match (
            member_text(j, "title"@),
            workspace_edit_of(member(j, "edit"@)),
        ) {
            (Some(title), Some(edit)) => Some(
                DocumentCodeActionView { title, edit, disabled: has_member(j, "disabled"@) },
            ),
            _ => None,
        },
        _ => None,
    }
}

impl DocumentCodeAction {
    pub fn from_json(value: &JsonValue) -> (r: Result<Self, JsonConvertError>)
        ensures
            match code_action_of(value@) {
                Some(action) => r is Ok && r->Ok_0@ == action,
                None => r is Err,
            },
    {
        match value {
            JsonValue::Object(_, _) => {
                let title = get_text(value, "title");
                let null = JsonValue::Null;
                let edit = match value.get("edit") {
                    Some(edit) => WorkspaceEdit::from_json(edit),
                    None => WorkspaceEdit::from_json(&null),
                };
                match (title, edit) {
                    (Some(title), Ok(edit)) => Ok(
                        DocumentCodeAction {
                            title: String::from_str(title),
                            edit,
                            disabled: value.get("disabled").is_some(),
                        },
                    ),
                    _ => Err(JsonConvertError),
                }
            },
            _ => Err(JsonConvertError),
        }
    }
}

/// A symbol that a server knows.
pub struct DocumentSymbolInformation {
    pub name: String,
    pub uri: String,
    pub range: DocumentRange,
    pub container_name: Option<String>,
}

pub struct DocumentSymbolInformationView {
    pub name: Seq<char>,
    pub uri: Seq<char>,
    pub range: DocumentRange,
    pub container_name: Option<Seq<char>>,
}

impl View for DocumentSymbolInformation {
    type V = DocumentSymbolInformationView;

    open spec fn view(&self) -> DocumentSymbolInformationView {
        DocumentSymbolInformationView {
            name: self.name@,
            uri: self.uri@,
            range: self.range,
            container_name: match self.container_name {
                Some(name) => Some(name@),
                None => None,
            },
        }
    }
}

/// The symbol that a JSON value holds: an object with the members `name`,
/// a text, and `containerName`, a text if it is there at all. Its place is
/// that of its member `location`, where it has one, and else its member
/// `range`, in no document.
pub open spec fn symbol_of(j: Json) -> Option<DocumentSymbolInformationView> {
    match j {
        Json::Object(_, _) => {
            let place = if has_member(j, "location"@) {
                location_of(member(j, "location"@))
            } else {
                match member_range(j, "range"@) {
                    Some(range) => Some(DocumentLocationView { uri: Seq::empty(), range }),
                    None => None,
                }
            };
            let container = if has_member(j, "containerName"@) {
                match member(j, "containerName"@) {
                    Json::String(text) => Some(Some(text)),
                    _ => None,
                }
            } else {
                Some(None)
            };
            match (member_text(j, "name"@), place, container) {
                (Some(name), Some(place), Some(container_name)) => Some(
                    DocumentSymbolInformationView {
                        name,
                        uri: place.uri,
                        range: place.range,
                        container_name,
                    },
                ),
                _ => None,
            }
        },
        _ => None,
    }
}

impl DocumentSymbolInformation {
    pub fn from_json(value: &JsonValue) -> (r: Result<Self, JsonConvertError>)
        ensures
            match symbol_of(value@) {
                Some(symbol) => r is Ok && r->Ok_0@ == symbol,
                None => r is Err,
            },
    {
        match value {
            JsonValue::Object(_, _) => {
                let name = match get_text(value, "name") {
                    Some(name) => name,
                    None => {
                        return Err(JsonConvertError);
                    },
                };
                let (uri, range) = match value.get("location") {
                    Some(location) => match DocumentLocation::from_json(location) {
                        Ok(location) => (location.uri, location.range),
                        Err(e) => {
                            return Err(e);
                        },
                    },
                    None => match get_range(value, "range") {
                        Some(range) => (String::new(), range),
                        None => {
                            return Err(JsonConvertError);
                        },
                    },
                };
                let container_name = match value.get("containerName") {
                    Some(JsonValue::String(text)) => Some(text.clone()),
                    Some(_) => {
                        return Err(JsonConvertError);
                    },
                    None => None,
                };
                Ok(
                    DocumentSymbolInformation {
                        name: String::from_str(name),
                        uri,
                        range,
                        container_name,
                    },
                )
            },
            _ => Err(JsonConvertError),
        }
    }
}

} // verus!
