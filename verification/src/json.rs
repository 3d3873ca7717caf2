//! JSON values as trees, and their text.

use crate::text::{chars_of, decimal, push_decimal, same_text, views};
use vstd::prelude::*;

verus! {

/// A JSON value. A number with a fraction or an exponent is kept as it was
/// written.
pub enum JsonValue {
    Null,
    Boolean(bool),
    Integer(i64),
    Float(String),
    String(String),
    Array(Vec<JsonValue>),
    /// The names of the members, and their values in the same order.
    Object(Vec<String>, Vec<JsonValue>),
}

/// A JSON value as a mathematical tree.
pub enum Json {
    Null,
    Boolean(bool),
    Integer(int),
    Float(Seq<char>),
    String(Seq<char>),
    Array(Seq<Json>),
    /// The names of the members, and their values in the same order.
    Object(Seq<Seq<char>>, Seq<Json>),
}

impl View for JsonValue {
    type V = Json;

    open spec fn view(&self) -> Json
        decreases self,
    {
        match self {
            JsonValue::Null => Json::Null,
            JsonValue::Boolean(b) => Json::Boolean(*b),
            JsonValue::Integer(i) => Json::Integer(*i as int),
            JsonValue::Float(text) => Json::Float(text@),
            JsonValue::String(text) => Json::String(text@),
            JsonValue::Array(items) => Json::Array(
                Seq::new(
                    items@.len(),
                    |i: int|
                        if 0 <= i < items@.len() {
                            items@[i].view()
                        } else {
                            Json::Null
                        },
                ),
            ),
            JsonValue::Object(keys, values) => Json::Object(
                Seq::new(keys@.len(), |i: int| keys@[i]@),
                Seq::new(
                    values@.len(),
                    |i: int|
                        if 0 <= i < values@.len() {
                            values@[i].view()
                        } else {
                            Json::Null
                        },
                ),
            ),
        }
    }
}

/// The views of a list of values.
pub open spec fn json_views(items: Seq<JsonValue>) -> Seq<Json> {
    Seq::new(items.len(), |i: int| items[i]@)
}

pub proof fn lemma_array_view(items: Vec<JsonValue>)
    ensures
        JsonValue::Array(items)@ == Json::Array(json_views(items@)),
{
    assert(JsonValue::Array(items)@->Array_0 =~= json_views(items@));
}

pub proof fn lemma_object_view(keys: Vec<String>, values: Vec<JsonValue>)
    ensures
        JsonValue::Object(keys, values)@ == Json::Object(views(keys@), json_views(values@)),
{
    assert(JsonValue::Object(keys, values)@->Object_0 =~= views(keys@));
    assert(JsonValue::Object(keys, values)@->Object_1 =~= json_views(values@));
}

/// The first place from `from` on where `key` stands among `keys`, or the
/// length of `keys` where it stands nowhere.
pub open spec fn key_index(keys: Seq<Seq<char>>, key: Seq<char>, from: int) -> int
    decreases keys.len() - from,
{
    if from < 0 || from >= keys.len() {
        keys.len() as int
    } else if keys[from] == key {
        from
    } else {
        key_index(keys, key, from + 1)
    }
}

/// The value of the first member named `key` of an object; `Null` where
/// there is no such member, or the value is no object.
pub open spec fn member(j: Json, key: Seq<char>) -> Json {
    match j {
        Json::Object(keys, values) => {
            let i = key_index(keys, key, 0);
            if i < keys.len() && i < values.len() {
                values[i]
            } else {
                Json::Null
            }
        },
        _ => Json::Null,
    }
}

/// Whether an object has a member named `key`.
pub open spec fn has_member(j: Json, key: Seq<char>) -> bool {
    match j {
        Json::Object(keys, values) => {
            let i = key_index(keys, key, 0);
            i < keys.len() && i < values.len()
        },
        _ => false,
    }
}

/// The elements of an array; none where the value is no array.
pub open spec fn elements(j: Json) -> Seq<Json> {
    match j {
        Json::Array(items) => items,
        _ => Seq::empty(),
    }
}

/// The number of members of an object; none where the value is no object.
pub open spec fn member_count(j: Json) -> int {
    match j {
        Json::Object(keys, values) => if keys.len() <= values.len() {
            keys.len() as int
        } else {
            values.len() as int
        },
        _ => 0,
    }
}

/// A digit of a number in base sixteen.
pub open spec fn hex_digit(d: int) -> char {
    if d == 0 {
        '0'
    } else if d == 1 {
        '1'
    } else if d == 2 {
        '2'
    } else if d == 3 {
        '3'
    } else if d == 4 {
        '4'
    } else if d == 5 {
        '5'
    } else if d == 6 {
        '6'
    } else if d == 7 {
        '7'
    } else if d == 8 {
        '8'
    } else if d == 9 {
        '9'
    } else if d == 10 {
        'a'
    } else if d == 11 {
        'b'
    } else if d == 12 {
        'c'
    } else if d == 13 {
        'd'
    } else if d == 14 {
        'e'
    } else {
        'f'
    }
}

/// A character as it stands inside a JSON string: quotes, backslashes and
/// control characters are escaped.
pub open spec fn escaped_char(c: char) -> Seq<char> {
    if c == '"' {
        seq!['\\', '"']
    } else if c == '\\' {
        seq!['\\', '\\']
    } else if c == '\n' {
        seq!['\\', 'n']
    } else if c == '\r' {
        seq!['\\', 'r']
    } else if c == '\t' {
        seq!['\\', 't']
    } else if (c as u32) < 0x20 {
        seq!['\\', 'u', '0', '0', hex_digit((c as u32) as int / 16), hex_digit((c as u32) as int % 16)]
    } else {
        seq![c]
    }
}

/// The characters of a text as they stand inside a JSON string.
pub open spec fn escaped(text: Seq<char>) -> Seq<char>
    decreases text.len(),
{
    if text.len() == 0 {
        Seq::empty()
    } else {
        escaped(text.drop_last()) + escaped_char(text.last())
    }
}

/// A text as a JSON string.
pub open spec fn quoted(text: Seq<char>) -> Seq<char> {
    seq!['"'] + escaped(text) + seq!['"']
}

/// A whole number in decimal, with a sign where it is negative.
pub open spec fn integer_text(i: int) -> Seq<char> {
    if i < 0 {
        seq!['-'] + decimal((-i) as nat)
    } else {
        decimal(i as nat)
    }
}

/// The text of a JSON value, without any white space.
pub open spec fn json_text(j: Json) -> Seq<char>
    decreases j, 1int,
{
    match j {
        Json::Null => seq!['n', 'u', 'l', 'l'],
        Json::Boolean(b) => if b {
            seq!['t', 'r', 'u', 'e']
        } else {
            seq!['f', 'a', 'l', 's', 'e']
        },
        Json::Integer(i) => integer_text(i),
        Json::Float(text) => text,
        Json::String(text) => quoted(text),
        Json::Array(items) => seq!['['] + items_text(j, items.len() as int) + seq![']'],
        Json::Object(keys, values) => seq!['{'] + items_text(j, member_count(j)) + seq!['}'],
    }
}

/// The texts of the first `count` elements of an array or members of an
/// object, with commas between them.
pub open spec fn items_text(j: Json, count: int) -> Seq<char>
    decreases j, 0int, count,
{
    if count <= 0 {
        Seq::empty()
    } else {
        let lead = if count > 1 {
            items_text(j, count - 1).push(',')
        } else {
            Seq::empty()
        };
        match j {
            Json::Array(items) => if count <= items.len() {
                lead + json_text(items[count - 1])
            } else {
                Seq::empty()
            },
            Json::Object(keys, values) => if count <= keys.len() && count <= values.len() {
                lead + quoted(keys[count - 1]).push(':') + json_text(values[count - 1])
            } else {
                Seq::empty()
            },
            _ => Seq::empty(),
        }
    }
}

/// Collects the members of an object.
pub struct ObjectBuilder {
    pub keys: Vec<String>,
    pub values: Vec<JsonValue>,
}

impl ObjectBuilder {
    /// The object that was built so far.
    pub open spec fn built(&self) -> Json {
        Json::Object(views(self.keys@), json_views(self.values@))
    }

    pub fn new() -> (r: Self)
        ensures
            r.built() == Json::Object(Seq::empty(), Seq::empty()),
            r.keys@.len() == 0,
            r.values@.len() == 0,
    {
        let r = ObjectBuilder { keys: Vec::new(), values: Vec::new() };
        assert(views(r.keys@) =~= Seq::<Seq<char>>::empty());
        assert(json_views(r.values@) =~= Seq::<Json>::empty());
        r
    }

    /// Adds a member behind those that are there.
    pub fn set(&mut self, key: &str, value: JsonValue)
        requires
            old(self).keys@.len() == old(self).values@.len(),
        ensures
            final(self).keys@.len() == final(self).values@.len(),
            final(self).keys@.len() == old(self).keys@.len() + 1,
            final(self).built() == Json::Object(
                views(old(self).keys@).push(key@),
                json_views(old(self).values@).push(value@),
            ),
    {
        self.keys.push(String::from_str(key));
        self.values.push(value);
        assert(views(self.keys@) =~= views(old(self).keys@).push(key@));
        assert(json_views(self.values@) =~= json_views(old(self).values@).push(value@));
    }

    pub fn build(self) -> (r: JsonValue)
        ensures
            r@ == self.built(),
    {
        proof {
            lemma_object_view(self.keys, self.values);
        }
        JsonValue::Object(self.keys, self.values)
    }
}

/// A JSON string that holds `text`.
pub fn json_string(text: &str) -> (r: JsonValue)
    ensures
        r@ == Json::String(text@),
{
    JsonValue::String(String::from_str(text))
}

/// A JSON array of the values.
pub fn json_array(items: Vec<JsonValue>) -> (r: JsonValue)
    ensures
        r@ == Json::Array(json_views(items@)),
{
    proof {
        lemma_array_view(items);
    }
    JsonValue::Array(items)
}

impl JsonValue {
    /// The value of the first member named `key`, where this is an object
    /// that has one.
    pub fn get(&self, key: &str) -> (r: Option<&JsonValue>)
        ensures
            r.is_some() == has_member(self@, key@),
            r.is_some() ==> r.unwrap()@ == member(self@, key@),
            r.is_none() ==> member(self@, key@) == Json::Null,
    {
        match self {
            JsonValue::Object(keys, values) => {
                proof {
                    lemma_object_view(*keys, *values);
                }
                let mut i: usize = 0;
                while i < keys.len() && i < values.len()
                    invariant
                        0 <= i <= keys.len(),
                        self@ == Json::Object(views(keys@), json_views(values@)),
                        key_index(views(keys@), key@, 0) == key_index(views(keys@), key@, i as int),
                    decreases keys.len() - i,
                {
                    if same_text(keys[i].as_str(), key) {
                        assert(key_index(views(keys@), key@, i as int) == i);
                        return Some(&values[i]);
                    }
                    assert(views(keys@)[i as int] != key@);
                    i = i + 1;
                }
                proof {
                    lemma_key_index_bounds(views(keys@), key@, i as int);
                }
                None
            },
            _ => None,
        }
    }

    /// The elements, where this is an array.
    pub fn items(&self) -> (r: Option<&Vec<JsonValue>>)
        ensures
            r.is_some() == (self@ is Array),
            r.is_some() ==> json_views(r.unwrap()@) == elements(self@),
            r.is_none() ==> elements(self@).len() == 0,
    {
        match self {
            JsonValue::Array(items) => {
                proof {
                    lemma_array_view(*items);
                }
                Some(items)
            },
            _ => None,
        }
    }

    /// The text, where this is a string.
    pub fn as_str(&self) -> (r: Option<&str>)
        ensures
            match self@ {
                Json::String(text) => r.is_some() && r.unwrap()@ == text,
                _ => r.is_none(),
            },
    {
        match self {
            JsonValue::String(text) => Some(text.as_str()),
            _ => None,
        }
    }

    /// Appends the text of the value to `out`.
    pub fn write(&self, out: &mut String)
        ensures
            final(out)@ == old(out)@ + json_text(self@),
        decreases self,
    {
        match self {
            JsonValue::Null => {
                proof {
                    reveal_strlit("null");
                }
                out.append("null");
                assert(out@ =~= old(out)@ + seq!['n', 'u', 'l', 'l']);
            },
            JsonValue::Boolean(b) => {
                if *b {
                    proof {
                        reveal_strlit("true");
                    }
                    out.append("true");
                    assert(out@ =~= old(out)@ + seq!['t', 'r', 'u', 'e']);
                } else {
                    proof {
                        reveal_strlit("false");
                    }
                    out.append("false");
                    assert(out@ =~= old(out)@ + seq!['f', 'a', 'l', 's', 'e']);
                }
            },
            JsonValue::Integer(i) => {
                write_integer(*i, out);
            },
            JsonValue::Float(text) => {
                out.append(text.as_str());
            },
            JsonValue::String(text) => {
                write_quoted(text.as_str(), out);
            },
            JsonValue::Array(items) => {
                proof {
                    lemma_array_view(*items);
                }
                out.push('[');
                let mut i: usize = 0;
                while i < items.len()
                    invariant
                        0 <= i <= items.len(),
                        self@ == Json::Array(json_views(items@)),
                        *self == JsonValue::Array(*items),
                        out@ == old(out)@.push('[') + items_text(self@, i as int),
                    decreases items.len() - i,
                {
                    let ghost before = out@;
                    if i > 0 {
                        out.push(',');
                    }
                    proof {
                        vstd::std_specs::vec::axiom_vec_index_decreases(*items, i as int);
                        assert(decreases_to!(*self => *items));
                        assert(decreases_to!(*items => items[i as int]));
                    }
                    items[i].write(out);
                    proof {
                        let lead = if i > 0 {
                            items_text(self@, i as int).push(',')
                        } else {
                            Seq::<char>::empty()
                        };
                        assert(out@ =~= old(out)@.push('[') + (lead + json_text(items[i as int]@)));
                    }
                    i = i + 1;
                }
                out.push(']');
                assert(out@ =~= old(out)@ + json_text(self@));
            },
            JsonValue::Object(keys, values) => {
                proof {
                    lemma_object_view(*keys, *values);
                }
                out.push('{');
                let mut i: usize = 0;
                while i < keys.len() && i < values.len()
                    invariant
                        0 <= i <= keys.len(),
                        i <= values.len(),
                        self@ == Json::Object(views(keys@), json_views(values@)),
                        *self == JsonValue::Object(*keys, *values),
                        out@ == old(out)@.push('{') + items_text(self@, i as int),
                    decreases keys.len() - i,
                {
                    if i > 0 {
                        out.push(',');
                    }
                    let ghost start = out@;
                    write_quoted(keys[i].as_str(), out);
                    out.push(':');
                    proof {
                        vstd::std_specs::vec::axiom_vec_index_decreases(*values, i as int);
                        assert(decreases_to!(*self => *values));
                        assert(decreases_to!(*values => values[i as int]));
                    }
                    values[i].write(out);
                    proof {
                        let lead = if i > 0 {
                            items_text(self@, i as int).push(',')
                        } else {
                            Seq::<char>::empty()
                        };
                        assert(out@ =~= old(out)@.push('{') + (lead + quoted(keys[i as int]@).push(
                            ':',
                        ) + json_text(values[i as int]@)));
                    }
                    i = i + 1;
                }
                out.push('}');
                assert(out@ =~= old(out)@ + json_text(self@));
            },
        }
    }

    /// The text of the value.
    pub fn to_text(&self) -> (r: String)
        ensures
            r@ == json_text(self@),
    {
        let mut out = String::new();
        self.write(&mut out);
        assert(out@ =~= json_text(self@));
        out
    }
}

proof fn lemma_key_index_bounds(keys: Seq<Seq<char>>, key: Seq<char>, from: int)
    requires
        0 <= from,
    ensures
        from <= key_index(keys, key, from) <= keys.len() || (from > keys.len() && key_index(
            keys,
            key,
            from,
        ) == keys.len()),
        key_index(keys, key, from) < keys.len() ==> keys[key_index(keys, key, from)] == key,
    decreases keys.len() - from,
{
    if from < keys.len() && keys[from] != key {
        lemma_key_index_bounds(keys, key, from + 1);
    }
}

fn hex_digit_char(d: u32) -> (c: char)
    requires
        d < 16,
    ensures
        c == hex_digit(d as int),
{
    if d == 0 {
        '0'
    } else if d == 1 {
        '1'
    } else if d == 2 {
        '2'
    } else if d == 3 {
        '3'
    } else if d == 4 {
        '4'
    } else if d == 5 {
        '5'
    } else if d == 6 {
        '6'
    } else if d == 7 {
        '7'
    } else if d == 8 {
        '8'
    } else if d == 9 {
        '9'
    } else if d == 10 {
        'a'
    } else if d == 11 {
        'b'
    } else if d == 12 {
        'c'
    } else if d == 13 {
        'd'
    } else if d == 14 {
        'e'
    } else {
        'f'
    }
}

fn write_escaped_char(c: char, out: &mut String)
    ensures
        final(out)@ == old(out)@ + escaped_char(c),
{
    if c == '"' {
        out.push('\\');
        out.push('"');
    } else if c == '\\' {
        out.push('\\');
        out.push('\\');
    } else if c == '\n' {
        out.push('\\');
        out.push('n');
    } else if c == '\r' {
        out.push('\\');
        out.push('r');
    } else if c == '\t' {
        out.push('\\');
        out.push('t');
    } else if (c as u32) < 0x20 {
        out.push('\\');
        out.push('u');
        out.push('0');
        out.push('0');
        out.push(hex_digit_char(c as u32 / 16));
        out.push(hex_digit_char(c as u32 % 16));
    } else {
        out.push(c);
    }
    assert(out@ =~= old(out)@ + escaped_char(c));
}

/// Appends `text` as a JSON string to `out`.
pub fn write_quoted(text: &str, out: &mut String)
    ensures
        final(out)@ == old(out)@ + quoted(text@),
{
    let chars = chars_of(text);
    out.push('"');
    let mut i: usize = 0;
    assert(text@.take(0) =~= Seq::<char>::empty());
    while i < chars.len()
        invariant
            0 <= i <= chars.len(),
            chars@ == text@,
            out@ == old(out)@.push('"') + escaped(text@.take(i as int)),
        decreases chars.len() - i,
    {
        write_escaped_char(chars[i], out);
        proof {
            assert(text@.take(i + 1).drop_last() =~= text@.take(i as int));
            assert(text@.take(i + 1).last() == chars[i as int]);
            assert(out@ =~= old(out)@.push('"') + escaped(text@.take(i + 1)));
        }
        i = i + 1;
    }
    assert(text@.take(chars.len() as int) =~= text@);
    out.push('"');
    assert(out@ =~= old(out)@ + quoted(text@));
}

/// Appends a whole number in decimal to `out`.
pub fn write_integer(i: i64, out: &mut String)
    ensures
        final(out)@ == old(out)@ + integer_text(i as int),
{
    if i < 0 {
        out.push('-');
        let magnitude: u64 = if i == i64::MIN {
            0x8000_0000_0000_0000u64
        } else {
            (-i) as u64
        };
        push_decimal(out, magnitude as u128);
        assert(out@ =~= old(out)@ + integer_text(i as int));
    } else {
        push_decimal(out, i as u128);
    }
}

} // verus!
