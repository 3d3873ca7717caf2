//! Reading JSON text into values.
//!
//! The reader takes the grammar of JSON with these limits: values may be
//! nested `MAX_DEPTH` deep; inside a string a `\u` escape must name a Unicode
//! scalar value, and control characters must be escaped; a number that has a
//! fraction or an exponent, or does not fit sixty-four bits, is kept as it is
//! written.

use crate::json::{json_views, lemma_array_view, lemma_object_view, Json, JsonValue};
use crate::text::{chars_of, views};
use vstd::prelude::*;
use vstd::utf8::is_scalar;

verus! {

/// The text is no JSON value.
#[derive(Debug, Clone, Copy, PartialEq, Eq, Structural)]
pub struct JsonParseError;

/// How deep values may be nested.
pub const MAX_DEPTH: usize = 128;

pub open spec fn is_space(c: char) -> bool {
    c == ' ' || c == '\n' || c == '\r' || c == '\t'
}

pub open spec fn is_digit(c: char) -> bool {
    '0' <= c <= '9'
}

pub open spec fn digit_value(c: char) -> int {
    (c as u32) as int - ('0' as u32) as int
}

/// The place of the first character from `i` on that is no white space.
pub open spec fn after_spaces(s: Seq<char>, i: int) -> int
    decreases s.len() - i,
{
    if 0 <= i < s.len() && is_space(s[i]) {
        after_spaces(s, i + 1)
    } else {
        i
    }
}

/// The value of a digit in base sixteen, or `None` for another character.
pub open spec fn hex_value(c: char) -> Option<int> {
    if '0' <= c <= '9' {
        Some((c as u32) as int - ('0' as u32) as int)
    } else if 'a' <= c <= 'f' {
        Some((c as u32) as int - ('a' as u32) as int + 10)
    } else if 'A' <= c <= 'F' {
        Some((c as u32) as int - ('A' as u32) as int + 10)
    } else {
        None
    }
}

/// The character that the four hex digits from `i` on name.
pub open spec fn parsed_unicode_escape(s: Seq<char>, i: int) -> Option<char> {
    if 0 <= i && i + 4 <= s.len() {
        match (hex_value(s[i]), hex_value(s[i + 1]), hex_value(s[i + 2]), hex_value(s[i + 3])) {
            (Some(a), Some(b), Some(c), Some(d)) => {
                let v = (a * 4096 + b * 256 + c * 16 + d) as u32;
                if is_scalar(v) {
                    Some(v as char)
                } else {
                    None
                }
            },
            _ => None,
        }
    } else {
        None
    }
}

/// The character that an escape with the letter `c` stands for, for the
/// escapes of one letter.
pub open spec fn simple_escape(c: char) -> Option<char> {
    if c == '"' {
        Some('"')
    } else if c == '\\' {
        Some('\\')
    } else if c == '/' {
        Some('/')
    } else if c == 'b' {
        Some('\u{8}')
    } else if c == 'f' {
        Some('\u{c}')
    } else if c == 'n' {
        Some('\n')
    } else if c == 'r' {
        Some('\r')
    } else if c == 't' {
        Some('\t')
    } else {
        None
    }
}

/// Reads the rest of a string from `i` on, behind its opening quote, onto
/// `text`. Gives the text and the place behind the closing quote.
pub open spec fn parsed_string(s: Seq<char>, i: int, text: Seq<char>) -> Option<(Seq<char>, int)>
    decreases s.len() - i,
{
    if i < 0 || i >= s.len() {
        None
    } else if s[i] == '"' {
        Some((text, i + 1))
    } else if s[i] == '\\' {
        if i + 1 >= s.len() {
            None
        } else if s[i + 1] == 'u' {
            match parsed_unicode_escape(s, i + 2) {
                Some(c) => parsed_string(s, i + 6, text.push(c)),
                None => None,
            }
        } else {
            match simple_escape(s[i + 1]) {
                Some(c) => parsed_string(s, i + 2, text.push(c)),
                None => None,
            }
        }
    } else if (s[i] as u32) < 0x20 {
        None
    } else {
        parsed_string(s, i + 1, text.push(s[i]))
    }
}

/// A character that may stand in a number.
pub open spec fn is_number_char(c: char) -> bool {
    is_digit(c) || c == '-' || c == '+' || c == '.' || c == 'e' || c == 'E'
}

/// The place behind the run of number characters that begins at `i`.
pub open spec fn after_number(s: Seq<char>, i: int) -> int
    decreases s.len() - i,
{
    if 0 <= i < s.len() && is_number_char(s[i]) {
        after_number(s, i + 1)
    } else {
        i
    }
}

/// The value of the digits `from..to`, or `None` where one of the characters
/// is no digit or the value leaves the range that is tracked.
pub open spec fn digits_value(s: Seq<char>, from: int, to: int, limit: int) -> Option<int>
    decreases to - from,
{
    if from >= to {
        Some(0)
    } else if 0 <= to - 1 < s.len() && is_digit(s[to - 1]) {
        match digits_value(s, from, to - 1, limit) {
            Some(v) => if v * 10 + digit_value(s[to - 1]) <= limit {
                Some(v * 10 + digit_value(s[to - 1]))
            } else {
                None
            },
            None => None,
        }
    } else {
        None
    }
}

/// The number that stands at `i`: a whole number where it is written with an
/// optional minus and digits alone and fits sixty-four bits, else the text as
/// it stands.
pub open spec fn parsed_number(s: Seq<char>, i: int) -> (Json, int) {
    let end = after_number(s, i);
    let negative = i < end && s[i] == '-';
    let digits_from = if negative {
        i + 1
    } else {
        i
    };
    let whole = if digits_from < end {
        digits_value(
            s,
            digits_from,
            end,
            if negative {
                0x8000_0000_0000_0000
            } else {
                0x7fff_ffff_ffff_ffff
            },
        )
    } else {
        None
    };
    match whole {
        Some(v) => (
            Json::Integer(
                if negative {
                    -v
                } else {
                    v
                },
            ),
            end,
        ),
        None => (Json::Float(s.subrange(i, end)), end),
    }
}

/// Whether the characters of `word` stand in `s` from `i` on.
pub open spec fn word_at(s: Seq<char>, i: int, word: Seq<char>) -> bool {
    0 <= i && i + word.len() <= s.len() && s.subrange(i, i + word.len()) == word
}

/// Reads the value that stands at or behind `i`, behind white space, nested
/// no deeper than `depth` allows. Gives the value and the place behind it.
pub open spec fn parsed_value(s: Seq<char>, i: int, depth: nat) -> Option<(Json, int)>
    decreases depth, s.len() - i, 0int,
{
    let at = after_spaces(s, i);
    if i < 0 || at < i || at >= s.len() {
        None
    } else {
        let c = s[at];
        if c == 'n' {
            if word_at(s, at, seq!['n', 'u', 'l', 'l']) {
                Some((Json::Null, at + 4))
            } else {
                None
            }
        } else if c == 't' {
            if word_at(s, at, seq!['t', 'r', 'u', 'e']) {
                Some((Json::Boolean(true), at + 4))
            } else {
                None
            }
        } else if c == 'f' {
            if word_at(s, at, seq!['f', 'a', 'l', 's', 'e']) {
                Some((Json::Boolean(false), at + 5))
            } else {
                None
            }
        } else if c == '"' {
            match parsed_string(s, at + 1, Seq::empty()) {
                Some((text, end)) => Some((Json::String(text), end)),
                None => None,
            }
        } else if c == '-' || is_digit(c) {
            Some(parsed_number(s, at))
        } else if c == '[' {
            if depth == 0 {
                None
            } else {
                let first = after_spaces(s, at + 1);
                if at + 1 <= first < s.len() && s[first] == ']' {
                    Some((Json::Array(Seq::empty()), first + 1))
                } else {
                    match parsed_items(s, at + 1, (depth - 1) as nat, Seq::empty()) {
                        Some((items, end)) => Some((Json::Array(items), end)),
                        None => None,
                    }
                }
            }
        } else if c == '{' {
            if depth == 0 {
                None
            } else {
                let first = after_spaces(s, at + 1);
                if at + 1 <= first < s.len() && s[first] == '}' {
                    Some((Json::Object(Seq::empty(), Seq::empty()), first + 1))
                } else {
                    match parsed_members(
                        s,
                        at + 1,
                        (depth - 1) as nat,
                        Seq::empty(),
                        Seq::empty(),
                    ) {
                        Some((keys, values, end)) => Some((Json::Object(keys, values), end)),
                        None => None,
                    }
                }
            }
        } else {
            None
        }
    }
}

/// Reads the elements of an array from `i` on, onto `items`, up to and
/// including the closing bracket.
pub open spec fn parsed_items(s: Seq<char>, i: int, depth: nat, items: Seq<Json>) -> Option<
    (Seq<Json>, int),
>
    decreases depth, s.len() - i, 1int,
{
    match parsed_value(s, i, depth) {
        Some((value, end)) => {
            let next = after_spaces(s, end);
            if end <= i || next < end || next >= s.len() {
                None
            } else if s[next] == ']' {
                Some((items.push(value), next + 1))
            } else if s[next] == ',' {
                parsed_items(s, next + 1, depth, items.push(value))
            } else {
                None
            }
        },
        None => None,
    }
}

/// Reads the members of an object from `i` on, onto `keys` and `values`, up
/// to and including the closing brace.
pub open spec fn parsed_members(
    s: Seq<char>,
    i: int,
    depth: nat,
    keys: Seq<Seq<char>>,
    values: Seq<Json>,
) -> Option<(Seq<Seq<char>>, Seq<Json>, int)>
    decreases depth, s.len() - i, 1int,
{
    let at = after_spaces(s, i);
    if i < 0 || at < i || at >= s.len() || s[at] != '"' {
        None
    } else {
        match parsed_string(s, at + 1, Seq::empty()) {
            Some((key, key_end)) => {
                let colon = after_spaces(s, key_end);
                if key_end <= at || colon < key_end || colon >= s.len() || s[colon] != ':' {
                    None
                } else {
                    match parsed_value(s, colon + 1, depth) {
                        Some((value, end)) => {
                            let next = after_spaces(s, end);
                            if end <= colon || next < end || next >= s.len() {
                                None
                            } else if s[next] == '}' {
                                Some((keys.push(key), values.push(value), next + 1))
                            } else if s[next] == ',' {
                                parsed_members(
                                    s,
                                    next + 1,
                                    depth,
                                    keys.push(key),
                                    values.push(value),
                                )
                            } else {
                                None
                            }
                        },
                        None => None,
                    }
                }
            },
            None => None,
        }
    }
}

/// The value that the whole text holds, with white space around it.
pub open spec fn parsed(s: Seq<char>) -> Option<Json> {
    match parsed_value(s, 0, MAX_DEPTH as nat) {
        Some((value, end)) => if after_spaces(s, end) == s.len() {
            Some(value)
        } else {
            None
        },
        None => None,
    }
}

fn is_space_char(c: char) -> (r: bool)
    ensures
        r == is_space(c),
{
    c == ' ' || c == '\n' || c == '\r' || c == '\t'
}

fn is_digit_char(c: char) -> (r: bool)
    ensures
        r == is_digit(c),
{
    '0' <= c && c <= '9'
}

fn is_number_character(c: char) -> (r: bool)
    ensures
        r == is_number_char(c),
{
    is_digit_char(c) || c == '-' || c == '+' || c == '.' || c == 'e' || c == 'E'
}

fn skip_spaces(s: &Vec<char>, i: usize) -> (r: usize)
    requires
        i <= s.len(),
    ensures
        r == after_spaces(s@, i as int),
        i <= r <= s.len(),
{
    let mut at = i;
    while at < s.len() && is_space_char(s[at])
        invariant
            i <= at <= s.len(),
            after_spaces(s@, at as int) == after_spaces(s@, i as int),
        decreases s.len() - at,
    {
        at = at + 1;
    }
    at
}

fn hex_digit_value(c: char) -> (r: Option<u32>)
    ensures
        match hex_value(c) {
            Some(v) => r == Some(v as u32) && 0 <= v < 16,
            None => r is None,
        },
{
    if '0' <= c && c <= '9' {
        Some(c as u32 - '0' as u32)
    } else if 'a' <= c && c <= 'f' {
        Some(c as u32 - 'a' as u32 + 10)
    } else if 'A' <= c && c <= 'F' {
        Some(c as u32 - 'A' as u32 + 10)
    } else {
        None
    }
}

fn parse_unicode_escape(s: &Vec<char>, i: usize) -> (r: Option<char>)
    requires
        i <= s.len(),
    ensures
        r == parsed_unicode_escape(s@, i as int),
{
    if s.len() - i < 4 {
        return None;
    }
    let a = match hex_digit_value(s[i]) {
        Some(v) => v,
        None => {
            return None;
        },
    };
    let b = match hex_digit_value(s[i + 1]) {
        Some(v) => v,
        None => {
            return None;
        },
    };
    let c = match hex_digit_value(s[i + 2]) {
        Some(v) => v,
        None => {
            return None;
        },
    };
    let d = match hex_digit_value(s[i + 3]) {
        Some(v) => v,
        None => {
            return None;
        },
    };
    char::from_u32(a * 4096 + b * 256 + c * 16 + d)
}

fn simple_escape_char(c: char) -> (r: Option<char>)
    ensures
        r == simple_escape(c),
{
    if c == '"' {
        Some('"')
    } else if c == '\\' {
        Some('\\')
    } else if c == '/' {
        Some('/')
    } else if c == 'b' {
        Some('\u{8}')
    } else if c == 'f' {
        Some('\u{c}')
    } else if c == 'n' {
        Some('\n')
    } else if c == 'r' {
        Some('\r')
    } else if c == 't' {
        Some('\t')
    } else {
        None
    }
}

#[verifier::loop_isolation(false)]
fn parse_string(s: &Vec<char>, start: usize) -> (r: Option<(String, usize)>)
    requires
        start <= s.len(),
    ensures
        match parsed_string(s@, start as int, Seq::empty()) {
            Some((text, end)) => r is Some && r.unwrap().0@ == text && r.unwrap().1 == end && start
                < end <= s.len(),
            None => r is None,
        },
{
    let ghost goal = parsed_string(s@, start as int, Seq::empty());
    let mut text = String::new();
    let mut i = start;
    loop
        invariant
            start <= i <= s.len(),
            parsed_string(s@, i as int, text@) == goal,
        decreases s.len() - i,
    {
        if i >= s.len() {
            return None;
        }
        let c = s[i];
        if c == '"' {
            return Some((text, i + 1));
        } else if c == '\\' {
            if i + 1 >= s.len() {
                return None;
            }
            let e = s[i + 1];
            if e == 'u' {
                match parse_unicode_escape(s, i + 2) {
                    Some(c) => {
                        text.push(c);
                        i = i + 6;
                    },
                    None => {
                        return None;
                    },
                }
            } else {
                match simple_escape_char(e) {
                    Some(c) => {
                        text.push(c);
                        i = i + 2;
                    },
                    None => {
                        return None;
                    },
                }
            }
        } else if (c as u32) < 0x20 {
            return None;
        } else {
            text.push(c);
            i = i + 1;
        }
    }
}

fn copy_chars(s: &Vec<char>, from: usize, to: usize) -> (r: String)
    requires
        from <= to <= s.len(),
    ensures
        r@ == s@.subrange(from as int, to as int),
{
    let mut out = String::new();
    let mut i = from;
    while i < to
        invariant
            from <= i <= to <= s.len(),
            out@ == s@.subrange(from as int, i as int),
        decreases to - i,
    {
        out.push(s[i]);
        assert(out@ =~= s@.subrange(from as int, i + 1));
        i = i + 1;
    }
    out
}

#[verifier::loop_isolation(false)]
fn parse_number(s: &Vec<char>, i: usize) -> (r: (JsonValue, usize))
    requires
        i < s.len(),
        is_number_char(s@[i as int]),
    ensures
        r.0@ == parsed_number(s@, i as int).0,
        r.1 == parsed_number(s@, i as int).1,
        i < r.1 <= s.len(),
{
    let mut end = i;
    while end < s.len() && is_number_character(s[end])
        invariant
            i <= end <= s.len(),
            after_number(s@, end as int) == after_number(s@, i as int),
            end == i ==> is_number_char(s@[i as int]),
        decreases s.len() - end,
    {
        end = end + 1;
    }
    let negative = s[i] == '-';
    let digits_from = if negative {
        i + 1
    } else {
        i
    };
    let limit: u128 = if negative {
        0x8000_0000_0000_0000
    } else {
        0x7fff_ffff_ffff_ffff
    };
    let mut whole: Option<u128> = if digits_from < end {
        Some(0)
    } else {
        None
    };
    let mut j = digits_from;
    while j < end && whole.is_some()
        invariant
            digits_from <= j <= end <= s.len(),
            digits_from >= end ==> whole is None,
            digits_from < end ==> match digits_value(
                s@,
                digits_from as int,
                j as int,
                limit as int,
            ) {
                Some(v) => whole == Some(v as u128) && 0 <= v <= limit,
                None => whole is None,
            },
            whole is None && digits_from < end ==> digits_value(
                s@,
                digits_from as int,
                end as int,
                limit as int,
            ) is None,
        decreases (end - j) + (if whole.is_some() { 1int } else { 0int }),
    {
        let c = s[j];
        let acc = whole.unwrap();
        if is_digit_char(c) {
            let next: u128 = acc * 10 + (c as u32 - '0' as u32) as u128;
            if next <= limit {
                whole = Some(next);
            } else {
                whole = None;
            }
        } else {
            whole = None;
        }
        j = j + 1;
        proof {
            if whole is None {
                lemma_digits_fail(s@, digits_from as int, j as int, end as int, limit as int);
            }
        }
    }
    match whole {
        Some(v) => {
            let value: i64 = if negative {
                if v == 0x8000_0000_0000_0000 {
                    i64::MIN
                } else {
                    -(v as i64)
                }
            } else {
                v as i64
            };
            (JsonValue::Integer(value), end)
        },
        None => (JsonValue::Float(copy_chars(s, i, end)), end),
    }
}

/// Digits that fail to have a value fail with more digits behind them.
proof fn lemma_digits_fail(s: Seq<char>, from: int, mid: int, to: int, limit: int)
    requires
        from <= mid <= to,
        digits_value(s, from, mid, limit) is None,
    ensures
        digits_value(s, from, to, limit) is None,
    decreases to - mid,
{
    if mid < to {
        lemma_digits_fail(s, from, mid, to - 1, limit);
    }
}

fn word_is_at(s: &Vec<char>, i: usize, word: &[char]) -> (r: bool)
    requires
        i <= s.len(),
    ensures
        r == word_at(s@, i as int, word@),
{
    if s.len() - i < word.len() {
        return false;
    }
    let mut k: usize = 0;
    while k < word.len()
        invariant
            0 <= k <= word.len(),
            i + word.len() <= s.len(),
            forall|j: int| 0 <= j < k ==> s@[i + j] == word@[j],
        decreases word.len() - k,
    {
        if s[i + k] != word[k] {
            assert(s@.subrange(i as int, i + word.len())[k as int] != word@[k as int]);
            return false;
        }
        k = k + 1;
    }
    assert(s@.subrange(i as int, i + word.len()) =~= word@);
    true
}

#[verifier::loop_isolation(false)]
fn parse_value(s: &Vec<char>, i: usize, depth: usize) -> (r: Option<(JsonValue, usize)>)
    requires
        i <= s.len(),
    ensures
        match parsed_value(s@, i as int, depth as nat) {
            Some((value, end)) => r is Some && r.unwrap().0@ == value && r.unwrap().1 == end && i
                < end <= s.len(),
            None => r is None,
        },
    decreases depth, s.len() - i, 0int,
{
    let at = skip_spaces(s, i);
    if at >= s.len() {
        return None;
    }
    let c = s[at];
    if c == 'n' {
        let word = ['n', 'u', 'l', 'l'];
        assert(word@ =~= seq!['n', 'u', 'l', 'l']);
        if word_is_at(s, at, word.as_slice()) {
            Some((JsonValue::Null, at + 4))
        } else {
            None
        }
    } else if c == 't' {
        let word = ['t', 'r', 'u', 'e'];
        assert(word@ =~= seq!['t', 'r', 'u', 'e']);
        if word_is_at(s, at, word.as_slice()) {
            Some((JsonValue::Boolean(true), at + 4))
        } else {
            None
        }
    } else if c == 'f' {
        let word = ['f', 'a', 'l', 's', 'e'];
        assert(word@ =~= seq!['f', 'a', 'l', 's', 'e']);
        if word_is_at(s, at, word.as_slice()) {
            Some((JsonValue::Boolean(false), at + 5))
        } else {
            None
        }
    } else if c == '"' {
        match parse_string(s, at + 1) {
            Some((text, end)) => Some((JsonValue::String(text), end)),
            None => None,
        }
    } else if c == '-' || is_digit_char(c) {
        Some(parse_number(s, at))
    } else if c == '[' {
        if depth == 0 {
            return None;
        }
        let first = skip_spaces(s, at + 1);
        if first < s.len() && s[first] == ']' {
            let items: Vec<JsonValue> = Vec::new();
            proof {
                lemma_array_view(items);
                assert(json_views(items@) =~= Seq::<Json>::empty());
            }
            return Some((JsonValue::Array(items), first + 1));
        }
        match parse_items(s, at + 1, depth - 1) {
            Some((items, end)) => {
                proof {
                    lemma_array_view(items);
                }
                Some((JsonValue::Array(items), end))
            },
            None => None,
        }
    } else if c == '{' {
        if depth == 0 {
            return None;
        }
        let first = skip_spaces(s, at + 1);
        if first < s.len() && s[first] == '}' {
            let keys: Vec<String> = Vec::new();
            let values: Vec<JsonValue> = Vec::new();
            proof {
                lemma_object_view(keys, values);
                assert(views(keys@) =~= Seq::<Seq<char>>::empty());
                assert(json_views(values@) =~= Seq::<Json>::empty());
            }
            return Some((JsonValue::Object(keys, values), first + 1));
        }
        match parse_members(s, at + 1, depth - 1) {
            Some((keys, values, end)) => {
                proof {
                    lemma_object_view(keys, values);
                }
                Some((JsonValue::Object(keys, values), end))
            },
            None => None,
        }
    } else {
        None
    }
}

#[verifier::loop_isolation(false)]
fn parse_items(s: &Vec<char>, start: usize, depth: usize) -> (r: Option<(Vec<JsonValue>, usize)>)
    requires
        start <= s.len(),
    ensures
        match parsed_items(s@, start as int, depth as nat, Seq::empty()) {
            Some((items, end)) => r is Some && json_views(r.unwrap().0@) == items && r.unwrap().1
                == end && start < end <= s.len(),
            None => r is None,
        },
    decreases depth, s.len() - start, 1int,
{
    let ghost goal = parsed_items(s@, start as int, depth as nat, Seq::empty());
    let mut items: Vec<JsonValue> = Vec::new();
    let mut i = start;
    assert(json_views(items@) =~= Seq::<Json>::empty());
    loop
        invariant
            start <= i <= s.len(),
            parsed_items(s@, i as int, depth as nat, json_views(items@)) == goal,
        decreases s.len() - i,
    {
        let ghost before = json_views(items@);
        let (value, end) = match parse_value(s, i, depth) {
            Some(x) => x,
            None => {
                return None;
            },
        };
        let next = skip_spaces(s, end);
        if next >= s.len() {
            return None;
        }
        let c = s[next];
        items.push(value);
        assert(json_views(items@) =~= before.push(value@));
        if c == ']' {
            return Some((items, next + 1));
        } else if c == ',' {
            i = next + 1;
        } else {
            return None;
        }
    }
}

#[verifier::loop_isolation(false)]
fn parse_members(s: &Vec<char>, start: usize, depth: usize) -> (r: Option<
    (Vec<String>, Vec<JsonValue>, usize),
>)
    requires
        start <= s.len(),
    ensures
        match parsed_members(s@, start as int, depth as nat, Seq::empty(), Seq::empty()) {
            Some((keys, values, end)) => r is Some && views(r.unwrap().0@) == keys && json_views(
                r.unwrap().1@,
            ) == values && r.unwrap().2 == end && start < end <= s.len(),
            None => r is None,
        },
    decreases depth, s.len() - start, 1int,
{
    let ghost goal = parsed_members(s@, start as int, depth as nat, Seq::empty(), Seq::empty());
    let mut keys: Vec<String> = Vec::new();
    let mut values: Vec<JsonValue> = Vec::new();
    let mut i = start;
    assert(views(keys@) =~= Seq::<Seq<char>>::empty());
    assert(json_views(values@) =~= Seq::<Json>::empty());
    loop
        invariant
            start <= i <= s.len(),
            parsed_members(s@, i as int, depth as nat, views(keys@), json_views(values@)) == goal,
        decreases s.len() - i,
    {
        let ghost keys_before = views(keys@);
        let ghost values_before = json_views(values@);
        let at = skip_spaces(s, i);
        if at >= s.len() || s[at] != '"' {
            return None;
        }
        let (key, key_end) = match parse_string(s, at + 1) {
            Some(x) => x,
            None => {
                return None;
            },
        };
        let colon = skip_spaces(s, key_end);
        if colon >= s.len() || s[colon] != ':' {
            return None;
        }
        let (value, end) = match parse_value(s, colon + 1, depth) {
            Some(x) => x,
            None => {
                return None;
            },
        };
        let next = skip_spaces(s, end);
        if next >= s.len() {
            return None;
        }
        let c = s[next];
        let ghost key_view = key@;
        keys.push(key);
        values.push(value);
        assert(views(keys@) =~= keys_before.push(key_view));
        assert(json_views(values@) =~= values_before.push(value@));
        if c == '}' {
            return Some((keys, values, next + 1));
        } else if c == ',' {
            i = next + 1;
        } else {
            return None;
        }
    }
}

/// Reads the JSON value that `text` holds.
pub fn parse(text: &str) -> (r: Result<JsonValue, JsonParseError>)
    ensures
        match parsed(text@) {
            Some(value) => r is Ok && r->Ok_0@ == value,
            None => r is Err,
        },
{
    let chars = chars_of(text);
    match parse_value(&chars, 0, MAX_DEPTH) {
        Some((value, end)) => {
            if skip_spaces(&chars, end) == chars.len() {
                Ok(value)
            } else {
                Err(JsonParseError)
            }
        },
        None => Err(JsonParseError),
    }
}

} // verus!
