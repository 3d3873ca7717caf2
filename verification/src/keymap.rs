//! Key maps: sequences of keys that stand for other sequences, by mode, and
//! the text form of keys in which macros are kept.

use crate::mode::ModeKind;
use crate::platform::Key;
use crate::text::{chars_of, decimal, push_decimal};
use vstd::prelude::*;

verus! {

/// What the keys received so far mean to the key maps of a mode.
pub enum MatchResult {
    /// No map begins with the keys: they are taken as they are.
    NoMatch,
    /// The keys begin a map: more keys are waited for.
    Prefix,
    /// The keys are those of a map: the keys given take their place.
    ReplaceWith(Vec<Key>),
}

pub struct KeyMap {
    pub mode: ModeKind,
    pub from: Vec<Key>,
    pub to: Vec<Key>,
}

pub struct KeyMapCollection {
    pub maps: Vec<KeyMap>,
}

/// `keys` begins with `prefix`.
pub open spec fn keys_start_with(keys: Seq<Key>, prefix: Seq<Key>) -> bool {
    prefix.len() <= keys.len() && keys.subrange(0, prefix.len() as int) == prefix
}

/// The first map of `mode` from `from` on whose keys are `keys`, or the
/// number of maps.
pub open spec fn exact_map(maps: Seq<KeyMap>, mode: ModeKind, keys: Seq<Key>, from: int) -> int
    decreases maps.len() - from,
{
    if from < 0 || from >= maps.len() {
        maps.len() as int
    } else if maps[from].mode == mode && maps[from].from@ == keys {
        from
    } else {
        exact_map(maps, mode, keys, from + 1)
    }
}

/// Some map of `mode` begins with `keys` and is longer.
pub open spec fn begins_a_map(maps: Seq<KeyMap>, mode: ModeKind, keys: Seq<Key>) -> bool {
    exists|i: int|
        0 <= i < maps.len() && (#[trigger] maps[i]).mode == mode && keys.len() < maps[i].from@.len()
            && keys_start_with(maps[i].from@, keys)
}

fn keys_equal(a: &Vec<Key>, b: &[Key]) -> (r: bool)
    ensures
        r == (a@ == b@),
{
    if a.len() != b.len() {
        return false;
    }
    let mut i: usize = 0;
    while i < a.len()
        invariant
            0 <= i <= a.len(),
            a.len() == b.len(),
            forall|j: int| 0 <= j < i ==> a@[j] == b@[j],
        decreases a.len() - i,
    {
        if a[i] != b[i] {
            return false;
        }
        i = i + 1;
    }
    assert(a@ =~= b@);
    true
}

fn is_longer_with_prefix(long: &Vec<Key>, prefix: &[Key]) -> (r: bool)
    ensures
        r == (prefix@.len() < long@.len() && keys_start_with(long@, prefix@)),
{
    if prefix.len() >= long.len() {
        return false;
    }
    let mut i: usize = 0;
    while i < prefix.len()
        invariant
            0 <= i <= prefix.len() < long.len(),
            forall|j: int| 0 <= j < i ==> long@[j] == prefix@[j],
        decreases prefix.len() - i,
    {
        if long[i] != prefix[i] {
            assert(long@.subrange(0, prefix@.len() as int)[i as int] != prefix@[i as int]);
            return false;
        }
        i = i + 1;
    }
    assert(long@.subrange(0, prefix@.len() as int) =~= prefix@);
    true
}

fn copy_keys(keys: &Vec<Key>) -> (r: Vec<Key>)
    ensures
        r@ == keys@,
{
    let mut out: Vec<Key> = Vec::new();
    let mut i: usize = 0;
    while i < keys.len()
        invariant
            0 <= i <= keys.len(),
            out@ == keys@.take(i as int),
        decreases keys.len() - i,
    {
        out.push(keys[i]);
        assert(out@ =~= keys@.take(i + 1));
        i = i + 1;
    }
    assert(keys@.take(keys.len() as int) =~= keys@);
    out
}

impl KeyMapCollection {
    pub fn new() -> (r: Self)
        ensures
            r.maps@.len() == 0,
    {
        KeyMapCollection { maps: Vec::new() }
    }

    /// Adds a map behind those that are there.
    pub fn add(&mut self, mode: ModeKind, from: Vec<Key>, to: Vec<Key>)
        ensures
            final(self).maps@ == old(self).maps@.push(KeyMap { mode, from, to }),
    {
        self.maps.push(KeyMap { mode, from, to });
    }

    /// Looks `keys` up among the maps of `mode`: the first map whose keys
    /// they are replaces them; else they are a prefix where some longer map
    /// begins with them; else they match nothing.
    pub fn matches(&self, mode: ModeKind, keys: &[Key]) -> (r: MatchResult)
        ensures
            ({
                let i = exact_map(self.maps@, mode, keys@, 0);
                if i < self.maps@.len() {
                    r matches MatchResult::ReplaceWith(to) && to@ == self.maps@[i].to@
                } else if begins_a_map(self.maps@, mode, keys@) {
                    r is Prefix
                } else {
                    r is NoMatch
                }
            }),
    {
        let mut has_prefix = false;
        let mut i: usize = 0;
        while i < self.maps.len()
            invariant
                0 <= i <= self.maps.len(),
                exact_map(self.maps@, mode, keys@, 0) == exact_map(self.maps@, mode, keys@, i as int),
                has_prefix == exists|j: int|
                    0 <= j < i && (#[trigger] self.maps@[j]).mode == mode && keys@.len()
                        < self.maps@[j].from@.len() && keys_start_with(self.maps@[j].from@, keys@),
            decreases self.maps.len() - i,
        {
            let map = &self.maps[i];
            if map.mode == mode {
                if keys_equal(&map.from, keys) {
                    return MatchResult::ReplaceWith(copy_keys(&map.to));
                }
                if is_longer_with_prefix(&map.from, keys) {
                    has_prefix = true;
                }
            }
            i = i + 1;
        }
        if has_prefix {
            MatchResult::Prefix
        } else {
            MatchResult::NoMatch
        }
    }
}

impl Default for KeyMapCollection {
    fn default() -> (r: Self)
        ensures
            r.maps@.len() == 0,
    {
        KeyMapCollection::new()
    }
}

/// The text of a key: a character stands for itself, except for `<`, which
/// is written `<lt>`; every other key is a name between `<` and `>`.
pub open spec fn key_text(key: Key) -> Seq<char> {
    match key {
        Key::NoKey => "<none>"@,
        Key::Backspace => "<backspace>"@,
        Key::Enter => "<enter>"@,
        Key::Left => "<left>"@,
        Key::Right => "<right>"@,
        Key::Up => "<up>"@,
        Key::Down => "<down>"@,
        Key::Home => "<home>"@,
        Key::End => "<end>"@,
        Key::PageUp => "<pageup>"@,
        Key::PageDown => "<pagedown>"@,
        Key::Tab => "<tab>"@,
        Key::Delete => "<delete>"@,
        Key::F(n) => seq!['<', 'f'] + decimal(n as nat) + seq!['>'],
        Key::Char(c) => if c == '<' {
            "<lt>"@
        } else {
            seq![c]
        },
        Key::Ctrl(c) => seq!['<', 'c', '-', c, '>'],
        Key::Alt(c) => seq!['<', 'a', '-', c, '>'],
        Key::Esc => "<esc>"@,
    }
}

/// The texts of the keys, one after another.
pub open spec fn keys_text(keys: Seq<Key>) -> Seq<char>
    decreases keys.len(),
{
    if keys.len() == 0 {
        Seq::empty()
    } else {
        keys_text(keys.drop_last()) + key_text(keys.last())
    }
}

/// Appends the text of a key to `out`.
pub fn write_key_text(key: Key, out: &mut String)
    ensures
        final(out)@ == old(out)@ + key_text(key),
{
    match key {
        Key::NoKey => out.append("<none>"),
        Key::Backspace => out.append("<backspace>"),
        Key::Enter => out.append("<enter>"),
        Key::Left => out.append("<left>"),
        Key::Right => out.append("<right>"),
        Key::Up => out.append("<up>"),
        Key::Down => out.append("<down>"),
        Key::Home => out.append("<home>"),
        Key::End => out.append("<end>"),
        Key::PageUp => out.append("<pageup>"),
        Key::PageDown => out.append("<pagedown>"),
        Key::Tab => out.append("<tab>"),
        Key::Delete => out.append("<delete>"),
        Key::F(n) => {
            out.push('<');
            out.push('f');
            push_decimal(out, n as u128);
            out.push('>');
            assert(out@ =~= old(out)@ + key_text(key));
        },
        Key::Char(c) => {
            if c == '<' {
                out.append("<lt>");
            } else {
                out.push(c);
                assert(out@ =~= old(out)@ + key_text(key));
            }
        },
        Key::Ctrl(c) => {
            out.push('<');
            out.push('c');
            out.push('-');
            out.push(c);
            out.push('>');
            assert(out@ =~= old(out)@ + key_text(key));
        },
        Key::Alt(c) => {
            out.push('<');
            out.push('a');
            out.push('-');
            out.push(c);
            out.push('>');
            assert(out@ =~= old(out)@ + key_text(key));
        },
        Key::Esc => out.append("<esc>"),
    }
}

/// The key that a name between `<` and `>` stands for.
pub open spec fn named_key(name: Seq<char>) -> Option<Key> {
    if name == "none"@ {
        Some(Key::NoKey)
    } else if name == "backspace"@ {
        Some(Key::Backspace)
    } else if name == "enter"@ {
        Some(Key::Enter)
    } else if name == "left"@ {
        Some(Key::Left)
    } else if name == "right"@ {
        Some(Key::Right)
    } else if name == "up"@ {
        Some(Key::Up)
    } else if name == "down"@ {
        Some(Key::Down)
    } else if name == "home"@ {
        Some(Key::Home)
    } else if name == "end"@ {
        Some(Key::End)
    } else if name == "pageup"@ {
        Some(Key::PageUp)
    } else if name == "pagedown"@ {
        Some(Key::PageDown)
    } else if name == "tab"@ {
        Some(Key::Tab)
    } else if name == "delete"@ {
        Some(Key::Delete)
    } else if name == "esc"@ {
        Some(Key::Esc)
    } else if name == "lt"@ {
        Some(Key::Char('<'))
    } else if name == "space"@ {
        Some(Key::Char(' '))
    } else if name.len() == 3 && name[0] == 'c' && name[1] == '-' {
        Some(Key::Ctrl(name[2]))
    } else if name.len() == 3 && name[0] == 'a' && name[1] == '-' {
        Some(Key::Alt(name[2]))
    } else if name.len() >= 2 && name[0] == 'f' {
        match small_number(name, 1, name.len() as int) {
            Some(n) => Some(Key::F(n as u8)),
            None => None,
        }
    } else {
        None
    }
}

/// The number below 256 that the decimal digits `from..to` spell.
pub open spec fn small_number(text: Seq<char>, from: int, to: int) -> Option<int>
    decreases to - from,
{
    if from >= to {
        Some(0)
    } else if 0 <= to - 1 < text.len() && '0' <= text[to - 1] <= '9' {
        match small_number(text, from, to - 1) {
            Some(v) => if v * 10 + ((text[to - 1] as u32) - ('0' as u32)) <= 255 {
                Some(v * 10 + ((text[to - 1] as u32) - ('0' as u32)))
            } else {
                None
            },
            None => None,
        }
    } else {
        None
    }
}

/// The place of the first `>` at or behind `from`, or the length of the text.
pub open spec fn name_end(text: Seq<char>, from: int) -> int
    decreases text.len() - from,
{
    if from < 0 || from >= text.len() || text[from] == '>' {
        from
    } else {
        name_end(text, from + 1)
    }
}

/// The keys that the text from `from` on spells, behind `keys`; `None`
/// where a `<` is not closed or a name is not known.
pub open spec fn parsed_keys(text: Seq<char>, from: int, keys: Seq<Key>) -> Option<Seq<Key>>
    decreases text.len() - from,
{
    if from < 0 || from >= text.len() {
        Some(keys)
    } else if text[from] == '<' {
        let end = name_end(text, from + 1);
        if from + 1 <= end < text.len() {
            match named_key(text.subrange(from + 1, end)) {
                Some(key) => parsed_keys(text, end + 1, keys.push(key)),
                None => None,
            }
        } else {
            None
        }
    } else {
        parsed_keys(text, from + 1, keys.push(Key::Char(text[from])))
    }
}

fn text_is(name: &Vec<char>, from: usize, to: usize, word: &str) -> (r: bool)
    requires
        from <= to <= name.len(),
    ensures
        r == (name@.subrange(from as int, to as int) == word@),
{
    let chars = chars_of(word);
    if chars.len() != to - from {
        return false;
    }
    let mut i: usize = 0;
    while i < chars.len()
        invariant
            0 <= i <= chars.len(),
            chars.len() == to - from,
            from <= to <= name.len(),
            chars@ == word@,
            forall|j: int| 0 <= j < i ==> name@[from + j] == chars@[j],
        decreases chars.len() - i,
    {
        if name[from + i] != chars[i] {
            assert(name@.subrange(from as int, to as int)[i as int] != word@[i as int]);
            return false;
        }
        i = i + 1;
    }
    assert(name@.subrange(from as int, to as int) =~= word@);
    true
}

#[verifier::loop_isolation(false)]
fn read_key_number(text: &Vec<char>, name_from: usize, to: usize) -> (r: Option<u8>)
    requires
        name_from < to <= text.len(),
    ensures
        match small_number(text@.subrange(name_from as int, to as int), 1, to - name_from) {
            Some(v) => r == Some(v as u8) && 0 <= v <= 255,
            None => r is None,
        },
{
    let ghost name = text@.subrange(name_from as int, to as int);
    let mut value: u32 = 0;
    let mut i = name_from + 1;
    while i < to
        invariant
            name_from < i <= to,
            small_number(name, 1, i - name_from) == Some(value as int),
            value <= 255,
        decreases to - i,
    {
        let c = text[i];
        assert(name[i - name_from] == c);
        if c < '0' || c > '9' {
            proof {
                lemma_small_number_fail(name, 1, i - name_from + 1, to - name_from);
            }
            return None;
        }
        let next = value * 10 + (c as u32 - '0' as u32);
        if next > 255 {
            proof {
                lemma_small_number_fail(name, 1, i - name_from + 1, to - name_from);
            }
            return None;
        }
        value = next;
        i = i + 1;
    }
    Some(value as u8)
}

proof fn lemma_small_number_fail(text: Seq<char>, from: int, mid: int, to: int)
    requires
        from <= mid <= to,
        small_number(text, from, mid) is None,
    ensures
        small_number(text, from, to) is None,
    decreases to - mid,
{
    if mid < to {
        lemma_small_number_fail(text, from, mid, to - 1);
    }
}

fn parse_named_key(text: &Vec<char>, from: usize, to: usize) -> (r: Option<Key>)
    requires
        from <= to <= text.len(),
    ensures
        r == named_key(text@.subrange(from as int, to as int)),
{
    let ghost name = text@.subrange(from as int, to as int);
    if text_is(text, from, to, "none") {
        Some(Key::NoKey)
    } else if text_is(text, from, to, "backspace") {
        Some(Key::Backspace)
    } else if text_is(text, from, to, "enter") {
        Some(Key::Enter)
    } else if text_is(text, from, to, "left") {
        Some(Key::Left)
    } else if text_is(text, from, to, "right") {
        Some(Key::Right)
    } else if text_is(text, from, to, "up") {
        Some(Key::Up)
    } else if text_is(text, from, to, "down") {
        Some(Key::Down)
    } else if text_is(text, from, to, "home") {
        Some(Key::Home)
    } else if text_is(text, from, to, "end") {
        Some(Key::End)
    } else if text_is(text, from, to, "pageup") {
        Some(Key::PageUp)
    } else if text_is(text, from, to, "pagedown") {
        Some(Key::PageDown)
    } else if text_is(text, from, to, "tab") {
        Some(Key::Tab)
    } else if text_is(text, from, to, "delete") {
        Some(Key::Delete)
    } else if text_is(text, from, to, "esc") {
        Some(Key::Esc)
    } else if text_is(text, from, to, "lt") {
        Some(Key::Char('<'))
    } else if text_is(text, from, to, "space") {
        Some(Key::Char(' '))
    } else if to - from == 3 && text[from] == 'c' && text[from + 1] == '-' {
        assert(name[0] == text@[from as int] && name[1] == text@[from + 1] && name[2] == text@[from
            + 2]);
        Some(Key::Ctrl(text[from + 2]))
    } else if to - from == 3 && text[from] == 'a' && text[from + 1] == '-' {
        assert(name[0] == text@[from as int] && name[1] == text@[from + 1] && name[2] == text@[from
            + 2]);
        Some(Key::Alt(text[from + 2]))
    } else if to - from >= 2 && text[from] == 'f' {
        assert(name[0] == text@[from as int]);
        match read_key_number(text, from, to) {
            Some(n) => Some(Key::F(n)),
            None => None,
        }
    } else {
        proof {
            if to - from >= 1 {
                assert(name[0] == text@[from as int]);
            }
            if to - from >= 2 {
                assert(name[1] == text@[from + 1]);
            }
        }
        None
    }
}

/// The keys that a text spells.
#[verifier::loop_isolation(false)]
pub fn parse_keys(text: &str) -> (r: Option<Vec<Key>>)
    ensures
        match parsed_keys(text@, 0, Seq::empty()) {
            Some(keys) => r.is_some() && r.unwrap()@ == keys,
            None => r.is_none(),
        },
{
    let chars = chars_of(text);
    let ghost goal = parsed_keys(text@, 0, Seq::empty());
    let mut keys: Vec<Key> = Vec::new();
    let mut i: usize = 0;
    loop
        invariant
            0 <= i <= chars.len(),
            chars@ == text@,
            parsed_keys(text@, i as int, keys@) == goal,
        decreases chars.len() - i,
    {
        if i >= chars.len() {
            return Some(keys);
        }
        let c = chars[i];
        if c == '<' {
            let mut end = i + 1;
            while end < chars.len() && chars[end] != '>'
                invariant
                    i + 1 <= end <= chars.len(),
                    name_end(text@, i + 1) == name_end(text@, end as int),
                decreases chars.len() - end,
            {
                end = end + 1;
            }
            if end >= chars.len() {
                return None;
            }
            match parse_named_key(&chars, i + 1, end) {
                Some(key) => {
                    keys.push(key);
                    i = end + 1;
                },
                None => {
                    return None;
                },
            }
        } else {
            keys.push(Key::Char(c));
            i = i + 1;
        }
    }
}

} // verus!
