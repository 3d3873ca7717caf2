//! Registers: named texts, one for each small letter.

use crate::text::views;
use vstd::prelude::*;

verus! {

/// The name of a register: a small letter, counted from `a`.
#[derive(Debug, Clone, Copy, PartialEq, Eq, Structural)]
pub struct RegisterKey(u8);

/// The number of registers.
pub const REGISTER_COUNT: usize = 26;

impl RegisterKey {
    /// The place of the register among the registers.
    pub closed spec fn index(self) -> int {
        self.0 as int
    }

    /// Whether the key names a register.
    pub closed spec fn well_formed(self) -> bool {
        self.0 < 26
    }

    /// The key of the register that the letter names.
    pub fn from_char(c: char) -> (r: Option<Self>)
        ensures
            ('a' <= c <= 'z') == r.is_some(),
            r.is_some() ==> r.unwrap().well_formed() && r.unwrap().index() == (c as u32) - (
            'a' as u32),
    {
        if 'a' <= c && c <= 'z' {
            Some(RegisterKey((c as u32 - 'a' as u32) as u8))
        } else {
            None
        }
    }

    pub fn as_index(self) -> (r: usize)
        ensures
            r == self.index(),
    {
        self.0 as usize
    }
}

impl RegisterKey {
    /// The key of the register that holds the keys that wait to be handled.
    pub closed spec fn queue() -> RegisterKey {
        RegisterKey(10)
    }
}

/// The register that holds the keys that wait to be handled.
pub fn key_queue_register() -> (r: RegisterKey)
    ensures
        r == RegisterKey::queue(),
        r.well_formed(),
        r.index() == 10,
{
    RegisterKey(10)
}

pub struct RegisterCollection {
    registers: Vec<String>,
}

impl View for RegisterCollection {
    type V = Seq<Seq<char>>;

    closed spec fn view(&self) -> Seq<Seq<char>> {
        views(self.registers@)
    }
}

impl RegisterCollection {
    /// There is a text for each register.
    pub closed spec fn well_formed(&self) -> bool {
        self.registers@.len() == REGISTER_COUNT
    }

    pub proof fn lemma_len(&self)
        requires
            self.well_formed(),
        ensures
            self@.len() == REGISTER_COUNT,
    {
    }

    /// Registers that are all empty.
    pub fn new() -> (r: Self)
        ensures
            r.well_formed(),
            r@.len() == REGISTER_COUNT,
            forall|i: int| 0 <= i < REGISTER_COUNT ==> (#[trigger] r@[i]).len() == 0,
    {
        let mut registers: Vec<String> = Vec::new();
        let mut i: usize = 0;
        while i < REGISTER_COUNT
            invariant
                0 <= i <= REGISTER_COUNT,
                registers@.len() == i,
                forall|j: int| 0 <= j < i ==> (#[trigger] registers@[j])@.len() == 0,
            decreases REGISTER_COUNT - i,
        {
            registers.push(String::new());
            i = i + 1;
        }
        RegisterCollection { registers }
    }

    /// The text of a register.
    pub fn get(&self, key: RegisterKey) -> (r: &str)
        requires
            self.well_formed(),
            key.well_formed(),
        ensures
            r@ == self@[key.index()],
    {
        self.registers[key.0 as usize].as_str()
    }

    /// Replaces the text of a register.
    pub fn set(&mut self, key: RegisterKey, text: &str)
        requires
            old(self).well_formed(),
            key.well_formed(),
        ensures
            final(self).well_formed(),
            final(self)@ == old(self)@.update(key.index(), text@),
    {
        self.registers.set(key.0 as usize, String::from_str(text));
        assert(self@ =~= old(self)@.update(key.index(), text@));
    }

    /// Appends to the text of a register.
    pub fn append(&mut self, key: RegisterKey, text: &str)
        requires
            old(self).well_formed(),
            key.well_formed(),
        ensures
            final(self).well_formed(),
            final(self)@ == old(self)@.update(key.index(), old(self)@[key.index()] + text@),
    {
        let mut joined = self.registers[key.0 as usize].clone();
        joined.append(text);
        self.registers.set(key.0 as usize, joined);
        assert(self@ =~= old(self)@.update(key.index(), old(self)@[key.index()] + text@));
    }
}

impl Default for RegisterCollection {
    fn default() -> (r: Self)
        ensures
            r.well_formed(),
    {
        RegisterCollection::new()
    }
}

/// A key is known by the register that it names.
pub proof fn lemma_key_by_index(key: RegisterKey)
    ensures
        forall|other: RegisterKey| other.index() == key.index() ==> other == key,
{
}

/// A key whose place is among the registers names a register.
pub proof fn lemma_well_formed(key: RegisterKey)
    ensures
        key.well_formed() == (key.index() < 26),
        key.index() >= 0,
{
}

impl RegisterCollection {
    /// There is a register for every key that names one.
    pub proof fn lemma_has_register(&self, key: RegisterKey)
        requires
            self.well_formed(),
            key.well_formed(),
        ensures
            0 <= key.index() < self@.len(),
    {
    }
}

} // verus!
