//! The picker: a list of entries, filtered and ranked by a fuzzy match
//! against a pattern, with a cursor that moves over what is left.

use crate::text::views;
use fuzzy_matcher::skim::SkimMatcherV2;
use fuzzy_matcher::FuzzyMatcher;
use vstd::prelude::*;

verus! {

/// The score that the skim matcher with its default settings gives to
/// `choice` for `pattern`: `None` where the pattern does not match, else a
/// score that is higher for a better match.
pub uninterp spec fn fuzzy_score(choice: Seq<char>, pattern: Seq<char>) -> Option<i64>;

/// Calls `fuzzy_matcher::skim::SkimMatcherV2::fuzzy_match` on a matcher made
/// by `SkimMatcherV2::default`. The score depends on the two texts alone, and
/// an empty pattern matches every choice with score zero.
#[verifier::external_body]
fn fuzzy_match(choice: &str, pattern: &str) -> (r: Option<i64>)
    ensures
        r == fuzzy_score(choice@, pattern@),
        pattern@.len() == 0 ==> r == Some(0i64),
{
    SkimMatcherV2::default().fuzzy_match(choice, pattern)
}

/// An entry that passed the filter: its place among the entries, and its score.
#[derive(Debug, Clone, Copy, PartialEq, Eq, Structural)]
pub struct FilteredEntry {
    pub entry_index: usize,
    pub score: i64,
}

/// `a` ranks before `b`: by score, the higher first with `descending` and the
/// lower first without, and among equal scores the earlier entry first.
pub open spec fn ranks_before(a: FilteredEntry, b: FilteredEntry, descending: bool) -> bool {
    if a.score == b.score {
        a.entry_index < b.entry_index
    } else if descending {
        a.score > b.score
    } else {
        a.score < b.score
    }
}

/// `ranked` lists exactly the entries among the first `count` names that
/// match `pattern`, each once and with its score, in ranking order.
pub open spec fn is_ranking(
    names: Seq<Seq<char>>,
    count: int,
    pattern: Seq<char>,
    ranked: Seq<FilteredEntry>,
    descending: bool,
) -> bool {
    &&& forall|k: int|
        0 <= k < ranked.len() ==> (#[trigger] ranked[k]).entry_index < count && fuzzy_score(
            names[ranked[k].entry_index as int],
            pattern,
        ) == Some(ranked[k].score)
    &&& forall|k: int, l: int|
        0 <= k < l < ranked.len() ==> ranks_before(
            #[trigger] ranked[k],
            #[trigger] ranked[l],
            descending,
        )
    &&& forall|i: int|
        0 <= i < count && (#[trigger] fuzzy_score(names[i], pattern)).is_some() ==> exists|k: int|
            0 <= k < ranked.len() && (#[trigger] ranked[k]).entry_index == i
}

/// `e` stands somewhere in `ranked`.
pub open spec fn has_entry(ranked: Seq<FilteredEntry>, e: FilteredEntry) -> bool {
    exists|l: int| 0 <= l < ranked.len() && #[trigger] ranked[l] == e
}

/// Each entry ranks before those behind it.
pub open spec fn in_ranking_order(ranked: Seq<FilteredEntry>, descending: bool) -> bool {
    forall|k: int, l: int|
        0 <= k < l < ranked.len() ==> ranks_before(
            #[trigger] ranked[k],
            #[trigger] ranked[l],
            descending,
        )
}

/// Two lists in ranking order that hold the same entries are the same list.
proof fn lemma_same_entries_same_ranking(
    a: Seq<FilteredEntry>,
    b: Seq<FilteredEntry>,
    descending: bool,
)
    requires
        in_ranking_order(a, descending),
        in_ranking_order(b, descending),
        forall|e: FilteredEntry| has_entry(a, e) == has_entry(b, e),
    ensures
        a == b,
    decreases a.len(),
{
    if a.len() == 0 {
        if b.len() > 0 {
            assert(has_entry(b, b[0]));
            assert(has_entry(a, b[0]));
        }
        assert(a =~= b);
    } else {
        assert(has_entry(a, a[0]));
        assert(has_entry(b, a[0]));
        assert(has_entry(b, b[0]));
        assert(has_entry(a, b[0]));
        let la = choose|l: int| 0 <= l < b.len() && #[trigger] b[l] == a[0];
        let lb = choose|l: int| 0 <= l < a.len() && #[trigger] a[l] == b[0];
        if a[0] != b[0] {
            assert(ranks_before(b[0], b[la], descending));
            assert(ranks_before(a[0], a[lb], descending));
        }
        let ta = a.skip(1);
        let tb = b.skip(1);
        assert forall|e: FilteredEntry| has_entry(ta, e) == has_entry(tb, e) by {
            if has_entry(ta, e) {
                let l = choose|l: int| 0 <= l < ta.len() && #[trigger] ta[l] == e;
                assert(a[l + 1] == e);
                assert(ranks_before(a[0], a[l + 1], descending));
                assert(has_entry(a, e));
                let m = choose|m: int| 0 <= m < b.len() && #[trigger] b[m] == e;
                assert(tb[m - 1] == e);
            }
            if has_entry(tb, e) {
                let l = choose|l: int| 0 <= l < tb.len() && #[trigger] tb[l] == e;
                assert(b[l + 1] == e);
                assert(ranks_before(b[0], b[l + 1], descending));
                assert(has_entry(b, e));
                let m = choose|m: int| 0 <= m < a.len() && #[trigger] a[m] == e;
                assert(ta[m - 1] == e);
            }
        }
        assert forall|k: int, l: int| 0 <= k < l < ta.len() implies ranks_before(
            #[trigger] ta[k],
            #[trigger] ta[l],
            descending,
        ) by {
            assert(ranks_before(a[k + 1], a[l + 1], descending));
        }
        assert forall|k: int, l: int| 0 <= k < l < tb.len() implies ranks_before(
            #[trigger] tb[k],
            #[trigger] tb[l],
            descending,
        ) by {
            assert(ranks_before(b[k + 1], b[l + 1], descending));
        }
        lemma_same_entries_same_ranking(ta, tb, descending);
        assert(a =~= seq![a[0]] + ta);
        assert(b =~= seq![b[0]] + tb);
    }
}

/// The entries of a ranking are the matching entries with their scores.
proof fn lemma_ranking_entries(
    names: Seq<Seq<char>>,
    count: int,
    pattern: Seq<char>,
    ranked: Seq<FilteredEntry>,
    descending: bool,
    e: FilteredEntry,
)
    requires
        is_ranking(names, count, pattern, ranked, descending),
    ensures
        has_entry(ranked, e) == (e.entry_index < count && fuzzy_score(
            names[e.entry_index as int],
            pattern,
        ) == Some(e.score)),
{
    if has_entry(ranked, e) {
        let l = choose|l: int| 0 <= l < ranked.len() && #[trigger] ranked[l] == e;
        assert(ranked[l].entry_index < count);
    }
    if e.entry_index < count && fuzzy_score(names[e.entry_index as int], pattern) == Some(e.score) {
        let i = e.entry_index as int;
        assert(fuzzy_score(names[i], pattern).is_some());
        let k = choose|k: int| 0 <= k < ranked.len() && (#[trigger] ranked[k]).entry_index == i;
        assert(ranked[k] == e);
    }
}

/// A ranking is determined by the names and the pattern.
pub proof fn law_ranking_is_unique(
    names: Seq<Seq<char>>,
    count: int,
    pattern: Seq<char>,
    a: Seq<FilteredEntry>,
    b: Seq<FilteredEntry>,
    descending: bool,
)
    requires
        is_ranking(names, count, pattern, a, descending),
        is_ranking(names, count, pattern, b, descending),
    ensures
        a == b,
{
    assert forall|e: FilteredEntry| has_entry(a, e) == has_entry(b, e) by {
        lemma_ranking_entries(names, count, pattern, a, descending, e);
        lemma_ranking_entries(names, count, pattern, b, descending, e);
    }
    lemma_same_entries_same_ranking(a, b, descending);
}

fn ranks_before_exec(a: FilteredEntry, b: FilteredEntry, descending: bool) -> (r: bool)
    ensures
        r == ranks_before(a, b, descending),
{
    if a.score == b.score {
        a.entry_index < b.entry_index
    } else if descending {
        a.score > b.score
    } else {
        a.score < b.score
    }
}

/// Ranks the first `count` of `names` against `pattern`.
pub fn rank_entries(names: &Vec<String>, count: usize, pattern: &str, descending: bool) -> (r: Vec<
    FilteredEntry,
>)
    requires
        count <= names.len(),
    ensures
        is_ranking(views(names@), count as int, pattern@, r@, descending),
{
    let mut ranked: Vec<FilteredEntry> = Vec::new();
    let mut i: usize = 0;
    while i < count
        invariant
            0 <= i <= count <= names.len(),
            is_ranking(views(names@), i as int, pattern@, ranked@, descending),
        decreases count - i,
    {
        if let Some(score) = fuzzy_match(names[i].as_str(), pattern) {
            let entry = FilteredEntry { entry_index: i, score };
            let mut place: usize = 0;
            while place < ranked.len() && ranks_before_exec(ranked[place], entry, descending)
                invariant
                    0 <= place <= ranked.len(),
                    forall|k: int|
                        0 <= k < place ==> ranks_before(#[trigger] ranked@[k], entry, descending),
                decreases ranked.len() - place,
            {
                place = place + 1;
            }
            let ghost before = ranked@;
            ranked.insert(place, entry);
            proof {
                let after = ranked@;
                assert forall|k: int, l: int| 0 <= k < l < after.len() implies ranks_before(
                    #[trigger] after[k],
                    #[trigger] after[l],
                    descending,
                ) by {
                    if l == place {
                        assert(after[k] == before[k]);
                    } else if k == place {
                        assert(after[l] == before[l - 1]);
                        assert(before[l - 1].entry_index < i);
                        if l - 1 > place {
                            assert(ranks_before(before[place as int], before[l - 1], descending));
                        }
                        assert(!ranks_before(before[place as int], entry, descending));
                    } else {
                        let bk = if k < place { k } else { k - 1 };
                        let bl = if l < place { l } else { l - 1 };
                        assert(after[k] == before[bk]);
                        assert(after[l] == before[bl]);
                    }
                }
                assert forall|k: int| 0 <= k < after.len() implies (
                #[trigger] after[k]).entry_index < i + 1 && fuzzy_score(
                    views(names@)[after[k].entry_index as int],
                    pattern@,
                ) == Some(after[k].score) by {
                    if k < place {
                        assert(after[k] == before[k]);
                    } else if k > place {
                        assert(after[k] == before[k - 1]);
                    }
                }
                assert forall|j: int|
                    0 <= j < i + 1 && (#[trigger] fuzzy_score(
                        views(names@)[j],
                        pattern@,
                    )).is_some() implies exists|k: int|
                    0 <= k < after.len() && (#[trigger] after[k]).entry_index == j by {
                    if j == i {
                        assert(after[place as int].entry_index == j);
                    } else {
                        let k = choose|k: int|
                            0 <= k < before.len() && (#[trigger] before[k]).entry_index == j;
                        if k < place {
                            assert(after[k] == before[k]);
                        } else {
                            assert(after[k + 1] == before[k]);
                        }
                    }
                }
            }
        } else {
            proof {
                assert forall|j: int|
                    0 <= j < i + 1 && (#[trigger] fuzzy_score(
                        views(names@)[j],
                        pattern@,
                    )).is_some() implies exists|k: int|
                    0 <= k < ranked@.len() && (#[trigger] ranked@[k]).entry_index == j by {
                    assert(j != i);
                }
            }
        }
        i = i + 1;
    }
    ranked
}

/// The value nearest to `cursor + offset` among the places `0..count`.
pub open spec fn moved_cursor(cursor: int, offset: int, count: int) -> int {
    if cursor + offset < 0 {
        0
    } else if cursor + offset > count - 1 {
        count - 1
    } else {
        cursor + offset
    }
}

/// Moves a cursor over `count` places by `offset`, stopping at the ends.
pub fn move_cursor_within(cursor: usize, offset: isize, count: usize) -> (r: usize)
    requires
        cursor < count,
    ensures
        r == moved_cursor(cursor as int, offset as int, count as int),
        r < count,
{
    if offset >= 0 {
        let room = count - 1 - cursor;
        if offset as usize > room {
            count - 1
        } else {
            cursor + offset as usize
        }
    } else {
        let back: usize = if offset == isize::MIN {
            usize::MAX / 2 + 1
        } else {
            (-offset) as usize
        };
        if back > cursor {
            0
        } else {
            cursor - back
        }
    }
}

/// An entry that was added to the picker.
pub struct PickerEntry {
    pub name: String,
    pub description: String,
}

pub struct Picker {
    names: Vec<String>,
    descriptions: Vec<String>,
    filtered: Vec<FilteredEntry>,
    cursor: usize,
    scroll: usize,
}

impl Picker {
    /// The names of the entries, in the order in which they were added.
    pub closed spec fn names(&self) -> Seq<Seq<char>> {
        views(self.names@)
    }

    /// The descriptions of the entries.
    pub closed spec fn descriptions(&self) -> Seq<Seq<char>> {
        views(self.descriptions@)
    }

    /// The entries that passed the last filter, best first.
    pub closed spec fn filtered(&self) -> Seq<FilteredEntry> {
        self.filtered@
    }

    pub closed spec fn cursor_index(&self) -> int {
        self.cursor as int
    }

    pub closed spec fn scroll_index(&self) -> int {
        self.scroll as int
    }

    /// Each entry has a description, the filtered entries are entries, and
    /// the cursor stands on a filtered entry, or at zero where there is none.
    pub closed spec fn well_formed(&self) -> bool {
        &&& self.names@.len() == self.descriptions@.len()
        &&& forall|k: int|
            0 <= k < self.filtered@.len() ==> (#[trigger] self.filtered@[k]).entry_index
                < self.names@.len()
        &&& (self.cursor < self.filtered@.len() || self.cursor == 0)
    }

    /// The cursor stands on a filtered entry, or at zero where there is none.
    pub proof fn lemma_cursor_within(&self)
        requires
            self.well_formed(),
        ensures
            self.filtered().len() > 0 ==> 0 <= self.cursor_index() < self.filtered().len(),
            self.filtered().len() == 0 ==> self.cursor_index() == 0,
            self.names().len() == self.descriptions().len(),
            forall|k: int|
                0 <= k < self.filtered().len() ==> (#[trigger] self.filtered()[k]).entry_index
                    < self.names().len(),
    {
    }

    pub fn new() -> (r: Self)
        ensures
            r.well_formed(),
            r.names().len() == 0,
            r.filtered().len() == 0,
            r.cursor_index() == 0,
            r.scroll_index() == 0,
    {
        Picker {
            names: Vec::new(),
            descriptions: Vec::new(),
            filtered: Vec::new(),
            cursor: 0,
            scroll: 0,
        }
    }

    /// Drops all entries.
    pub fn clear(&mut self)
        ensures
            final(self).well_formed(),
            final(self).names().len() == 0,
            final(self).descriptions().len() == 0,
            final(self).filtered().len() == 0,
            final(self).cursor_index() == 0,
            final(self).scroll_index() == 0,
    {
        self.names = Vec::new();
        self.descriptions = Vec::new();
        self.filtered = Vec::new();
        self.cursor = 0;
        self.scroll = 0;
    }

    /// Adds an entry behind the others. It shows up with the next filter.
    pub fn add_custom_entry(&mut self, name: &str, description: &str)
        requires
            old(self).well_formed(),
        ensures
            final(self).well_formed(),
            final(self).names() == old(self).names().push(name@),
            final(self).descriptions() == old(self).descriptions().push(description@),
            final(self).filtered() == old(self).filtered(),
            final(self).cursor_index() == old(self).cursor_index(),
            final(self).scroll_index() == old(self).scroll_index(),
    {
        self.names.push(String::from_str(name));
        self.descriptions.push(String::from_str(description));
        assert(self.names() =~= old(self).names().push(name@));
        assert(self.descriptions() =~= old(self).descriptions().push(description@));
    }

    /// Ranks the entries against `pattern`, best match first, and brings the
    /// cursor back within what is left.
    pub fn filter(&mut self, pattern: &str)
        requires
            old(self).well_formed(),
        ensures
            final(self).well_formed(),
            final(self).names() == old(self).names(),
            final(self).descriptions() == old(self).descriptions(),
            is_ranking(
                final(self).names(),
                final(self).names().len() as int,
                pattern@,
                final(self).filtered(),
                true,
            ),
            final(self).cursor_index() == if old(self).cursor_index() < final(self).filtered().len() {
                old(self).cursor_index()
            } else if final(self).filtered().len() > 0 {
                final(self).filtered().len() - 1
            } else {
                0
            },
            final(self).scroll_index() == old(self).scroll_index(),
    {
        self.filtered = rank_entries(&self.names, self.names.len(), pattern, true);
        if self.cursor >= self.filtered.len() {
            self.cursor = if self.filtered.len() > 0 {
                self.filtered.len() - 1
            } else {
                0
            };
        }
    }

    /// The number of entries that passed the filter.
    pub fn len(&self) -> (r: usize)
        ensures
            r == self.filtered().len(),
    {
        self.filtered.len()
    }

    /// The number of rows that the picker takes on screen.
    pub fn height(&self, max_height: usize) -> (r: usize)
        ensures
            r == if self.filtered().len() < max_height {
                self.filtered().len()
            } else {
                max_height as nat
            },
    {
        if self.filtered.len() < max_height {
            self.filtered.len()
        } else {
            max_height
        }
    }

    pub fn cursor(&self) -> (r: usize)
        ensures
            r == self.cursor_index(),
    {
        self.cursor
    }

    pub fn scroll(&self) -> (r: usize)
        ensures
            r == self.scroll_index(),
    {
        self.scroll
    }

    /// Moves the cursor by `offset` over the filtered entries. It stops at
    /// the first and at the last entry; with no entries it stays at zero.
    pub fn move_cursor(&mut self, offset: isize)
        requires
            old(self).well_formed(),
        ensures
            final(self).well_formed(),
            final(self).names() == old(self).names(),
            final(self).descriptions() == old(self).descriptions(),
            final(self).filtered() == old(self).filtered(),
            final(self).scroll_index() == old(self).scroll_index(),
            old(self).filtered().len() > 0 ==> final(self).cursor_index() == moved_cursor(
                old(self).cursor_index(),
                offset as int,
                old(self).filtered().len() as int,
            ),
            old(self).filtered().len() == 0 ==> final(self).cursor_index() == 0,
    {
        if self.filtered.len() > 0 {
            self.cursor = move_cursor_within(self.cursor, offset, self.filtered.len());
        }
    }

    /// Moves the cursor to the first of the filtered entries.
    pub fn move_cursor_to_first(&mut self)
        requires
            old(self).well_formed(),
        ensures
            final(self).well_formed(),
            final(self).names() == old(self).names(),
            final(self).descriptions() == old(self).descriptions(),
            final(self).filtered() == old(self).filtered(),
            final(self).scroll_index() == old(self).scroll_index(),
            final(self).cursor_index() == 0,
    {
        self.cursor = 0;
    }

    /// Moves the cursor to the last of the filtered entries; with no
    /// entries it stays at zero.
    pub fn move_cursor_to_last(&mut self)
        requires
            old(self).well_formed(),
        ensures
            final(self).well_formed(),
            final(self).names() == old(self).names(),
            final(self).descriptions() == old(self).descriptions(),
            final(self).filtered() == old(self).filtered(),
            final(self).scroll_index() == old(self).scroll_index(),
            final(self).cursor_index() == if old(self).filtered().len() > 0 {
                old(self).filtered().len() - 1
            } else {
                0
            },
    {
        self.cursor = if self.filtered.len() > 0 {
            self.filtered.len() - 1
        } else {
            0
        };
    }

    /// The entry under the cursor: its place among the entries, its name and
    /// its description.
    pub fn current_entry(&self) -> (r: Option<(usize, &str, &str)>)
        requires
            self.well_formed(),
        ensures
            r.is_some() == (self.filtered().len() > 0),
            r.is_some() ==> {
                let entry = self.filtered()[self.cursor_index()];
                &&& r.unwrap().0 == entry.entry_index
                &&& r.unwrap().1@ == self.names()[entry.entry_index as int]
                &&& r.unwrap().2@ == self.descriptions()[entry.entry_index as int]
            },
    {
        if self.cursor < self.filtered.len() {
            let index = self.filtered[self.cursor].entry_index;
            Some((index, self.names[index].as_str(), self.descriptions[index].as_str()))
        } else {
            None
        }
    }

    /// Moves the scroll so that the cursor is among the `height` rows shown,
    /// moving it no further than needed.
    pub fn update_scroll(&mut self, height: usize)
        requires
            old(self).well_formed(),
        ensures
            final(self).well_formed(),
            final(self).names() == old(self).names(),
            final(self).descriptions() == old(self).descriptions(),
            final(self).filtered() == old(self).filtered(),
            final(self).cursor_index() == old(self).cursor_index(),
            final(self).scroll_index() == if old(self).cursor_index() < old(self).scroll_index() {
                old(self).cursor_index()
            } else if height > 0 && old(self).cursor_index() >= old(self).scroll_index() + height {
                old(self).cursor_index() - height + 1
            } else {
                old(self).scroll_index()
            },
    {
        if self.cursor < self.scroll {
            self.scroll = self.cursor;
        } else if height > 0 && self.cursor - self.scroll >= height {
            self.scroll = self.cursor - height + 1;
        }
    }
}

impl Default for Picker {
    fn default() -> (r: Self)
        ensures
            r.well_formed(),
            r.names().len() == 0,
            r.filtered().len() == 0,
    {
        Picker::new()
    }
}

/// Moving the cursor of a picker with entries lands on the place nearest to
/// where the move points, and landing there twice in a row changes nothing
/// more: a move that is cut short at an end stays at that end.
pub proof fn law_cursor_stays_within(cursor: int, offset: int, count: int)
    requires
        0 <= cursor < count,
    ensures
        0 <= moved_cursor(cursor, offset, count) < count,
        0 <= cursor + offset < count ==> moved_cursor(cursor, offset, count) == cursor + offset,
        cursor + offset < 0 ==> moved_cursor(cursor, offset, count) == 0,
        cursor + offset >= count ==> moved_cursor(cursor, offset, count) == count - 1,
{
}

} // verus!
