//! A list of named entries that can be narrowed down by a fuzzy filter.

use crate::picker::{is_ranking, rank_entries, FilteredEntry};
use crate::text::views;
use vstd::prelude::*;

verus! {

pub struct SelectEntry {
    pub name: String,
}

/// Entries, and those of them that match the filter, lowest score first and
/// among equal scores in the order in which they were added.
pub struct SelectEntryCollection {
    pub selected_index: usize,
    names: Vec<String>,
    filtered: Vec<FilteredEntry>,
    filter: String,
}

impl SelectEntryCollection {
    /// The names of the entries, in the order in which they were added.
    pub closed spec fn names(&self) -> Seq<Seq<char>> {
        views(self.names@)
    }

    /// The entry that is selected.
    pub closed spec fn selected(&self) -> int {
        self.selected_index as int
    }

    /// The filter that is in force.
    pub closed spec fn filter_text(&self) -> Seq<char> {
        self.filter@
    }

    /// The entries that match the filter.
    pub closed spec fn filtered(&self) -> Seq<FilteredEntry> {
        self.filtered@
    }

    /// The filtered entries are the ranking of the entries against the filter.
    pub closed spec fn well_formed(&self) -> bool {
        is_ranking(
            views(self.names@),
            self.names@.len() as int,
            self.filter@,
            self.filtered@,
            false,
        )
    }

    pub fn new() -> (r: Self)
        ensures
            r.well_formed(),
            r.selected() == 0,
            r.names().len() == 0,
            r.filtered().len() == 0,
            r.filter_text().len() == 0,
    {
        SelectEntryCollection {
            selected_index: 0,
            names: Vec::new(),
            filtered: Vec::new(),
            filter: String::new(),
        }
    }

    /// The number of entries.
    pub fn len(&self) -> (r: usize)
        ensures
            r == self.names().len(),
    {
        self.names.len()
    }

    /// Drops all entries; the filter stays.
    pub fn clear(&mut self)
        ensures
            final(self).well_formed(),
            final(self).selected() == 0,
            final(self).names().len() == 0,
            final(self).filtered().len() == 0,
            final(self).filter_text() == old(self).filter_text(),
    {
        self.selected_index = 0;
        self.names = Vec::new();
        self.filtered = Vec::new();
    }

    /// Adds an entry behind the others and filters anew.
    pub fn add(&mut self, name: &str)
        ensures
            final(self).well_formed(),
            final(self).selected() == old(self).selected(),
            final(self).names() == old(self).names().push(name@),
            final(self).filter_text() == old(self).filter_text(),
            is_ranking(
                final(self).names(),
                final(self).names().len() as int,
                final(self).filter_text(),
                final(self).filtered(),
                false,
            ),
    {
        self.names.push(String::from_str(name));
        assert(self.names() =~= old(self).names().push(name@));
        self.filter();
    }

    /// Replaces the filter and filters anew.
    pub fn set_filter(&mut self, filter: &str)
        ensures
            final(self).well_formed(),
            final(self).selected() == old(self).selected(),
            final(self).names() == old(self).names(),
            final(self).filter_text() == filter@,
            is_ranking(
                final(self).names(),
                final(self).names().len() as int,
                filter@,
                final(self).filtered(),
                false,
            ),
    {
        self.filter = String::from_str(filter);
        self.filter();
    }

    fn filter(&mut self)
        ensures
            final(self).well_formed(),
            final(self).selected() == old(self).selected(),
            final(self).names == old(self).names,
            final(self).filter == old(self).filter,
    {
        self.filtered = rank_entries(&self.names, self.names.len(), self.filter.as_str(), false);
    }

    /// The names of the entries that match the filter, in ranking order.
    pub fn filtered_entries(&self) -> (r: Vec<&str>)
        requires
            self.well_formed(),
        ensures
            r@.len() == self.filtered().len(),
            forall|k: int|
                0 <= k < r@.len() ==> (#[trigger] r@[k])@ == self.names()[self.filtered()[k].entry_index as int],
    {
        let mut out: Vec<&str> = Vec::new();
        let mut k: usize = 0;
        while k < self.filtered.len()
            invariant
                0 <= k <= self.filtered.len(),
                self.well_formed(),
                out@.len() == k,
                forall|j: int|
                    0 <= j < k ==> (#[trigger] out@[j])@ == self.names()[self.filtered()[j].entry_index as int],
            decreases self.filtered.len() - k,
        {
            let index = self.filtered[k].entry_index;
            out.push(self.names[index].as_str());
            k = k + 1;
        }
        out
    }
}

impl Default for SelectEntryCollection {
    fn default() -> (r: Self)
        ensures
            r.well_formed(),
            r.names().len() == 0,
    {
        SelectEntryCollection::new()
    }
}

} // verus!
