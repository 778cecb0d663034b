//! The entries of a decode table.

use vstd::prelude::*;
use crate::tag::Tag;

verus! {

/// A format string and its [`Tag`].
#[derive(Debug, PartialEq, Eq)]
pub struct StringEntry {
    tag: Tag,
    string: String,
}

/// What a [`StringEntry`] holds.
pub ghost struct StringEntryView {
    pub tag: Tag,
    pub string: Seq<char>,
}

impl View for StringEntry {
    type V = StringEntryView;

    closed spec fn view(&self) -> StringEntryView {
        StringEntryView { tag: self.tag, string: self.string@ }
    }
}

impl StringEntry {
    pub fn new(tag: Tag, string: String) -> (entry: Self)
        ensures
            entry@ == (StringEntryView { tag, string: string@ }),
    {
        Self { tag, string }
    }

    /// The role of the format string.
    pub fn tag(&self) -> (tag: Tag)
        ensures
            tag == self@.tag,
    {
        self.tag
    }

    /// The format string.
    pub fn string(&self) -> (string: &str)
        ensures
            string@ == self@.string,
    {
        self.string.as_str()
    }
}

/// Entry in a table, combining a format string with the raw symbol it was recovered from.
#[derive(Debug, PartialEq, Eq)]
pub struct TableEntry {
    string: StringEntry,
    raw_symbol: String,
}

/// What a [`TableEntry`] holds.
pub ghost struct TableEntryView {
    pub string: StringEntryView,
    pub raw_symbol: Seq<char>,
}

impl View for TableEntry {
    type V = TableEntryView;

    closed spec fn view(&self) -> TableEntryView {
        TableEntryView { string: self.string@, raw_symbol: self.raw_symbol@ }
    }
}

impl TableEntry {
    pub fn new(string: StringEntry, raw_symbol: String) -> (entry: Self)
        ensures
            entry@ == (TableEntryView { string: string@, raw_symbol: raw_symbol@ }),
    {
        Self { string, raw_symbol }
    }

    /// An entry whose origin is not known: its raw symbol is `<unknown>`.
    pub fn new_without_symbol(tag: Tag, string: String) -> (entry: Self)
        ensures
            entry@ == (TableEntryView {
                string: StringEntryView { tag, string: string@ },
                raw_symbol: "<unknown>"@,
            }),
    {
        Self { string: StringEntry::new(tag, string), raw_symbol: "<unknown>".to_owned() }
    }

    /// The format string and its tag.
    pub fn string_entry(&self) -> (string: &StringEntry)
        ensures
            string@ == self@.string,
    {
        &self.string
    }

    /// Whether two entries were recovered from the same linkage name.
    pub fn same_symbol(&self, other: &TableEntry) -> (same: bool)
        ensures
            same == (self@.raw_symbol == other@.raw_symbol),
    {
        self.raw_symbol == other.raw_symbol
    }

    /// The linkage name that the entry was recovered from.
    pub fn raw_symbol(&self) -> (raw_symbol: &str)
        ensures
            raw_symbol@ == self@.raw_symbol,
    {
        self.raw_symbol.as_str()
    }
}

} // verus!
