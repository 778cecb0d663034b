//! The decode table: which format string stands behind each index on the wire.
//!
//! A table is built once, from entries that were already resolved, and only read after
//! that. Building it is where the entries are held to be free of collisions: no index and
//! no raw symbol occurs twice.

use std::collections::BTreeMap;
use vstd::prelude::*;
use crate::bitflags::{BitflagsKey, BitflagsKeyView, BitflagsRegistry, variant_views};
use crate::encoding::Encoding;
use crate::entry::{TableEntry, TableEntryView};
use crate::error::Error;

verus! {

broadcast use {vstd::std_specs::btree::group_btree_axioms, vstd::laws_cmp::group_laws_cmp};

/// Some index occurs twice among `entries`.
pub open spec fn has_duplicate_index(entries: Seq<(usize, TableEntry)>) -> bool {
    exists|i: int, j: int| 0 <= i < j < entries.len() && entries[i].0 == entries[j].0
}

/// Some raw symbol occurs twice among `entries`.
pub open spec fn has_duplicate_symbol(entries: Seq<(usize, TableEntry)>) -> bool {
    exists|i: int, j: int|
        0 <= i < j < entries.len() && entries[i].1@.raw_symbol == entries[j].1@.raw_symbol
}

/// The entries as a mapping from index to entry. It is meant for entries without a
/// duplicate index.
pub open spec fn entries_map(entries: Seq<(usize, TableEntry)>) -> Map<usize, TableEntryView> {
    Map::new(
        |index: usize| exists|i: int| 0 <= i < entries.len() && entries[i].0 == index,
        |index: usize|
            entries[choose|i: int| 0 <= i < entries.len() && entries[i].0 == index].1@,
    )
}

/// Whether `entries` holds two entries with the same index.
fn find_duplicate_index(entries: &Vec<(usize, TableEntry)>) -> (found: bool)
    ensures
        found == has_duplicate_index(entries@),
{
    let n = entries.len();
    let mut j: usize = 0;
    while j < n
        invariant
            n == entries@.len(),
            j <= n,
            forall|a: int, b: int| 0 <= a < b < j ==> entries@[a].0 != entries@[b].0,
        decreases n - j,
    {
        let mut i: usize = 0;
        while i < j
            invariant
                n == entries@.len(),
                i <= j < n,
                forall|a: int| 0 <= a < i ==> entries@[a].0 != entries@[j as int].0,
            decreases j - i,
        {
            if entries[i].0 == entries[j].0 {
                return true;
            }
            i = i + 1;
        }
        j = j + 1;
    }
    false
}

/// Whether `entries` holds two entries with the same raw symbol.
fn find_duplicate_symbol(entries: &Vec<(usize, TableEntry)>) -> (found: bool)
    ensures
        found == has_duplicate_symbol(entries@),
{
    let n = entries.len();
    let mut j: usize = 0;
    while j < n
        invariant
            n == entries@.len(),
            j <= n,
            forall|a: int, b: int|
                0 <= a < b < j ==> entries@[a].1@.raw_symbol != entries@[b].1@.raw_symbol,
        decreases n - j,
    {
        let mut i: usize = 0;
        while i < j
            invariant
                n == entries@.len(),
                i <= j < n,
                forall|a: int|
                    0 <= a < i ==> entries@[a].1@.raw_symbol != entries@[j as int].1@.raw_symbol,
            decreases j - i,
        {
            if entries[i].1.same_symbol(&entries[j].1) {
                return true;
            }
            i = i + 1;
        }
        j = j + 1;
    }
    false
}

/// Table that maps the index at the head of a frame to the entry it stands for.
#[derive(Debug)]
pub struct Table {
    timestamp: Option<TableEntry>,
    entries: BTreeMap<usize, TableEntry>,
    bitflags: BitflagsRegistry,
    encoding: Encoding,
}

/// What a [`Table`] holds.
pub ghost struct TableView {
    /// The format of the global timestamp, where there is one.
    pub timestamp: Option<TableEntryView>,
    /// The entries by index.
    pub entries: Map<usize, TableEntryView>,
    /// The named values of each bitflags type, in declaration order.
    pub bitflags: Map<BitflagsKeyView, Seq<(Seq<char>, u128)>>,
    /// The one encoding of every frame that the table is used for.
    pub encoding: Encoding,
}

impl TableView {
    /// No raw symbol stands behind two indices.
    pub open spec fn distinct_symbols(self) -> bool {
        forall|a: usize, b: usize|
            self.entries.contains_key(a) && self.entries.contains_key(b) && a != b
                ==> self.entries[a].raw_symbol != self.entries[b].raw_symbol
    }
}

impl View for Table {
    type V = TableView;

    closed spec fn view(&self) -> TableView {
        TableView {
            timestamp: match self.timestamp {
                Some(entry) => Some(entry@),
                None => None,
            },
            entries: self.entries@.map_values(|entry: TableEntry| entry@),
            bitflags: self.bitflags@,
            encoding: self.encoding,
        }
    }
}

impl Table {
    /// The invariant of a table: its raw symbols are distinct and its bitflags registry
    /// is well formed. `new` is the only source of tables, and it establishes this.
    pub closed spec fn wf(&self) -> bool {
        &&& self@.distinct_symbols()
        &&& self.bitflags.wf()
    }

    /// Builds the table from `(index, entry)` pairs.
    ///
    /// Fails with `DuplicateIndex` if two entries share an index; failing that, with
    /// `DuplicateSymbol` if two entries share a raw symbol. Otherwise the table holds
    /// exactly the entries given, each under its index.
    pub fn new(
        entries: Vec<(usize, TableEntry)>,
        encoding: Encoding,
        timestamp: Option<TableEntry>,
        bitflags: BitflagsRegistry,
    ) -> (table: Result<Table, Error>)
        requires
            bitflags.wf(),
        ensures
            has_duplicate_index(entries@) ==> table == Err::<Table, Error>(Error::DuplicateIndex),
            !has_duplicate_index(entries@) && has_duplicate_symbol(entries@) ==> table == Err::<
                Table,
                Error,
            >(Error::DuplicateSymbol),
            !has_duplicate_index(entries@) && !has_duplicate_symbol(entries@) ==> {
                &&& table matches Ok(built)
                &&& built.wf()
                &&& built@ == (TableView {
                    timestamp: match timestamp {
                        Some(entry) => Some(entry@),
                        None => None,
                    },
                    entries: entries_map(entries@),
                    bitflags: bitflags@,
                    encoding,
                })
            },
    {
        if find_duplicate_index(&entries) {
            return Err(Error::DuplicateIndex);
        }
        if find_duplicate_symbol(&entries) {
            return Err(Error::DuplicateSymbol);
        }
        let ghost all = entries@;
        let mut rest = entries;
        let mut map: BTreeMap<usize, TableEntry> = BTreeMap::new();
        while rest.len() > 0
            invariant
                rest@ == all.take(rest@.len() as int),
                rest@.len() <= all.len(),
                !has_duplicate_index(all),
                forall|index: usize| #[trigger]
                    map@.contains_key(index) <==> exists|i: int|
                        rest@.len() <= i < all.len() && all[i].0 == index,
                forall|i: int|
                    rest@.len() <= i < all.len() ==> map@.contains_key(all[i].0) && map@[all[i].0]
                        == all[i].1,
            decreases rest@.len(),
        {
            let ghost k = rest@.len() - 1;
            let (index, entry) = rest.pop().unwrap();
            assert(all[k] == (index, entry));
            let ghost before = map@;
            map.insert(index, entry);
            assert forall|i: int| rest@.len() <= i < all.len() implies map@.contains_key(all[i].0)
                && map@[all[i].0] == all[i].1 by {
                if i > k {
                    assert(all[i].0 != all[k].0);
                }
            }
        }
        let table = Table { timestamp, entries: map, bitflags, encoding };
        proof {
            let built = map@.map_values(|entry: TableEntry| entry@);
            assert forall|index: usize| #[trigger]
                built.contains_key(index) == entries_map(all).contains_key(index) by {}
            assert forall|index: usize| #[trigger] built.contains_key(index) implies built[index]
                == entries_map(all)[index] by {
                let i = choose|i: int| 0 <= i < all.len() && all[i].0 == index;
                assert(map@[all[i].0] == all[i].1);
            }
            assert(built =~= entries_map(all));
            assert forall|a: usize, b: usize|
                built.contains_key(a) && built.contains_key(b) && a != b implies built[a].raw_symbol
                != built[b].raw_symbol by {
                let i = choose|i: int| 0 <= i < all.len() && all[i].0 == a;
                let j = choose|j: int| 0 <= j < all.len() && all[j].0 == b;
                assert(map@[all[i].0] == all[i].1);
                assert(map@[all[j].0] == all[j].1);
                if i < j {
                    assert(all[i].1@.raw_symbol != all[j].1@.raw_symbol);
                } else {
                    assert(all[j].1@.raw_symbol != all[i].1@.raw_symbol);
                }
            }
        }
        Ok(table)
    }

    /// The entry that stands behind `index`; `None` where the table has none, which a
    /// decoder has to report and must not pass over.
    pub fn lookup(&self, index: usize) -> (entry: Option<&TableEntry>)
        ensures
            match entry {
                Some(found) => self@.entries.contains_key(index) && found@ == self@.entries[index],
                None => !self@.entries.contains_key(index),
            },
    {
        self.entries.get(&index)
    }

    /// The named values of the bitflags type `key`, in declaration order; `None` where the
    /// table does not know the type.
    pub fn resolve_bitflags(&self, key: &BitflagsKey) -> (variants: Option<&[(String, u128)]>)
        requires
            self.wf(),
        ensures
            match variants {
                Some(found) => self@.bitflags.contains_key(key@) && variant_views(found@)
                    == self@.bitflags[key@],
                None => !self@.bitflags.contains_key(key@),
            },
    {
        self.bitflags.resolve(key)
    }

    /// The format of the global timestamp, where the table has one.
    pub fn timestamp(&self) -> (timestamp: Option<&TableEntry>)
        ensures
            match timestamp {
                Some(entry) => self@.timestamp == Some(entry@),
                None => self@.timestamp is None,
            },
    {
        self.timestamp.as_ref()
    }

    /// The encoding of every frame that the table is used for.
    pub fn encoding(&self) -> (encoding: Encoding)
        ensures
            encoding == self@.encoding,
    {
        self.encoding
    }

    /// A well-formed table holds no raw symbol under two indices.
    pub proof fn lemma_symbols_are_distinct(&self)
        requires
            self.wf(),
        ensures
            self@.distinct_symbols(),
    {
    }
}

/// No entries collide where there are none, and the table built from none holds no index.
pub proof fn lemma_no_entries()
    ensures
        !has_duplicate_index(Seq::empty()),
        !has_duplicate_symbol(Seq::empty()),
        entries_map(Seq::empty()) == Map::<usize, TableEntryView>::empty(),
{
    assert(entries_map(Seq::empty()) =~= Map::<usize, TableEntryView>::empty());
}

/// Two entries under one index are a duplicate index, and two entries with one raw symbol
/// a duplicate symbol, wherever among the entries they stand.
pub proof fn lemma_collisions_are_found(entries: Seq<(usize, TableEntry)>, i: int, j: int)
    requires
        0 <= i < entries.len(),
        0 <= j < entries.len(),
        i != j,
    ensures
        entries[i].0 == entries[j].0 ==> has_duplicate_index(entries),
        entries[i].1@.raw_symbol == entries[j].1@.raw_symbol ==> has_duplicate_symbol(entries),
{
    if i < j {
        assert(0 <= i < j < entries.len());
    } else {
        assert(0 <= j < i < entries.len());
    }
}

} // verus!
