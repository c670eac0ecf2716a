//! Character sets: ordered lists of character slots, each identified by its
//! `code` (not its position, not a UUID).

use vstd::prelude::*;

use crate::ids::{CharacterSetId, IdGen};
use crate::search::{first_index, lemma_first_index_is, lemma_first_index_none};

verus! {

/// One character slot, identified by `code`, which is unique within its set.
#[derive(Debug, Clone, PartialEq, Eq)]
pub struct CharacterEntry {
    /// Identity and ROM address dimension (the Unicode scalar for Unicode text).
    pub code: u32,
    /// Human-readable name; carries no identity.
    pub label: String,
}

/// An ordered list of [`CharacterEntry`]s; `entries` order is canonical for display
/// and for a page's on-disk glyph order.
#[derive(Debug, Clone, PartialEq, Eq)]
pub struct CharacterSet {
    pub id: CharacterSetId,
    pub name: String,
    pub description: String,
    pub entries: Vec<CharacterEntry>,
}

impl CharacterSet {
    /// The entry codes in order.
    pub open spec fn codes(self) -> Seq<u32> {
        self.entries@.map_values(|e: CharacterEntry| e.code)
    }

    /// A new, empty character set with a freshly minted id.
    pub fn new<G: IdGen>(ids: &mut G, name: &str, description: &str) -> (cs: Self)
        ensures
            cs.name@ == name@,
            cs.description@ == description@,
            cs.entries@.len() == 0,
            G::mints(&*old(ids), &*final(ids), cs.id.0),
    {
        CharacterSet {
            id: CharacterSetId::new(ids),
            name: name.to_owned(),
            description: description.to_owned(),
            entries: Vec::new(),
        }
    }

    /// The first entry for `code`, if present.
    pub fn entry(&self, code: u32) -> (r: Option<&CharacterEntry>)
        ensures
            r == (match first_index(self.codes(), code) {
                Some(i) => Some(&self.entries@[i]),
                None => None,
            }),
    {
        proof {
            crate::search::lemma_first_index_props(self.codes(), code);
        }
        match self.ordinal_of(code) {
            Some(i) => Some(&self.entries[i]),
            None => None,
        }
    }

    /// Whether `code` has an entry in this set.
    pub fn contains_code(&self, code: u32) -> (r: bool)
        ensures
            r == self.codes().contains(code),
    {
        let found = self.ordinal_of(code);
        proof {
            crate::search::lemma_first_index_props(self.codes(), code);
        }
        found.is_some()
    }

    /// The position of `code`, if present. Ordinals are implicit in order, never
    /// stored, and never what the ROM addresses.
    pub fn ordinal_of(&self, code: u32) -> (r: Option<usize>)
        ensures
            match first_index(self.codes(), code) {
                Some(i) => r is Some && r.unwrap() as int == i,
                None => r is None,
            },
    {
        let mut i: usize = 0;
        while i < self.entries.len()
            invariant
                i <= self.entries@.len(),
                forall|j: int| 0 <= j < i ==> self.codes()[j] != code,
            decreases self.entries@.len() - i,
        {
            if self.entries[i].code == code {
                proof {
                    lemma_first_index_is(self.codes(), code, i as int);
                }
                return Some(i);
            }
            i = i + 1;
        }
        proof {
            lemma_first_index_none(self.codes(), code);
        }
        None
    }
}

} // verus!
