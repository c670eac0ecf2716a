//! The document aggregate: character sets, glyph sets, and export configs. There is
//! no document-wide glyph size and no document-wide character set.

use vstd::prelude::*;

use crate::character_set::CharacterSet;
use crate::export_config::ExportConfig;
use crate::glyph_set::GlyphSet;
use crate::ids::{CharacterSetId, ExportConfigId, FontSpaceId, GlyphSetId, IdGen};
use crate::search::{first_index, lemma_first_index_is, lemma_first_index_none};

verus! {

/// The document schema version this build reads and writes.
pub const CURRENT_FORMAT_VERSION: u32 = 1;

/// Free-text document metadata.
#[derive(Debug, Clone, PartialEq, Eq)]
pub struct FontSpaceMetadata {
    pub name: String,
    pub description: String,
}

/// A FontSpace document.
#[derive(Debug, Clone, PartialEq, Eq)]
pub struct FontSpace {
    pub format_version: u32,
    pub id: FontSpaceId,
    pub metadata: FontSpaceMetadata,
    pub character_sets: Vec<CharacterSet>,
    pub glyph_sets: Vec<GlyphSet>,
    pub export_configs: Vec<ExportConfig>,
}

impl FontSpace {
    /// The character-set ids, in order.
    pub open spec fn character_set_ids(self) -> Seq<CharacterSetId> {
        self.character_sets@.map_values(|c: CharacterSet| c.id)
    }

    /// The glyph-set ids, in order.
    pub open spec fn glyph_set_ids(self) -> Seq<GlyphSetId> {
        self.glyph_sets@.map_values(|g: GlyphSet| g.id)
    }

    /// The export-config ids in order.
    pub open spec fn export_config_ids(self) -> Seq<ExportConfigId> {
        self.export_configs@.map_values(|c: ExportConfig| c.id)
    }

    /// A new, empty document at the current format version with a fresh id.
    pub fn new<G: IdGen>(ids: &mut G, name: &str, description: &str) -> (doc: Self)
        ensures
            doc.format_version == CURRENT_FORMAT_VERSION,
            doc.metadata.name@ == name@,
            doc.metadata.description@ == description@,
            doc.character_sets@.len() == 0,
            doc.glyph_sets@.len() == 0,
            doc.export_configs@.len() == 0,
            G::mints(&*old(ids), &*final(ids), doc.id.0),
    {
        FontSpace {
            format_version: CURRENT_FORMAT_VERSION,
            id: FontSpaceId::new(ids),
            metadata: FontSpaceMetadata { name: name.to_owned(), description: description.to_owned() },
            character_sets: Vec::new(),
            glyph_sets: Vec::new(),
            export_configs: Vec::new(),
        }
    }

    /// The first character set with `id`, if present.
    pub fn character_set(&self, id: CharacterSetId) -> (r: Option<&CharacterSet>)
        ensures
            r == (match first_index(self.character_set_ids(), id) {
                Some(i) => Some(&self.character_sets@[i]),
                None => None,
            }),
    {
        let mut i: usize = 0;
        while i < self.character_sets.len()
            invariant
                i <= self.character_sets@.len(),
                forall|j: int| 0 <= j < i ==> self.character_set_ids()[j] != id,
            decreases self.character_sets@.len() - i,
        {
            if self.character_sets[i].id == id {
                proof {
                    lemma_first_index_is(self.character_set_ids(), id, i as int);
                }
                return Some(&self.character_sets[i]);
            }
            i = i + 1;
        }
        proof {
            lemma_first_index_none(self.character_set_ids(), id);
        }
        None
    }

    /// The first glyph set with `id`, if present.
    pub fn glyph_set(&self, id: GlyphSetId) -> (r: Option<&GlyphSet>)
        ensures
            r == (match first_index(self.glyph_set_ids(), id) {
                Some(i) => Some(&self.glyph_sets@[i]),
                None => None,
            }),
    {
        let mut i: usize = 0;
        while i < self.glyph_sets.len()
            invariant
                i <= self.glyph_sets@.len(),
                forall|j: int| 0 <= j < i ==> self.glyph_set_ids()[j] != id,
            decreases self.glyph_sets@.len() - i,
        {
            if self.glyph_sets[i].id == id {
                proof {
                    lemma_first_index_is(self.glyph_set_ids(), id, i as int);
                }
                return Some(&self.glyph_sets[i]);
            }
            i = i + 1;
        }
        proof {
            lemma_first_index_none(self.glyph_set_ids(), id);
        }
        None
    }
}

} // verus!
