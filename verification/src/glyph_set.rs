//! Glyph sets, pages, glyphs, and guides. Pages are sparse: a page stores a glyph
//! only for the codes it defines; absent codes render blank.

use vstd::prelude::*;

use crate::bitmap::Bitmap;
use crate::geometry::{GlyphSize, GuideAxis};
use crate::ids::{CharacterSetId, GlyphSetId, GuideId, IdGen, PageId};
use crate::search::{first_index, lemma_first_index_is, lemma_first_index_none};

verus! {

/// The pixels rendered for `code` on a page.
#[derive(Debug, Clone, PartialEq, Eq)]
pub struct Glyph {
    pub code: u32,
    pub bitmap: Bitmap,
}

/// A named grid-line coordinate on a page (baseline, cap height, …); signed and
/// possibly outside glyph bounds.
#[derive(Debug, Clone, PartialEq, Eq)]
pub struct Guide {
    pub id: GuideId,
    pub name: String,
    pub axis: GuideAxis,
    pub position: i32,
    pub visible: bool,
    pub locked: bool,
}

/// A sparse set of glyphs within a glyph set, plus its guides.
#[derive(Debug, Clone, PartialEq, Eq)]
pub struct GlyphPage {
    pub id: PageId,
    pub name: String,
    pub description: String,
    pub guides: Vec<Guide>,
    pub glyphs: Vec<Glyph>,
}

impl GlyphPage {
    /// The codes of the stored glyphs, in storage order.
    pub open spec fn codes(self) -> Seq<u32> {
        self.glyphs@.map_values(|g: Glyph| g.code)
    }

    /// A new, empty page (no guides, no glyphs) with a freshly minted id.
    pub fn new<G: IdGen>(ids: &mut G, name: &str, description: &str) -> (p: Self)
        ensures
            p.name@ == name@,
            p.description@ == description@,
            p.guides@.len() == 0,
            p.glyphs@.len() == 0,
            G::mints(&*old(ids), &*final(ids), p.id.0),
    {
        GlyphPage {
            id: PageId::new(ids),
            name: name.to_owned(),
            description: description.to_owned(),
            guides: Vec::new(),
            glyphs: Vec::new(),
        }
    }

    fn position_of_code(&self, code: u32) -> (r: Option<usize>)
        ensures
            match first_index(self.codes(), code) {
                Some(i) => r is Some && r.unwrap() as int == i,
                None => r is None,
            },
    {
        let mut i: usize = 0;
        while i < self.glyphs.len()
            invariant
                i <= self.glyphs@.len(),
                forall|j: int| 0 <= j < i ==> self.codes()[j] != code,
            decreases self.glyphs@.len() - i,
        {
            if self.glyphs[i].code == code {
                proof {
                    lemma_first_index_is(self.codes(), code, i as int);
                }
                return Some(i);
            }
            i = i + 1;
        }
        proof {
            lemma_first_index_none(self.codes(), code);
        }
        None
    }

    /// The glyph rendering `code` on this page, if one is stored.
    pub fn glyph_by_code(&self, code: u32) -> (r: Option<&Glyph>)
        ensures
            r == (match first_index(self.codes(), code) {
                Some(i) => Some(&self.glyphs@[i]),
                None => None,
            }),
    {
        proof {
            crate::search::lemma_first_index_props(self.codes(), code);
        }
        match self.position_of_code(code) {
            Some(i) => Some(&self.glyphs[i]),
            None => None,
        }
    }

    /// Mutable access to the glyph rendering `code`, if one is stored; whatever is
    /// written through it lands in that glyph's slot and nowhere else.
    pub fn glyph_by_code_mut(&mut self, code: u32) -> (r: Option<&mut Glyph>)
        ensures
            first_index(old(self).codes(), code) is None ==> r is None && *final(self) == *old(self),
            first_index(old(self).codes(), code) matches Some(i) ==> r matches Some(g) && *g
                == old(self).glyphs@[i] && final(self).glyphs@ == old(self).glyphs@.update(
                i,
                *final(g),
            ) && final(self).id == old(self).id && final(self).name == old(self).name
                && final(self).description == old(self).description && final(self).guides
                == old(self).guides,
    {
        proof {
            crate::search::lemma_first_index_props(self.codes(), code);
        }
        match self.position_of_code(code) {
            Some(i) => Some(&mut self.glyphs[i]),
            None => None,
        }
    }
}

/// One geometry, one character-set reference, and pages.
#[derive(Debug, Clone, PartialEq, Eq)]
pub struct GlyphSet {
    pub id: GlyphSetId,
    pub name: String,
    pub description: String,
    pub glyph_size: GlyphSize,
    pub character_set_id: CharacterSetId,
    pub pages: Vec<GlyphPage>,
}

impl GlyphSet {
    /// The page ids, in order.
    pub open spec fn page_ids(self) -> Seq<PageId> {
        self.pages@.map_values(|p: GlyphPage| p.id)
    }

    /// A new, empty glyph set (no pages) with a freshly minted id.
    pub fn new<G: IdGen>(
        ids: &mut G,
        name: &str,
        description: &str,
        glyph_size: GlyphSize,
        character_set_id: CharacterSetId,
    ) -> (gs: Self)
        ensures
            gs.name@ == name@,
            gs.description@ == description@,
            gs.glyph_size == glyph_size,
            gs.character_set_id == character_set_id,
            gs.pages@.len() == 0,
            G::mints(&*old(ids), &*final(ids), gs.id.0),
    {
        GlyphSet {
            id: GlyphSetId::new(ids),
            name: name.to_owned(),
            description: description.to_owned(),
            glyph_size,
            character_set_id,
            pages: Vec::new(),
        }
    }

    /// The first page with `id`, if present.
    pub fn page_by_id(&self, id: PageId) -> (r: Option<&GlyphPage>)
        ensures
            r == (match first_index(self.page_ids(), id) {
                Some(i) => Some(&self.pages@[i]),
                None => None,
            }),
    {
        let mut i: usize = 0;
        while i < self.pages.len()
            invariant
                i <= self.pages@.len(),
                forall|j: int| 0 <= j < i ==> self.page_ids()[j] != id,
            decreases self.pages@.len() - i,
        {
            if self.pages[i].id == id {
                proof {
                    lemma_first_index_is(self.page_ids(), id, i as int);
                }
                return Some(&self.pages[i]);
            }
            i = i + 1;
        }
        proof {
            lemma_first_index_none(self.page_ids(), id);
        }
        None
    }
}

} // verus!
