//! The document browser: a document's character sets, glyph sets (with their
//! pages) and export configs, in document order.

use vstd::prelude::*;

use crate::document::FontSpace;
use crate::glyph_set::GlyphSet;
use crate::ids::{ExportConfigId, GlyphSetId, PageId};

verus! {

/// One glyph set in the browser: its id, name, and pages in document order.
#[derive(Debug, Clone, PartialEq, Eq)]
pub struct GlyphSetNode {
    pub id: GlyphSetId,
    pub name: String,
    pub pages: Vec<PageNode>,
}

/// One page under a glyph set.
#[derive(Debug, Clone, PartialEq, Eq)]
pub struct PageNode {
    pub id: PageId,
    pub name: String,
}

/// One export config in the browser: its id and name.
#[derive(Debug, Clone, PartialEq, Eq)]
pub struct ExportConfigNode {
    pub id: ExportConfigId,
    pub name: String,
}

/// The browser's ordered view of a document: character sets by name, glyph sets
/// with their pages, and export configs.
#[derive(Debug, Clone, PartialEq, Eq)]
pub struct BrowserModel {
    pub character_sets: Vec<String>,
    pub glyph_sets: Vec<GlyphSetNode>,
    pub export_configs: Vec<ExportConfigNode>,
}

/// `node` shows glyph set `gs`: the same id and name, and one node per page with the
/// page's id and name.
pub open spec fn shows_glyph_set(node: GlyphSetNode, gs: GlyphSet) -> bool {
    &&& node.id == gs.id
    &&& node.name == gs.name
    &&& node.pages@.len() == gs.pages@.len()
    &&& forall|k: int|
        0 <= k < gs.pages@.len() ==> (#[trigger] node.pages@[k]).id == gs.pages@[k].id && node.pages@[k].name
            == gs.pages@[k].name
}

fn glyph_set_node(gs: &GlyphSet) -> (node: GlyphSetNode)
    ensures
        shows_glyph_set(node, *gs),
{
    let mut pages: Vec<PageNode> = Vec::new();
    let mut k: usize = 0;
    while k < gs.pages.len()
        invariant
            k <= gs.pages@.len(),
            pages@.len() == k,
            forall|j: int|
                0 <= j < k ==> (#[trigger] pages@[j]).id == gs.pages@[j].id && pages@[j].name == gs.pages@[j].name,
        decreases gs.pages@.len() - k,
    {
        pages.push(PageNode { id: gs.pages[k].id, name: gs.pages[k].name.clone() });
        k = k + 1;
    }
    GlyphSetNode { id: gs.id, name: gs.name.clone(), pages }
}

/// Builds the browser tree for `document` in document order.
pub fn browser_model(document: &FontSpace) -> (m: BrowserModel)
    ensures
        m.character_sets@.len() == document.character_sets@.len(),
        forall|i: int|
            0 <= i < m.character_sets@.len() ==> #[trigger] m.character_sets@[i] == document.character_sets@[i].name,
        m.glyph_sets@.len() == document.glyph_sets@.len(),
        forall|i: int| 0 <= i < m.glyph_sets@.len() ==> shows_glyph_set(#[trigger] m.glyph_sets@[i], document.glyph_sets@[i]),
        m.export_configs@.len() == document.export_configs@.len(),
        forall|i: int|
            0 <= i < m.export_configs@.len() ==> (#[trigger] m.export_configs@[i]).id == document.export_configs@[i].id
                && m.export_configs@[i].name == document.export_configs@[i].name,
{
    let mut character_sets: Vec<String> = Vec::new();
    let mut i: usize = 0;
    while i < document.character_sets.len()
        invariant
            i <= document.character_sets@.len(),
            character_sets@.len() == i,
            forall|j: int| 0 <= j < i ==> #[trigger] character_sets@[j] == document.character_sets@[j].name,
        decreases document.character_sets@.len() - i,
    {
        character_sets.push(document.character_sets[i].name.clone());
        i = i + 1;
    }
    let mut glyph_sets: Vec<GlyphSetNode> = Vec::new();
    let mut i: usize = 0;
    while i < document.glyph_sets.len()
        invariant
            i <= document.glyph_sets@.len(),
            glyph_sets@.len() == i,
            forall|j: int| 0 <= j < i ==> shows_glyph_set(#[trigger] glyph_sets@[j], document.glyph_sets@[j]),
        decreases document.glyph_sets@.len() - i,
    {
        glyph_sets.push(glyph_set_node(&document.glyph_sets[i]));
        i = i + 1;
    }
    let mut export_configs: Vec<ExportConfigNode> = Vec::new();
    let mut i: usize = 0;
    while i < document.export_configs.len()
        invariant
            i <= document.export_configs@.len(),
            export_configs@.len() == i,
            forall|j: int|
                0 <= j < i ==> (#[trigger] export_configs@[j]).id == document.export_configs@[j].id
                    && export_configs@[j].name == document.export_configs@[j].name,
        decreases document.export_configs@.len() - i,
    {
        export_configs.push(
            ExportConfigNode { id: document.export_configs[i].id, name: document.export_configs[i].name.clone() },
        );
        i = i + 1;
    }
    BrowserModel { character_sets, glyph_sets, export_configs }
}

} // verus!
