//! The set of tiled views of the editor window.

use vstd::prelude::*;

verus! {

/// One tiled view.
#[derive(Debug, Clone, Copy, PartialEq, Eq, Hash, Structural)]
pub enum Pane {
    GlyphEditor,
    CharacterSet,
    PageOverview,
    TextPreview,
    ExportConfiguration,
    DocumentBrowser,
    Inspector,
}

/// The tab title of each pane.
pub open spec fn pane_title(pane: Pane) -> Seq<char> {
    match pane {
        Pane::GlyphEditor => "Glyph Editor"@,
        Pane::CharacterSet => "Character Set"@,
        Pane::PageOverview => "Page Overview"@,
        Pane::TextPreview => "Text Preview"@,
        Pane::ExportConfiguration => "Export Configuration"@,
        Pane::DocumentBrowser => "Documents"@,
        Pane::Inspector => "Inspector"@,
    }
}

impl Pane {
    /// The panes the default layout is built from, in a stable order.
    pub fn all() -> (panes: [Pane; 7])
        ensures
            panes@ == seq![
                Pane::DocumentBrowser,
                Pane::GlyphEditor,
                Pane::CharacterSet,
                Pane::PageOverview,
                Pane::TextPreview,
                Pane::ExportConfiguration,
                Pane::Inspector,
            ],
    {
        [
            Pane::DocumentBrowser,
            Pane::GlyphEditor,
            Pane::CharacterSet,
            Pane::PageOverview,
            Pane::TextPreview,
            Pane::ExportConfiguration,
            Pane::Inspector,
        ]
    }

    /// The tab/title text for this pane.
    pub fn title(self) -> (t: &'static str)
        ensures
            t@ == pane_title(self),
    {
        match self {
            Pane::GlyphEditor => "Glyph Editor",
            Pane::CharacterSet => "Character Set",
            Pane::PageOverview => "Page Overview",
            Pane::TextPreview => "Text Preview",
            Pane::ExportConfiguration => "Export Configuration",
            Pane::DocumentBrowser => "Documents",
            Pane::Inspector => "Inspector",
        }
    }
}

/// Every pane has a title that is not empty.
pub proof fn law_titles_are_nonempty(pane: Pane)
    ensures
        pane_title(pane).len() > 0,
{
    reveal_strlit("Glyph Editor");
    reveal_strlit("Character Set");
    reveal_strlit("Page Overview");
    reveal_strlit("Text Preview");
    reveal_strlit("Export Configuration");
    reveal_strlit("Documents");
    reveal_strlit("Inspector");
}

} // verus!
