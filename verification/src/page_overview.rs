//! The page overview: every glyph of the selected page as a grid of thumbnails, in
//! the character set's order, with glyphs stored for codes that have no entry
//! (dangling glyphs) appended and flagged.

use vstd::prelude::*;

use crate::character_set::CharacterSet;
use crate::glyph_set::GlyphPage;
use crate::search::{ascending_u32, first_index, lemma_first_index_props, sorted_u32};

verus! {

/// The inclusive run of `ordered` between the positions of `a` and `b` (in either
/// order), or nothing when either is absent.
pub open spec fn codes_between_spec(ordered: Seq<u32>, a: u32, b: u32) -> Seq<u32> {
    match (first_index(ordered, a), first_index(ordered, b)) {
        (Some(i), Some(j)) => if i <= j {
            ordered.subrange(i, j + 1)
        } else {
            ordered.subrange(j, i + 1)
        },
        _ => Seq::empty(),
    }
}

/// The run between two codes does not depend on the drag direction.
pub proof fn law_codes_between_is_order_independent(ordered: Seq<u32>, a: u32, b: u32)
    ensures
        codes_between_spec(ordered, a, b) == codes_between_spec(ordered, b, a),
{
    if let (Some(i), Some(j)) = (first_index(ordered, a), first_index(ordered, b)) {
        if i == j {
            assert(ordered.subrange(i, j + 1) =~= ordered.subrange(j, i + 1));
        }
    }
}

/// The run between two present codes starts and ends at them and lies within
/// the order: it runs from the earlier of the two to the later, both included.
pub proof fn law_codes_between_spans_both_ends(ordered: Seq<u32>, a: u32, b: u32)
    requires
        ordered.contains(a),
        ordered.contains(b),
    ensures
        ({
            let run = codes_between_spec(ordered, a, b);
            &&& run.len() >= 1
            &&& run.contains(a)
            &&& run.contains(b)
            &&& (run[0] == a || run[0] == b)
            &&& (run.last() == a || run.last() == b)
        }),
{
    lemma_first_index_props(ordered, a);
    lemma_first_index_props(ordered, b);
    let ia = choose|k: int| 0 <= k < ordered.len() && ordered[k] == a;
    let ib = choose|k: int| 0 <= k < ordered.len() && ordered[k] == b;
    assert(first_index(ordered, a) is Some) by {
        assert(ordered[ia] == a);
    }
    assert(first_index(ordered, b) is Some) by {
        assert(ordered[ib] == b);
    }
    let i = first_index(ordered, a)->0;
    let j = first_index(ordered, b)->0;
    let run = codes_between_spec(ordered, a, b);
    if i <= j {
        assert(run[0] == a && run[j - i] == b);
    } else {
        assert(run[0] == b && run[i - j] == a);
    }
}

fn position_of(ordered: &[u32], code: u32) -> (r: Option<usize>)
    ensures
        r matches Some(p) ==> first_index(ordered@, code) == Some(p as int),
        r is None ==> first_index(ordered@, code) is None,
{
    let mut i: usize = 0;
    while i < ordered.len()
        invariant
            i <= ordered@.len(),
            forall|j: int| 0 <= j < i ==> ordered@[j] != code,
        decreases ordered@.len() - i,
    {
        if ordered[i] == code {
            proof {
                crate::search::lemma_first_index_is(ordered@, code, i as int);
            }
            return Some(i);
        }
        i = i + 1;
    }
    proof {
        crate::search::lemma_first_index_none(ordered@, code);
    }
    None
}

/// The inclusive slice of `ordered` codes between `a` and `b` (in either drag
/// order), in display order. Empty when either endpoint is absent, so a stale
/// anchor never yields a bogus range.
pub fn codes_between(ordered: &[u32], a: u32, b: u32) -> (r: Vec<u32>)
    ensures
        r@ == codes_between_spec(ordered@, a, b),
{
    proof {
        lemma_first_index_props(ordered@, a);
        lemma_first_index_props(ordered@, b);
    }
    let ia = position_of(ordered, a);
    let ib = position_of(ordered, b);
    if ia.is_none() || ib.is_none() {
        return Vec::new();
    }
    match (ia, ib) {
        (Some(i), Some(j)) => {
            let (lo, hi) = if i <= j {
                (i, j)
            } else {
                (j, i)
            };
            let mut r: Vec<u32> = Vec::new();
            let mut k: usize = lo;
            while k <= hi
                invariant
                    lo <= k <= hi + 1,
                    hi < ordered@.len(),
                    r@ == ordered@.subrange(lo as int, k as int),
                decreases hi + 1 - k,
            {
                r.push(ordered[k]);
                proof {
                    assert(r@ =~= ordered@.subrange(lo as int, k + 1));
                }
                k = k + 1;
            }
            proof {
                assert(first_index(ordered@, a) == Some(i as int));
                assert(first_index(ordered@, b) == Some(j as int));
            }
            r
        },
        _ => Vec::new(),
    }
}

/// One overview cell: a `code`, whether it has a character-set entry (`false` marks
/// a dangling glyph), and whether a glyph is stored for it on the page.
#[derive(Debug, Clone, Copy, PartialEq, Eq, Structural)]
pub struct OverviewEntry {
    pub code: u32,
    pub in_character_set: bool,
    pub has_glyph: bool,
}

/// The page's glyph codes that have no entry in `cs` (all of them when there is no
/// character set), in page order.
pub open spec fn dangling_codes(cs: Option<CharacterSet>, page_codes: Seq<u32>) -> Seq<u32>
    decreases page_codes.len(),
{
    if page_codes.len() == 0 {
        Seq::empty()
    } else {
        dangling_codes(cs, page_codes.drop_last()) + match cs {
            Some(cs) => if cs.codes().contains(page_codes.last()) {
                Seq::empty()
            } else {
                seq![page_codes.last()]
            },
            None => seq![page_codes.last()],
        }
    }
}

/// The overview cell of character-set entry `code`.
pub open spec fn entry_cell(page: GlyphPage, code: u32) -> OverviewEntry {
    OverviewEntry { code, in_character_set: true, has_glyph: first_index(page.codes(), code) is Some }
}

/// The ordered overview entries for a page: the character set's entries in order,
/// then the dangling glyph codes in ascending order.
pub fn overview_entries(character_set: Option<&CharacterSet>, page: &GlyphPage) -> (entries: Vec<OverviewEntry>)
    ensures
        ({
            let cs = match character_set {
                Some(c) => Some(*c),
                None => None,
            };
            let n = match cs {
                Some(c) => c.entries@.len(),
                None => 0,
            };
            let dangling = entries@.subrange(n as int, entries@.len() as int).map_values(|e: OverviewEntry| e.code);
            &&& n <= entries@.len()
            &&& forall|i: int| 0 <= i < n ==> #[trigger] entries@[i] == entry_cell(*page, cs->0.entries@[i].code)
            &&& forall|i: int| n <= i < entries@.len() ==> !(#[trigger] entries@[i]).in_character_set && entries@[i].has_glyph
            &&& ascending_u32(dangling)
            &&& dangling.to_multiset() == dangling_codes(cs, page.codes()).to_multiset()
        }),
{
    let ghost cs = match character_set {
        Some(c) => Some(*c),
        None => None::<CharacterSet>,
    };
    let mut entries: Vec<OverviewEntry> = Vec::new();
    let ghost n: nat = 0;
    match character_set {
        Some(c) => {
            let mut i: usize = 0;
            while i < c.entries.len()
                invariant
                    i <= c.entries@.len(),
                    entries@.len() == i,
                    forall|k: int| 0 <= k < i ==> #[trigger] entries@[k] == entry_cell(*page, c.entries@[k].code),
                decreases c.entries@.len() - i,
            {
                let code = c.entries[i].code;
                let found = page.glyph_by_code(code);
                proof {
                    lemma_first_index_props(page.codes(), code);
                }
                entries.push(OverviewEntry { code, in_character_set: true, has_glyph: found.is_some() });
                i = i + 1;
            }
            proof {
                n = c.entries@.len();
            }
        },
        None => {},
    }
    let mut dangling: Vec<u32> = Vec::new();
    let mut g: usize = 0;
    while g < page.glyphs.len()
        invariant
            g <= page.glyphs@.len(),
            cs == match character_set {
                Some(c) => Some(*c),
                None => None::<CharacterSet>,
            },
            dangling@ == dangling_codes(cs, page.codes().take(g as int)),
        decreases page.glyphs@.len() - g,
    {
        let code = page.glyphs[g].code;
        proof {
            assert(page.codes().take(g + 1).drop_last() =~= page.codes().take(g as int));
        }
        let keep = match character_set {
            Some(c) => !c.contains_code(code),
            None => true,
        };
        if keep {
            dangling.push(code);
        }
        g = g + 1;
    }
    proof {
        assert(page.codes().take(page.glyphs@.len() as int) =~= page.codes());
    }
    let sorted = sorted_u32(&dangling);
    let ghost start = entries@;
    let mut k: usize = 0;
    while k < sorted.len()
        invariant
            k <= sorted@.len(),
            entries@.len() == start.len() + k,
            forall|i: int| 0 <= i < start.len() ==> entries@[i] == start[i],
            forall|i: int| 0 <= i < k ==> #[trigger] entries@[start.len() + i] == (OverviewEntry {
                code: sorted@[i],
                in_character_set: false,
                has_glyph: true,
            }),
        decreases sorted@.len() - k,
    {
        entries.push(OverviewEntry { code: sorted[k], in_character_set: false, has_glyph: true });
        k = k + 1;
    }
    proof {
        let d = entries@.subrange(n as int, entries@.len() as int).map_values(|e: OverviewEntry| e.code);
        assert(start.len() == n);
        assert(n == match cs {
            Some(c) => c.entries@.len(),
            None => 0,
        });
        assert forall|i: int| 0 <= i < n implies #[trigger] entries@[i] == entry_cell(*page, cs->0.entries@[i].code) by {
            assert(entries@[i] == start[i]);
        }
        assert forall|i: int| 0 <= i < d.len() implies d[i] == sorted@[i] by {
            assert(entries@[start.len() + i].code == sorted@[i]);
        }
        assert(d =~= sorted@);
        assert forall|i: int| n <= i < entries@.len() implies !(#[trigger] entries@[i]).in_character_set
            && entries@[i].has_glyph by {
            assert(entries@[start.len() + (i - start.len())] == entries@[i]);
        }
    }
    entries
}

} // verus!
