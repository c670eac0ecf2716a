//! The text preview: sample text mapped to the `code`s rendered with the selected
//! page's glyphs. Each character maps to its Unicode scalar; characters with no
//! character-set entry are dropped, and repeats are kept.

use vstd::prelude::*;

use crate::character_set::CharacterSet;
use crate::text::chars_of;

verus! {

/// The codes of the characters of `text` that have an entry in `cs`, in order.
pub open spec fn preview_code_seq(text: Seq<char>, cs: Option<CharacterSet>) -> Seq<u32>
    decreases text.len(),
{
    if text.len() == 0 {
        Seq::empty()
    } else {
        preview_code_seq(text.drop_last(), cs) + match cs {
            Some(cs) => if cs.codes().contains(text.last() as u32) {
                seq![text.last() as u32]
            } else {
                Seq::empty()
            },
            None => Seq::empty(),
        }
    }
}

/// The ordered codes the preview renders: each character's scalar, keeping only
/// those with a character-set entry. Repeats are preserved.
pub fn preview_codes(text: &str, character_set: Option<&CharacterSet>) -> (codes: Vec<u32>)
    ensures
        codes@ == preview_code_seq(
            text@,
            match character_set {
                Some(cs) => Some(*cs),
                None => None,
            },
        ),
{
    let ghost cs = match character_set {
        Some(cs) => Some(*cs),
        None => None,
    };
    let chars = chars_of(text);
    let mut codes: Vec<u32> = Vec::new();
    let mut i: usize = 0;
    while i < chars.len()
        invariant
            i <= chars@.len(),
            chars@ == text@,
            cs == match character_set {
                Some(c) => Some(*c),
                None => None::<CharacterSet>,
            },
            codes@ == preview_code_seq(chars@.take(i as int), cs),
        decreases chars@.len() - i,
    {
        let code = chars[i] as u32;
        proof {
            assert(chars@.take(i + 1).drop_last() =~= chars@.take(i as int));
        }
        match character_set {
            Some(c) => {
                if c.contains_code(code) {
                    codes.push(code);
                }
            },
            None => {},
        }
        i = i + 1;
    }
    proof {
        assert(chars@.take(chars@.len() as int) =~= chars@);
    }
    codes
}


/// The preview is exactly the text's Unicode scalars, in order and with repeats,
/// filtered by membership in the character set; with no character set it is empty.
pub proof fn law_preview_is_the_covered_scalars(text: Seq<char>, cs: Option<CharacterSet>)
    ensures
        preview_code_seq(text, cs) == match cs {
            Some(c) => text.map_values(|ch: char| ch as u32).filter(|code: u32| c.codes().contains(code)),
            None => Seq::<u32>::empty(),
        },
    decreases text.len(),
{
    reveal(Seq::filter);
    let f = |ch: char| ch as u32;
    if text.len() > 0 {
        law_preview_is_the_covered_scalars(text.drop_last(), cs);
        let m = text.map_values(f);
        assert(m.drop_last() =~= text.drop_last().map_values(f));
        assert(m.last() == text.last() as u32);
        match cs {
            Some(c) => {
                let pred = |code: u32| c.codes().contains(code);
                assert(m.filter(pred) == if pred(m.last()) {
                    m.drop_last().filter(pred).push(m.last())
                } else {
                    m.drop_last().filter(pred)
                });
                assert(preview_code_seq(text, cs) =~= m.filter(pred));
            },
            None => {},
        }
    } else {
        assert(text.map_values(f) =~= Seq::<u32>::empty());
    }
}

} // verus!
