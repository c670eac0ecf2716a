//! Argument parsing for the command line: character codes, overflow policies, pixel
//! assignments, and glyph sets named by their unique name.

use vstd::prelude::*;

use crate::bitmap::OverflowPolicy;
use crate::document::FontSpace;
use crate::glyph_set::GlyphSet;
use crate::ids::GlyphSetId;
use crate::pixels::{number_value, parse_number};
use crate::search::{first_index, lemma_first_index_is, lemma_first_index_none, lemma_first_index_props};
use crate::text::{
    ascii_lowercase, chars_eq, chars_of, parse_unsigned, slice_chars, split_chars, split_on, string_of,
    to_ascii_lowercase, trim, trim_chars, unsigned_value,
};

verus! {

/// Why a command-line value could not be parsed or resolved.
#[derive(Debug, PartialEq, Eq)]
pub enum ParseError {
    /// Not a character, a decimal or a `0x` hex code.
    Code(String),
    /// Not `discard` or `wrap`.
    Overflow(String),
    /// Not a known layout.
    Layout(String),
    /// Not `X,Y,VALUE` with VALUE `0`/`1`.
    Pixel(String),
    /// No glyph set has this name.
    GlyphSetNotFound(String),
    /// Several glyph sets have this name.
    AmbiguousGlyphSet { name: String, count: usize },
}

/// A single pixel assignment parsed from `X,Y,VALUE`.
#[derive(Debug, Clone, Copy, PartialEq, Eq, Structural)]
pub struct ParsedPixel {
    pub x: u16,
    pub y: u16,
    pub value: bool,
}

/// What a code token reads as once trimmed: a single non-digit character is its
/// Unicode scalar (`A` is 0x41); otherwise a `0x`/`0X` hex or a decimal number.
pub open spec fn code_token_value(token: Seq<char>) -> Option<u32> {
    let t = trim(token);
    if t.len() == 0 {
        None
    } else if t.len() == 1 && !('0' <= t[0] && t[0] <= '9') {
        Some(t[0] as u32)
    } else {
        number_value(t)
    }
}

/// Parses one code token: a single non-digit character is its Unicode scalar
/// (`A` is 0x41); a `0x`/`0X` prefix is hex; otherwise decimal. The error carries
/// the trimmed token.
pub fn parse_code_token(token: &str) -> (r: Result<u32, ParseError>)
    ensures
        match code_token_value(token@) {
            Some(c) => r == Ok::<u32, ParseError>(c),
            None => (r matches Err(ParseError::Code(t)) && t@ == trim(token@)),
        },
{
    let all = chars_of(token);
    code_of_chars(&all)
}

/// Reads the characters `s` as a code token (see [`code_token_value`]).
fn code_of_chars(s: &Vec<char>) -> (r: Result<u32, ParseError>)
    ensures
        match code_token_value(s@) {
            Some(c) => r == Ok::<u32, ParseError>(c),
            None => (r matches Err(ParseError::Code(t)) && t@ == trim(s@)),
        },
{
    let t = trim_chars(s);
    if t.len() == 0 {
        return Err(ParseError::Code(string_of(&t)));
    }
    if t.len() == 1 && !('0' <= t[0] && t[0] <= '9') {
        return Ok(t[0] as u32);
    }
    match parse_number(&t) {
        Some(c) => Ok(c),
        None => Err(ParseError::Code(string_of(&t))),
    }
}

/// What an overflow policy name reads as, ignoring case and surrounding white
/// space.
pub open spec fn overflow_value(value: Seq<char>) -> Option<OverflowPolicy> {
    let v = ascii_lowercase(trim(value));
    if v == "discard"@ {
        Some(OverflowPolicy::Discard)
    } else if v == "wrap"@ {
        Some(OverflowPolicy::Wrap)
    } else {
        None
    }
}

/// Parses an overflow policy: `discard` or `wrap`, in any case. The error carries
/// the value as given.
pub fn parse_overflow(value: &str) -> (r: Result<OverflowPolicy, ParseError>)
    ensures
        match overflow_value(value@) {
            Some(p) => r == Ok::<OverflowPolicy, ParseError>(p),
            None => (r matches Err(ParseError::Overflow(v)) && v@ == value@),
        },
{
    let all = chars_of(value);
    let t = trim_chars(&all);
    let lower = to_ascii_lowercase(&t);
    if chars_eq(&lower, "discard") {
        Ok(OverflowPolicy::Discard)
    } else if chars_eq(&lower, "wrap") {
        Ok(OverflowPolicy::Wrap)
    } else {
        Err(ParseError::Overflow(value.to_owned()))
    }
}

/// A coordinate of a pixel assignment: a decimal `u16`, white space around it
/// ignored.
pub open spec fn coordinate_value(part: Seq<char>) -> Option<u16> {
    match unsigned_value(trim(part), 10) {
        Some(n) => if n <= u16::MAX {
            Some(n as u16)
        } else {
            None
        },
        None => None,
    }
}

/// The value of a pixel assignment: `1`/`on`/`true` or `0`/`off`/`false`, in any
/// case, white space around it ignored.
pub open spec fn switch_value(part: Seq<char>) -> Option<bool> {
    let v = ascii_lowercase(trim(part));
    if v == "1"@ || v == "on"@ || v == "true"@ {
        Some(true)
    } else if v == "0"@ || v == "off"@ || v == "false"@ {
        Some(false)
    } else {
        None
    }
}

/// What `X,Y,VALUE` reads as: exactly three comma-separated parts, two
/// coordinates and a value.
pub open spec fn pixel_value(token: Seq<char>) -> Option<ParsedPixel> {
    let parts = split_on(token, ',');
    if parts.len() != 3 {
        None
    } else {
        match (coordinate_value(parts[0]), coordinate_value(parts[1]), switch_value(parts[2])) {
            (Some(x), Some(y), Some(value)) => Some(ParsedPixel { x, y, value }),
            _ => None,
        }
    }
}

fn parse_coordinate(part: &Vec<char>) -> (r: Option<u16>)
    ensures
        r == coordinate_value(part@),
{
    let t = trim_chars(part);
    match parse_unsigned(&t, 10, 0xffff) {
        Some(n) => Some(n as u16),
        None => None,
    }
}

fn parse_switch(part: &Vec<char>) -> (r: Option<bool>)
    ensures
        r == switch_value(part@),
{
    let t = trim_chars(part);
    let v = to_ascii_lowercase(&t);
    if chars_eq(&v, "1") || chars_eq(&v, "on") || chars_eq(&v, "true") {
        Some(true)
    } else if chars_eq(&v, "0") || chars_eq(&v, "off") || chars_eq(&v, "false") {
        Some(false)
    } else {
        None
    }
}

/// Parses an `X,Y,VALUE` pixel edit; VALUE is `0`/`1` (or `on`/`off`,
/// `true`/`false`). The error carries the token as given.
pub fn parse_pixel(token: &str) -> (r: Result<ParsedPixel, ParseError>)
    ensures
        match pixel_value(token@) {
            Some(p) => r == Ok::<ParsedPixel, ParseError>(p),
            None => (r matches Err(ParseError::Pixel(t)) && t@ == token@),
        },
{
    let all = chars_of(token);
    let parts = split_chars(&all, ',');
    if parts.len() != 3 {
        return Err(ParseError::Pixel(token.to_owned()));
    }
    let x = parse_coordinate(&parts[0]);
    let y = parse_coordinate(&parts[1]);
    let value = parse_switch(&parts[2]);
    match (x, y, value) {
        (Some(x), Some(y), Some(value)) => Ok(ParsedPixel { x, y, value }),
        _ => Err(ParseError::Pixel(token.to_owned())),
    }
}

/// The ids of the glyph sets named `name`, in document order.
pub open spec fn named_glyph_sets(sets: Seq<GlyphSet>, name: Seq<char>) -> Seq<GlyphSetId>
    decreases sets.len(),
{
    if sets.len() == 0 {
        Seq::empty()
    } else {
        named_glyph_sets(sets.drop_last(), name) + if sets.last().name@ == name {
            seq![sets.last().id]
        } else {
            Seq::empty()
        }
    }
}

/// Resolves a glyph set by its unique name to its id; no match and several
/// matches are errors.
pub fn resolve_glyph_set(doc: &FontSpace, name: &str) -> (r: Result<GlyphSetId, ParseError>)
    ensures
        ({
            let found = named_glyph_sets(doc.glyph_sets@, name@);
            if found.len() == 1 {
                r == Ok::<GlyphSetId, ParseError>(found[0])
            } else if found.len() == 0 {
                r matches Err(ParseError::GlyphSetNotFound(n)) && n@ == name@
            } else {
                r matches Err(ParseError::AmbiguousGlyphSet { name: n, count }) && n@ == name@
                    && count == found.len()
            }
        }),
{
    let wanted = name.to_owned();
    let mut first: Option<GlyphSetId> = None;
    let mut count: usize = 0;
    let mut i: usize = 0;
    while i < doc.glyph_sets.len()
        invariant
            i <= doc.glyph_sets@.len(),
            count == named_glyph_sets(doc.glyph_sets@.take(i as int), name@).len(),
            count <= i,
            count == 0 <==> first is None,
            count > 0 ==> first == Some(named_glyph_sets(doc.glyph_sets@.take(i as int), name@)[0]),
            wanted@ == name@,
        decreases doc.glyph_sets@.len() - i,
    {
        let gs = &doc.glyph_sets[i];
        let ghost before = named_glyph_sets(doc.glyph_sets@.take(i as int), name@);
        proof {
            assert(doc.glyph_sets@.take(i + 1).drop_last() =~= doc.glyph_sets@.take(i as int));
        }
        if gs.name == wanted {
            if count == 0 {
                first = Some(gs.id);
            }
            count = count + 1;
        }
        proof {
            let after = named_glyph_sets(doc.glyph_sets@.take(i + 1), name@);
            if count > 0 {
                assert(after[0] == if before.len() > 0 { before[0] } else { gs.id });
            }
        }
        i = i + 1;
    }
    proof {
        assert(doc.glyph_sets@.take(doc.glyph_sets@.len() as int) =~= doc.glyph_sets@);
    }
    if count == 0 {
        return Err(ParseError::GlyphSetNotFound(name.to_owned()));
    }
    if count > 1 {
        return Err(ParseError::AmbiguousGlyphSet { name: name.to_owned(), count });
    }
    match first {
        Some(id) => Ok(id),
        None => Err(ParseError::GlyphSetNotFound(name.to_owned())),
    }
}

/// Which glyphs of a page a command acts on.
#[derive(Debug, Clone, PartialEq, Eq)]
pub enum GlyphSelector {
    /// Every glyph.
    All,
    /// The glyph with this code.
    Code(u32),
    /// The glyphs with codes from `start` to `end`, both included.
    CodeRangeInclusive { start: u32, end: u32 },
    /// The glyphs with these codes, in this order.
    Codes(Vec<u32>),
}

/// A glyph selector as a mathematical value.
pub enum GlyphSelectorView {
    All,
    Code(u32),
    CodeRangeInclusive(u32, u32),
    Codes(Seq<u32>),
}

impl View for GlyphSelector {
    type V = GlyphSelectorView;

    open spec fn view(&self) -> GlyphSelectorView {
        match self {
            GlyphSelector::All => GlyphSelectorView::All,
            GlyphSelector::Code(c) => GlyphSelectorView::Code(*c),
            GlyphSelector::CodeRangeInclusive { start, end } => GlyphSelectorView::CodeRangeInclusive(*start, *end),
            GlyphSelector::Codes(v) => GlyphSelectorView::Codes(v@),
        }
    }
}

/// Which pages of a glyph set a command acts on.
#[derive(Debug, Clone, PartialEq, Eq)]
pub enum PageSelector {
    /// Every page.
    All,
    /// The page with this name.
    Name(String),
    /// The pages with these names.
    Names(Vec<String>),
}

/// A page selector as a mathematical value.
pub enum PageSelectorView {
    All,
    Name(Seq<char>),
    Names(Seq<Seq<char>>),
}

impl View for PageSelector {
    type V = PageSelectorView;

    open spec fn view(&self) -> PageSelectorView {
        match self {
            PageSelector::All => PageSelectorView::All,
            PageSelector::Name(n) => PageSelectorView::Name(n@),
            PageSelector::Names(v) => PageSelectorView::Names(v@.map_values(|n: String| n@)),
        }
    }
}

/// How a sheet of glyphs is arranged when rendered.
#[derive(Debug, Clone, Copy, PartialEq, Eq, Structural)]
pub enum RenderLayout {
    /// The glyphs of a page side by side.
    GlyphsHorizontal,
    /// The glyphs of a page one above the other.
    GlyphsVertical,
    /// The glyphs of a page in rows of `columns`.
    Grid { columns: usize },
    /// The pages side by side.
    PagesHorizontal,
    /// The pages one above the other.
    PagesVertical,
}

/// A code token's value, or the trimmed token as the error.
pub open spec fn code_or_error(token: Seq<char>) -> Result<u32, Seq<char>> {
    match code_token_value(token) {
        Some(c) => Ok(c),
        None => Err(trim(token)),
    }
}

/// The codes of `tokens` in order, or the first token that is not a code.
pub open spec fn codes_value(tokens: Seq<Seq<char>>) -> Result<Seq<u32>, Seq<char>>
    decreases tokens.len(),
{
    if tokens.len() == 0 {
        Ok(Seq::empty())
    } else {
        match codes_value(tokens.drop_last()) {
            Err(e) => Err(e),
            Ok(v) => match code_or_error(tokens.last()) {
                Ok(c) => Ok(v.push(c)),
                Err(e) => Err(e),
            },
        }
    }
}

/// What a glyph selector reads as once trimmed: `all` in any case; a comma list
/// of codes; `START-END` split at the first `-`; or a single code. The error is
/// the first token that is not a code, trimmed.
pub open spec fn glyph_selector_value(spec: Seq<char>) -> Result<GlyphSelectorView, Seq<char>> {
    let t = trim(spec);
    if ascii_lowercase(t) == "all"@ {
        Ok(GlyphSelectorView::All)
    } else if t.contains(',') {
        match codes_value(split_on(t, ',')) {
            Ok(v) => Ok(GlyphSelectorView::Codes(v)),
            Err(e) => Err(e),
        }
    } else {
        match first_index(t, '-') {
            Some(k) => match code_or_error(t.take(k)) {
                Err(e) => Err(e),
                Ok(start) => match code_or_error(t.skip(k + 1)) {
                    Err(e) => Err(e),
                    Ok(end) => Ok(GlyphSelectorView::CodeRangeInclusive(start, end)),
                },
            },
            None => match code_or_error(t) {
                Ok(c) => Ok(GlyphSelectorView::Code(c)),
                Err(e) => Err(e),
            },
        }
    }
}

/// Whether `s` holds `c`.
fn has_char(s: &Vec<char>, c: char) -> (r: bool)
    ensures
        r == s@.contains(c),
{
    let mut i: usize = 0;
    while i < s.len()
        invariant
            i <= s@.len(),
            forall|j: int| 0 <= j < i ==> s@[j] != c,
        decreases s@.len() - i,
    {
        if s[i] == c {
            proof {
                assert(s@[i as int] == c);
            }
            return true;
        }
        i = i + 1;
    }
    false
}

/// The position of the first `c` in `s`.
fn find_char(s: &Vec<char>, c: char) -> (r: Option<usize>)
    ensures
        match first_index(s@, c) {
            Some(k) => r matches Some(j) && j as int == k,
            None => r is None,
        },
{
    let mut i: usize = 0;
    while i < s.len()
        invariant
            i <= s@.len(),
            forall|j: int| 0 <= j < i ==> s@[j] != c,
        decreases s@.len() - i,
    {
        if s[i] == c {
            proof {
                lemma_first_index_is(s@, c, i as int);
            }
            return Some(i);
        }
        i = i + 1;
    }
    proof {
        lemma_first_index_none(s@, c);
    }
    None
}

/// Parses a glyph selector (see [`glyph_selector_value`]): `all`, a `START-END`
/// range, a comma list of codes, or a single code, each code a character, a
/// decimal or a `0x` hex number.
#[verifier::spinoff_prover]
pub fn parse_glyph_selector(spec: &str) -> (r: Result<GlyphSelector, ParseError>)
    ensures
        match glyph_selector_value(spec@) {
            Ok(v) => r matches Ok(sel) && sel@ == v,
            Err(t) => r matches Err(ParseError::Code(e)) && e@ == t,
        },
{
    let all = chars_of(spec);
    let t = trim_chars(&all);
    let lower = to_ascii_lowercase(&t);
    if chars_eq(&lower, "all") {
        return Ok(GlyphSelector::All);
    }
    if has_char(&t, ',') {
        let parts = split_chars(&t, ',');
        let ghost tokens = split_on(t@, ',');
        let mut codes: Vec<u32> = Vec::new();
        let mut i: usize = 0;
        while i < parts.len()
            invariant
                i <= parts@.len(),
                parts@.len() == tokens.len(),
                forall|k: int| 0 <= k < parts@.len() ==> #[trigger] parts@[k]@ == tokens[k],
                codes_value(tokens.take(i as int)) == Ok::<Seq<u32>, Seq<char>>(codes@),
                tokens == split_on(t@, ','),
                t@ == trim(spec@),
                ascii_lowercase(t@) != "all"@,
                t@.contains(','),
            decreases parts@.len() - i,
        {
            proof {
                assert(tokens.take(i + 1).drop_last() =~= tokens.take(i as int));
                assert(tokens.take(i + 1).last() == parts@[i as int]@);
            }
            match code_of_chars(&parts[i]) {
                Ok(c) => codes.push(c),
                Err(e) => {
                    proof {
                        lemma_codes_value_stops(tokens, i as int);
                    }
                    return Err(e);
                },
            }
            i = i + 1;
        }
        proof {
            assert(tokens.take(parts@.len() as int) =~= tokens);
        }
        return Ok(GlyphSelector::Codes(codes));
    }
    match find_char(&t, '-') {
        Some(k) => {
            proof {
                lemma_first_index_props(t@, '-');
                assert(k < t.len());
            }
            let first = slice_chars(&t, 0, k);
            let second = slice_chars(&t, k + 1, t.len());
            proof {
                assert(first@ =~= t@.take(k as int));
                assert(second@ =~= t@.skip(k + 1));
            }
            let start = match code_of_chars(&first) {
                Ok(c) => c,
                Err(e) => return Err(e),
            };
            let end = match code_of_chars(&second) {
                Ok(c) => c,
                Err(e) => return Err(e),
            };
            Ok(GlyphSelector::CodeRangeInclusive { start, end })
        },
        None => match code_of_chars(&t) {
            Ok(c) => Ok(GlyphSelector::Code(c)),
            Err(e) => Err(e),
        },
    }
}

/// Once a prefix of codes has read, the first bad token decides the error.
proof fn lemma_codes_value_stops(tokens: Seq<Seq<char>>, i: int)
    requires
        0 <= i < tokens.len(),
        codes_value(tokens.take(i)) is Ok,
        code_or_error(tokens[i]) is Err,
    ensures
        codes_value(tokens) == Err::<Seq<u32>, Seq<char>>(code_or_error(tokens[i])->Err_0),
    decreases tokens.len(),
{
    if i == tokens.len() - 1 {
        assert(tokens.drop_last() =~= tokens.take(i));
    } else {
        assert(tokens.drop_last().take(i) =~= tokens.take(i));
        lemma_codes_value_stops(tokens.drop_last(), i);
    }
}

/// What a page selector reads as once trimmed: `all` in any case, else the
/// comma-separated names, each trimmed; one name alone is a single name.
pub open spec fn page_selector_value(spec: Seq<char>) -> PageSelectorView {
    let t = trim(spec);
    if ascii_lowercase(t) == "all"@ {
        PageSelectorView::All
    } else {
        let names = split_on(t, ',').map_values(|p: Seq<char>| trim(p));
        if names.len() == 1 {
            PageSelectorView::Name(names[0])
        } else {
            PageSelectorView::Names(names)
        }
    }
}

/// Parses a page selector: `all`, or a comma list of page names.
pub fn parse_page_selector(spec: &str) -> (r: PageSelector)
    ensures
        r@ == page_selector_value(spec@),
{
    let all = chars_of(spec);
    let t = trim_chars(&all);
    let lower = to_ascii_lowercase(&t);
    if chars_eq(&lower, "all") {
        return PageSelector::All;
    }
    let parts = split_chars(&t, ',');
    let ghost names = split_on(t@, ',').map_values(|p: Seq<char>| trim(p));
    if parts.len() == 1 {
        let single = trim_chars(&parts[0]);
        return PageSelector::Name(string_of(&single));
    }
    let mut out: Vec<String> = Vec::new();
    let mut i: usize = 0;
    while i < parts.len()
        invariant
            i <= parts@.len(),
            parts@.len() == names.len(),
            forall|k: int| 0 <= k < parts@.len() ==> #[trigger] trim(parts@[k]@) == names[k],
            out@.len() == i,
            forall|k: int| 0 <= k < i ==> #[trigger] out@[k]@ == names[k],
        decreases parts@.len() - i,
    {
        let name = trim_chars(&parts[i]);
        out.push(string_of(&name));
        i = i + 1;
    }
    proof {
        assert(out@.map_values(|n: String| n@) =~= names);
    }
    PageSelector::Names(out)
}

/// What a render layout name reads as once trimmed and lowered: `grid:N` with a
/// decimal column count, or one of the four fixed layouts; the error is the
/// trimmed, lowered value.
pub open spec fn layout_value(value: Seq<char>) -> Result<RenderLayout, Seq<char>> {
    let v = ascii_lowercase(trim(value));
    if v.len() >= 5 && v.take(5) == "grid:"@ {
        match unsigned_value(v.skip(5), 10) {
            Some(n) => if n <= usize::MAX {
                Ok(RenderLayout::Grid { columns: n as usize })
            } else {
                Err(v)
            },
            None => Err(v),
        }
    } else if v == "glyphs-horizontal"@ {
        Ok(RenderLayout::GlyphsHorizontal)
    } else if v == "glyphs-vertical"@ {
        Ok(RenderLayout::GlyphsVertical)
    } else if v == "pages-horizontal"@ {
        Ok(RenderLayout::PagesHorizontal)
    } else if v == "pages-vertical"@ {
        Ok(RenderLayout::PagesVertical)
    } else {
        Err(v)
    }
}

/// Parses a render layout: `glyphs-horizontal`, `glyphs-vertical`, `grid:N`,
/// `pages-horizontal` or `pages-vertical`, in any case.
pub fn parse_layout(value: &str) -> (r: Result<RenderLayout, ParseError>)
    ensures
        match layout_value(value@) {
            Ok(l) => r == Ok::<RenderLayout, ParseError>(l),
            Err(v) => r matches Err(ParseError::Layout(e)) && e@ == v,
        },
{
    let all = chars_of(value);
    let t = trim_chars(&all);
    let v = to_ascii_lowercase(&t);
    let head = if v.len() >= 5 {
        slice_chars(&v, 0, 5)
    } else {
        Vec::new()
    };
    proof {
        reveal_strlit("grid:");
        if v@.len() >= 5 {
            assert(head@ =~= v@.take(5));
        } else {
            assert(head@.len() == 0);
        }
    }
    if v.len() >= 5 && chars_eq(&head, "grid:") {
        let digits = slice_chars(&v, 5, v.len());
        proof {
            assert(digits@ =~= v@.skip(5));
        }
        return match parse_unsigned(&digits, 10, usize::MAX as u64) {
            Some(n) => Ok(RenderLayout::Grid { columns: n as usize }),
            None => Err(ParseError::Layout(string_of(&v))),
        };
    }
    if chars_eq(&v, "glyphs-horizontal") {
        Ok(RenderLayout::GlyphsHorizontal)
    } else if chars_eq(&v, "glyphs-vertical") {
        Ok(RenderLayout::GlyphsVertical)
    } else if chars_eq(&v, "pages-horizontal") {
        Ok(RenderLayout::PagesHorizontal)
    } else if chars_eq(&v, "pages-vertical") {
        Ok(RenderLayout::PagesVertical)
    } else {
        Err(ParseError::Layout(string_of(&v)))
    }
}


proof fn lemma_switch_words(part: Seq<char>)
    ensures
        ({
            let v = ascii_lowercase(trim(part));
            &&& (v == "1"@ || v == "on"@ || v == "true"@) ==> switch_value(part) == Some(true)
            &&& (v == "0"@ || v == "off"@ || v == "false"@) ==> switch_value(part) == Some(false)
            &&& !(v == "1"@ || v == "on"@ || v == "true"@ || v == "0"@ || v == "off"@ || v == "false"@) ==> switch_value(
                part,
            ) is None
        }),
{
    reveal_strlit("1");
    reveal_strlit("on");
    reveal_strlit("true");
    reveal_strlit("0");
    reveal_strlit("off");
    reveal_strlit("false");
    assert("0"@[0] != "1"@[0]);
    assert("off"@[1] != "on"@[1]);
    assert("0"@.len() != "on"@.len() && "0"@.len() != "true"@.len());
    assert("off"@.len() != "1"@.len() && "off"@.len() != "true"@.len());
    assert("false"@.len() != "1"@.len() && "false"@.len() != "on"@.len() && "false"@.len() != "true"@.len());
}

/// The words of a pixel value read as their meaning, in any case and with white
/// space around them: `1`, `on`, `true` switch the pixel on; `0`, `off`, `false`
/// switch it off; nothing else is a pixel value. A parsed `X,Y,VALUE` carries the
/// value its third part names.
pub proof fn law_pixel_value_words(part: Seq<char>, token: Seq<char>)
    ensures
        ({
            let v = ascii_lowercase(trim(part));
            &&& (v == "1"@ || v == "on"@ || v == "true"@) ==> switch_value(part) == Some(true)
            &&& (v == "0"@ || v == "off"@ || v == "false"@) ==> switch_value(part) == Some(false)
            &&& !(v == "1"@ || v == "on"@ || v == "true"@ || v == "0"@ || v == "off"@ || v == "false"@) ==> switch_value(
                part,
            ) is None
        }),
        pixel_value(token) matches Some(p) ==> {
            let v = ascii_lowercase(trim(split_on(token, ',')[2]));
            &&& p.value <==> (v == "1"@ || v == "on"@ || v == "true"@)
            &&& !p.value <==> (v == "0"@ || v == "off"@ || v == "false"@)
        },
{
    lemma_switch_words(part);
    if split_on(token, ',').len() == 3 {
        lemma_switch_words(split_on(token, ',')[2]);
    }
}

} // verus!
