//! Typed 128-bit ids and the injected id source. Ids are never derived from
//! positions or names; new ones come only from an [`IdGen`], which is what makes
//! documents built under [`SequentialIdGen`] reproducible.

use vstd::prelude::*;

use crate::text::{hex, zero_padded};

verus! {

/// The canonical text of a UUID: its 32 lowercase hexadecimal digits, most
/// significant first, grouped 8-4-4-4-12 by hyphens.
pub open spec fn uuid_text(u: u128) -> Seq<char> {
    let h = zero_padded(hex(u as nat, false), 32);
    h.subrange(0, 8) + seq!['-'] + h.subrange(8, 12) + seq!['-'] + h.subrange(12, 16) + seq!['-']
        + h.subrange(16, 20) + seq!['-'] + h.subrange(20, 32)
}

/// The hyphenated text of the UUID `u`, by `uuid::Uuid::hyphenated`'s `Display`:
/// lowercase hex digits grouped 8-4-4-4-12 (the claim of this item).
#[verifier::external_body]
pub(crate) fn uuid_string(u: u128) -> (s: String)
    ensures
        s@ == uuid_text(u),
{
    uuid::Uuid::from_u128(u).hyphenated().to_string()
}

/// The injected source of fresh 128-bit UUID values.
pub trait IdGen {
    /// Whether a call that takes the generator from `before` to `after` may hand out
    /// `id`: each generator says what it promises of the ids it mints.
    spec fn mints(before: &Self, after: &Self, id: u128) -> bool;

    /// The next fresh UUID value.
    fn next_uuid(&mut self) -> (r: u128)
        ensures
            Self::mints(&*old(self), &*final(self), r),
    ;
}

/// `states` runs the generator through minting `ids`, in order: call `i` takes it
/// from `states[i]` to `states[i + 1]` and hands out `ids[i]`.
pub open spec fn mint_trace<G: IdGen>(states: Seq<G>, ids: Seq<u128>) -> bool {
    &&& states.len() == ids.len() + 1
    &&& forall|i: int| 0 <= i < ids.len() ==> G::mints(&states[i], &states[i + 1], #[trigger] ids[i])
}

/// The generator went from `before` to `after` by minting `ids`, in that order.
pub open spec fn mints_all<G: IdGen>(before: G, after: G, ids: Seq<u128>) -> bool {
    exists|states: Seq<G>|
        #[trigger] mint_trace(states, ids) && states[0] == before && states[ids.len() as int] == after
}

/// No draw leaves the generator as it was.
pub proof fn lemma_mints_none<G: IdGen>(g: G)
    ensures
        mints_all(g, g, Seq::empty()),
{
    let states = seq![g];
    assert(mint_trace(states, Seq::<u128>::empty()));
}

/// One more draw extends the record of minted ids.
pub proof fn lemma_mints_step<G: IdGen>(before: G, mid: G, after: G, ids: Seq<u128>, id: u128)
    requires
        mints_all(before, mid, ids),
        G::mints(&mid, &after, id),
    ensures
        mints_all(before, after, ids.push(id)),
{
    let states = choose|states: Seq<G>|
        #[trigger] mint_trace(states, ids) && states[0] == before && states[ids.len() as int] == mid;
    let more = states.push(after);
    let all = ids.push(id);
    assert forall|i: int| 0 <= i < all.len() implies G::mints(&more[i], &more[i + 1], #[trigger] all[i]) by {
        if i < ids.len() {
            assert(all[i] == ids[i]);
            assert(G::mints(&states[i], &states[i + 1], ids[i]));
        }
    }
    assert(mint_trace(more, all));
}

/// `uuid::Uuid::new_v4`: a random version-4 UUID as its 128-bit value. Random, so
/// only what holds of every outcome is claimed: the version nibble is 4 (bits
/// 76..80) and the variant bits are `10` (bits 62..64), so it is never nil.
#[verifier::external_body]
fn random_uuid() -> (r: u128)
    ensures
        (r >> 76u128) & 0xfu128 == 4u128,
        (r >> 62u128) & 3u128 == 2u128,
{
    uuid::Uuid::new_v4().as_u128()
}

/// Production generator: random version-4 UUIDs.
#[derive(Debug, Default, Clone, Copy)]
pub struct RandomIdGen;

impl IdGen for RandomIdGen {
    /// A random version-4 UUID: version nibble 4 and variant bits `10`.
    open spec fn mints(before: &Self, after: &Self, id: u128) -> bool {
        (id >> 76u128) & 0xfu128 == 4u128 && (id >> 62u128) & 3u128 == 2u128
    }

    fn next_uuid(&mut self) -> (r: u128)
        ensures
            (r >> 76u128) & 0xfu128 == 4u128,
            (r >> 62u128) & 3u128 == 2u128,
            r != 0,
    {
        let r = random_uuid();
        assert((r >> 76u128) & 0xfu128 == 4u128 ==> r != 0) by (bit_vector);
        r
    }
}

/// Deterministic generator yielding `…0001`, `…0002`, …; for tests and fixtures.
#[derive(Debug, Clone)]
pub struct SequentialIdGen {
    next: u128,
}

impl SequentialIdGen {
    /// The value the next call to `next_uuid` returns.
    pub closed spec fn upcoming(&self) -> u128 {
        self.next
    }

    /// Starts the sequence at `…0001` (never the nil UUID).
    pub fn new() -> (g: Self)
        ensures
            g.upcoming() == 1,
    {
        SequentialIdGen { next: 1 }
    }
}

impl Default for SequentialIdGen {
    fn default() -> (g: Self)
        ensures
            g.upcoming() == 1,
    {
        Self::new()
    }
}

impl IdGen for SequentialIdGen {
    /// The upcoming value, after which the sequence moves on by one.
    open spec fn mints(before: &Self, after: &Self, id: u128) -> bool {
        id == before.upcoming() && after.upcoming() == before.upcoming().wrapping_add(1)
    }

    fn next_uuid(&mut self) -> (r: u128)
        ensures
            r == old(self).upcoming(),
            final(self).upcoming() == old(self).upcoming().wrapping_add(1),
    {
        let r = self.next;
        self.next = self.next.wrapping_add(1);
        r
    }
}

/// Along a trace of a sequential generator that does not wrap, state `k` is `k`
/// past the start.
proof fn lemma_sequential_trace(states: Seq<SequentialIdGen>, ids: Seq<u128>, k: int)
    requires
        mint_trace(states, ids),
        0 <= k <= ids.len(),
        states[0].upcoming() + ids.len() <= u128::MAX,
    ensures
        forall|i: int| 0 <= i <= k ==> #[trigger] states[i].upcoming() == states[0].upcoming() + i,
    decreases k,
{
    if k > 0 {
        lemma_sequential_trace(states, ids, k - 1);
        assert(SequentialIdGen::mints(&states[k - 1], &states[k], ids[k - 1]));
    }
}

/// A sequential generator hands out consecutive values: minting `n` ids from a
/// generator whose upcoming value is `u` gives `u`, `u + 1`, ..., `u + n - 1` and
/// leaves it at `u + n` (so documents built from a fresh one are reproducible).
pub proof fn law_sequential_ids_count_up(before: SequentialIdGen, after: SequentialIdGen, ids: Seq<u128>)
    requires
        mints_all(before, after, ids),
        before.upcoming() + ids.len() <= u128::MAX,
    ensures
        forall|i: int| 0 <= i < ids.len() ==> #[trigger] ids[i] == before.upcoming() + i,
        after.upcoming() == before.upcoming() + ids.len(),
{
    let states = choose|states: Seq<SequentialIdGen>|
        #[trigger] mint_trace(states, ids) && states[0] == before && states[ids.len() as int] == after;
    lemma_sequential_trace(states, ids, ids.len() as int);
    assert forall|i: int| 0 <= i < ids.len() implies #[trigger] ids[i] == before.upcoming() + i by {
        assert(SequentialIdGen::mints(&states[i], &states[i + 1], ids[i]));
        assert(states[i].upcoming() == states[0].upcoming() + i);
    }
    assert(states[ids.len() as int].upcoming() == states[0].upcoming() + ids.len());
}

/// Identifies a document object.
#[derive(Debug, Clone, Copy, PartialEq, Eq, Hash, Structural)]
pub struct FontSpaceId(pub u128);

/// Identifies a character set within a document.
#[derive(Debug, Clone, Copy, PartialEq, Eq, Hash, Structural)]
pub struct CharacterSetId(pub u128);

/// Identifies a glyph set within a document.
#[derive(Debug, Clone, Copy, PartialEq, Eq, Hash, Structural)]
pub struct GlyphSetId(pub u128);

/// Identifies a page within a glyph set.
#[derive(Debug, Clone, Copy, PartialEq, Eq, Hash, Structural)]
pub struct PageId(pub u128);

/// Identifies a guide on a page.
#[derive(Debug, Clone, Copy, PartialEq, Eq, Hash, Structural)]
pub struct GuideId(pub u128);

/// Identifies an export config within a document.
#[derive(Debug, Clone, Copy, PartialEq, Eq, Hash, Structural)]
pub struct ExportConfigId(pub u128);

/// Identifies an export component within an export config.
#[derive(Debug, Clone, Copy, PartialEq, Eq, Hash, Structural)]
pub struct ExportComponentId(pub u128);

impl FontSpaceId {
    /// Mints a fresh id from the injected generator: the value it hands out.
    pub fn new<G: IdGen>(ids: &mut G) -> (id: Self)
        ensures
            G::mints(&*old(ids), &*final(ids), id.0),
    {
        FontSpaceId(ids.next_uuid())
    }

    /// The underlying UUID value.
    pub fn as_uuid(&self) -> (u: u128)
        ensures
            u == self.0,
    {
        self.0
    }
}

impl CharacterSetId {
    /// Mints a fresh id from the injected generator: the value it hands out.
    pub fn new<G: IdGen>(ids: &mut G) -> (id: Self)
        ensures
            G::mints(&*old(ids), &*final(ids), id.0),
    {
        CharacterSetId(ids.next_uuid())
    }

    /// The underlying UUID value.
    pub fn as_uuid(&self) -> (u: u128)
        ensures
            u == self.0,
    {
        self.0
    }
}

impl GlyphSetId {
    /// Mints a fresh id from the injected generator: the value it hands out.
    pub fn new<G: IdGen>(ids: &mut G) -> (id: Self)
        ensures
            G::mints(&*old(ids), &*final(ids), id.0),
    {
        GlyphSetId(ids.next_uuid())
    }

    /// The underlying UUID value.
    pub fn as_uuid(&self) -> (u: u128)
        ensures
            u == self.0,
    {
        self.0
    }
}

impl PageId {
    /// Mints a fresh id from the injected generator: the value it hands out.
    pub fn new<G: IdGen>(ids: &mut G) -> (id: Self)
        ensures
            G::mints(&*old(ids), &*final(ids), id.0),
    {
        PageId(ids.next_uuid())
    }

    /// The underlying UUID value.
    pub fn as_uuid(&self) -> (u: u128)
        ensures
            u == self.0,
    {
        self.0
    }
}

impl GuideId {
    /// Mints a fresh id from the injected generator: the value it hands out.
    pub fn new<G: IdGen>(ids: &mut G) -> (id: Self)
        ensures
            G::mints(&*old(ids), &*final(ids), id.0),
    {
        GuideId(ids.next_uuid())
    }

    /// The underlying UUID value.
    pub fn as_uuid(&self) -> (u: u128)
        ensures
            u == self.0,
    {
        self.0
    }
}

impl ExportConfigId {
    /// Mints a fresh id from the injected generator: the value it hands out.
    pub fn new<G: IdGen>(ids: &mut G) -> (id: Self)
        ensures
            G::mints(&*old(ids), &*final(ids), id.0),
    {
        ExportConfigId(ids.next_uuid())
    }

    /// The underlying UUID value.
    pub fn as_uuid(&self) -> (u: u128)
        ensures
            u == self.0,
    {
        self.0
    }
}

impl ExportComponentId {
    /// Mints a fresh id from the injected generator: the value it hands out.
    pub fn new<G: IdGen>(ids: &mut G) -> (id: Self)
        ensures
            G::mints(&*old(ids), &*final(ids), id.0),
    {
        ExportComponentId(ids.next_uuid())
    }

    /// The underlying UUID value.
    pub fn as_uuid(&self) -> (u: u128)
        ensures
            u == self.0,
    {
        self.0
    }
}

} // verus!
