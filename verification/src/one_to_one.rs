//! What strict 1:1 validation guarantees: for a config that [`validate_export`]
//! accepts, distinct ROM addresses decode to distinct glyph lines, every line of
//! every addressable glyph has an address, and the data bits of a word read each
//! pixel of the scanned line exactly once, so every glyph pixel lands in exactly
//! one ROM bit.
//!
//! [`validate_export`]: crate::export::validate_export

use vstd::arithmetic::power2::{lemma2_to64, lemma_pow2_pos, lemma_pow2_strictly_increases, lemma_pow2_unfold, pow2};
use vstd::prelude::*;
use vstd::set_lib::{lemma_int_range, lemma_len_subset, lemma_subset_equality, set_int_range};

use crate::export::{
    address_line, contiguous, data_bit_ok, data_pixel_coord_spec, decode_prefix, decode_spec,
    dim_bit, dim_bits, export_check, is_plain, law_word_bits_are_data_bits, lemma_validated_shape,
    output_word_spec, scan_spec, selected_bitmap, set_bit_if, AddressedCoords, Dimension, ScanDirection,
};
use crate::export_config::{AddressBitSource, CoordinateExpr, ExportConfig, OutputBitSource};
use crate::glyph_set::GlyphSet;
use crate::limits::Limits;

verus! {

/// Bit `n` of `f`.
pub open spec fn bit32(f: u32, n: int) -> bool {
    (f >> (n as u32)) & 1u32 == 1u32
}

/// The field of `c` that dimension `d` addresses.
pub open spec fn field(c: AddressedCoords, d: Dimension) -> u32 {
    match d {
        Dimension::Code => c.code,
        Dimension::Page => c.page,
        Dimension::PixelX => c.x,
        Dimension::PixelY => c.y,
    }
}

/// Whether one of the first `k` address lines is bit `n` of dimension `d` and is
/// high in `address`.
pub open spec fn set_by(bits: Seq<AddressBitSource>, address: u64, k: int, d: Dimension, n: int) -> bool
    decreases k,
{
    if k <= 0 {
        false
    } else {
        set_by(bits, address, k - 1, d, n) || (dim_bit(bits[k - 1], d) == Some(n as u8) && address_line(
            address,
            k - 1,
        ))
    }
}

proof fn lemma_or_bit(f: u32, m: u32, n: u32)
    by (bit_vector)
    requires
        m < 32,
        n < 32,
    ensures
        ((f | (1u32 << m)) >> n) & 1u32 == 1u32 <==> (n == m || (f >> n) & 1u32 == 1u32),
{
}

proof fn lemma_zero_bit(n: u32)
    by (bit_vector)
    requires
        n < 32,
    ensures
        (0u32 >> n) & 1u32 != 1u32,
{
}

/// Bit `n` of a decoded field is set exactly when some plain line carrying that
/// bit is high.
proof fn lemma_decoded_bit(bits: Seq<AddressBitSource>, address: u64, k: int, d: Dimension, n: int)
    requires
        0 <= k <= bits.len(),
        0 <= n < 32,
        forall|l: int| 0 <= l < k ==> is_plain(#[trigger] bits[l]),
    ensures
        bit32(field(decode_prefix(bits, address, k), d), n) == set_by(bits, address, k, d, n),
    decreases k,
{
    if k <= 0 {
        lemma_zero_bit(n as u32);
    } else {
        lemma_decoded_bit(bits, address, k - 1, d, n);
        let b = bits[k - 1];
        let raw = address_line(address, k - 1);
        let prev = decode_prefix(bits, address, k - 1);
        assert(is_plain(bits[k - 1]));
        let m: u8 = match b {
            AddressBitSource::CodeBit(m) => m,
            AddressBitSource::PageBit(m) => m,
            AddressBitSource::PixelXBit(m) => m,
            AddressBitSource::PixelYBit(m) => m,
            _ => 0,
        };
        let f = field(prev, d);
        if dim_bit(b, d) is Some {
            assert(field(decode_prefix(bits, address, k), d) == set_bit_if(f, m, raw));
            if raw && m < 32 {
                lemma_or_bit(f, m as u32, n as u32);
            }
        } else {
            assert(field(decode_prefix(bits, address, k), d) == f);
        }
    }
}

/// `set_by` holds exactly when some earlier line is that bit and is high.
proof fn lemma_set_by_witness(bits: Seq<AddressBitSource>, address: u64, k: int, d: Dimension, n: int)
    requires
        0 <= k <= bits.len(),
    ensures
        set_by(bits, address, k, d, n) <==> exists|l: int|
            0 <= l < k && #[trigger] dim_bit(bits[l], d) == Some(n as u8) && address_line(address, l),
    decreases k,
{
    if k > 0 {
        lemma_set_by_witness(bits, address, k - 1, d, n);
        if dim_bit(bits[k - 1], d) == Some(n as u8) && address_line(address, k - 1) {
            assert(dim_bit(bits[k - 1], d) == Some(n as u8));
        }
    }
}

/// The lines before `l` contribute a prefix of a dimension's bit list, and line
/// `l` appends its own bit.
proof fn lemma_dim_bits_step(bits: Seq<AddressBitSource>, d: Dimension, l: int)
    requires
        0 <= l < bits.len(),
    ensures
        dim_bits(bits.take(l + 1), d) == dim_bits(bits.take(l), d) + match dim_bit(bits[l], d) {
            Some(n) => seq![n],
            None => Seq::empty(),
        },
{
    assert(bits.take(l + 1).drop_last() =~= bits.take(l));
    assert(bits.take(l + 1).last() == bits[l]);
}

proof fn lemma_dim_bits_prefix(bits: Seq<AddressBitSource>, d: Dimension, m: int, n: int)
    requires
        0 <= m <= n <= bits.len(),
    ensures
        dim_bits(bits.take(m), d).len() <= dim_bits(bits.take(n), d).len(),
        dim_bits(bits.take(n), d).subrange(0, dim_bits(bits.take(m), d).len() as int) == dim_bits(bits.take(m), d),
    decreases n - m,
{
    if n == m {
        assert(dim_bits(bits.take(n), d).subrange(0, dim_bits(bits.take(m), d).len() as int) =~= dim_bits(
            bits.take(m),
            d,
        ));
    } else {
        lemma_dim_bits_prefix(bits, d, m, n - 1);
        lemma_dim_bits_step(bits, d, n - 1);
        let a = dim_bits(bits.take(m), d);
        let b = dim_bits(bits.take(n - 1), d);
        let c = dim_bits(bits.take(n), d);
        assert(c.subrange(0, a.len() as int) =~= b.subrange(0, a.len() as int));
    }
}

/// Line `l`'s bit sits in the dimension's bit list at the number of earlier lines
/// of that dimension.
proof fn lemma_line_in_dim_bits(bits: Seq<AddressBitSource>, d: Dimension, l: int, v: u8)
    requires
        0 <= l < bits.len(),
        dim_bit(bits[l], d) == Some(v),
    ensures
        dim_bits(bits.take(l), d).len() < dim_bits(bits, d).len(),
        dim_bits(bits, d)[dim_bits(bits.take(l), d).len() as int] == v,
{
    lemma_dim_bits_step(bits, d, l);
    lemma_dim_bits_prefix(bits, d, l + 1, bits.len() as int);
    assert(bits.take(bits.len() as int) =~= bits);
    let p = dim_bits(bits.take(l), d).len() as int;
    assert(dim_bits(bits.take(l + 1), d)[p] == v);
    assert(dim_bits(bits, d).subrange(0, p + 1)[p] == v);
}

/// With a dimension's bits exactly `0..n`, two lines of that dimension carry
/// different bits, each below `n`.
proof fn lemma_dim_lines_distinct(bits: Seq<AddressBitSource>, d: Dimension, l1: int, l2: int, v1: u8, v2: u8)
    requires
        contiguous(dim_bits(bits, d)),
        0 <= l1 < l2 < bits.len(),
        dim_bit(bits[l1], d) == Some(v1),
        dim_bit(bits[l2], d) == Some(v2),
    ensures
        v1 != v2,
{
    lemma_line_in_dim_bits(bits, d, l1, v1);
    lemma_line_in_dim_bits(bits, d, l2, v2);
    lemma_dim_bits_step(bits, d, l1);
    lemma_dim_bits_prefix(bits, d, l1 + 1, l2);
}

/// With a dimension's bits exactly `0..n`, each line of it carries a bit below `n`.
proof fn lemma_dim_line_in_range(bits: Seq<AddressBitSource>, d: Dimension, l: int, v: u8)
    requires
        contiguous(dim_bits(bits, d)),
        0 <= l < bits.len(),
        dim_bit(bits[l], d) == Some(v),
    ensures
        (v as int) < dim_bits(bits, d).len(),
{
    lemma_line_in_dim_bits(bits, d, l, v);
}

/// Every bit in a dimension's list comes from some line.
proof fn lemma_dim_bit_has_line(bits: Seq<AddressBitSource>, d: Dimension, i: int)
    requires
        0 <= i < dim_bits(bits, d).len(),
    ensures
        exists|l: int| 0 <= l < bits.len() && #[trigger] dim_bit(bits[l], d) == Some(dim_bits(bits, d)[i]),
    decreases bits.len(),
{
    let prefix = bits.drop_last();
    let ns = dim_bits(bits, d);
    if i < dim_bits(prefix, d).len() {
        lemma_dim_bit_has_line(prefix, d, i);
        let l = choose|l: int| 0 <= l < prefix.len() && #[trigger] dim_bit(prefix[l], d) == Some(dim_bits(prefix, d)[i]);
        assert(bits[l] == prefix[l]);
        assert(ns[i] == dim_bits(prefix, d)[i]);
    } else {
        let l = bits.len() - 1;
        assert(dim_bit(bits[l], d) == Some(ns[i]));
    }
}

/// `n` distinct values below `n` take every value below `n`.
proof fn lemma_distinct_cover(s: Seq<int>, v: int)
    requires
        forall|i: int| 0 <= i < s.len() ==> 0 <= #[trigger] s[i] < s.len(),
        forall|i: int, j: int| 0 <= i < j < s.len() ==> s[i] != s[j],
        0 <= v < s.len(),
    ensures
        exists|i: int| 0 <= i < s.len() && s[i] == v,
{
    assert(s.no_duplicates()) by {
        assert forall|i: int, j: int| 0 <= i < s.len() && 0 <= j < s.len() && i != j implies s[i] != s[j] by {
            if j < i {
                assert(s[j] != s[i]);
            }
        }
    }
    s.unique_seq_to_set();
    let range = set_int_range(0, s.len() as int);
    lemma_int_range(0, s.len() as int);
    assert(s.to_set().subset_of(range)) by {
        assert forall|x: int| s.to_set().contains(x) implies range.contains(x) by {
            let i = choose|i: int| 0 <= i < s.len() && s[i] == x;
            assert(0 <= s[i] < s.len());
        }
    }
    lemma_len_subset(s.to_set(), range);
    lemma_subset_equality(s.to_set(), range);
    assert(range.contains(v));
    assert(s.to_set().contains(v));
}

/// Exactly `n` distinct values below `n` take every value below `n`.
proof fn lemma_contiguous_covers(ns: Seq<u8>, v: int)
    requires
        contiguous(ns),
        0 <= v < ns.len(),
    ensures
        exists|i: int| 0 <= i < ns.len() && ns[i] as int == v,
{
    let s = Seq::new(ns.len(), |i: int| ns[i] as int);
    assert forall|i: int| 0 <= i < s.len() implies 0 <= #[trigger] s[i] < s.len() by {
        assert((ns[i] as int) < ns.len());
    }
    lemma_distinct_cover(s, v);
    let i = choose|i: int| 0 <= i < s.len() && s[i] == v;
    assert(ns[i] as int == v);
}

proof fn lemma_halve(a: u64, l: u64)
    by (bit_vector)
    requires
        l < 63,
    ensures
        ((a >> 1u64) >> l) & 1u64 != 0u64 <==> (a >> (l + 1) as u64) & 1u64 != 0u64,
        a >> 1u64 == a / 2,
        a == (a >> 1u64) * 2 + (a & 1u64),
        (a & 1u64 != 0u64) <==> (a >> 0u64) & 1u64 != 0u64,
        a & 1u64 == 0u64 || a & 1u64 == 1u64,
{
}

/// Two addresses below `2^k` that agree on lines `0..k` are equal.
proof fn lemma_lines_determine(a1: u64, a2: u64, k: nat)
    requires
        k <= 64,
        a1 < pow2(k),
        a2 < pow2(k),
        forall|l: int| 0 <= l < k ==> #[trigger] address_line(a1, l) == address_line(a2, l),
    ensures
        a1 == a2,
    decreases k,
{
    if k == 0 {
        lemma2_to64();
    } else {
        lemma_pow2_unfold(k);
        let h1 = a1 >> 1u64;
        let h2 = a2 >> 1u64;
        lemma_halve(a1, 0);
        lemma_halve(a2, 0);
        assert forall|l: int| 0 <= l < k - 1 implies #[trigger] address_line(h1, l) == address_line(h2, l) by {
            lemma_halve(a1, l as u64);
            lemma_halve(a2, l as u64);
            assert(address_line(a1, l + 1) == address_line(a2, l + 1));
        }
        lemma_lines_determine(h1, h2, (k - 1) as nat);
        assert(address_line(a1, 0) == address_line(a2, 0));
    }
}

proof fn lemma_bit32_as_line(f: u32, n: u32)
    by (bit_vector)
    requires
        n < 32,
    ensures
        ((f as u64) >> (n as u64)) & 1u64 != 0u64 <==> (f >> n) & 1u32 == 1u32,
{
}

/// Two 32-bit values with the same bits are equal.
proof fn lemma_bits_determine(f1: u32, f2: u32)
    requires
        forall|n: int| 0 <= n < 32 ==> #[trigger] bit32(f1, n) == bit32(f2, n),
    ensures
        f1 == f2,
{
    lemma2_to64();
    assert forall|l: int| 0 <= l < 32 implies #[trigger] address_line(f1 as u64, l) == address_line(f2 as u64, l) by {
        lemma_bit32_as_line(f1, l as u32);
        lemma_bit32_as_line(f2, l as u32);
        assert(bit32(f1, l) == bit32(f2, l));
    }
    lemma_lines_determine(f1 as u64, f2 as u64, 32);
}

proof fn lemma_small_high_bits(x: u32, k: u32, n: u32)
    by (bit_vector)
    requires
        k <= n < 32,
        x < (1u32 << k),
    ensures
        (x >> n) & 1u32 != 1u32,
{
}

/// A value below `2^k` has no bit at or above `k`.
proof fn lemma_below_pow2_bits(x: u32, k: nat, n: int)
    requires
        x < pow2(k),
        k <= n < 32,
    ensures
        !bit32(x, n),
{
    lemma_pow2_strictly_increases(k, 32);
    lemma2_to64();
    vstd::bits::lemma_u32_shl_is_mul(1, k as u32);
    lemma_small_high_bits(x, k as u32, n as u32);
}

/// The value address line `b` takes to select target coordinates `t`.
pub open spec fn target_bit(b: AddressBitSource, t: AddressedCoords) -> bool {
    match b {
        AddressBitSource::CodeBit(n) => bit32(t.code, n as int),
        AddressBitSource::PageBit(n) => bit32(t.page, n as int),
        AddressBitSource::PixelXBit(n) => bit32(t.x, n as int),
        AddressBitSource::PixelYBit(n) => bit32(t.y, n as int),
        _ => false,
    }
}

/// The address whose first `k` lines take the values that select `t`.
pub open spec fn encode_address(bits: Seq<AddressBitSource>, t: AddressedCoords, k: int) -> nat
    decreases k,
{
    if k <= 0 {
        0
    } else {
        encode_address(bits, t, k - 1) + if target_bit(bits[k - 1], t) {
            pow2((k - 1) as nat)
        } else {
            0
        }
    }
}

proof fn lemma_or_top(e: u64, m: u64)
    by (bit_vector)
    requires
        m < 64,
        e < (1u64 << m),
    ensures
        e + (1u64 << m) == (e | (1u64 << m)),
        ((e | (1u64 << m)) >> m) & 1u64 != 0u64,
        (e >> m) & 1u64 == 0u64,
{
}

proof fn lemma_or_below(e: u64, m: u64, l: u64)
    by (bit_vector)
    requires
        l < m < 64,
    ensures
        ((e | (1u64 << m)) >> l) & 1u64 == (e >> l) & 1u64,
{
}

/// The encoded address fits in `k` lines and each line carries its target value.
proof fn lemma_encode_address(bits: Seq<AddressBitSource>, t: AddressedCoords, k: int)
    requires
        0 <= k <= bits.len(),
        k <= 64,
    ensures
        encode_address(bits, t, k) < pow2(k as nat),
        forall|l: int| 0 <= l < k ==> #[trigger] address_line(encode_address(bits, t, k) as u64, l) == target_bit(bits[l], t),
    decreases k,
{
    lemma2_to64();
    if k > 0 {
        let m = k - 1;
        lemma_encode_address(bits, t, m);
        lemma_pow2_unfold(k as nat);
        lemma_pow2_strictly_increases(m as nat, 64);
        let e = encode_address(bits, t, m);
        assert(e < pow2(m as nat));
        vstd::bits::lemma_u64_shl_is_mul(1, m as u64);
        let eu = e as u64;
        lemma_or_top(eu, m as u64);
        if target_bit(bits[m], t) {
            assert(encode_address(bits, t, k) == (eu | (1u64 << m as u64)) as int);
            assert forall|l: int| 0 <= l < k implies #[trigger] address_line(encode_address(bits, t, k) as u64, l)
                == target_bit(bits[l], t) by {
                if l < m {
                    lemma_or_below(eu, m as u64, l as u64);
                    assert(address_line(eu, l) == target_bit(bits[l], t));
                }
            }
        } else {
            assert(encode_address(bits, t, k) == e);
        }
    }
}

/// The dimension a plain address line carries.
pub open spec fn line_dim(b: AddressBitSource) -> Dimension {
    match b {
        AddressBitSource::CodeBit(_) => Dimension::Code,
        AddressBitSource::PageBit(_) => Dimension::Page,
        AddressBitSource::PixelXBit(_) => Dimension::PixelX,
        _ => Dimension::PixelY,
    }
}

/// The bit index a plain address line carries.
pub open spec fn line_index(b: AddressBitSource) -> u8 {
    match b {
        AddressBitSource::CodeBit(n) => n,
        AddressBitSource::PageBit(n) => n,
        AddressBitSource::PixelXBit(n) => n,
        AddressBitSource::PixelYBit(n) => n,
        _ => 0,
    }
}

proof fn lemma_dim_bits_len(bits: Seq<AddressBitSource>, d: Dimension)
    ensures
        dim_bits(bits, d).len() <= bits.len(),
    decreases bits.len(),
{
    if bits.len() > 0 {
        lemma_dim_bits_len(bits.drop_last(), d);
    }
}

/// With a dimension's bits exactly `0..n`, the line carrying bit `v` of it decides
/// that bit of the decoded field on its own.
proof fn lemma_single_line(bits: Seq<AddressBitSource>, address: u64, d: Dimension, l: int, v: u8)
    requires
        contiguous(dim_bits(bits, d)),
        0 <= l < bits.len(),
        dim_bit(bits[l], d) == Some(v),
    ensures
        set_by(bits, address, bits.len() as int, d, v as int) == address_line(address, l),
{
    lemma_set_by_witness(bits, address, bits.len() as int, d, v as int);
    if set_by(bits, address, bits.len() as int, d, v as int) {
        let w = choose|w: int|
            0 <= w < bits.len() && #[trigger] dim_bit(bits[w], d) == Some(v) && address_line(address, w);
        if w < l {
            lemma_dim_lines_distinct(bits, d, w, l, v, v);
        } else if l < w {
            lemma_dim_lines_distinct(bits, d, l, w, v, v);
        }
    }
    if address_line(address, l) {
        assert(dim_bit(bits[l], d) == Some(v as int as u8));
    }
}

/// In a validated config every dimension that has address lines has exactly the
/// bits `0..n`.
proof fn lemma_validated_dims(source: GlyphSet, config: ExportConfig, limits: Limits, d: Dimension)
    requires
        export_check(source, config, limits) is None,
    ensures
        dim_bits(config.address_map.address_bits@, d).len() > 0 ==> contiguous(
            dim_bits(config.address_map.address_bits@, d),
        ),
{
    lemma_validated_shape(source, config, limits);
}

/// A validated config's address lines read distinct addresses as distinct
/// coordinates: two addresses of the image that decode alike are the same address.
pub proof fn law_validated_addresses_decode_distinctly(
    source: GlyphSet,
    config: ExportConfig,
    limits: Limits,
    a1: u64,
    a2: u64,
)
    requires
        export_check(source, config, limits) is None,
        a1 < pow2(config.address_map.address_bits@.len()),
        a2 < pow2(config.address_map.address_bits@.len()),
        decode_spec(config, a1) == decode_spec(config, a2),
    ensures
        a1 == a2,
{
    let bits = config.address_map.address_bits@;
    let n = bits.len();
    lemma_validated_shape(source, config, limits);
    assert forall|l: int| 0 <= l < n implies #[trigger] address_line(a1, l) == address_line(a2, l) by {
        let b = bits[l];
        let d = line_dim(b);
        let v = line_index(b);
        assert(is_plain(bits[l]));
        assert(dim_bit(b, d) == Some(v));
        lemma_line_in_dim_bits(bits, d, l, v);
        lemma_validated_dims(source, config, limits, d);
        lemma_dim_line_in_range(bits, d, l, v);
        lemma_dim_bits_len(bits, d);
        lemma_decoded_bit(bits, a1, n as int, d, v as int);
        lemma_decoded_bit(bits, a2, n as int, d, v as int);
        lemma_single_line(bits, a1, d, l, v);
        lemma_single_line(bits, a2, d, l, v);
        assert(decode_spec(config, a1) == decode_prefix(bits, a1, n as int));
    }
    lemma_lines_determine(a1, a2, n);
}

/// A validated config reaches every coordinate its address lines can express:
/// for any target whose field of each dimension fits that dimension's bits (so a
/// dimension without lines must be 0), some address of the image decodes to it.
pub proof fn law_validated_addresses_reach_every_target(
    source: GlyphSet,
    config: ExportConfig,
    limits: Limits,
    t: AddressedCoords,
)
    requires
        export_check(source, config, limits) is None,
        forall|d: Dimension| #[trigger] field(t, d) < pow2(dim_bits(config.address_map.address_bits@, d).len()),
    ensures
        exists|a: u64| a < pow2(config.address_map.address_bits@.len()) && decode_spec(config, a) == t,
{
    let bits = config.address_map.address_bits@;
    let n = bits.len() as int;
    lemma_validated_shape(source, config, limits);
    lemma_encode_address(bits, t, n);
    lemma2_to64();
    lemma_pow2_strictly_increases(n as nat, 64);
    let a = encode_address(bits, t, n) as u64;
    lemma_lines_select_target(source, config, limits, t, a);
}

/// In a validated config, an address whose lines carry the bits of a target that
/// fits the dimensions decodes to that target.
proof fn lemma_lines_select_target(source: GlyphSet, config: ExportConfig, limits: Limits, t: AddressedCoords, a: u64)
    requires
        export_check(source, config, limits) is None,
        forall|d: Dimension| #[trigger] field(t, d) < pow2(dim_bits(config.address_map.address_bits@, d).len()),
        forall|l: int|
            0 <= l < config.address_map.address_bits@.len() ==> #[trigger] address_line(a, l) == target_bit(
                config.address_map.address_bits@[l],
                t,
            ),
    ensures
        decode_spec(config, a) == t,
{
    let bits = config.address_map.address_bits@;
    let n = bits.len() as int;
    lemma_validated_shape(source, config, limits);
    let c = decode_spec(config, a);
    assert forall|d: Dimension| #[trigger] field(c, d) == field(t, d) by {
        let k = dim_bits(bits, d).len();
        assert(field(t, d) < pow2(k));
        assert forall|m: int| 0 <= m < 32 implies #[trigger] bit32(field(c, d), m) == bit32(field(t, d), m) by {
            lemma_decoded_bit(bits, a, n, d, m);
            lemma_set_by_witness(bits, a, n, d, m);
            lemma_validated_dims(source, config, limits, d);
            if m < k {
                lemma_contiguous_covers(dim_bits(bits, d), m);
                let i = choose|i: int| 0 <= i < dim_bits(bits, d).len() && dim_bits(bits, d)[i] as int == m;
                lemma_dim_bit_has_line(bits, d, i);
                let l = choose|l: int| 0 <= l < bits.len() && #[trigger] dim_bit(bits[l], d) == Some(dim_bits(bits, d)[i]);
                lemma_single_line(bits, a, d, l, m as u8);
                assert(address_line(a, l) == target_bit(bits[l], t));
            } else {
                if set_by(bits, a, n, d, m) {
                    let w = choose|w: int|
                        0 <= w < n && #[trigger] dim_bit(bits[w], d) == Some(m as u8) && address_line(a, w);
                    lemma_line_in_dim_bits(bits, d, w, m as u8);
                    lemma_dim_line_in_range(bits, d, w, m as u8);
                }
                lemma_below_pow2_bits(field(t, d), k, m);
            }
        }
        lemma_bits_determine(field(c, d), field(t, d));
    }
    assert(field(c, Dimension::Code) == field(t, Dimension::Code));
    assert(field(c, Dimension::Page) == field(t, Dimension::Page));
    assert(field(c, Dimension::PixelX) == field(t, Dimension::PixelX));
    assert(field(c, Dimension::PixelY) == field(t, Dimension::PixelY));
    assert(c == t);
}

/// The pixel an address's data bit `i` reads: the address decodes to `code` on the
/// source's page `page` at the scanned line, and data bit `i` reads the other
/// coordinate of that line. For a row scan the line is row `y` and the bit reads
/// column `x`; for a column scan the line is column `x` and the bit reads row `y`.
/// Pixel coordinates are those of a glyph, below 65536.
pub open spec fn reads_pixel(config: ExportConfig, address: u64, i: int, page: int, code: u32, x: int, y: int) -> bool {
    let c = decode_spec(config, address);
    let o = config.data_map.output_bits@[i];
    &&& 0 <= x <= u16::MAX
    &&& 0 <= y <= u16::MAX
    &&& c.code == code
    &&& c.page == page
    &&& match scan_spec(config) {
        ScanDirection::Row => c.x == 0 && c.y == y && data_pixel_coord_spec(o, ScanDirection::Row) == Some(x as i32),
        ScanDirection::Column => c.y == 0 && c.x == x && data_pixel_coord_spec(o, ScanDirection::Column) == Some(
            y as i32,
        ),
    }
}

/// In a validated config each coordinate of the data axis is read by exactly one
/// data bit.
proof fn lemma_data_bits_cover_once(source: GlyphSet, config: ExportConfig, limits: Limits, v: int)
    requires
        export_check(source, config, limits) is None,
        0 <= v < config.data_map.output_bits@.len(),
    ensures
        exists|i: int|
            0 <= i < config.data_map.output_bits@.len() && #[trigger] data_pixel_coord_spec(
                config.data_map.output_bits@[i],
                scan_spec(config),
            ) == Some(v as i32),
        forall|i: int, j: int|
            0 <= i < config.data_map.output_bits@.len() && 0 <= j < config.data_map.output_bits@.len()
                && #[trigger] data_pixel_coord_spec(config.data_map.output_bits@[i], scan_spec(config)) == Some(
                v as i32,
            ) && #[trigger] data_pixel_coord_spec(config.data_map.output_bits@[j], scan_spec(config)) == Some(
                v as i32,
            ) ==> i == j,
{
    lemma_validated_shape(source, config, limits);
    let outputs = config.data_map.output_bits@;
    let scan = scan_spec(config);
    let extent = outputs.len() as int;
    let s = Seq::new(outputs.len(), |i: int| data_pixel_coord_spec(outputs[i], scan)->0 as int);
    assert forall|i: int| 0 <= i < s.len() implies 0 <= #[trigger] s[i] < s.len() by {
        assert(data_bit_ok(outputs, scan, extent, i));
    }
    assert forall|i: int, j: int| 0 <= i < j < s.len() implies s[i] != s[j] by {
        assert(data_bit_ok(outputs, scan, extent, i));
        assert(data_bit_ok(outputs, scan, extent, j));
    }
    lemma_distinct_cover(s, v);
    let i = choose|i: int| 0 <= i < s.len() && s[i] == v;
    assert(data_bit_ok(outputs, scan, extent, i));
    assert(data_pixel_coord_spec(outputs[i], scan) == Some(v as i32));
    assert forall|i: int, j: int|
        0 <= i < outputs.len() && 0 <= j < outputs.len() && #[trigger] data_pixel_coord_spec(outputs[i], scan)
            == Some(v as i32) && #[trigger] data_pixel_coord_spec(outputs[j], scan) == Some(v as i32) implies i
        == j by {
        if i < j {
            assert(data_bit_ok(outputs, scan, extent, j));
        } else if j < i {
            assert(data_bit_ok(outputs, scan, extent, i));
        }
    }
}

/// Strict 1:1: in a config that validation accepts, every pixel `(x, y)` of the
/// glyph for every addressable `code` on every selected page is read by exactly one
/// ROM bit, an address of the image together with one of its data bits.
pub proof fn law_each_glyph_pixel_has_exactly_one_rom_bit(
    source: GlyphSet,
    config: ExportConfig,
    limits: Limits,
    page: int,
    code: u32,
    x: int,
    y: int,
)
    requires
        export_check(source, config, limits) is None,
        0 <= page < config.source.pages@.len(),
        code < pow2(dim_bits(config.address_map.address_bits@, Dimension::Code).len()),
        0 <= x < source.glyph_size.width,
        0 <= y < source.glyph_size.height,
    ensures
        exists|a: u64, i: int|
            a < pow2(config.address_map.address_bits@.len()) && 0 <= i < config.data_map.output_bits@.len()
                && #[trigger] reads_pixel(config, a, i, page, code, x, y),
        forall|a1: u64, i1: int, a2: u64, i2: int|
            a1 < pow2(config.address_map.address_bits@.len()) && a2 < pow2(config.address_map.address_bits@.len())
                && 0 <= i1 < config.data_map.output_bits@.len() && 0 <= i2 < config.data_map.output_bits@.len()
                && #[trigger] reads_pixel(config, a1, i1, page, code, x, y) && #[trigger] reads_pixel(
                config,
                a2,
                i2,
                page,
                code,
                x,
                y,
            ) ==> a1 == a2 && i1 == i2,
{
    let bits = config.address_map.address_bits@;
    let outputs = config.data_map.output_bits@;
    let scan = scan_spec(config);
    lemma_validated_shape(source, config, limits);
    lemma_dim_bits_len(bits, Dimension::Page);
    lemma2_to64();
    if dim_bits(bits, Dimension::Page).len() < 32 {
        lemma_pow2_strictly_increases(dim_bits(bits, Dimension::Page).len(), 32);
    }
    let t = if scan == ScanDirection::Row {
        AddressedCoords { code, page: page as u32, x: 0, y: y as u32 }
    } else {
        AddressedCoords { code, page: page as u32, x: x as u32, y: 0 }
    };
    let v = if scan == ScanDirection::Row { x } else { y };
    assert forall|d: Dimension| #[trigger] field(t, d) < pow2(dim_bits(bits, d).len()) by {
        lemma_pow2_pos(dim_bits(bits, d).len());
    }
    law_validated_addresses_reach_every_target(source, config, limits, t);
    let a = choose|a: u64| a < pow2(bits.len()) && decode_spec(config, a) == t;
    lemma_data_bits_cover_once(source, config, limits, v);
    let i = choose|i: int| 0 <= i < outputs.len() && #[trigger] data_pixel_coord_spec(outputs[i], scan) == Some(v as i32);
    assert(reads_pixel(config, a, i, page, code, x, y));
    assert forall|a1: u64, i1: int, a2: u64, i2: int|
        a1 < pow2(bits.len()) && a2 < pow2(bits.len()) && 0 <= i1 < outputs.len() && 0 <= i2 < outputs.len()
            && #[trigger] reads_pixel(config, a1, i1, page, code, x, y) && #[trigger] reads_pixel(
            config,
            a2,
            i2,
            page,
            code,
            x,
            y,
        ) implies a1 == a2 && i1 == i2 by {
        assert(decode_spec(config, a1) == decode_spec(config, a2));
        law_validated_addresses_decode_distinctly(source, config, limits, a1, a2);
        assert(data_pixel_coord_spec(outputs[i1], scan) == Some(v as i32));
        assert(data_pixel_coord_spec(outputs[i2], scan) == Some(v as i32));
    }
}

/// The ROM bit that reads a pixel holds it: bit `i` of the word at the address is
/// on exactly when the glyph for that code on that page has pixel `(x, y)` on (a
/// missing glyph reads off). A word holds 64 data bits, so this covers data bits
/// below 64.
pub proof fn law_rom_bit_holds_its_pixel(
    source: GlyphSet,
    config: ExportConfig,
    limits: Limits,
    address: u64,
    i: int,
    page: int,
    code: u32,
    x: int,
    y: int,
)
    requires
        export_check(source, config, limits) is None,
        0 <= i < config.data_map.output_bits@.len(),
        i < 64,
        reads_pixel(config, address, i, page, code, x, y),
    ensures
        (output_word_spec(source, config, address) >> (i as u64)) & 1u64 == 1u64 <==> (selected_bitmap(
            source,
            config,
            decode_spec(config, address),
        ) matches Some(b) && x < b.width && y < b.height && b.rows[y][x]),
{
    lemma_validated_shape(source, config, limits);
    law_word_bits_are_data_bits(source, config, address, i as u64);
    let outputs = config.data_map.output_bits@;
    let scan = scan_spec(config);
    let extent = outputs.len() as int;
    assert(data_bit_ok(outputs, scan, extent, i));
}

/// The number of lines of dimension `d` among the first `n` lines of a preset
/// address map with `a` scanned-axis, `c` code and `p` page lines.
pub open spec fn preset_dim_len(column: bool, a: nat, c: nat, p: nat, n: nat, d: Dimension) -> nat {
    let axis = if column {
        Dimension::PixelX
    } else {
        Dimension::PixelY
    };
    if d == axis {
        if n <= a {
            n
        } else {
            a
        }
    } else if d == Dimension::Code {
        if n <= a {
            0
        } else if n <= a + c {
            (n - a) as nat
        } else {
            c
        }
    } else if d == Dimension::Page {
        if n <= a + c {
            0
        } else {
            (n - a - c) as nat
        }
    } else {
        0
    }
}

/// The bits `0..k`.
pub open spec fn first_bits(k: nat) -> Seq<u8> {
    Seq::new(k, |i: int| i as u8)
}

/// Each dimension of a preset address map carries exactly its bits `0..k`, in order.
pub(crate) proof fn lemma_preset_dim_bits(column: bool, a: nat, c: nat, p: nat, n: nat, d: Dimension)
    requires
        a <= 256,
        c <= 256,
        p <= 256,
        n <= a + c + p,
    ensures
        dim_bits(crate::export::preset_address_bits(column, a, c, p).take(n as int), d) == first_bits(
            preset_dim_len(column, a, c, p, n, d),
        ),
    decreases n,
{
    let bits = crate::export::preset_address_bits(column, a, c, p);
    if n == 0 {
        assert(bits.take(0) =~= Seq::<AddressBitSource>::empty());
        assert(first_bits(0) =~= Seq::<u8>::empty());
    } else {
        lemma_preset_dim_bits(column, a, c, p, (n - 1) as nat, d);
        lemma_dim_bits_step(bits, d, n - 1);
        assert(dim_bits(bits.take(n as int), d) =~= first_bits(preset_dim_len(column, a, c, p, n, d)));
    }
}

proof fn lemma_first_bits_contiguous(k: nat)
    requires
        k <= 256,
    ensures
        contiguous(first_bits(k)),
{
}

/// `config` is the standard preset for `source` (a column scan when `column`,
/// else a row scan) with `code_bits` code lines, the scanned axis needs at least
/// one address line (the glyph is at least 2 pixels along it), pages are selected,
/// every drawn code fits the code bits, and the address and the image are within
/// the limits.
pub open spec fn scan_preset_fits(source: GlyphSet, config: ExportConfig, limits: Limits, column: bool, code_bits: u8) -> bool {
    let axis_extent = if column {
        source.glyph_size.width
    } else {
        source.glyph_size.height
    };
    let a = crate::export::address_bits_for(axis_extent as nat);
    let p = crate::export::address_bits_for(config.source.pages@.len() as u32 as nat);
    let n = (a + code_bits + p) as nat;
    &&& config.address_map.address_bits@ == crate::export::preset_address_bits(column, a, code_bits as nat, p)
    &&& config.data_map.output_bits@ == if column {
        crate::export::column_scan_outputs(source.glyph_size.height as nat)
    } else {
        crate::export::row_scan_outputs(source.glyph_size.width as nat)
    }
    &&& config.output_format == crate::export_config::OutputFormatConfig::RawBinary
    &&& axis_extent >= 2
    &&& 0 < config.source.pages@.len() <= u32::MAX
    &&& n <= limits.max_export_address_width
    &&& n <= 32
    &&& pow2(n) <= limits.max_output_image_pixels
    &&& forall|k: int|
        0 <= k < crate::export::selected_codes(source, config.source.pages@).len() ==> (
        #[trigger] crate::export::selected_codes(source, config.source.pages@)[k]) < pow2(code_bits as nat)
}

/// The standard presets are strict 1:1: a row-scan (or column-scan) config built
/// for a glyph set passes validation when it [`scan_preset_fits`].
pub proof fn law_scan_presets_validate(source: GlyphSet, config: ExportConfig, limits: Limits, column: bool, code_bits: u8)
    requires
        scan_preset_fits(source, config, limits, column, code_bits),
    ensures
        export_check(source, config, limits) is None,
{
    let axis_extent = if column {
        source.glyph_size.width
    } else {
        source.glyph_size.height
    };
    let a = crate::export::address_bits_for(axis_extent as nat);
    let pages = config.source.pages@.len() as u32 as nat;
    let p = crate::export::address_bits_for(pages);
    let c = code_bits as nat;
    let bits = config.address_map.address_bits@;
    let total = a + c + p;
    lemma2_to64();
    crate::export::lemma_address_bits_for(axis_extent as nat);
    crate::export::lemma_address_bits_for(pages);
    crate::export::lemma_address_bits_for_bound(axis_extent as nat, 16);
    crate::export::lemma_address_bits_for_bound(pages, 32);
    assert(bits.take(total as int) =~= bits);
    lemma_preset_dim_bits(column, a, c, p, total, Dimension::PixelX);
    lemma_preset_dim_bits(column, a, c, p, total, Dimension::PixelY);
    lemma_preset_dim_bits(column, a, c, p, total, Dimension::Code);
    lemma_preset_dim_bits(column, a, c, p, total, Dimension::Page);
    lemma_first_bits_contiguous(a);
    lemma_first_bits_contiguous(c);
    lemma_first_bits_contiguous(p);
    lemma_first_bits_contiguous(0);
    assert(first_bits(0) =~= Seq::<u8>::empty());
    assert(pages == config.source.pages@.len());
    if pages <= 1 {
        assert(pow2(0) == 1);
    }
    let outputs = config.data_map.output_bits@;
    let scan = crate::export::scan_spec(config);
    assert(scan == if column { ScanDirection::Column } else { ScanDirection::Row });
    assert forall|i: int| 0 <= i < outputs.len() implies #[trigger] data_bit_ok(outputs, scan, outputs.len() as int, i) by {
        assert forall|j: int| 0 <= j < i implies data_pixel_coord_spec(#[trigger] outputs[j], scan)
            != data_pixel_coord_spec(outputs[i], scan) by {}
    }
    crate::export::lemma_shape_validates(source, config, limits);
}

proof fn lemma_row_address_low(y: u64, c: u64, yb: u64, l: u64)
    by (bit_vector)
    requires
        l < yb < 64,
    ensures
        ((y | (c << yb)) >> l) & 1u64 == (y >> l) & 1u64,
{
}

proof fn lemma_row_address_code(y: u64, c: u64, yb: u64, m: u64)
    by (bit_vector)
    requires
        yb + m < 64,
        y < (1u64 << yb),
    ensures
        ((y | (c << yb)) >> (yb + m)) & 1u64 == (c >> m) & 1u64,
{
}

proof fn lemma_row_address_high(y: u64, c: u64, yb: u64, cb: u64, l: u64)
    by (bit_vector)
    requires
        yb + cb <= l < 64,
        y < (1u64 << yb),
        c < (1u64 << cb),
    ensures
        ((y | (c << yb)) >> l) & 1u64 == 0u64,
{
}

/// The row-scan address of row `y` of `code`: the row in the low `yb` lines, the
/// code above it.
pub open spec fn row_scan_address(y: u32, code: u32, yb: nat) -> u64 {
    (y as u64) | ((code as u64) << (yb as u64))
}

/// The row-scan preset's address formula: in a row-scan config that
/// [`scan_preset_fits`], the word at the address of row `y` of `code`, whose low
/// `yb` lines hold the row and whose next lines hold the code, has, as bit
/// `width - 1 - x`, pixel `(x, y)` of the glyph for `code` on the first selected
/// page (off when that glyph is missing). The leftmost pixel is the most
/// significant data bit.
pub proof fn law_row_scan_address_reads_its_row(
    source: GlyphSet,
    config: ExportConfig,
    limits: Limits,
    code_bits: u8,
    y: u32,
    code: u32,
    x: int,
)
    requires
        scan_preset_fits(source, config, limits, false, code_bits),
        y < source.glyph_size.height,
        code < pow2(code_bits as nat),
        0 <= x < source.glyph_size.width,
        source.glyph_size.width <= 64,
    ensures
        ({
            let yb = crate::export::address_bits_for(source.glyph_size.height as nat);
            let i = source.glyph_size.width - 1 - x;
            (output_word_spec(source, config, row_scan_address(y, code, yb)) >> (i as u64)) & 1u64 == 1u64 <==> (
            selected_bitmap(source, config, AddressedCoords { code, page: 0, x: 0, y }) matches Some(b) && x
                < b.width && y < b.height && b.rows[y as int][x])
        }),
{
    let h = source.glyph_size.height;
    let w = source.glyph_size.width;
    let yb = crate::export::address_bits_for(h as nat);
    let pages = config.source.pages@.len() as u32 as nat;
    let pb = crate::export::address_bits_for(pages);
    let cb = code_bits as nat;
    let bits = config.address_map.address_bits@;
    let n = yb + cb + pb;
    let t = AddressedCoords { code, page: 0, x: 0, y };
    let a = row_scan_address(y, code, yb);
    law_scan_presets_validate(source, config, limits, false, code_bits);
    lemma2_to64();
    crate::export::lemma_address_bits_for(h as nat);
    crate::export::lemma_address_bits_for_bound(h as nat, 16);
    crate::export::lemma_address_bits_for(pages);
    crate::export::lemma_address_bits_for_bound(pages, 32);
    assert(pages == config.source.pages@.len());
    assert(y < pow2(yb));
    lemma_pow2_strictly_increases(yb, 64);
    vstd::bits::lemma_u64_shl_is_mul(1, yb as u64);
    assert((y as u64) < (1u64 << (yb as u64)));
    lemma_pow2_strictly_increases(cb, 64);
    vstd::bits::lemma_u64_shl_is_mul(1, cb as u64);
    assert((code as u64) < (1u64 << (cb as u64)));
    assert forall|l: int| 0 <= l < bits.len() implies #[trigger] address_line(a, l) == target_bit(bits[l], t) by {
        if l < yb {
            lemma_row_address_low(y as u64, code as u64, yb as u64, l as u64);
            lemma_bit32_as_line(y, l as u32);
        } else if l < yb + cb {
            lemma_row_address_code(y as u64, code as u64, yb as u64, (l - yb) as u64);
            lemma_bit32_as_line(code, (l - yb) as u32);
        } else {
            lemma_row_address_high(y as u64, code as u64, yb as u64, cb as u64, l as u64);
            lemma_zero_bit(((l - yb - cb) as u8) as u32);
        }
    }
    assert(bits.take(n as int) =~= bits);
    lemma_preset_dim_bits(false, yb, cb, pb, n, Dimension::PixelX);
    lemma_preset_dim_bits(false, yb, cb, pb, n, Dimension::PixelY);
    lemma_preset_dim_bits(false, yb, cb, pb, n, Dimension::Code);
    lemma_preset_dim_bits(false, yb, cb, pb, n, Dimension::Page);
    lemma_pow2_pos(pb);
    lemma_pow2_pos(0);
    assert forall|d: Dimension| #[trigger] field(t, d) < pow2(dim_bits(bits, d).len()) by {}
    lemma_lines_select_target(source, config, limits, t, a);
    let i = (w - 1 - x) as int;
    let outputs = config.data_map.output_bits@;
    assert(outputs[i] == OutputBitSource::Pixel {
        x: CoordinateExpr::Constant(x as i32),
        y: CoordinateExpr::AddressedY,
    });
    assert(scan_spec(config) == ScanDirection::Row);
    assert(reads_pixel(config, a, i, 0, code, x, y as int));
    law_rom_bit_holds_its_pixel(source, config, limits, a, i, 0, code, x, y as int);
}

} // verus!
