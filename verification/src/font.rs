//! Fonts: the bytes of a font file, the offset of the font within it, and
//! the mapping of characters to glyphs that the font defines.
use vstd::prelude::*;
use swash::scale::{Render, ScaleContext, Source, StrikeWith};

verus! {

/// swash's cache key: an identifier that swash draws from a global counter
/// each time it opens a font.
#[verifier::external_type_specification]
#[verifier::external_body]
pub struct ExCacheKey(swash::CacheKey);

/// swash's reference to a font within a font file.
#[verifier::external_type_specification]
#[verifier::external_body]
pub struct ExFontRef<'a>(swash::FontRef<'a>);

/// The big-endian 32-bit value at byte `p` of `data`, where four bytes
/// are there.
pub open spec fn read_u32_at(data: Seq<u8>, p: int) -> Option<int> {
    if 0 <= p && p + 4 <= data.len() {
        Some(be_u32(data, p))
    } else {
        None
    }
}

/// A font's table directory starts at `offset` in `data`: its tag is that
/// of a TrueType font (0x00010000 or "true") or of an OpenType font with
/// outlines in CFF ("OTTO").
pub open spec fn is_font_at(data: Seq<u8>, offset: int) -> bool {
    match read_u32_at(data, offset) {
        Some(tag) => tag == 0x0001_0000 || tag == 0x4f54_544f || tag == 0x7472_7565,
        None => false,
    }
}

/// `data` is a font collection: it starts with the tag "ttcf".
pub open spec fn is_collection(data: Seq<u8>) -> bool {
    read_u32_at(data, 0) == Some(0x7474_6366int)
}

/// The number of fonts in `data`: that which a collection gives in its
/// header, 1 for a single font, 0 otherwise.
pub open spec fn font_count(data: Seq<u8>) -> int {
    if is_collection(data) {
        match read_u32_at(data, 8) {
            Some(n) => n,
            None => 0,
        }
    } else if is_font_at(data, 0) {
        1
    } else {
        0
    }
}

/// The offset of the table directory of font number `index` of the file
/// `data` (an index taken modulo 2^32), or `None` when swash does not
/// recognise a font there: the file must be a font or a collection, the
/// index below its count, and a table directory must start at the offset
/// that a single font (0) or the collection's offset table gives.
pub open spec fn font_offset_in(data: Seq<u8>, index: usize) -> Option<u32> {
    let i = index as int % 0x1_0000_0000;
    let offset = if is_font_at(data, 0) {
        Some(0int)
    } else {
        read_u32_at(data, 12 + 4 * i)
    };
    if !is_font_at(data, 0) && !is_collection(data) || i >= font_count(data) {
        None
    } else {
        match offset {
            Some(o) => if is_font_at(data, o) {
                Some(o as u32)
            } else {
                None
            },
            None => None,
        }
    }
}

/// The glyph that the character map of the font at `offset` in `data`
/// gives character `c` (0 when it has none).
pub uninterp spec fn char_glyph_id(data: Seq<u8>, offset: u32, c: char) -> u16;

/// The place of font number `index` in a collection's table of offsets,
/// 12 plus four bytes for each font before it (the index taken modulo
/// 2^32), is a `usize`: swash computes it as one.
pub open spec fn index_offset_fits(index: usize) -> bool {
    12 + 4 * (index as int % 0x1_0000_0000) <= usize::MAX
}

/// Calls `swash::FontRef::from_index`: it recognises font number `index` in
/// `data` as [`font_offset_in`] says and gives its offset, together with a
/// fresh cache key drawn from swash's global counter, of which nothing is
/// said.
#[verifier::external_body]
fn font_ref_from_index(data: &[u8], index: usize) -> (found: Option<(u32, swash::CacheKey)>)
    requires
        index_offset_fits(index),
    ensures
        (match found {
            Some(p) => Some(p.0),
            None => None,
        }) == font_offset_in(data@, index),
{
    match swash::FontRef::from_index(data, index) {
        Some(font) => Some((font.offset, font.key)),
        None => None,
    }
}

/// The big-endian 32-bit value at byte `p` of `data`.
pub open spec fn be_u32(data: Seq<u8>, p: int) -> int {
    data[p] * 0x100_0000 + data[p + 1] * 0x1_0000 + data[p + 2] * 0x100 + data[p + 3]
}

/// No twelve bytes of `data`, read as a character map group (its first
/// code, last code and first glyph), hold `code` with a glyph number that
/// passes `u32::MAX`: swash's lookup of `code` in such a group adds the
/// glyph number to the code's distance from the group's start.
pub open spec fn code_maps_safely(data: Seq<u8>, code: int) -> bool {
    forall|p: int| 0 <= p && p + 12 <= data.len() ==> !#[trigger] group_overflows(data, p, code)
}

/// The twelve bytes of `data` at `p`, read as a character map group, hold
/// `code` with a glyph number past `u32::MAX`.
pub open spec fn group_overflows(data: Seq<u8>, p: int, code: int) -> bool {
    &&& be_u32(data, p) <= code <= be_u32(data, p + 4)
    &&& code - be_u32(data, p) + be_u32(data, p + 8) > u32::MAX
}

/// A `usize` holds twelve times any `u32`: swash sizes a table of
/// twelve-byte groups by a count read from the file, as a `usize`.
pub open spec fn group_table_size_fits() -> bool {
    12 * u32::MAX <= usize::MAX
}

/// Whether a `usize` holds twelve times any `u32`.
pub fn group_table_size_fits_check() -> (fits: bool)
    ensures
        fits == group_table_size_fits(),
{
    usize::MAX as u64 >= 0xb_ffff_fff4
}

/// Looking `c` up in any character map of `data` cannot overflow: neither
/// the size of a table of groups, nor the glyph of `c` nor, for the symbol
/// encoding's remapping of codes up to 0xff, that of `c` plus 0xf000.
pub open spec fn char_maps_safely(data: Seq<u8>, c: char) -> bool {
    &&& group_table_size_fits()
    &&& code_maps_safely(data, c as int)
    &&& (c as int) <= 0xff ==> code_maps_safely(data, c as int + 0xf000)
}

/// Calls the character map of the font at `offset` in `data`
/// (`FontRef::charmap` and `Charmap::map`), which reads `data` and `offset`
/// only; the key serves swash's caches. The lookup of a format-12 group
/// adds `u32` values read from the file, which overflows (and panics, with
/// overflow checks) on crafted groups, and sizes the table of groups as
/// twelve times a count read from the file, which overflows a 32-bit
/// `usize`: both are left out.
#[verifier::external_body]
fn charmap_map(data: &[u8], offset: u32, key: swash::CacheKey, c: char) -> (glyph: u16)
    requires
        char_maps_safely(data@, c),
    ensures
        glyph == char_glyph_id(data@, offset, c),
{
    swash::FontRef { data, offset, key }.charmap().map(c)
}

/// What swash renders for glyph `glyph_id` of the font at `offset` in
/// `data` at `font_size` pixels, unhinted, from its color outline, color
/// bitmap or outline, in subpixel format: its left, top, width, height and
/// pixels, or `None` when it renders nothing.
pub uninterp spec fn glyph_image(data: Seq<u8>, offset: u32, font_size: u32, glyph_id: u16) -> Option<
    (i32, i32, u32, u32, Seq<u8>),
>;

/// The bounds of the points of glyph `glyph_id`'s outline, as swash scales
/// it to `font_size` pixels, unhinted, with each coordinate cut toward zero
/// to a whole pixel: least x, least y, greatest x, greatest y; `None` when
/// swash scales no outline for it.
pub uninterp spec fn outline_extent(data: Seq<u8>, offset: u32, font_size: u32, glyph_id: u16) -> Option<
    (i32, i32, i32, i32),
>;

/// The same bounds for the layers of glyph `glyph_id`'s color outline
/// together; `None` when swash scales no color outline for it.
pub uninterp spec fn color_outline_extent(data: Seq<u8>, offset: u32, font_size: u32, glyph_id: u16) -> Option<
    (i32, i32, i32, i32),
>;

/// The font at `offset` in `data` has color bitmap strikes (an `sbix`
/// table, or `CBLC` and `CBDT` tables), as swash finds them.
pub uninterp spec fn has_color_bitmaps(data: Seq<u8>, offset: u32) -> bool;

/// Scales glyph `glyph_id` of `font` with swash as [`render_glyph`] does (a
/// fresh `ScaleContext`, unhinted, at `font_size` pixels), calls
/// `Scaler::scale_outline` and gives the `Outline::bounds` of what it
/// scaled, each coordinate converted to `i32` (toward zero, saturating).
/// It depends on the font's bytes and offset, the size and the glyph alone.
#[verifier::external_body]
fn scaled_outline_extent(font: &CustomFontSource, font_size: u32, glyph_id: u16) -> (extent: Option<
    (i32, i32, i32, i32),
>)
    ensures
        extent == outline_extent(font.spec_data(), font.spec_offset(), font_size, glyph_id),
{
    let mut context = ScaleContext::new();
    let font_ref = swash::FontRef { data: &font.data, offset: font.offset, key: font.key };
    let mut scaler = context.builder(font_ref).hint(false).size(font_size as _).build();
    let b = scaler.scale_outline(glyph_id)?.bounds();
    Some((b.min.x as i32, b.min.y as i32, b.max.x as i32, b.max.y as i32))
}

/// As [`scaled_outline_extent`], with `Scaler::scale_color_outline`: the
/// bounds of all the layers of the glyph's color outline.
#[verifier::external_body]
fn scaled_color_outline_extent(font: &CustomFontSource, font_size: u32, glyph_id: u16) -> (extent: Option<
    (i32, i32, i32, i32),
>)
    ensures
        extent == color_outline_extent(font.spec_data(), font.spec_offset(), font_size, glyph_id),
{
    let mut context = ScaleContext::new();
    let font_ref = swash::FontRef { data: &font.data, offset: font.offset, key: font.key };
    let mut scaler = context.builder(font_ref).hint(false).size(font_size as _).build();
    let b = scaler.scale_color_outline(glyph_id)?.bounds();
    Some((b.min.x as i32, b.min.y as i32, b.max.x as i32, b.max.y as i32))
}

/// Builds a swash scaler for `font` and calls `Scaler::has_color_bitmaps`,
/// which reads the font's table directory only.
#[verifier::external_body]
fn font_has_color_bitmaps(font: &CustomFontSource) -> (has: bool)
    ensures
        has == has_color_bitmaps(font.spec_data(), font.spec_offset()),
{
    let mut context = ScaleContext::new();
    let font_ref = swash::FontRef { data: &font.data, offset: font.offset, key: font.key };
    context.builder(font_ref).build().has_color_bitmaps()
}

/// Every coordinate of the bounds, where there are any, lies within 8192
/// pixels of the origin.
pub open spec fn extent_fits(extent: Option<(i32, i32, i32, i32)>) -> bool {
    extent matches Some(e) ==> {
        &&& -8192 <= e.0 <= 8192
        &&& -8192 <= e.1 <= 8192
        &&& -8192 <= e.2 <= 8192
        &&& -8192 <= e.3 <= 8192
    }
}

/// Whether the bounds fit: see [`extent_fits`].
fn extent_fits_check(extent: Option<(i32, i32, i32, i32)>) -> (fits: bool)
    ensures
        fits == extent_fits(extent),
{
    match extent {
        Some(e) => -8192 <= e.0 && e.0 <= 8192 && -8192 <= e.1 && e.1 <= 8192 && -8192 <= e.2 && e.2
            <= 8192 && -8192 <= e.3 && e.3 <= 8192,
        None => true,
    }
}

/// Rendering glyph `glyph_id` at `font_size` pixels stays within swash's
/// size arithmetic: the font has no color bitmap strikes, whose sizes
/// swash offers no way to read without decoding them, and the scaled color
/// outline and outline of the glyph lie within 8192 pixels of the origin,
/// so that every image and mask swash allocates for it is at most about
/// 16400 pixels a side.
pub open spec fn renders_safely(data: Seq<u8>, offset: u32, font_size: u32, glyph_id: u16) -> bool {
    &&& !has_color_bitmaps(data, offset)
    &&& extent_fits(color_outline_extent(data, offset, font_size, glyph_id))
    &&& extent_fits(outline_extent(data, offset, font_size, glyph_id))
}

/// Renders a glyph of `font` with swash: a fresh `ScaleContext` builds an
/// unhinted scaler at `font_size` pixels, and a `Render` over the color
/// outline, color bitmap and outline sources, in `Format::Subpixel`, calls
/// `Render::render`. With no cache carried over, the image depends on the
/// font's bytes and offset, the size and the glyph alone. Swash's size
/// arithmetic (image and mask sizes in `u32`, placements in `i32`)
/// overflows on glyphs too large for it, and panics with overflow checks;
/// [`renders_safely`] leaves those out.
#[verifier::external_body]
pub(crate) fn render_glyph(font: &CustomFontSource, font_size: u32, glyph_id: u16) -> (image: Option<
    crate::atlas::builder::RenderedImage,
>)
    requires
        renders_safely(font.spec_data(), font.spec_offset(), font_size, glyph_id),
    ensures
        (match image {
            Some(i) => Some(crate::atlas::builder::image_view(i)),
            None => None,
        }) == glyph_image(font.spec_data(), font.spec_offset(), font_size, glyph_id),
{
    let mut context = ScaleContext::new();
    let font_ref = swash::FontRef { data: &font.data, offset: font.offset, key: font.key };
    let mut scaler = context.builder(font_ref).hint(false).size(font_size as _).build();
    let sources = [Source::ColorOutline(0), Source::ColorBitmap(StrikeWith::BestFit), Source::Outline];
    let mut render = Render::new(&sources);
    render.format(swash::zeno::Format::Subpixel);
    let image = render.render(&mut scaler, glyph_id)?;
    let (p, data) = (image.placement, image.data);
    Some(crate::atlas::builder::RenderedImage { left: p.left, top: p.top, width: p.width, height: p.height, data })
}

/// The size of a font in pixels.
pub struct FontSize(pub u32);

/// The gap between two values that a 32-bit float holds around `v`: 1
/// below 2^24, doubling with each power of two above.
pub open spec fn f32_unit(v: nat) -> nat
    decreases v,
{
    if v < 0x100_0000 {
        1
    } else {
        2 * f32_unit(v / 2)
    }
}

/// `v` as a 32-bit float holds it: rounded to 24 significant bits, to the
/// nearest, ties to even.
pub open spec fn round_to_f32(v: nat) -> nat {
    let unit = f32_unit(v);
    let q = v / unit;
    let r = v % unit;
    let up = 2 * r > unit || (2 * r == unit && q % 2 == 1);
    (q + if up {
        1nat
    } else {
        0nat
    }) * unit
}

/// A font metric of `size`: the size as a float, times `factor` (rounded
/// as floats round), divided by 32, truncated, and cut to `u32::MAX`.
pub open spec fn scaled_metric(size: u32, factor: nat) -> u32 {
    let exact = round_to_f32(round_to_f32(size as nat) * factor) / 32;
    if exact > u32::MAX {
        u32::MAX
    } else {
        exact as u32
    }
}

/// Below 2^24 a float holds every whole number: for a size and factor
/// whose product stays below it, the metric is the exact fraction
/// `size * factor / 32`, rounded down.
pub proof fn lemma_small_metric_exact(size: u32, factor: nat)
    requires
        size * factor < 0x100_0000,
    ensures
        scaled_metric(size, factor) == size * factor / 32,
{
    let v = size as nat;
    if factor > 0 {
        assert(size <= size * factor) by (nonlinear_arith)
            requires
                factor >= 1,
        ;
        assert(f32_unit(v) == 1);
        assert(v / 1 == v && v % 1 == 0) by (nonlinear_arith);
        assert(round_to_f32(v) == v);
    } else {
        assert(round_to_f32(v) * factor == 0) by (nonlinear_arith)
            requires
                factor == 0,
        ;
    }
    let w = round_to_f32(v) * factor;
    assert(w == size * factor);
    assert(f32_unit(w) == 1);
    assert(w / 1 == w && w % 1 == 0) by (nonlinear_arith);
    assert(round_to_f32(w) == w);
}

/// The gap around `v` is at least 1, and `v` has at most 24 significant
/// bits of it: below 2^24 gaps, and at least 2^23 of them once the gap
/// exceeds 1.
proof fn lemma_f32_unit_bounds(v: nat)
    ensures
        f32_unit(v) >= 1,
        v < 0x100_0000 * f32_unit(v),
        f32_unit(v) > 1 ==> 0x80_0000 * f32_unit(v) <= v,
    decreases v,
{
    if v >= 0x100_0000 {
        let h = v / 2;
        lemma_f32_unit_bounds(h);
        let uh = f32_unit(h);
        assert(f32_unit(v) == 2 * uh);
        assert(v < 0x100_0000 * (2 * uh)) by (nonlinear_arith)
            requires
                h < 0x100_0000 * uh,
                h == v / 2,
        ;
        if uh > 1 {
            assert(0x80_0000 * (2 * uh) <= v) by (nonlinear_arith)
                requires
                    0x80_0000 * uh <= h,
                    h == v / 2,
            ;
        }
    }
}

/// Gaps grow with the value, each a power of two: a larger value has the
/// same gap or one at least twice as wide.
proof fn lemma_f32_unit_grows(u: nat, v: nat)
    requires
        u <= v,
    ensures
        f32_unit(u) == f32_unit(v) || 2 * f32_unit(u) <= f32_unit(v),
    decreases v,
{
    if u >= 0x100_0000 {
        lemma_f32_unit_grows(u / 2, v / 2);
    } else if v >= 0x100_0000 {
        lemma_f32_unit_bounds(v / 2);
    }
}

/// Rounding to a 32-bit float keeps the order of values.
proof fn lemma_round_to_f32_monotone(u: nat, v: nat)
    requires
        u <= v,
    ensures
        round_to_f32(u) <= round_to_f32(v),
{
    let uu = f32_unit(u);
    let uv = f32_unit(v);
    lemma_f32_unit_bounds(u);
    lemma_f32_unit_bounds(v);
    lemma_f32_unit_grows(u, v);
    let qu = u / uu;
    let ru = u % uu;
    let qv = v / uv;
    let rv = v % uv;
    vstd::arithmetic::div_mod::lemma_fundamental_div_mod(u as int, uu as int);
    vstd::arithmetic::div_mod::lemma_fundamental_div_mod(v as int, uv as int);
    vstd::arithmetic::div_mod::lemma_mod_bound(u as int, uu as int);
    vstd::arithmetic::div_mod::lemma_mod_bound(v as int, uv as int);
    let up_u: nat = if 2 * ru > uu || (2 * ru == uu && qu % 2 == 1) {
        1
    } else {
        0
    };
    let up_v: nat = if 2 * rv > uv || (2 * rv == uv && qv % 2 == 1) {
        1
    } else {
        0
    };
    assert(round_to_f32(u) == (qu + up_u) * uu);
    assert(round_to_f32(v) == (qv + up_v) * uv);
    if uu == uv {
        vstd::arithmetic::div_mod::lemma_div_is_ordered(u as int, v as int, uu as int);
        if qu == qv {
            assert(ru <= rv) by (nonlinear_arith)
                requires
                    u == uu * qu + ru,
                    v == uu * qv + rv,
                    qu == qv,
                    u <= v,
            ;
            assert(up_u <= up_v);
            assert((qu + up_u) * uu <= (qv + up_v) * uv) by (nonlinear_arith)
                requires
                    qu == qv,
                    up_u <= up_v,
                    uu == uv,
            ;
        } else {
            assert((qu + up_u) * uu <= (qv + up_v) * uv) by (nonlinear_arith)
                requires
                    qu < qv,
                    up_u <= 1,
                    uu == uv,
            ;
        }
    } else {
        assert(qu < 0x100_0000) by (nonlinear_arith)
            requires
                u < 0x100_0000 * uu,
                u == uu * qu + ru,
                uu >= 1,
        ;
        assert(0x80_0000 <= qv) by (nonlinear_arith)
            requires
                0x80_0000 * uv <= v,
                v == uv * qv + rv,
                rv < uv,
        ;
        assert((qu + up_u) * uu <= 0x100_0000 * uu) by (nonlinear_arith)
            requires
                qu + up_u <= 0x100_0000,
        ;
        assert(0x80_0000 * uv <= (qv + up_v) * uv) by (nonlinear_arith)
            requires
                0x80_0000 <= qv,
        ;
    }
}

/// A larger font has metrics at least as large: for every factor, the
/// metric of `a` is at most that of `b` when `a <= b`, so the advance and
/// the line spacing grow with the size.
pub proof fn lemma_metric_grows(a: u32, b: u32, factor: nat)
    requires
        a <= b,
    ensures
        scaled_metric(a, factor) <= scaled_metric(b, factor),
{
    lemma_round_to_f32_monotone(a as nat, b as nat);
    let fa = round_to_f32(a as nat) * factor;
    let fb = round_to_f32(b as nat) * factor;
    assert(fa <= fb) by (nonlinear_arith)
        requires
            round_to_f32(a as nat) <= round_to_f32(b as nat),
            fa == round_to_f32(a as nat) * factor,
            fb == round_to_f32(b as nat) * factor,
    ;
    lemma_round_to_f32_monotone(fa, fb);
    vstd::arithmetic::div_mod::lemma_div_is_ordered(round_to_f32(fa) as int, round_to_f32(fb) as int, 32);
}

/// Rounds `v` as a 32-bit float does.
#[verifier::spinoff_prover]
fn round_f32(v: u64) -> (rounded: u64)
    requires
        v < 0x100_0000_0000,
    ensures
        rounded == round_to_f32(v as nat),
        rounded <= 2 * v,
{
    let mut unit: u64 = 1;
    let mut w: u64 = v;
    while w >= 0x100_0000
        invariant
            unit >= 1,
            w as int == v as int / unit as int,
            unit * f32_unit(w as nat) == f32_unit(v as nat),
            unit * w <= v,
        decreases w,
    {
        proof {
            vstd::arithmetic::div_mod::lemma_div_denominator(v as int, unit as int, 2);
            assert(f32_unit(w as nat) == 2 * f32_unit((w / 2) as nat));
            assert(unit * f32_unit(w as nat) == (unit * 2) * f32_unit((w / 2) as nat)) by (nonlinear_arith)
                requires
                    f32_unit(w as nat) == 2 * f32_unit((w / 2) as nat),
            ;
            assert(unit * 2 <= unit * w) by (nonlinear_arith)
                requires
                    w >= 2,
                    unit >= 1,
            ;
            assert((unit * 2) * (w / 2) <= unit * w) by (nonlinear_arith)
                requires
                    unit >= 1,
            ;
        }
        w = w / 2;
        unit = unit * 2;
    }
    proof {
        assert(f32_unit(w as nat) == 1);
        vstd::arithmetic::div_mod::lemma_fundamental_div_mod(v as int, unit as int);
    }
    let q = w;
    proof {
        assert(q * unit == unit * w) by (nonlinear_arith)
            requires
                q == w,
        ;
    }
    let r = v - q * unit;
    proof {
        assert(r as int == v as int % unit as int);
        assert(unit == f32_unit(v as nat)) by (nonlinear_arith)
            requires
                unit * f32_unit(w as nat) == f32_unit(v as nat),
                f32_unit(w as nat) == 1,
        ;
        assert(q as nat == (v as nat) / (unit as nat));
        assert(r as nat == (v as nat) % (unit as nat));
    }
    let up = 2 * r > unit || (2 * r == unit && q % 2 == 1);
    if up {
        proof {
            assert((q + 1) * unit == q * unit + unit) by (nonlinear_arith);
            assert(unit <= 2 * r);
            assert(round_to_f32(v as nat) == (q + 1) * unit);
        }
        (q + 1) * unit
    } else {
        proof {
            assert(round_to_f32(v as nat) == q * unit);
        }
        q * unit
    }
}

/// A font metric of `size` for `factor`.
fn metric(size: u32, factor: u64) -> (m: u32)
    requires
        factor <= 40,
    ensures
        m == scaled_metric(size, factor as nat),
{
    let as_float = round_f32(size as u64);
    proof {
        assert(as_float * factor <= 2 * 0xffff_ffff * 40) by (nonlinear_arith)
            requires
                as_float <= 2 * 0xffff_ffffu64,
                factor <= 40,
        ;
    }
    let product = round_f32(as_float * factor);
    let exact = product / 32;
    if exact > 0xffff_ffff {
        u32::MAX
    } else {
        exact as u32
    }
}

impl FontSize {
    /// The distance between two glyphs of this size: 19/32 of it, computed
    /// as 32-bit floats compute it, then truncated.
    pub fn advance(&self) -> (advance: u32)
        ensures
            advance == scaled_metric(self.0, 19),
    {
        metric(self.0, 19)
    }

    /// The distance between two lines of this size: 40/32 of it, computed
    /// as 32-bit floats compute it, then truncated.
    pub fn line_spacing(&self) -> (spacing: u32)
        ensures
            spacing == scaled_metric(self.0, 40),
    {
        metric(self.0, 40)
    }
}

impl Default for FontSize {
    /// The default font size, 32.
    fn default() -> (s: FontSize)
        ensures
            s.0 == 32,
    {
        FontSize(32)
    }
}

/// The key by which the atlases of a font are cached.
#[derive(Clone, Copy, PartialEq, Eq, Hash)]
pub struct CustomFontCacheKey(pub swash::CacheKey);

/// A font file held in memory with the font chosen in it.
pub struct CustomFontSource {
    data: Vec<u8>,
    offset: u32,
    key: swash::CacheKey,
}

impl CustomFontSource {
    /// The bytes of the font file.
    pub closed spec fn spec_data(&self) -> Seq<u8> {
        self.data@
    }

    /// The offset of the chosen font within the file.
    pub closed spec fn spec_offset(&self) -> u32 {
        self.offset
    }

    /// The cache key that swash gave the font when it was opened.
    pub closed spec fn spec_key(&self) -> swash::CacheKey {
        self.key
    }

    /// Opens font number `index` of the file `data`; `None` when swash does
    /// not recognise a font there.
    pub fn from_bytes(data: &[u8], index: usize) -> (font: Option<Self>)
        requires
            index_offset_fits(index),
        ensures
            font is Some <==> font_offset_in(data@, index) is Some,
            font matches Some(f) ==> f.spec_data() == data@ && Some(f.spec_offset())
                == font_offset_in(data@, index),
    {
        match font_ref_from_index(data, index) {
            Some((offset, key)) => Some(CustomFontSource { data: slice_to_vec(data), offset, key }),
            None => None,
        }
    }

    /// Whether looking `c` up in the font's character map cannot overflow.
    pub fn maps_safely(&self, c: char) -> (safe: bool)
        ensures
            safe == char_maps_safely(self.spec_data(), c),
    {
        let code = c as u64;
        group_table_size_fits_check() && code_maps_safely_check(self.data.as_slice(), code) && (code > 0xff || code_maps_safely_check(
            self.data.as_slice(),
            code + 0xf000,
        ))
    }

    /// Whether swash can render glyph `glyph_id` of the font at
    /// `font_size` pixels within its size arithmetic: see
    /// [`renders_safely`].
    pub fn renders_safely(&self, font_size: u32, glyph_id: u16) -> (safe: bool)
        ensures
            safe == renders_safely(self.spec_data(), self.spec_offset(), font_size, glyph_id),
    {
        !font_has_color_bitmaps(self) && extent_fits_check(scaled_color_outline_extent(self, font_size, glyph_id))
            && extent_fits_check(scaled_outline_extent(self, font_size, glyph_id))
    }

    /// The glyph that the font's character map gives `c`.
    pub fn glyph_id(&self, c: char) -> (glyph: u16)
        requires
            char_maps_safely(self.spec_data(), c),
        ensures
            glyph == char_glyph_id(self.spec_data(), self.spec_offset(), c),
    {
        charmap_map(self.data.as_slice(), self.offset, self.key, c)
    }

    /// A swash reference to the font, sharing its bytes, offset and key.
    #[verifier::external_body]
    pub fn as_ref(&self) -> swash::FontRef<'_> {
        swash::FontRef { data: &self.data, offset: self.offset, key: self.key }
    }

    /// The key under which atlases of this font are cached: the font's own
    /// cache key, the same for every call.
    pub fn key(&self) -> (key: CustomFontCacheKey)
        ensures
            key.0 == self.spec_key(),
    {
        CustomFontCacheKey(self.key)
    }
}

/// The big-endian 32-bit value at byte `p` of `data`.
fn read_be_u32(data: &[u8], p: usize) -> (v: u64)
    requires
        p + 4 <= data@.len(),
    ensures
        v == be_u32(data@, p as int),
{
    (data[p] as u64) * 0x100_0000 + (data[p + 1] as u64) * 0x1_0000 + (data[p + 2] as u64) * 0x100
        + (data[p + 3] as u64)
}

/// Whether no group-shaped twelve bytes of `data` make the lookup of
/// `code` overflow.
fn code_maps_safely_check(data: &[u8], code: u64) -> (safe: bool)
    requires
        code <= 0x1_0000_0000,
    ensures
        safe == code_maps_safely(data@, code as int),
{
    if data.len() < 12 {
        return true;
    }
    let last = data.len() - 12;
    let mut p: usize = 0;
    while p <= last
        invariant
            last + 12 == data@.len(),
            last <= usize::MAX - 12,
            p <= last + 1,
            code <= 0x1_0000_0000,
            forall|q: int| 0 <= q < p && q + 12 <= data@.len() ==> !#[trigger] group_overflows(data@, q, code as int),
        decreases last + 1 - p,
    {
        let start = read_be_u32(data, p);
        let end = read_be_u32(data, p + 4);
        let delta = read_be_u32(data, p + 8);
        if start <= code && code <= end && code - start + delta > 0xffff_ffff {
            proof {
                assert(group_overflows(data@, p as int, code as int));
            }
            return false;
        }
        if p == last {
            return true;
        }
        p = p + 1;
    }
    true
}

/// A copy of the bytes of a slice.
fn slice_to_vec(data: &[u8]) -> (v: Vec<u8>)
    ensures
        v@ == data@,
{
    let mut v: Vec<u8> = Vec::with_capacity(data.len());
    let mut i: usize = 0;
    while i < data.len()
        invariant
            i <= data@.len(),
            v@ =~= data@.subrange(0, i as int),
        decreases data@.len() - i,
    {
        v.push(data[i]);
        i = i + 1;
    }
    assert(data@.subrange(0, data@.len() as int) =~= data@);
    v
}

/// Loads fonts from `.ttf` files.
pub struct CustomFontLoader;

impl CustomFontLoader {
    /// The file extensions the loader takes.
    pub fn extensions(&self) -> (extensions: &'static [&'static str])
        ensures
            extensions@.len() == 1,
            extensions@[0]@ == "ttf"@,
    {
        &["ttf"]
    }

    /// The font that a loaded file holds: its first font, or `None` where
    /// swash recognises none.
    pub fn load_bytes(&self, bytes: &[u8]) -> (font: Option<CustomFontSource>)
        ensures
            font is Some <==> font_offset_in(bytes@, 0) is Some,
            font matches Some(f) ==> f.spec_data() == bytes@ && Some(f.spec_offset()) == font_offset_in(
                bytes@,
                0,
            ),
    {
        CustomFontSource::from_bytes(bytes, 0)
    }
}

/// Marks an entity whose font has finished loading.
pub struct FontLoadedMarker;

} // verus!
