//! Building an atlas: rendering glyphs, ordering them from the tallest to
//! the shortest, packing them and drawing them into one texture.
use vstd::prelude::*;
use crate::atlas::packing::{places_match, try_pack_all, 
    heights_non_increasing, pack, packable, packed_side, shelf_placements, shelf_fits, first_fit,
    atlas_side,
};
use crate::atlas::{glyph_index_view, Atlas, AtlasItem, GlyphIndexMap};
use crate::font::{char_glyph_id, char_maps_safely, glyph_image, render_glyph, renders_safely, CustomFontSource};
use crate::math::{IVec2, UVec2};

verus! {

/// What swash rendered for a glyph: its placement and its pixels.
pub struct RenderedImage {
    pub left: i32,
    pub top: i32,
    pub width: u32,
    pub height: u32,
    pub data: Vec<u8>,
}

/// The image as plain values: its left, top, width, height and pixels.
pub open spec fn image_view(image: RenderedImage) -> (i32, i32, u32, u32, Seq<u8>) {
    (image.left, image.top, image.width, image.height, image.data@)
}

/// A glyph image waiting to be packed: the glyph, its offset (the image's
/// top, then its left), its size, and its RGBA pixels row by row.
pub struct RenderedGlyph {
    pub glyph_id: u16,
    pub ofset: IVec2,
    pub size: UVec2,
    pub texture: Vec<u8>,
}

/// `data` with every alpha byte (every fourth, from the fourth) set to
/// 0xff.
pub open spec fn opaque(data: Seq<u8>) -> Seq<u8> {
    Seq::new(data.len(), |i: int| if i % 4 == 3 {
        0xffu8
    } else {
        data[i]
    })
}

/// `glyph` is the glyph `glyph_id` as swash rendered it in `image` (left,
/// top, width, height, pixels): its offset is the image's top, then its
/// left; its size the image's; its pixels the image's, made opaque.
pub open spec fn is_glyph_of_image(glyph: RenderedGlyph, glyph_id: u16, image: (i32, i32, u32, u32, Seq<u8>)) -> bool {
    &&& glyph.glyph_id == glyph_id
    &&& glyph.ofset == (IVec2 { x: image.1, y: image.0 })
    &&& glyph.size == (UVec2 { x: image.2, y: image.3 })
    &&& glyph.texture@ == opaque(image.4)
}

impl RenderedGlyph {
    /// The glyph `glyph_id` from what swash rendered for it.
    pub fn from_image(glyph_id: u16, image: RenderedImage) -> (glyph: Self)
        ensures
            is_glyph_of_image(glyph, glyph_id, image_view(image)),
            alpha_opaque(glyph.texture@),
    {
        let ghost seen = image;
        let RenderedImage { left, top, width, height, data } = image;
        let texture = make_alpha_opaque(data);
        proof {
            assert(texture@ =~= opaque(seen.data@));
        }
        RenderedGlyph { glyph_id, ofset: IVec2 { x: top, y: left }, size: UVec2 { x: width, y: height }, texture }
    }
}

/// The position at which a glyph of height `h` goes into a list ordered
/// from the tallest to the shortest: after every glyph at least as tall.
pub open spec fn insertion_point(sorted: Seq<RenderedGlyph>, h: u32) -> int
    decreases sorted.len(),
{
    if sorted.len() == 0 || sorted[0].size.y < h {
        0
    } else {
        1 + insertion_point(sorted.drop_first(), h)
    }
}

/// `sorted` with `g` inserted at its insertion point.
pub open spec fn insert_by_height(sorted: Seq<RenderedGlyph>, g: RenderedGlyph) -> Seq<
    RenderedGlyph,
> {
    let p = insertion_point(sorted, g.size.y);
    sorted.take(p).push(g) + sorted.skip(p)
}

/// The glyphs ordered from the tallest to the shortest, glyphs of equal
/// height keeping their order (a stable sort).
pub open spec fn sort_by_height(s: Seq<RenderedGlyph>) -> Seq<RenderedGlyph>
    decreases s.len(),
{
    if s.len() == 0 {
        Seq::empty()
    } else {
        insert_by_height(sort_by_height(s.drop_last()), s.last())
    }
}

/// The sizes of the glyph images.
pub open spec fn sizes_of(s: Seq<RenderedGlyph>) -> Seq<UVec2> {
    Seq::new(s.len(), |i: int| s[i].size)
}

/// The background of an atlas: opaque red.
pub open spec fn background_byte(c: int) -> u8 {
    if c == 0 || c == 3 {
        0xff
    } else {
        0
    }
}

/// The index of channel `c` of the pixel at column `x`, row `y` in an RGBA
/// texture `side` pixels wide.
pub open spec fn pixel_index(side: int, x: int, y: int, c: int) -> int {
    4 * (x + y * side) + c
}

/// The image of size `size` placed at `pos` covers the pixel at `x`, `y`.
pub open spec fn covers(pos: UVec2, size: UVec2, x: int, y: int) -> bool {
    pos.x <= x < pos.x + size.x && pos.y <= y < pos.y + size.y
}

/// Channel `c` of the pixel of glyph `g`'s image that lands at `x`, `y`
/// when the image is placed at `pos`.
pub open spec fn glyph_byte(g: RenderedGlyph, pos: UVec2, x: int, y: int, c: int) -> u8 {
    g.texture@[4 * ((x - pos.x) + g.size.x * (y - pos.y)) + c]
}

/// Channel `c` of the atlas pixel at `x`, `y` after the first `n` glyphs
/// were drawn in order over the background, each at its position.
pub open spec fn atlas_byte(
    glyphs: Seq<RenderedGlyph>,
    positions: Seq<UVec2>,
    n: int,
    x: int,
    y: int,
    c: int,
) -> u8
    decreases n,
{
    if n <= 0 {
        background_byte(c)
    } else if covers(positions[n - 1], glyphs[n - 1].size, x, y) {
        glyph_byte(glyphs[n - 1], positions[n - 1], x, y, c)
    } else {
        atlas_byte(glyphs, positions, n - 1, x, y, c)
    }
}

/// The glyph index map of an atlas: each glyph identifier maps to the index
/// of its last image (an index that does not fit in a `u16` wraps).
pub open spec fn index_map_of(ids: Seq<u16>, n: int) -> Map<u16, u16>
    decreases n,
{
    if n <= 0 {
        Map::empty()
    } else {
        index_map_of(ids, n - 1).insert(ids[n - 1], (n - 1) as u16)
    }
}

/// Bounds for the index arithmetic of a texture.
proof fn lemma_grid_bound(a: int, b: int, n: int, m: int)
    by (nonlinear_arith)
    requires
        0 <= a < n,
        0 <= b < m,
    ensures
        0 <= a + b * n < n * m,
        0 <= b * n,
{
}

/// The area of a texture at most 16384 pixels square, and of any part of
/// it, fits easily in a `u32`.
proof fn lemma_area_bound(w: int, h: int, side: int)
    by (nonlinear_arith)
    requires
        0 <= w <= side,
        0 <= h <= side,
        side <= 16384,
    ensures
        0 <= w * h <= side * side,
        side * side <= 0x1000_0000,
        4 * side * side == 4 * (side * side),
        4 * w * h == 4 * (w * h),
{
}

/// Distinct pixels and channels of a texture have distinct indices.
proof fn lemma_pixel_index_injective(side: int, x1: int, y1: int, c1: int, x2: int, y2: int, c2: int)
    by (nonlinear_arith)
    requires
        0 <= x1 < side,
        0 <= x2 < side,
        0 <= y1,
        0 <= y2,
        0 <= c1 < 4,
        0 <= c2 < 4,
        pixel_index(side, x1, y1, c1) == pixel_index(side, x2, y2, c2),
    ensures
        x1 == x2 && y1 == y2 && c1 == c2,
{
    let a1 = x1 + y1 * side;
    let a2 = x2 + y2 * side;
    assert(a1 == a2 && c1 == c2);
    if y1 < y2 {
        assert(y2 * side >= (y1 + 1) * side);
    } else if y2 < y1 {
        assert(y1 * side >= (y2 + 1) * side);
    }
}

/// Writes the four channels of the pixel at `x`, `y`.
fn write_pixel(data: &mut Vec<u8>, side: u32, x: u32, y: u32, px: [u8; 4])
    requires
        x < side,
        y < side,
        side <= 16384,
        old(data)@.len() == 4 * side * side,
    ensures
        final(data)@.len() == old(data)@.len(),
        forall|c: int| 0 <= c < 4 ==> final(data)@[pixel_index(side as int, x as int, y as int, c)] == px@[c],
        forall|x2: int, y2: int, c: int|
            #![trigger final(data)@[pixel_index(side as int, x2, y2, c)]]
            0 <= x2 < side && 0 <= y2 < side && 0 <= c < 4 && (x2 != x || y2 != y)
                ==> final(data)@[pixel_index(side as int, x2, y2, c)]
                == old(data)@[pixel_index(side as int, x2, y2, c)],
{
    proof {
        lemma_grid_bound(x as int, y as int, side as int, side as int);
        lemma_area_bound(side as int, side as int, side as int);
    }
    let base = (4 * (x + y * side)) as usize;
    let ghost before = data@;
    data.set(base, px[0]);
    data.set(base + 1, px[1]);
    data.set(base + 2, px[2]);
    data.set(base + 3, px[3]);
    proof {
        assert forall|x2: int, y2: int, c: int|
            0 <= x2 < side && 0 <= y2 < side && 0 <= c < 4 && (x2 != x || y2 != y) implies data@[pixel_index(
            side as int,
            x2,
            y2,
            c,
        )] == before[pixel_index(side as int, x2, y2, c)] by {
            let i = pixel_index(side as int, x2, y2, c);
            lemma_grid_bound(x2, y2, side as int, side as int);
            if i == base || i == base + 1 || i == base + 2 || i == base + 3 {
                let c1 = i - base;
                lemma_pixel_index_injective(side as int, x as int, y as int, c1, x2, y2, c);
            }
        }
        assert forall|c: int| 0 <= c < 4 implies data@[pixel_index(side as int, x as int, y as int, c)]
            == px@[c] by {
            assert(pixel_index(side as int, x as int, y as int, c) == base + c);
        }
    }
}

/// Draws the glyph images, each at its position, over an opaque red
/// square of side `side`.
fn compose(glyphs: &Vec<RenderedGlyph>, positions: &Vec<UVec2>, side: u32) -> (data: Vec<u8>)
    requires
        side <= 16384,
        positions@.len() == glyphs@.len(),
        forall|i: int|
            0 <= i < glyphs@.len() ==> #[trigger] positions@[i].x + glyphs@[i].size.x <= side
                && (glyphs@[i].size.x > 0 ==> positions@[i].y + glyphs@[i].size.y <= side)
                && glyphs@[i].texture@.len() >= 4 * glyphs@[i].size.x * glyphs@[i].size.y,
    ensures
        data@.len() == 4 * side * side,
        forall|x: int, y: int, c: int|
            #![trigger data@[pixel_index(side as int, x, y, c)]]
            0 <= x < side && 0 <= y < side && 0 <= c < 4 ==> data@[pixel_index(side as int, x, y, c)]
                == atlas_byte(glyphs@, positions@, glyphs@.len() as int, x, y, c),
{
    proof {
        lemma_area_bound(side as int, side as int, side as int);
    }
    let total = side * side;
    proof {
        if side > 0 {
            lemma_grid_bound(side as int - 1, side as int - 1, side as int, side as int);
        }
    }
    let mut data: Vec<u8> = Vec::with_capacity((4 * total) as usize);
    let mut p: u32 = 0;
    while p < total
        invariant
            p <= total,
            total == side * side,
            side <= 16384,
            data@.len() == 4 * p,
            forall|q: int, c: int|
                #![trigger data@[4 * q + c]]
                0 <= q < p && 0 <= c < 4 ==> data@[4 * q + c] == background_byte(c),
        decreases total - p,
    {
        let ghost before = data@;
        data.push(0xff);
        data.push(0x00);
        data.push(0x00);
        data.push(0xff);
        proof {
            assert forall|q: int, c: int| 0 <= q < p + 1 && 0 <= c < 4 implies #[trigger] data@[4 * q
                + c] == background_byte(c) by {
                if q < p {
                    assert(data@[4 * q + c] == before[4 * q + c]);
                }
            }
        }
        p = p + 1;
    }
    proof {
        assert forall|x: int, y: int, c: int|
            0 <= x < side && 0 <= y < side && 0 <= c < 4 implies #[trigger] data@[pixel_index(
            side as int,
            x,
            y,
            c,
        )] == atlas_byte(glyphs@, positions@, 0, x, y, c) by {
            lemma_grid_bound(x, y, side as int, side as int);
            assert(data@[4 * (x + y * side) + c] == background_byte(c));
        }
    }
    let mut i: usize = 0;
    while i < glyphs.len()
        invariant
            side <= 16384,
            positions@.len() == glyphs@.len(),
            i <= glyphs@.len(),
            forall|j: int|
                0 <= j < glyphs@.len() ==> #[trigger] positions@[j].x + glyphs@[j].size.x <= side
                    && (glyphs@[j].size.x > 0 ==> positions@[j].y + glyphs@[j].size.y <= side)
                    && glyphs@[j].texture@.len() >= 4 * glyphs@[j].size.x * glyphs@[j].size.y,
            data@.len() == 4 * side * side,
            forall|x: int, y: int, c: int|
                #![trigger data@[pixel_index(side as int, x, y, c)]]
                0 <= x < side && 0 <= y < side && 0 <= c < 4 ==> data@[pixel_index(
                    side as int,
                    x,
                    y,
                    c,
                )] == atlas_byte(glyphs@, positions@, i as int, x, y, c),
        decreases glyphs@.len() - i,
    {
        let g = &glyphs[i];
        let pos = positions[i];
        let w = g.size.x;
        let h = g.size.y;
        let ghost start = data@;
        let mut y: u32 = 0;
        while y < h
            invariant
                side <= 16384,
                *g == glyphs@[i as int],
                pos == positions@[i as int],
                w == g.size.x,
                h == g.size.y,
                pos.x + w <= side,
                w > 0 ==> pos.y + h <= side,
                g.texture@.len() >= 4 * w * h,
                y <= h,
                data@.len() == 4 * side * side,
                forall|x: int, yy: int, c: int|
                    #![trigger data@[pixel_index(side as int, x, yy, c)]]
                    0 <= x < side && 0 <= yy < side && 0 <= c < 4 ==> data@[pixel_index(
                        side as int,
                        x,
                        yy,
                        c,
                    )] == if covers(pos, g.size, x, yy) && yy < pos.y + y {
                        glyph_byte(*g, pos, x, yy, c)
                    } else {
                        start[pixel_index(side as int, x, yy, c)]
                    },
            decreases h - y,
        {
            let mut x: u32 = 0;
            while x < w
                invariant
                    side <= 16384,
                    w == g.size.x,
                    h == g.size.y,
                    pos.x + w <= side,
                    w > 0 ==> pos.y + h <= side,
                    g.texture@.len() >= 4 * w * h,
                    y < h,
                    x <= w,
                    data@.len() == 4 * side * side,
                    forall|xx: int, yy: int, c: int|
                        #![trigger data@[pixel_index(side as int, xx, yy, c)]]
                        0 <= xx < side && 0 <= yy < side && 0 <= c < 4 ==> data@[pixel_index(
                            side as int,
                            xx,
                            yy,
                            c,
                        )] == if covers(pos, g.size, xx, yy) && (yy < pos.y + y || (yy == pos.y
                            + y && xx < pos.x + x)) {
                            glyph_byte(*g, pos, xx, yy, c)
                        } else {
                            start[pixel_index(side as int, xx, yy, c)]
                        },
                decreases w - x,
            {
                proof {
                    lemma_grid_bound(x as int, y as int, w as int, h as int);
                    lemma_area_bound(w as int, h as int, side as int);
                }
                let src = (4 * (x + w * y)) as usize;
                let px = [g.texture[src], g.texture[src + 1], g.texture[src + 2], g.texture[src + 3]];
                let ghost before = data@;
                write_pixel(&mut data, side, x + pos.x, y + pos.y, px);
                proof {
                    assert forall|xx: int, yy: int, c: int|
                        0 <= xx < side && 0 <= yy < side && 0 <= c < 4 implies #[trigger] data@[pixel_index(
                        side as int,
                        xx,
                        yy,
                        c,
                    )] == if covers(pos, g.size, xx, yy) && (yy < pos.y + y || (yy == pos.y + y
                        && xx < pos.x + x + 1)) {
                        glyph_byte(*g, pos, xx, yy, c)
                    } else {
                        start[pixel_index(side as int, xx, yy, c)]
                    } by {
                        if xx == x + pos.x && yy == y + pos.y {
                            assert(px@[c] == g.texture@[4 * (x + w * y) + c]);
                            assert(xx - pos.x == x && yy - pos.y == y);
                        } else {
                            assert(data@[pixel_index(side as int, xx, yy, c)] == before[pixel_index(
                                side as int,
                                xx,
                                yy,
                                c,
                            )]);
                        }
                    }
                }
                x = x + 1;
            }
            y = y + 1;
        }
        proof {
            assert forall|x: int, yy: int, c: int|
                0 <= x < side && 0 <= yy < side && 0 <= c < 4 implies #[trigger] data@[pixel_index(
                side as int,
                x,
                yy,
                c,
            )] == atlas_byte(glyphs@, positions@, i + 1, x, yy, c) by {
                assert(start[pixel_index(side as int, x, yy, c)] == atlas_byte(
                    glyphs@,
                    positions@,
                    i as int,
                    x,
                    yy,
                    c,
                ));
            }
        }
        i = i + 1;
    }
    data
}


/// The insertion point comes after every glyph at least as tall and, in a
/// list ordered from the tallest down, before every shorter one.
proof fn lemma_insertion_point(sorted: Seq<RenderedGlyph>, h: u32)
    ensures
        0 <= insertion_point(sorted, h) <= sorted.len(),
        forall|j: int| 0 <= j < insertion_point(sorted, h) ==> #[trigger] sorted[j].size.y >= h,
        insertion_point(sorted, h) < sorted.len() ==> sorted[insertion_point(sorted, h)].size.y < h,
    decreases sorted.len(),
{
    if sorted.len() > 0 && sorted[0].size.y >= h {
        lemma_insertion_point(sorted.drop_first(), h);
        assert forall|j: int| 0 <= j < insertion_point(sorted, h) implies #[trigger] sorted[j].size.y
            >= h by {
            if j > 0 {
                assert(sorted[j] == sorted.drop_first()[j - 1]);
            }
        }
    }
}

/// Sorting by height only reorders the glyphs: it holds each as many times
/// as the glyphs it was given.
pub proof fn lemma_sort_by_height_permutes(s: Seq<RenderedGlyph>)
    ensures
        sort_by_height(s).to_multiset() =~= s.to_multiset(),
    decreases s.len(),
{
    broadcast use vstd::seq_lib::group_to_multiset_ensures;

    if s.len() == 0 {
        assert(sort_by_height(s) =~= s);
    } else {
        lemma_sort_by_height_permutes(s.drop_last());
        let prev = sort_by_height(s.drop_last());
        let g = s.last();
        let p = insertion_point(prev, g.size.y);
        lemma_insertion_point(prev, g.size.y);
        vstd::seq_lib::lemma_multiset_commutative(prev.take(p).push(g), prev.skip(p));
        vstd::seq_lib::lemma_multiset_commutative(prev.take(p), prev.skip(p));
        assert(prev.take(p) + prev.skip(p) =~= prev);
        assert(s.drop_last().push(g) =~= s);
        assert(sort_by_height(s).to_multiset() =~= prev.to_multiset().insert(g));
        assert(s.to_multiset() =~= s.drop_last().to_multiset().insert(g));
    }
}

/// Sorting keeps the number of glyphs and orders them from the tallest to
/// the shortest.
pub proof fn lemma_sort_by_height(s: Seq<RenderedGlyph>)
    ensures
        sort_by_height(s).len() == s.len(),
        heights_non_increasing(sizes_of(sort_by_height(s))),
    decreases s.len(),
{
    if s.len() > 0 {
        lemma_sort_by_height(s.drop_last());
        let prev = sort_by_height(s.drop_last());
        let g = s.last();
        let p = insertion_point(prev, g.size.y);
        lemma_insertion_point(prev, g.size.y);
        let r = sort_by_height(s);
        assert(r == prev.take(p).push(g) + prev.skip(p));
        assert forall|a: int, b: int| 0 <= a <= b < prev.len() implies #[trigger] prev[b].size.y
            <= #[trigger] prev[a].size.y by {
            assert(sizes_of(prev)[a] == prev[a].size);
            assert(sizes_of(prev)[b] == prev[b].size);
        }
        assert forall|i: int| 0 <= i < r.len() implies #[trigger] r[i] == (if i < p {
            prev[i]
        } else if i == p {
            g
        } else {
            prev[i - 1]
        }) by {}
        assert forall|i: int, j: int| 0 <= i <= j < r.len() implies #[trigger] sizes_of(r)[j].y
            <= #[trigger] sizes_of(r)[i].y by {
            assert(sizes_of(r)[i] == r[i].size);
            assert(sizes_of(r)[j] == r[j].size);
            if i < p && j > p {
                assert(prev[j - 1].size.y <= prev[i].size.y);
            } else if i == p && j > p {
                assert(prev[j - 1].size.y <= prev[p].size.y);
            } else if i > p && j > p {
                assert(prev[j - 1].size.y <= prev[i - 1].size.y);
            } else if i < p && j < p {
                assert(prev[j].size.y <= prev[i].size.y);
            }
        }
    }
}

/// Orders the glyphs from the tallest to the shortest, keeping the order
/// of glyphs of equal height.
fn sort_rendered(v: Vec<RenderedGlyph>) -> (r: Vec<RenderedGlyph>)
    ensures
        r@ == sort_by_height(v@),
{
    let ghost orig = v@;
    let mut input = v;
    let n = input.len();
    let mut sorted: Vec<RenderedGlyph> = Vec::with_capacity(n);
    let mut i: usize = 0;
    while i < n
        invariant
            n == orig.len(),
            i <= n,
            input@ == orig.skip(i as int),
            sorted@ == sort_by_height(orig.take(i as int)),
        decreases n - i,
    {
        assert(input@.len() > 0);
        let g = input.remove(0);
        assert(g == orig[i as int]);
        let h = g.size.y;
        let mut p: usize = 0;
        assert(sorted@.skip(0) =~= sorted@);
        while p < sorted.len()
            invariant
                p <= sorted@.len(),
                insertion_point(sorted@, h) == p + insertion_point(sorted@.skip(p as int), h),
            ensures
                p <= sorted@.len(),
                insertion_point(sorted@, h) == p + insertion_point(sorted@.skip(p as int), h),
                p == sorted@.len() || sorted@[p as int].size.y < h,
            decreases sorted@.len() - p,
        {
            if sorted[p].size.y < h {
                break;
            }
            assert(sorted@.skip(p as int).drop_first() =~= sorted@.skip(p + 1));
            p = p + 1;
        }
        proof {
            if p < sorted@.len() {
                assert(sorted@.skip(p as int)[0] == sorted@[p as int]);
            }
            assert(insertion_point(sorted@.skip(p as int), h) == 0);
            assert(orig.take(i + 1).drop_last() =~= orig.take(i as int));
            assert(orig.take(i + 1).last() == g);
            assert(orig.skip(i as int).drop_first() =~= orig.skip(i + 1));
        }
        let ghost before = sorted@;
        sorted.insert(p, g);
        assert(sorted@ =~= before.take(p as int).push(g) + before.skip(p as int));
        i = i + 1;
    }
    assert(orig.take(n as int) =~= orig);
    sorted
}

/// Collects the sizes of the glyph images.
fn collect_sizes(glyphs: &Vec<RenderedGlyph>) -> (sizes: Vec<UVec2>)
    ensures
        sizes@ == sizes_of(glyphs@),
{
    let mut sizes: Vec<UVec2> = Vec::with_capacity(glyphs.len());
    let mut i: usize = 0;
    while i < glyphs.len()
        invariant
            i <= glyphs@.len(),
            sizes@.len() == i,
            forall|j: int| 0 <= j < i ==> #[trigger] sizes@[j] == glyphs@[j].size,
        decreases glyphs@.len() - i,
    {
        sizes.push(glyphs[i].size);
        i = i + 1;
    }
    assert(sizes@ =~= sizes_of(glyphs@));
    sizes
}

/// The glyphs can be drawn into the atlas that packing gives them: the
/// packing ends at a side of at most 16384 (so the texture's byte count fits
/// a `u32`), every glyph with pixels lies within the atlas rows, and every
/// image holds four bytes per pixel.
pub open spec fn drawable(sorted: Seq<RenderedGlyph>) -> bool {
    let sizes = sizes_of(sorted);
    let side = packed_side(sizes);
    &&& packable(sizes)
    &&& side <= 16384
    &&& forall|i: int|
        0 <= i < sorted.len() ==> (#[trigger] sorted[i].size.x > 0 ==> shelf_placements(
            sizes,
            side,
        )[i].1 + sorted[i].size.y <= side)
    &&& forall|i: int|
        0 <= i < sorted.len() ==> #[trigger] sorted[i].texture@.len() >= 4 * sorted[i].size.x
            * sorted[i].size.y
}

/// Collects builds an atlas from glyph images: where each lies, which glyph
/// it shows, and the index of each glyph (the last image of a glyph wins).
fn collect_items(glyphs: &Vec<RenderedGlyph>, positions: &Vec<UVec2>) -> (r: (
    Vec<AtlasItem>,
    Vec<u16>,
    GlyphIndexMap,
))
    requires
        positions@.len() == glyphs@.len(),
    ensures
        r.0@.len() == glyphs@.len(),
        r.1@.len() == glyphs@.len(),
        forall|i: int|
            0 <= i < glyphs@.len() ==> #[trigger] r.0@[i] == (AtlasItem {
                start: positions@[i],
                size: glyphs@[i].size,
                offset: glyphs@[i].ofset,
            }) && r.1@[i] == glyphs@[i].glyph_id,
        glyph_index_view(r.2) == index_map_of(r.1@, glyphs@.len() as int),
{
    let mut items: Vec<AtlasItem> = Vec::with_capacity(glyphs.len());
    let mut ids: Vec<u16> = Vec::with_capacity(glyphs.len());
    let mut index = GlyphIndexMap::new();
    let mut i: usize = 0;
    while i < glyphs.len()
        invariant
            positions@.len() == glyphs@.len(),
            i <= glyphs@.len(),
            items@.len() == i,
            ids@.len() == i,
            forall|j: int|
                0 <= j < i ==> #[trigger] items@[j] == (AtlasItem {
                    start: positions@[j],
                    size: glyphs@[j].size,
                    offset: glyphs@[j].ofset,
                }) && ids@[j] == glyphs@[j].glyph_id,
            glyph_index_view(index) == index_map_of(ids@, i as int),
        decreases glyphs@.len() - i,
    {
        let ghost ids_before = ids@;
        items.push(AtlasItem { start: positions[i], size: glyphs[i].size, offset: glyphs[i].ofset });
        ids.push(glyphs[i].glyph_id);
        index.insert(glyphs[i].glyph_id, i as u16);
        proof {
            assert(index_map_of(ids@, i as int) == index_map_of(ids_before, i as int)) by {
                lemma_index_map_prefix(ids_before, ids@, i as int);
            }
        }
        i = i + 1;
    }
    (items, ids, index)
}

/// The index map of a prefix depends on that prefix only.
proof fn lemma_index_map_prefix(a: Seq<u16>, b: Seq<u16>, n: int)
    requires
        0 <= n <= a.len(),
        n <= b.len(),
        forall|j: int| 0 <= j < n ==> a[j] == b[j],
    ensures
        index_map_of(a, n) == index_map_of(b, n),
    decreases n,
{
    if n > 0 {
        lemma_index_map_prefix(a, b, n - 1);
    }
}

/// `after` is `before` with glyph `glyph_id` inserted, as `r` tells: swash
/// renders the glyph (in subpixel format, at the builder's size) exactly
/// when `r` is `Some`, and then its image, made opaque, is appended to the
/// glyphs; otherwise they stay as they were. Nothing else changes.
pub open spec fn glyph_inserted<'a>(before: AtlasBuilder<'a>, after: AtlasBuilder<'a>, glyph_id: u16, r: Option<()>) -> bool {
    let font = before.spec_font();
    let image = glyph_image(font.spec_data(), font.spec_offset(), before.spec_font_size(), glyph_id);
    &&& after.spec_font() == before.spec_font()
    &&& after.spec_font_size() == before.spec_font_size()
    &&& after.spec_size() == before.spec_size()
    &&& after.spec_positions() == before.spec_positions()
    &&& r is Some <==> image is Some
    &&& r is None ==> after.spec_rendered() == before.spec_rendered()
    &&& r is Some ==> after.spec_rendered().len() == before.spec_rendered().len() + 1
        && after.spec_rendered().drop_last() == before.spec_rendered() && is_glyph_of_image(
        after.spec_rendered().last(),
        glyph_id,
        image.unwrap(),
    )
}

/// Builds font atlases: renders glyphs of a font, then packs them into one
/// texture.
pub struct AtlasBuilder<'a> {
    font: &'a CustomFontSource,
    font_size: u32,
    rendered: Vec<RenderedGlyph>,
    packed_positions: Vec<UVec2>,
    size: u32,
}

impl<'a> AtlasBuilder<'a> {
    /// The glyph images rendered so far.
    pub closed spec fn spec_rendered(&self) -> Seq<RenderedGlyph> {
        self.rendered@
    }

    /// The font whose glyphs are rendered.
    pub closed spec fn spec_font(&self) -> CustomFontSource {
        *self.font
    }

    /// The size in pixels at which glyphs are rendered.
    pub closed spec fn spec_font_size(&self) -> u32 {
        self.font_size
    }

    /// The side of the atlas found by the last packing.
    pub closed spec fn spec_size(&self) -> u32 {
        self.size
    }

    /// The positions found by the last packing.
    pub closed spec fn spec_positions(&self) -> Seq<UVec2> {
        self.packed_positions@
    }

    /// A builder for the font, rendering at `font_size` pixels, with no
    /// glyph yet.
    pub fn new(font: &'a CustomFontSource, font_size: u32) -> (b: Self)
        ensures
            b.spec_rendered() == Seq::<RenderedGlyph>::empty(),
            b.spec_font() == *font,
            b.spec_font_size() == font_size,
            b.spec_size() == 0,
            b.spec_positions() == Seq::<UVec2>::empty(),
    {
        AtlasBuilder { font, font_size, rendered: Vec::new(), packed_positions: Vec::new(), size: 0 }
    }

    /// Renders the glyph that the font's character map gives `glyph`, and
    /// keeps its image as [`AtlasBuilder::insert_glyph`] does.
    pub fn insert_char(&mut self, glyph: char) -> (r: Option<()>)
        requires
            char_maps_safely(old(self).spec_font().spec_data(), glyph),
            renders_safely(
                old(self).spec_font().spec_data(),
                old(self).spec_font().spec_offset(),
                old(self).spec_font_size(),
                char_glyph_id(old(self).spec_font().spec_data(), old(self).spec_font().spec_offset(), glyph),
            ),
        ensures
            glyph_inserted(
                *old(self),
                *final(self),
                char_glyph_id(old(self).spec_font().spec_data(), old(self).spec_font().spec_offset(), glyph),
                r,
            ),
    {
        let glyph_id = self.font.glyph_id(glyph);
        self.insert_glyph(glyph_id)
    }

    /// Renders a glyph in subpixel format at the builder's size and keeps
    /// its image with every alpha byte set to 0xff; `None`, keeping the
    /// glyphs as they were, when swash gives no image.
    pub fn insert_glyph(&mut self, glyph_id: u16) -> (r: Option<()>)
        requires
            renders_safely(
                old(self).spec_font().spec_data(),
                old(self).spec_font().spec_offset(),
                old(self).spec_font_size(),
                glyph_id,
            ),
        ensures
            glyph_inserted(*old(self), *final(self), glyph_id, r),
    {
        let image = render_glyph(self.font, self.font_size, glyph_id);
        let image = match image {
            Some(image) => image,
            None => {
                return None;
            },
        };
        let ghost seen = image;
        let glyph = RenderedGlyph::from_image(glyph_id, image);
        let ghost before = self.rendered@;
        self.rendered.push(glyph);
        assert(self.rendered@.drop_last() == before);
        assert(is_glyph_of_image(self.rendered@.last(), glyph_id, image_view(seen)));
        Some(())
    }

    /// Inserts the glyph as [`AtlasBuilder::insert_glyph`] does where swash
    /// can render it within its size arithmetic; `None`, leaving the builder
    /// as it was, where it cannot.
    pub fn try_insert_glyph(&mut self, glyph_id: u16) -> (r: Option<Option<()>>)
        ensures
            r is None <==> !renders_safely(
                old(self).spec_font().spec_data(),
                old(self).spec_font().spec_offset(),
                old(self).spec_font_size(),
                glyph_id,
            ),
            r is None ==> *final(self) == *old(self),
            r matches Some(inserted) ==> glyph_inserted(*old(self), *final(self), glyph_id, inserted),
    {
        if !self.font.renders_safely(self.font_size, glyph_id) {
            return None;
        }
        Some(self.insert_glyph(glyph_id))
    }

    /// Inserts the glyph of `glyph` as [`AtlasBuilder::insert_char`] does
    /// where its lookup and its rendering stay within swash's arithmetic;
    /// `None`, leaving the builder as it was, where they do not.
    pub fn try_insert_char(&mut self, glyph: char) -> (r: Option<Option<()>>)
        ensures
            r is None <==> !char_maps_safely(old(self).spec_font().spec_data(), glyph) || !renders_safely(
                old(self).spec_font().spec_data(),
                old(self).spec_font().spec_offset(),
                old(self).spec_font_size(),
                char_glyph_id(old(self).spec_font().spec_data(), old(self).spec_font().spec_offset(), glyph),
            ),
            r is None ==> *final(self) == *old(self),
            r matches Some(inserted) ==> glyph_inserted(
                *old(self),
                *final(self),
                char_glyph_id(old(self).spec_font().spec_data(), old(self).spec_font().spec_offset(), glyph),
                inserted,
            ),
    {
        if !self.font.maps_safely(glyph) {
            return None;
        }
        let glyph_id = self.font.glyph_id(glyph);
        if !self.font.renders_safely(self.font_size, glyph_id) {
            return None;
        }
        Some(self.insert_char(glyph))
    }

    /// Orders the glyphs from the tallest to the shortest and packs them.
    fn create_packing(&mut self)
        requires
            packable(sizes_of(sort_by_height(old(self).rendered@))),
        ensures
            final(self).rendered@ == sort_by_height(old(self).rendered@),
            final(self).size == packed_side(sizes_of(final(self).rendered@)),
            final(self).font == old(self).font,
            shelf_fits(sizes_of(final(self).rendered@), final(self).size as int),
            places_of(sizes_of(final(self).rendered@), final(self).size as int, final(self).packed_positions@),
    {
        let mut rendered: Vec<RenderedGlyph> = Vec::new();
        std::mem::swap(&mut rendered, &mut self.rendered);
        self.rendered = sort_rendered(rendered);
        let sizes = collect_sizes(&self.rendered);
        let (size, positions) = pack(&sizes);
        self.size = size;
        self.packed_positions = positions;
    }

    /// Whether [`AtlasBuilder::build`] can draw the glyphs rendered so far.
    pub open spec fn can_build(&self) -> bool {
        drawable(sort_by_height(self.spec_rendered()))
    }

    /// Orders the glyphs from the tallest to the shortest, packs them and
    /// draws them into an atlas: every glyph's pixels at its place over an
    /// opaque red background, with its place, size and offset, its glyph
    /// identifier, and the index of each glyph identifier.
    pub fn build(&mut self) -> (atlas: Atlas)
        requires
            old(self).can_build(),
        ensures
            final(self).spec_rendered() == sort_by_height(old(self).spec_rendered()),
            final(self).spec_font() == old(self).spec_font(),
            built_atlas(final(self).spec_rendered(), atlas),
            reads_back(final(self).spec_rendered(), atlas),
    {
        proof {
            lemma_sort_by_height(old(self).rendered@);
        }
        self.create_packing();
        let atlas = self.draw();
        proof {
            lemma_atlas_reads_back(self.rendered@, atlas);
        }
        atlas
    }

    /// Like [`AtlasBuilder::build`], but `None` when the glyphs cannot be
    /// drawn (see [`drawable`]), after ordering them.
    pub fn try_build(&mut self) -> (atlas: Option<Atlas>)
        ensures
            final(self).spec_rendered() == sort_by_height(old(self).spec_rendered()),
            final(self).spec_font() == old(self).spec_font(),
            atlas is Some <==> old(self).can_build(),
            atlas matches Some(a) ==> built_atlas(final(self).spec_rendered(), a) && reads_back(
                final(self).spec_rendered(),
                a,
            ),
    {
        proof {
            lemma_sort_by_height(old(self).rendered@);
        }
        let mut rendered: Vec<RenderedGlyph> = Vec::new();
        std::mem::swap(&mut rendered, &mut self.rendered);
        self.rendered = sort_rendered(rendered);
        let sizes = collect_sizes(&self.rendered);
        let (side, positions) = match try_pack_all(&sizes) {
            Some(res) => res,
            None => {
                return None;
            },
        };
        if !drawable_check(&self.rendered, side, &positions) {
            return None;
        }
        self.size = side;
        self.packed_positions = positions;
        let atlas = self.draw();
        proof {
            lemma_atlas_reads_back(self.rendered@, atlas);
        }
        Some(atlas)
    }

    /// Draws the packed glyphs into an atlas.
    fn draw(&self) -> (atlas: Atlas)
        requires
            heights_non_increasing(sizes_of(self.rendered@)),
            drawable(self.rendered@),
            self.size == packed_side(sizes_of(self.rendered@)),
            shelf_fits(sizes_of(self.rendered@), self.size as int),
            places_of(sizes_of(self.rendered@), self.size as int, self.packed_positions@),
        ensures
            built_atlas(self.rendered@, atlas),
    {
        let glyphs = &self.rendered;
        let side = self.size;
        proof {
            assert(0 <= side);
            crate::atlas::packing::lemma_shelf_packing_sound(sizes_of(glyphs@), side as int);
            assert forall|i: int| 0 <= i < glyphs@.len() implies #[trigger] self.packed_positions@[i].x
                + glyphs@[i].size.x <= side && (glyphs@[i].size.x > 0 ==> self.packed_positions@[i].y
                + glyphs@[i].size.y <= side) && glyphs@[i].texture@.len() >= 4 * glyphs@[i].size.x
                * glyphs@[i].size.y by {
                assert(sizes_of(glyphs@)[i] == glyphs@[i].size);
                assert(glyphs@[i].size.x > 0 ==> shelf_placements(sizes_of(glyphs@), side as int)[i].1
                    + glyphs@[i].size.y <= side);
            }
            let sizes = sizes_of(glyphs@);
            let positions = Seq::new(
                glyphs@.len(),
                |i: int| UVec2 { x: shelf_placements(sizes, side as int)[i].0 as u32, y: shelf_placements(sizes, side as int)[i].1 as u32 },
            );
            assert forall|i: int| 0 <= i < glyphs@.len() implies #[trigger] self.packed_positions@[i] == positions[i] by {
                assert(self.packed_positions@[i].x == shelf_placements(sizes, side as int)[i].0);
                assert(self.packed_positions@[i].y == shelf_placements(sizes, side as int)[i].1);
            }
            assert(self.packed_positions@ =~= positions);
        }
        let data = compose(glyphs, &self.packed_positions, side);
        let (items, glyph_ids, local_index) = collect_items(glyphs, &self.packed_positions);
        Atlas { data, size: side, items, local_index, glyph_ids }
    }
}

/// Whether packed glyphs can be drawn: see [`drawable`].
fn drawable_check(glyphs: &Vec<RenderedGlyph>, side: u32, positions: &Vec<UVec2>) -> (b: bool)
    requires
        side == packed_side(sizes_of(glyphs@)),
        packable(sizes_of(glyphs@)),
        places_of(sizes_of(glyphs@), side as int, positions@),
    ensures
        b == drawable(glyphs@),
{
    if side > 16384 {
        return false;
    }
    let mut i: usize = 0;
    while i < glyphs.len()
        invariant
            side <= 16384,
            i <= glyphs@.len(),
            side == packed_side(sizes_of(glyphs@)),
            places_of(sizes_of(glyphs@), side as int, positions@),
            forall|j: int|
                0 <= j < i ==> (#[trigger] glyphs@[j].size.x > 0 ==> shelf_placements(
                    sizes_of(glyphs@),
                    side as int,
                )[j].1 + glyphs@[j].size.y <= side) && glyphs@[j].texture@.len() >= 4
                    * glyphs@[j].size.x * glyphs@[j].size.y,
        decreases glyphs@.len() - i,
    {
        let g = &glyphs[i];
        let w = g.size.x as u64;
        let h = g.size.y as u64;
        proof {
            assert(sizes_of(glyphs@)[i as int] == g.size);
            assert(positions@[i as int].y == shelf_placements(sizes_of(glyphs@), side as int)[i as int].1);
            lemma_mul_bound_u32(w as int, h as int);
        }
        if w > 0 && positions[i].y as u64 + h > side as u64 {
            return false;
        }
        let quarter = (g.texture.len() / 4) as u64;
        if quarter < w * h {
            proof {
                lemma_quarter(g.texture@.len() as int, (w * h) as int);
                assert(4 * w * h == 4 * (w * h)) by (nonlinear_arith);
                assert(!(glyphs@[i as int].texture@.len() >= 4 * glyphs@[i as int].size.x
                    * glyphs@[i as int].size.y));
            }
            return false;
        }
        proof {
            lemma_quarter(g.texture@.len() as int, (w * h) as int);
            assert(4 * w * h == 4 * (w * h)) by (nonlinear_arith);
        }
        i = i + 1;
    }
    true
}

/// A product of two `u32` values fits a `u64`.
proof fn lemma_mul_bound_u32(w: int, h: int)
    by (nonlinear_arith)
    requires
        0 <= w <= u32::MAX,
        0 <= h <= u32::MAX,
    ensures
        0 <= w * h <= u64::MAX,
{
}

/// A length holds four bytes for each of `n` pixels exactly when its
/// quarter is at least `n`.
proof fn lemma_quarter(len: int, n: int)
    requires
        0 <= len,
        0 <= n,
    ensures
        len >= 4 * n <==> len / 4 >= n,
{
}

/// An atlas gives back what was drawn into it: each pixel of each glyph
/// image at the glyph's place, and opaque red at every pixel that no
/// glyph's place covers.
pub open spec fn reads_back(sorted: Seq<RenderedGlyph>, atlas: Atlas) -> bool {
    &&& forall|i: int, x: int, y: int, c: int|
        0 <= i < sorted.len() && 0 <= x < sorted[i].size.x && 0 <= y < sorted[i].size.y && 0 <= c < 4
            ==> #[trigger] atlas.data@[pixel_index(
            atlas.size as int,
            atlas.items@[i].start.x + x,
            atlas.items@[i].start.y + y,
            c,
        )] == #[trigger] sorted[i].texture@[4 * (x + sorted[i].size.x * y) + c]
    &&& forall|x: int, y: int, c: int|
        #![trigger atlas.data@[pixel_index(atlas.size as int, x, y, c)]]
        0 <= x < atlas.size && 0 <= y < atlas.size && 0 <= c < 4 && (forall|i: int|
            0 <= i < atlas.items@.len() ==> !covers(
                #[trigger] atlas.items@[i].start,
                atlas.items@[i].size,
                x,
                y,
            )) ==> atlas.data@[pixel_index(atlas.size as int, x, y, c)] == background_byte(c)
}

/// Glyph drawing law: in an atlas drawn from glyphs ordered from the tallest
/// to the shortest, each pixel of each glyph image can be read back at the
/// glyph's place, since packed images do not overlap, and every pixel
/// outside all places holds the background.
pub proof fn lemma_atlas_reads_back(sorted: Seq<RenderedGlyph>, atlas: Atlas)
    requires
        heights_non_increasing(sizes_of(sorted)),
        drawable(sorted),
        built_atlas(sorted, atlas),
    ensures
        reads_back(sorted, atlas),
{
    let sizes = sizes_of(sorted);
    let side = packed_side(sizes);
    let positions = Seq::new(
        sorted.len(),
        |k: int| UVec2 { x: shelf_placements(sizes, side)[k].0 as u32, y: shelf_placements(sizes, side)[k].1 as u32 },
    );
    lemma_first_fit_side(sizes);
    crate::atlas::packing::lemma_shelf_packing_sound(sizes, side);
    assert forall|i: int, x: int, y: int, c: int|
        0 <= i < sorted.len() && 0 <= x < sorted[i].size.x && 0 <= y < sorted[i].size.y && 0 <= c < 4
            implies #[trigger] atlas.data@[pixel_index(
        atlas.size as int,
        atlas.items@[i].start.x + x,
        atlas.items@[i].start.y + y,
        c,
    )] == #[trigger] sorted[i].texture@[4 * (x + sorted[i].size.x * y) + c] by {
        let px = positions[i].x + x;
        let py = positions[i].y + y;
        assert(sizes[i] == sorted[i].size);
        assert(atlas.items@[i].start == positions[i]);
        assert(px < side && py < side);
        lemma_only_cover(sorted, positions, sorted.len() as int, i, px, py, c);
    }
    assert forall|x: int, y: int, c: int|
        0 <= x < atlas.size && 0 <= y < atlas.size && 0 <= c < 4 && (forall|i: int|
            0 <= i < atlas.items@.len() ==> !covers(
                #[trigger] atlas.items@[i].start,
                atlas.items@[i].size,
                x,
                y,
            )) implies atlas.data@[pixel_index(atlas.size as int, x, y, c)] == background_byte(c) by {
        assert forall|j: int| 0 <= j < sorted.len() implies !covers(#[trigger] positions[j], sorted[j].size, x, y) by {
            assert(atlas.items@[j].start == positions[j]);
        }
        lemma_no_cover(sorted, positions, sorted.len() as int, x, y, c);
    }
}

/// Where no glyph covers a pixel, drawing the first `n` glyphs leaves the
/// background there.
proof fn lemma_no_cover(sorted: Seq<RenderedGlyph>, positions: Seq<UVec2>, n: int, x: int, y: int, c: int)
    requires
        0 <= n <= sorted.len(),
        n <= positions.len(),
        forall|j: int| 0 <= j < sorted.len() ==> !covers(#[trigger] positions[j], sorted[j].size, x, y),
    ensures
        atlas_byte(sorted, positions, n, x, y, c) == background_byte(c),
    decreases n,
{
    if n > 0 {
        lemma_no_cover(sorted, positions, n - 1, x, y, c);
    }
}

/// The packer's side is one of the sides it tries, and every image fits.
proof fn lemma_first_fit_side(sizes: Seq<UVec2>)
    requires
        packable(sizes),
    ensures
        0 <= packed_side(sizes),
        shelf_fits(sizes, packed_side(sizes)),
{
    crate::atlas::packing::lemma_packable_fits(sizes);
}

/// When glyph `i` covers a pixel that no other glyph covers, drawing the
/// first `n` glyphs (with `n > i`) leaves glyph `i`'s byte there.
proof fn lemma_only_cover(
    sorted: Seq<RenderedGlyph>,
    positions: Seq<UVec2>,
    n: int,
    i: int,
    x: int,
    y: int,
    c: int,
)
    requires
        0 <= i < n <= sorted.len(),
        n <= positions.len(),
        covers(positions[i], sorted[i].size, x, y),
        forall|j: int|
            0 <= j < sorted.len() && j != i ==> !covers(#[trigger] positions[j], sorted[j].size, x, y),
    ensures
        atlas_byte(sorted, positions, n, x, y, c) == glyph_byte(sorted[i], positions[i], x, y, c),
    decreases n,
{
    if n - 1 > i {
        lemma_only_cover(sorted, positions, n - 1, i, x, y, c);
    }
}

/// Every alpha byte (every fourth byte, from the fourth on) is 0xff.
pub open spec fn alpha_opaque(texture: Seq<u8>) -> bool {
    forall|i: int| 0 <= i < texture.len() && i % 4 == 3 ==> #[trigger] texture[i] == 0xff
}

/// Sets every alpha byte of an RGBA image to 0xff, keeping the others.
fn make_alpha_opaque(data: Vec<u8>) -> (r: Vec<u8>)
    ensures
        r@.len() == data@.len(),
        forall|i: int| 0 <= i < data@.len() ==> #[trigger] r@[i] == if i % 4 == 3 {
            0xff
        } else {
            data@[i]
        },
        alpha_opaque(r@),
{
    let mut r = data;
    let ghost orig = r@;
    let mut i: usize = 0;
    while i < r.len()
        invariant
            r@.len() == orig.len(),
            i <= orig.len(),
            forall|j: int| 0 <= j < orig.len() ==> #[trigger] r@[j] == if j % 4 == 3 && j < i {
                0xff
            } else {
                orig[j]
            },
        decreases r@.len() - i,
    {
        if i % 4 == 3 {
            r.set(i, 0xff);
        }
        i = i + 1;
    }
    r
}

/// `p` holds the places that the packer gives images of sizes `sizes` in a
/// square of side `side`.
pub open spec fn places_of(sizes: Seq<UVec2>, side: int, p: Seq<UVec2>) -> bool {
    crate::atlas::packing::places_match(sizes, side, p)
}

/// `atlas` is what drawing the glyphs `sorted` (in that order) gives: the
/// packed side, every glyph at its packed place over the background, the
/// items, the glyph identifiers and the index map.
pub open spec fn built_atlas(sorted: Seq<RenderedGlyph>, atlas: Atlas) -> bool {
    let sizes = sizes_of(sorted);
    let side = packed_side(sizes);
    let positions = Seq::new(
        sorted.len(),
        |i: int| UVec2 { x: shelf_placements(sizes, side)[i].0 as u32, y: shelf_placements(sizes, side)[i].1 as u32 },
    );
    &&& atlas.size == side
    &&& atlas.data@.len() == 4 * side * side
    &&& forall|x: int, y: int, c: int|
        #![trigger atlas.data@[pixel_index(side, x, y, c)]]
        0 <= x < side && 0 <= y < side && 0 <= c < 4 ==> atlas.data@[pixel_index(side, x, y, c)]
            == atlas_byte(sorted, positions, sorted.len() as int, x, y, c)
    &&& atlas.items@.len() == sorted.len()
    &&& atlas.glyph_ids@.len() == sorted.len()
    &&& forall|i: int|
        0 <= i < sorted.len() ==> #[trigger] atlas.items@[i] == (AtlasItem {
            start: positions[i],
            size: sorted[i].size,
            offset: sorted[i].ofset,
        }) && atlas.glyph_ids@[i] == sorted[i].glyph_id
    &&& glyph_index_view(atlas.local_index) == index_map_of(atlas.glyph_ids@, sorted.len() as int)
}

} // verus!
