//! Shelf packing of glyph images into a square atlas: images are laid out
//! left to right in rows, a new row starting below the tallest image of the
//! row before; the side of the square starts at 256 and doubles until every
//! image has a place.
use vstd::prelude::*;
use crate::math::UVec2;

verus! {

/// The state of the shelf packer after it has placed some images: whether
/// every image so far found a place, where the next image would go in the
/// current row (`x`), where the current row starts (`y`), the height of the
/// current row and the index of its first image, and the places given so far.
pub struct ShelfState {
    pub fits: bool,
    pub x: int,
    pub y: int,
    pub row: int,
    pub row_start: int,
    pub placements: Seq<(int, int)>,
}

/// The packer's state after placing the first `k` images of `sizes` in a
/// square of side `side`. The first row is as tall as the first image. An
/// image goes right of the previous one when it fits there; otherwise it
/// starts a new row below the current one, which fails when it is wider than
/// the square or the new row would reach below it.
pub open spec fn shelf_run(sizes: Seq<UVec2>, side: int, k: int) -> ShelfState
    decreases k,
{
    if k <= 0 {
        ShelfState {
            fits: true,
            x: 0,
            y: 0,
            row: if sizes.len() > 0 {
                sizes[0].y as int
            } else {
                0
            },
            row_start: 0,
            placements: Seq::empty(),
        }
    } else {
        let st = shelf_run(sizes, side, k - 1);
        let w = sizes[k - 1].x as int;
        let h = sizes[k - 1].y as int;
        if !st.fits {
            st
        } else if st.x + w <= side {
            ShelfState { x: st.x + w, placements: st.placements.push((st.x, st.y)), ..st }
        } else if w > side || st.y + st.row + h > side {
            ShelfState { fits: false, ..st }
        } else {
            ShelfState {
                fits: true,
                x: w,
                y: st.y + st.row,
                row: h,
                row_start: k - 1,
                placements: st.placements.push((0, st.y + st.row)),
            }
        }
    }
}

/// Every image of `sizes` finds a place in a square of side `side`.
pub open spec fn shelf_fits(sizes: Seq<UVec2>, side: int) -> bool {
    shelf_run(sizes, side, sizes.len() as int).fits
}

/// The places that the packer gives the images of `sizes` in a square of
/// side `side`.
pub open spec fn shelf_placements(sizes: Seq<UVec2>, side: int) -> Seq<(int, int)> {
    shelf_run(sizes, side, sizes.len() as int).placements
}

/// `p` holds, as unsigned vectors, the places that the packer gives the
/// images of `sizes` in a square of side `side`.
pub open spec fn places_match(sizes: Seq<UVec2>, side: int, p: Seq<UVec2>) -> bool {
    &&& p.len() == sizes.len()
    &&& forall|i: int|
        0 <= i < sizes.len() ==> (#[trigger] p[i]).x == shelf_placements(sizes, side)[i].0 && p[i].y
            == shelf_placements(sizes, side)[i].1
}

/// The side of the square after `k` doublings: 256 times 2 to the `k`.
pub open spec fn atlas_side(k: int) -> int
    decreases k,
{
    if k <= 0 {
        256
    } else {
        2 * atlas_side(k - 1)
    }
}

/// The number of doublings, from `k` on, after which every image fits; 24
/// when none of the sides up to `2^31` is enough.
pub open spec fn first_fit(sizes: Seq<UVec2>, k: int) -> int
    decreases 24 - k,
{
    if k >= 24 {
        24
    } else if shelf_fits(sizes, atlas_side(k)) {
        k
    } else {
        first_fit(sizes, k + 1)
    }
}

/// The images can be packed before the side outgrows a `u32`: some side up
/// to `2^31` holds them all.
pub open spec fn packable(sizes: Seq<UVec2>) -> bool {
    first_fit(sizes, 0) <= 23
}

/// The side of the square that the packer ends with.
pub open spec fn packed_side(sizes: Seq<UVec2>) -> int {
    atlas_side(first_fit(sizes, 0))
}

/// The images are ordered from the tallest to the shortest.
pub open spec fn heights_non_increasing(sizes: Seq<UVec2>) -> bool {
    forall|i: int, j: int| 0 <= i <= j < sizes.len() ==> #[trigger] sizes[j].y <= #[trigger] sizes[i].y
}

/// Two rectangles, each given by its lower corner and its size, share no
/// pixel.
pub open spec fn rects_disjoint(p1: (int, int), s1: UVec2, p2: (int, int), s2: UVec2) -> bool {
    ||| p1.0 + s1.x <= p2.0
    ||| p2.0 + s2.x <= p1.0
    ||| p1.1 + s1.y <= p2.1
    ||| p2.1 + s2.y <= p1.1
}

proof fn lemma_atlas_side_grows(k: int)
    requires
        0 <= k,
    ensures
        256 <= atlas_side(k),
        atlas_side(k) <= atlas_side(k + 1),
    decreases k,
{
    if k > 0 {
        lemma_atlas_side_grows(k - 1);
    }
}

proof fn lemma_atlas_side_bound(k: int)
    requires
        0 <= k <= 23,
    ensures
        256 <= atlas_side(k) <= 0x8000_0000,
    decreases 23 - k,
{
    if k < 23 {
        lemma_atlas_side_bound(k + 1);
        lemma_atlas_side_grows(k);
    } else {
        reveal_with_fuel(atlas_side, 24);
        assert(atlas_side(23) == 0x8000_0000);
    }
}

proof fn lemma_first_fit_at_least(sizes: Seq<UVec2>, k: int)
    requires
        0 <= k <= 24,
    ensures
        k <= first_fit(sizes, k) <= 24,
        first_fit(sizes, k) < 24 ==> shelf_fits(sizes, atlas_side(first_fit(sizes, k))),
    decreases 24 - k,
{
    if k < 24 && !shelf_fits(sizes, atlas_side(k)) {
        lemma_first_fit_at_least(sizes, k + 1);
    }
}

/// What the packer keeps true while it places images: the counts, where
/// the current row and its images are, that images of earlier rows end
/// above it, that every image ends within the square's width, and that no
/// two placed images overlap.
proof fn lemma_shelf_run_invariant(sizes: Seq<UVec2>, side: int, k: int)
    requires
        0 <= k <= sizes.len(),
        0 <= side,
        heights_non_increasing(sizes),
    ensures
        ({
            let st = shelf_run(sizes, side, k);
            st.fits ==> {
                &&& st.placements.len() == k
                &&& 0 <= st.x <= side
                &&& 0 <= st.y
                &&& 0 <= st.row_start <= k
                &&& (k > 0 ==> st.row_start < k)
                &&& (sizes.len() > 0 ==> st.row == sizes[st.row_start].y)
                &&& forall|i: int|
                    0 <= i < k ==> 0 <= #[trigger] st.placements[i].0 && st.placements[i].0
                        + sizes[i].x <= side && 0 <= st.placements[i].1
                &&& forall|i: int|
                    st.row_start <= i < k ==> #[trigger] st.placements[i].1 == st.y
                        && st.placements[i].0 + sizes[i].x <= st.x
                &&& forall|i: int|
                    0 <= i < st.row_start ==> #[trigger] st.placements[i].1 + sizes[i].y <= st.y
                &&& forall|i: int, j: int|
                    0 <= i < j < k ==> rects_disjoint(
                        #[trigger] st.placements[i],
                        sizes[i],
                        #[trigger] st.placements[j],
                        sizes[j],
                    )
            }
        }),
    decreases k,
{
    if k > 0 {
        lemma_shelf_run_invariant(sizes, side, k - 1);
        let st = shelf_run(sizes, side, k - 1);
        let nst = shelf_run(sizes, side, k);
        if st.fits && nst.fits {
            let w = sizes[k - 1].x as int;
            let h = sizes[k - 1].y as int;
            assert(h <= st.row) by {
                assert(sizes[k - 1].y <= sizes[st.row_start].y);
            }
            if st.x + w <= side {
                assert forall|i: int, j: int| 0 <= i < j < k implies rects_disjoint(
                    #[trigger] nst.placements[i],
                    sizes[i],
                    #[trigger] nst.placements[j],
                    sizes[j],
                ) by {
                    if j < k - 1 {
                        assert(nst.placements[i] == st.placements[i]);
                        assert(nst.placements[j] == st.placements[j]);
                    } else {
                        assert(nst.placements[i] == st.placements[i]);
                        assert(nst.placements[j] == (st.x, st.y));
                        if i < st.row_start {
                            assert(st.placements[i].1 + sizes[i].y <= st.y);
                        } else {
                            assert(st.placements[i].0 + sizes[i].x <= st.x);
                        }
                    }
                }
                assert forall|i: int| 0 <= i < k implies 0 <= #[trigger] nst.placements[i].0
                    && nst.placements[i].0 + sizes[i].x <= side && 0 <= nst.placements[i].1 by {
                    if i < k - 1 {
                        assert(nst.placements[i] == st.placements[i]);
                    }
                }
                assert forall|i: int| nst.row_start <= i < k implies #[trigger] nst.placements[i].1
                    == nst.y && nst.placements[i].0 + sizes[i].x <= nst.x by {
                    if i < k - 1 {
                        assert(nst.placements[i] == st.placements[i]);
                    }
                }
                assert forall|i: int| 0 <= i < nst.row_start implies #[trigger] nst.placements[i].1
                    + sizes[i].y <= nst.y by {
                    assert(nst.placements[i] == st.placements[i]);
                }
            } else {
                assert forall|i: int, j: int| 0 <= i < j < k implies rects_disjoint(
                    #[trigger] nst.placements[i],
                    sizes[i],
                    #[trigger] nst.placements[j],
                    sizes[j],
                ) by {
                    if j < k - 1 {
                        assert(nst.placements[i] == st.placements[i]);
                        assert(nst.placements[j] == st.placements[j]);
                    } else {
                        assert(nst.placements[i] == st.placements[i]);
                        assert(nst.placements[j] == (0int, st.y + st.row));
                        if i < st.row_start {
                            assert(st.placements[i].1 + sizes[i].y <= st.y);
                        } else {
                            assert(sizes[i].y <= sizes[st.row_start].y);
                        }
                    }
                }
                assert forall|i: int| 0 <= i < k implies 0 <= #[trigger] nst.placements[i].0
                    && nst.placements[i].0 + sizes[i].x <= side && 0 <= nst.placements[i].1 by {
                    if i < k - 1 {
                        assert(nst.placements[i] == st.placements[i]);
                    }
                }
                assert forall|i: int| nst.row_start <= i < k implies #[trigger] nst.placements[i].1
                    == nst.y && nst.placements[i].0 + sizes[i].x <= nst.x by {
                    assert(i == k - 1);
                }
                assert forall|i: int| 0 <= i < nst.row_start implies #[trigger] nst.placements[i].1
                    + sizes[i].y <= nst.y by {
                    assert(nst.placements[i] == st.placements[i]);
                    if i < st.row_start {
                        assert(st.placements[i].1 + sizes[i].y <= st.y);
                    } else {
                        assert(sizes[i].y <= sizes[st.row_start].y);
                    }
                }
            }
        }
    }
}

/// Packing laws: when the images come from the tallest to the shortest and
/// all of them found a place, no two of them overlap, each ends within the
/// square's width, and each ends within its height as long as the first
/// (tallest) image is not taller than the square.
pub proof fn lemma_shelf_packing_sound(sizes: Seq<UVec2>, side: int)
    requires
        0 <= side,
        heights_non_increasing(sizes),
        shelf_fits(sizes, side),
    ensures
        shelf_placements(sizes, side).len() == sizes.len(),
        forall|i: int, j: int|
            0 <= i < j < sizes.len() ==> rects_disjoint(
                #[trigger] shelf_placements(sizes, side)[i],
                sizes[i],
                #[trigger] shelf_placements(sizes, side)[j],
                sizes[j],
            ),
        forall|i: int|
            0 <= i < sizes.len() ==> 0 <= #[trigger] shelf_placements(sizes, side)[i].0
                && shelf_placements(sizes, side)[i].0 + sizes[i].x <= side && 0 <= shelf_placements(
                sizes,
                side,
            )[i].1,
        sizes.len() > 0 && sizes[0].y <= side ==> forall|i: int|
            0 <= i < sizes.len() ==> #[trigger] shelf_placements(sizes, side)[i].1 + sizes[i].y
                <= side,
{
    let k = sizes.len() as int;
    lemma_shelf_run_invariant(sizes, side, k);
    if sizes.len() > 0 && sizes[0].y <= side {
        lemma_shelf_rows_within(sizes, side, k);
        let st = shelf_run(sizes, side, k);
        assert forall|i: int| 0 <= i < sizes.len() implies #[trigger] shelf_placements(
            sizes,
            side,
        )[i].1 + sizes[i].y <= side by {
            if i < st.row_start {
                assert(st.placements[i].1 + sizes[i].y <= st.y);
            } else {
                assert(sizes[i].y <= sizes[st.row_start].y);
            }
        }
    }
}

/// With the first row no taller than the square, the current row always
/// ends within the square.
proof fn lemma_shelf_rows_within(sizes: Seq<UVec2>, side: int, k: int)
    requires
        0 <= k <= sizes.len(),
        sizes.len() > 0,
        sizes[0].y <= side,
        heights_non_increasing(sizes),
    ensures
        shelf_run(sizes, side, k).fits ==> shelf_run(sizes, side, k).y + shelf_run(
            sizes,
            side,
            k,
        ).row <= side,
    decreases k,
{
    if k > 0 {
        lemma_shelf_rows_within(sizes, side, k - 1);
    }
}

/// When the images can be packed, the side that packing ends with holds
/// them all.
pub proof fn lemma_packable_fits(sizes: Seq<UVec2>)
    requires
        packable(sizes),
    ensures
        256 <= packed_side(sizes) <= 0x8000_0000,
        shelf_fits(sizes, packed_side(sizes)),
{
    lemma_first_fit_at_least(sizes, 0);
    lemma_atlas_side_bound(first_fit(sizes, 0));
}

/// The total width of the first `n` images.
pub open spec fn widths_before(sizes: Seq<UVec2>, n: int) -> int
    decreases n,
{
    if n <= 0 {
        0
    } else {
        widths_before(sizes, n - 1) + sizes[n - 1].x
    }
}

/// Widths add up: the first `k` images are no wider together than the
/// first `n`, for `k <= n`.
proof fn lemma_widths_before_grow(sizes: Seq<UVec2>, k: int, n: int)
    requires
        0 <= k <= n,
    ensures
        0 <= widths_before(sizes, k) <= widths_before(sizes, n),
    decreases n,
{
    if n > k {
        lemma_widths_before_grow(sizes, k, n - 1);
    } else if k > 0 {
        lemma_widths_before_grow(sizes, k - 1, k - 1);
    }
}

/// Images that fit side by side stay in the first row: each lies right
/// of the ones before it.
proof fn lemma_one_row_run(sizes: Seq<UVec2>, side: int, k: int)
    requires
        0 <= k <= sizes.len(),
        widths_before(sizes, sizes.len() as int) <= side,
    ensures
        shelf_run(sizes, side, k).fits,
        shelf_run(sizes, side, k).x == widths_before(sizes, k),
        shelf_run(sizes, side, k).y == 0,
        shelf_run(sizes, side, k).placements.len() == k,
        forall|i: int|
            0 <= i < k ==> #[trigger] shelf_run(sizes, side, k).placements[i] == (widths_before(sizes, i), 0int),
    decreases k,
{
    if k > 0 {
        lemma_one_row_run(sizes, side, k - 1);
        lemma_widths_before_grow(sizes, k, sizes.len() as int);
        let st = shelf_run(sizes, side, k - 1);
        assert(st.x + sizes[k - 1].x <= side);
        assert forall|i: int| 0 <= i < k implies #[trigger] shelf_run(sizes, side, k).placements[i] == (
        widths_before(sizes, i), 0int) by {
            if i < k - 1 {
                assert(shelf_run(sizes, side, k).placements[i] == st.placements[i]);
            }
        }
    }
}

/// Shelf-packing law: images whose widths add up to at most the side of the
/// square all fit in one row, whatever their heights, the first at the
/// left and each next one right against the one before it: an image that
/// ends exactly at the square's right edge still goes in the row.
pub proof fn lemma_one_row_packing(sizes: Seq<UVec2>, side: int)
    requires
        widths_before(sizes, sizes.len() as int) <= side,
    ensures
        shelf_fits(sizes, side),
        shelf_placements(sizes, side).len() == sizes.len(),
        forall|i: int|
            0 <= i < sizes.len() ==> #[trigger] shelf_placements(sizes, side)[i] == (
                widths_before(sizes, i),
                0int,
            ),
{
    lemma_one_row_run(sizes, side, sizes.len() as int);
}

/// The doubling search stops at the first side that holds the images: when
/// side `k` holds them, the search from any earlier side ends at or before
/// `k`.
proof fn lemma_first_fit_at_most(sizes: Seq<UVec2>, j: int, k: int)
    requires
        0 <= j <= k <= 23,
        shelf_fits(sizes, atlas_side(k)),
    ensures
        j <= first_fit(sizes, j) <= k,
    decreases k - j,
{
    if j < k && !shelf_fits(sizes, atlas_side(j)) {
        lemma_first_fit_at_most(sizes, j + 1, k);
    }
}

/// The sides only grow: from `j` doublings to `k`.
proof fn lemma_atlas_side_monotone(j: int, k: int)
    requires
        0 <= j <= k,
    ensures
        atlas_side(j) <= atlas_side(k),
    decreases k - j,
{
    if j < k {
        lemma_atlas_side_monotone(j, k - 1);
        lemma_atlas_side_grows(k - 1);
    }
}

/// The packer's side is the smallest it tries that holds the images: when
/// the images fit side by side within the side of `k` doublings (256 times
/// 2 to the `k`), they can be packed, and the packer's side is no larger.
pub proof fn lemma_packed_side_minimal(sizes: Seq<UVec2>, k: int)
    requires
        0 <= k <= 23,
        widths_before(sizes, sizes.len() as int) <= atlas_side(k),
    ensures
        packable(sizes),
        packed_side(sizes) <= atlas_side(k),
{
    lemma_one_row_packing(sizes, atlas_side(k));
    lemma_first_fit_at_most(sizes, 0, k);
    lemma_atlas_side_monotone(first_fit(sizes, 0), k);
}

/// Every image of `sizes` is `w` wide and `h` high.
pub open spec fn all_sized(sizes: Seq<UVec2>, w: u32, h: u32) -> bool {
    forall|i: int| 0 <= i < sizes.len() ==> #[trigger] sizes[i] == (UVec2 { x: w, y: h })
}

/// Each row after the first, of `per_row` images `h` high, that the first
/// `k` images reach ends within `side`.
pub open spec fn grid_rows_fit(per_row: int, h: int, side: int, k: int) -> bool {
    forall|j: int| per_row <= j < k && j % per_row == 0 ==> (#[trigger] (j / per_row) + 1) * h <= side
}

/// The packer's state `st` after `k` images of width `w` and height `h`, in
/// rows of `p`: it fits exactly when the rows reached fit, and then the
/// images fill the grid in order.
pub open spec fn grid_state(st: ShelfState, p: int, w: int, h: int, side: int, k: int) -> bool {
    &&& st.fits == grid_rows_fit(p, h, side, k)
    &&& st.fits ==> {
        &&& st.x == ((k - 1) % p + 1) * w
        &&& st.y == ((k - 1) / p) * h
        &&& st.row == h
        &&& st.placements.len() == k
        &&& forall|i: int| 0 <= i < k ==> #[trigger] st.placements[i] == ((i % p) * w, (i / p) * h)
    }
}

/// The packer on images all of one size: they fill rows of `side / w`
/// images, each row below the one before.
proof fn lemma_grid_run(sizes: Seq<UVec2>, side: int, w: u32, h: u32, k: int)
    requires
        all_sized(sizes, w, h),
        0 < w <= side,
        1 <= k <= sizes.len(),
    ensures
        grid_state(shelf_run(sizes, side, k), side / (w as int), w as int, h as int, side, k),
    decreases k,
{
    let wi = w as int;
    let hi = h as int;
    let p = side / wi;
    vstd::arithmetic::div_mod::lemma_fundamental_div_mod(side, wi);
    assert(p >= 1) by {
        vstd::arithmetic::div_mod::lemma_div_is_ordered(wi, side, wi);
        vstd::arithmetic::div_mod::lemma_div_by_self(wi);
    }
    assert(p * wi <= side) by (nonlinear_arith)
        requires
            side == wi * p + side % wi,
            side % wi >= 0,
    ;
    assert(side < (p + 1) * wi) by (nonlinear_arith)
        requires
            side == wi * p + side % wi,
            side % wi < wi,
    ;
    assert(sizes[0] == UVec2 { x: w, y: h });
    if k == 1 {
        assert(0int % p == 0 && 0int / p == 0);
        let st0 = shelf_run(sizes, side, 0);
        assert(st0.fits && st0.x == 0 && st0.y == 0 && st0.row == hi && st0.placements.len() == 0);
        assert(st0.x + sizes[0].x <= side);
        let st = shelf_run(sizes, side, 1);
        assert(st.placements == st0.placements.push((0int, 0int)));
        assert(st.placements[0] == (0int, 0int));
        assert(st.x == wi);
        assert((0int % p + 1) * wi == wi);
        assert((0int % p) * wi == 0 && (0int / p) * hi == 0);
        assert forall|i: int| 0 <= i < 1 implies #[trigger] st.placements[i] == ((i % p) * wi, (i / p)
            * hi) by {
            assert(i == 0);
        }
        assert(st.x == ((1 - 1) % p + 1) * wi);
        assert(st.y == ((1 - 1) / p) * hi);
        assert(grid_state(st, p, wi, hi, side, 1));
        assert(grid_rows_fit(p, hi, side, 1));
    } else {
        lemma_grid_run(sizes, side, w, h, k - 1);
        let st = shelf_run(sizes, side, k - 1);
        let nst = shelf_run(sizes, side, k);
        let m = k - 2;
        let q = m / p;
        let r = m % p;
        vstd::arithmetic::div_mod::lemma_fundamental_div_mod(m, p);
        vstd::arithmetic::div_mod::lemma_mod_bound(m, p);
        assert(sizes[k - 1] == UVec2 { x: w, y: h });
        let j = k - 1;
        if r + 1 < p {
            vstd::arithmetic::div_mod::lemma_fundamental_div_mod_converse(j, p, q, r + 1);
            assert(grid_rows_fit(p, hi, side, k) == grid_rows_fit(p, hi, side, k - 1)) by {
                if grid_rows_fit(p, hi, side, k - 1) {
                    assert forall|i: int| p <= i < k && i % p == 0 implies (#[trigger] (i / p) + 1) * hi
                        <= side by {
                        if i == j {
                            assert(j % p == r + 1);
                        }
                    }
                }
            }
            if st.fits {
                assert(st.x + wi <= side) by (nonlinear_arith)
                    requires
                        st.x == (r + 1) * wi,
                        r + 2 <= p,
                        p * wi <= side,
                        wi > 0,
                ;
                assert(nst.x == (j % p + 1) * wi) by (nonlinear_arith)
                    requires
                        nst.x == st.x + wi,
                        st.x == (r + 1) * wi,
                        j % p == r + 1,
                ;
                assert(nst.y == (j / p) * hi);
                assert(nst.fits);
                assert forall|i: int| 0 <= i < k implies #[trigger] nst.placements[i] == ((i % p) * wi, (i
                    / p) * hi) by {
                    if i < k - 1 {
                        assert(nst.placements[i] == st.placements[i]);
                    } else {
                        assert(nst.placements[i] == (st.x, st.y));
                        assert(st.x == (j % p) * wi);
                    }
                }
            }
        } else {
            assert(r + 1 == p);
            assert(j == (q + 1) * p + 0) by (nonlinear_arith)
                requires
                    m == p * q + r,
                    r + 1 == p,
                    j == m + 1,
            ;
            vstd::arithmetic::div_mod::lemma_fundamental_div_mod_converse(j, p, q + 1, 0);
            assert(j >= p) by (nonlinear_arith)
                requires
                    j == (q + 1) * p,
                    q >= 0,
                    p >= 1,
            ;
            assert(grid_rows_fit(p, hi, side, k) == (grid_rows_fit(p, hi, side, k - 1) && (q + 2) * hi
                <= side)) by {
                if grid_rows_fit(p, hi, side, k - 1) && (q + 2) * hi <= side {
                    assert forall|i: int| p <= i < k && i % p == 0 implies (#[trigger] (i / p) + 1) * hi
                        <= side by {
                        if i == j {
                            assert(i / p == q + 1);
                        }
                    }
                }
                if grid_rows_fit(p, hi, side, k) {
                    assert((j / p + 1) * hi <= side);
                }
            }
            if st.fits {
                assert(st.x + wi > side) by (nonlinear_arith)
                    requires
                        st.x == (r + 1) * wi,
                        r + 1 == p,
                        side < (p + 1) * wi,
                ;
                assert(st.y + st.row + hi == (q + 2) * hi) by (nonlinear_arith)
                    requires
                        st.y == q * hi,
                        st.row == hi,
                ;
                if nst.fits {
                    assert(nst.y == (j / p) * hi) by (nonlinear_arith)
                        requires
                            nst.y == st.y + st.row,
                            st.y == q * hi,
                            st.row == hi,
                            j / p == q + 1,
                    ;
                    assert(j % p == 0);
                    assert(nst.x == wi);
                    assert((j % p + 1) * wi == wi);
                    assert forall|i: int| 0 <= i < k implies #[trigger] nst.placements[i] == ((i % p) * wi,
                        (i / p) * hi) by {
                        if i < k - 1 {
                            assert(nst.placements[i] == st.placements[i]);
                        } else {
                            assert(nst.placements[i] == (0int, st.y + st.row));
                        }
                    }
                }
            } else {
                assert(!nst.fits);
            }
            assert(nst.fits == grid_rows_fit(p, hi, side, k));
            assert(grid_state(nst, p, wi, hi, side, k));
        }
    }
}

/// Grid packing law: images all `w` wide (at most the side) and `h` high
/// fill rows of `side / w` images, left to right, each row `h` below the
/// one before; they fit exactly when they take one row or their rows
/// together are at most the side high (only rows after the first are
/// checked against the bottom), and image `i` then lies at column
/// `i % (side / w)` and row `i / (side / w)` of that grid.
pub proof fn lemma_uniform_grid_packing(sizes: Seq<UVec2>, side: int, w: u32, h: u32)
    requires
        all_sized(sizes, w, h),
        0 < w <= side,
    ensures
        ({
            let p = side / (w as int);
            let n = sizes.len() as int;
            &&& shelf_fits(sizes, side) <==> (n <= p || ((n - 1) / p + 1) * h <= side)
            &&& shelf_fits(sizes, side) ==> forall|i: int|
                0 <= i < n ==> #[trigger] shelf_placements(sizes, side)[i] == ((i % p) * w, (i / p) * h)
        }),
{
    let p = side / (w as int);
    let n = sizes.len() as int;
    let hi = h as int;
    vstd::arithmetic::div_mod::lemma_div_is_ordered(w as int, side, w as int);
    vstd::arithmetic::div_mod::lemma_div_by_self(w as int);
    if n >= 1 {
        lemma_grid_run(sizes, side, w, h, n);
        assert(shelf_fits(sizes, side) == grid_rows_fit(p, hi, side, n));
        if n > p {
            let top = ((n - 1) / p) * p;
            vstd::arithmetic::div_mod::lemma_fundamental_div_mod(n - 1, p);
            vstd::arithmetic::div_mod::lemma_mod_bound(n - 1, p);
            vstd::arithmetic::div_mod::lemma_fundamental_div_mod_converse(top, p, (n - 1) / p, 0);
            vstd::arithmetic::div_mod::lemma_div_is_ordered(p, n - 1, p);
            assert(p <= top <= n - 1) by (nonlinear_arith)
                requires
                    top == ((n - 1) / p) * p,
                    (n - 1) / p >= 1,
                    n - 1 == p * ((n - 1) / p) + (n - 1) % p,
                    (n - 1) % p >= 0,
                    p >= 1,
            ;
            if grid_rows_fit(p, hi, side, n) {
                assert(((top / p) + 1) * hi <= side);
            }
            if ((n - 1) / p + 1) * hi <= side {
                assert forall|j: int| p <= j < n && j % p == 0 implies (#[trigger] (j / p) + 1) * hi
                    <= side by {
                    vstd::arithmetic::div_mod::lemma_div_is_ordered(j, n - 1, p);
                    assert((j / p + 1) * hi <= ((n - 1) / p + 1) * hi) by (nonlinear_arith)
                        requires
                            j / p <= (n - 1) / p,
                            hi >= 0,
                    ;
                }
            }
        }
    }
}

/// Places the images of `sizes` in a square of side `side`, or reports that
/// they do not all fit.
#[verifier::spinoff_prover]
fn try_pack(sizes: &Vec<UVec2>, side: u32) -> (r: Option<Vec<UVec2>>)
    ensures
        r is Some <==> shelf_fits(sizes@, side as int),
        r matches Some(p) ==> places_match(sizes@, side as int, p@),
{
    let n = sizes.len();
    let ghost s = sizes@;
    let ghost sd = side as int;
    let mut x: u64 = 0;
    let mut y: u64 = 0;
    let mut row: u64 = if n > 0 {
        sizes[0].y as u64
    } else {
        0
    };
    let mut placed: Vec<UVec2> = Vec::with_capacity(n);
    let mut k: usize = 0;
    while k < n
        invariant
            n == s.len(),
            s == sizes@,
            sd == side as int,
            k <= n,
            shelf_run(s, sd, k as int).fits,
            shelf_run(s, sd, k as int).x == x as int,
            shelf_run(s, sd, k as int).y == y as int,
            shelf_run(s, sd, k as int).row == row as int,
            x <= side,
            y <= side,
            row <= u32::MAX,
            placed@.len() == k,
            shelf_run(s, sd, k as int).placements.len() == k,
            forall|i: int|
                0 <= i < k ==> #[trigger] placed@[i].x == shelf_run(s, sd, k as int).placements[i].0
                    && placed@[i].y == shelf_run(s, sd, k as int).placements[i].1,
        decreases n - k,
    {
        let w = sizes[k].x as u64;
        let h = sizes[k].y as u64;
        let ghost st = shelf_run(s, sd, k as int);
        let ghost nst = shelf_run(s, sd, k + 1);
        let ghost before = placed@;
        if x + w <= side as u64 {
            placed.push(UVec2 { x: x as u32, y: y as u32 });
            assert(nst.placements == st.placements.push((st.x, st.y)));
            x = x + w;
        } else {
            if w > side as u64 || y + row + h > side as u64 {
                proof {
                    lemma_fail_stays(s, sd, k + 1, n as int);
                }
                return None;
            }
            placed.push(UVec2 { x: 0, y: (y + row) as u32 });
            assert(nst.placements == st.placements.push((0int, st.y + st.row)));
            x = w;
            y = y + row;
            row = h;
        }
        assert forall|i: int| 0 <= i < k + 1 implies #[trigger] placed@[i].x == nst.placements[i].0
            && placed@[i].y == nst.placements[i].1 by {
            if i < k {
                assert(nst.placements[i] == st.placements[i]);
                assert(placed@[i] == before[i]);
            } else {
                assert(i == k);
            }
            assert(placed@[i].x == nst.placements[i].0);
            assert(placed@[i].y == nst.placements[i].1);
        }
        k = k + 1;
    }
    Some(placed)
}

/// Once an image fails to find a place, the packing fails.
proof fn lemma_fail_stays(sizes: Seq<UVec2>, side: int, k: int, n: int)
    requires
        0 <= k <= n,
        !shelf_run(sizes, side, k).fits,
    ensures
        !shelf_run(sizes, side, n).fits,
    decreases n - k,
{
    if k < n {
        lemma_fail_stays(sizes, side, k + 1, n);
    }
}

/// Packs the images of `sizes`: tries sides 256, 512, ... until every image
/// finds a place, and returns that side and the place of each image; `None`
/// when even a side of `2^31` is not enough (doubling it once more would
/// overflow a `u32`).
pub fn try_pack_all(sizes: &Vec<UVec2>) -> (r: Option<(u32, Vec<UVec2>)>)
    ensures
        r is Some <==> packable(sizes@),
        r matches Some(res) ==> res.0 == packed_side(sizes@) && shelf_fits(sizes@, res.0 as int)
            && places_match(sizes@, res.0 as int, res.1@),
{
    let mut side: u32 = 256;
    let ghost mut k: int = 0;
    proof {
        lemma_first_fit_at_least(sizes@, 0);
    }
    loop
        invariant
            0 <= k <= 23,
            k <= first_fit(sizes@, 0),
            first_fit(sizes@, k) == first_fit(sizes@, 0),
            side as int == atlas_side(k),
        decreases 23 - k,
    {
        proof {
            lemma_atlas_side_bound(k);
        }
        match try_pack(sizes, side) {
            Some(placed) => {
                assert(first_fit(sizes@, k) == k);
                let res = (side, placed);
                return Some(res);
            },
            None => {
                proof {
                    lemma_first_fit_at_least(sizes@, k + 1);
                }
                if side == 0x8000_0000 {
                    proof {
                        if k < 23 {
                            lemma_atlas_side_grows(k);
                            lemma_atlas_side_bound(k + 1);
                            lemma_side_grows_strictly(k, 23);
                        }
                        assert(k == 23);
                        assert(first_fit(sizes@, 24) == 24);
                    }
                    return None;
                }
                proof {
                    if k == 23 {
                        assert(side == 0x8000_0000) by {
                            reveal_with_fuel(atlas_side, 24);
                        }
                    }
                    lemma_atlas_side_bound(k + 1);
                    k = k + 1;
                }
                side = side * 2;
            },
        }
    }
}

proof fn lemma_side_grows_strictly(k: int, m: int)
    requires
        0 <= k < m,
    ensures
        atlas_side(k) < atlas_side(m),
    decreases m - k,
{
    lemma_atlas_side_grows(k);
    if k + 1 < m {
        lemma_side_grows_strictly(k + 1, m);
    }
}

/// Packs the images of `sizes` when some side up to `2^31` holds them all.
pub fn pack(sizes: &Vec<UVec2>) -> (r: (u32, Vec<UVec2>))
    requires
        packable(sizes@),
    ensures
        r.0 == packed_side(sizes@),
        shelf_fits(sizes@, r.0 as int),
        places_match(sizes@, r.0 as int, r.1@),
{
    match try_pack_all(sizes) {
        Some(res) => res,
        None => {
            proof {
                assert(false);
            }
            (0, Vec::new())
        },
    }
}

} // verus!
