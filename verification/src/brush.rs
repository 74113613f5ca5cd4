//! The tilemap brush: where it is drawn under the mouse, snapped to the
//! tile grid of a tilemap, and what a click does to that tilemap.
use vstd::prelude::*;
use crate::math::{IVec2, UVec2};

verus! {

/// What a click of the brush does to the tilemap.
#[derive(Debug, PartialEq, Eq, Structural, Clone, Copy)]
pub enum BrushAction {
    /// No click, or nothing to paint.
    Nothing,
    /// Paint the brush's tile into the tile at these tile coordinates.
    Insert(IVec2),
    /// Clear the tile at these tile coordinates.
    Clear(IVec2),
}

/// The brush's answer to a frame.
#[derive(Debug, PartialEq, Eq, Structural, Clone, Copy)]
pub struct BrushUpdate {
    /// Where the brush is drawn.
    pub position: IVec2,
    /// What the click does.
    pub action: BrushAction,
}

/// A value that fits in `i32`.
pub open spec fn fits_i32(v: int) -> bool {
    i32::MIN <= v <= i32::MAX
}

/// A size component as a signed value, as `as i32` reads it.
pub open spec fn as_signed(v: u32) -> int {
    (v as i32) as int
}

/// The tile coordinate, along one axis, of the cursor at `cursor` over a
/// tilemap at `origin` with tiles `tile` long: Euclidean division.
pub open spec fn tile_coordinate(cursor: int, origin: int, tile: int) -> int {
    (cursor - origin) / tile
}

/// Where the brush snaps along one axis: the start of its tile, relative
/// to the buffer at `buffer`.
pub open spec fn snapped(cursor: int, origin: int, tile: int, buffer: int) -> int {
    tile_coordinate(cursor, origin, tile) * tile + origin - buffer
}

/// Every step of the snapping along one axis stays within `i32`.
pub open spec fn snap_fits(cursor: int, origin: int, tile: int, buffer: int) -> bool {
    &&& tile != 0
    &&& fits_i32(cursor - origin)
    &&& fits_i32(tile_coordinate(cursor, origin, tile))
    &&& fits_i32(tile_coordinate(cursor, origin, tile) * tile)
    &&& fits_i32(tile_coordinate(cursor, origin, tile) * tile + origin)
    &&& fits_i32(snapped(cursor, origin, tile, buffer))
}

/// Where the brush is drawn without a tilemap: centred on the cursor (by
/// half its tile size, rounded down) and offset by the buffer's position.
pub open spec fn free_position(cursor: int, half: int, buffer: int) -> int {
    cursor - half + buffer
}

/// Snaps along one axis.
fn snap_axis(cursor: i32, origin: i32, tile: i32, buffer: i32) -> (result: (i32, i32))
    requires
        snap_fits(cursor as int, origin as int, tile as int, buffer as int),
    ensures
        result.0 == tile_coordinate(cursor as int, origin as int, tile as int),
        result.1 == snapped(cursor as int, origin as int, tile as int, buffer as int),
{
    let local = match (cursor - origin).checked_div_euclid(tile) {
        Some(v) => v,
        None => 0,
    };
    (local, local * tile + origin - buffer)
}

/// The brush's answer to a frame with the mouse over the grid at
/// `grid_cursor`. The brush is drawn centred on the cursor; over a tilemap
/// (at `tilemap`, with its tile size) it snaps to the tile under the
/// cursor, and a left click paints the brush's tile there (when the brush
/// has one), a right click clears it.
pub fn brush_update(
    grid_cursor: IVec2,
    buffer_position: IVec2,
    brush_tile_size: Option<UVec2>,
    tilemap: Option<(IVec2, UVec2)>,
    has_tile: bool,
    left: bool,
    right: bool,
) -> (update: BrushUpdate)
    requires
        ({
            let half = match brush_tile_size {
                Some(s) => (s.x / 2, s.y / 2),
                None => (0u32, 0u32),
            };
            &&& fits_i32(grid_cursor.x - half.0)
            &&& fits_i32(grid_cursor.y - half.1)
            &&& fits_i32(free_position(grid_cursor.x as int, half.0 as int, buffer_position.x as int))
            &&& fits_i32(free_position(grid_cursor.y as int, half.1 as int, buffer_position.y as int))
        }),
        tilemap matches Some((origin, tile)) ==> snap_fits(
            grid_cursor.x as int,
            origin.x as int,
            as_signed(tile.x),
            buffer_position.x as int,
        ) && snap_fits(grid_cursor.y as int, origin.y as int, as_signed(tile.y), buffer_position.y as int),
    ensures
        ({
            let half = match brush_tile_size {
                Some(s) => (s.x / 2, s.y / 2),
                None => (0u32, 0u32),
            };
            match tilemap {
                None => {
                    &&& update.position.x == free_position(grid_cursor.x as int, half.0 as int, buffer_position.x as int)
                    &&& update.position.y == free_position(grid_cursor.y as int, half.1 as int, buffer_position.y as int)
                    &&& update.action == BrushAction::Nothing
                },
                Some((origin, tile)) => {
                    let local = IVec2 {
                        x: tile_coordinate(grid_cursor.x as int, origin.x as int, as_signed(tile.x)) as i32,
                        y: tile_coordinate(grid_cursor.y as int, origin.y as int, as_signed(tile.y)) as i32,
                    };
                    &&& update.position.x == snapped(grid_cursor.x as int, origin.x as int, as_signed(tile.x), buffer_position.x as int)
                    &&& update.position.y == snapped(grid_cursor.y as int, origin.y as int, as_signed(tile.y), buffer_position.y as int)
                    &&& update.action == (if left {
                        if has_tile {
                            BrushAction::Insert(local)
                        } else {
                            BrushAction::Nothing
                        }
                    } else if right {
                        BrushAction::Clear(local)
                    } else {
                        BrushAction::Nothing
                    })
                },
            }
        }),
{
    let (half_x, half_y) = match brush_tile_size {
        Some(s) => (s.x / 2, s.y / 2),
        None => (0u32, 0u32),
    };
    match tilemap {
        None => {
            let x = grid_cursor.x - half_x as i32 + buffer_position.x;
            let y = grid_cursor.y - half_y as i32 + buffer_position.y;
            BrushUpdate { position: IVec2 { x, y }, action: BrushAction::Nothing }
        },
        Some((origin, tile)) => {
            #[verifier::truncate]
            let tile_x = tile.x as i32;
            #[verifier::truncate]
            let tile_y = tile.y as i32;
            let (local_x, x) = snap_axis(grid_cursor.x, origin.x, tile_x, buffer_position.x);
            let (local_y, y) = snap_axis(grid_cursor.y, origin.y, tile_y, buffer_position.y);
            let local = IVec2 { x: local_x, y: local_y };
            let action = if left {
                if has_tile {
                    BrushAction::Insert(local)
                } else {
                    BrushAction::Nothing
                }
            } else if right {
                BrushAction::Clear(local)
            } else {
                BrushAction::Nothing
            };
            BrushUpdate { position: IVec2 { x, y }, action }
        },
    }
}

/// The brush snaps to the tile that holds the cursor: for a positive tile
/// length, the tile's start lies at most one tile before the cursor.
pub proof fn lemma_snap_holds_cursor(cursor: int, origin: int, tile: int)
    requires
        tile > 0,
    ensures
        tile_coordinate(cursor, origin, tile) * tile + origin <= cursor,
        cursor < tile_coordinate(cursor, origin, tile) * tile + origin + tile,
{
    let d = cursor - origin;
    vstd::arithmetic::div_mod::lemma_fundamental_div_mod(d, tile);
    assert((d / tile) * tile == tile * (d / tile)) by (nonlinear_arith);
}

} // verus!
