//! Editor layers: an unbounded grid of characters, stored as square tiles
//! of 32 by 32 characters; only tiles holding a character other than a
//! space are kept.
use vstd::prelude::*;
use crate::math::IVec2;

verus! {

/// The number of characters along a side of a tile.
pub const TILE_USIZE: usize = 32;

/// The number of characters in a tile.
pub const TILE_CELLS: usize = 1024;

/// A square of characters and the count of those that are not spaces.
pub struct EditorLayerTile {
    data: Box<[char; 1024]>,
    count: usize,
}

/// The number of characters other than a space among the first `n` of `s`.
pub open spec fn non_space_count(s: Seq<char>, n: int) -> int
    decreases n,
{
    if n <= 0 {
        0
    } else {
        non_space_count(s, n - 1) + if s[n - 1] != ' ' {
            1int
        } else {
            0int
        }
    }
}

/// Changing one character changes the count by what it adds and removes.
proof fn lemma_count_update(s: Seq<char>, i: int, c: char, n: int)
    requires
        0 <= i < s.len(),
        0 <= n <= s.len(),
    ensures
        non_space_count(s.update(i, c), n) == non_space_count(s, n) + if i < n {
            (if c != ' ' {
                1int
            } else {
                0int
            }) - (if s[i] != ' ' {
                1int
            } else {
                0int
            })
        } else {
            0int
        },
    decreases n,
{
    if n > 0 {
        lemma_count_update(s, i, c, n - 1);
    }
}

proof fn lemma_count_bounds(s: Seq<char>, n: int)
    requires
        0 <= n <= s.len(),
    ensures
        0 <= non_space_count(s, n) <= n,
    decreases n,
{
    if n > 0 {
        lemma_count_bounds(s, n - 1);
    }
}

/// A sequence whose count is zero holds only spaces.
proof fn lemma_count_zero(s: Seq<char>, n: int)
    requires
        0 <= n <= s.len(),
        non_space_count(s, n) == 0,
    ensures
        forall|j: int| 0 <= j < n ==> s[j] == ' ',
    decreases n,
{
    if n > 0 {
        lemma_count_bounds(s, n - 1);
        lemma_count_zero(s, n - 1);
    }
}

impl EditorLayerTile {
    /// The characters of the tile, row by row from the top.
    pub closed spec fn cells(&self) -> Seq<char> {
        self.data@
    }

    /// The count matches the characters.
    pub closed spec fn wf(&self) -> bool {
        self.count == non_space_count(self.data@, 1024)
    }

    /// A tile of spaces.
    fn new() -> (t: Self)
        ensures
            t.wf(),
            t.cells() == Seq::new(1024, |i: int| ' '),
    {
        let t = EditorLayerTile { data: Box::new([' ';1024]), count: 0 };
        proof {
            assert(t.data@ =~= Seq::new(1024, |i: int| ' '));
            lemma_all_spaces(t.data@, 1024);
        }
        t
    }

    /// Writes `character` at `index`; says whether the tile still holds a
    /// character other than a space.
    fn write(&mut self, index: usize, character: char) -> (nonempty: bool)
        requires
            old(self).wf(),
            index < 1024,
        ensures
            final(self).wf(),
            final(self).cells() == old(self).cells().update(index as int, character),
            nonempty == (non_space_count(final(self).cells(), 1024) > 0),
    {
        proof {
            lemma_count_update(self.data@, index as int, character, 1024);
            lemma_count_bounds(self.data@, 1024);
            lemma_count_bounds(self.data@.update(index as int, character), 1024);
        }
        if character != ' ' {
            self.count = self.count + 1;
        }
        if self.data[index] != ' ' {
            self.count = self.count - 1;
        }
        self.data[index] = character;
        self.count > 0
    }
}

/// The tiles of a layer, each under the tile coordinates of its lower
/// corner divided by the tile size.
#[verifier::external_body]
pub struct TileMap {
    map: bevy::utils::hashbrown::HashMap<(i32, i32), EditorLayerTile>,
}

/// What a [`TileMap`] holds.
pub uninterp spec fn tile_map_view(m: TileMap) -> Map<(i32, i32), EditorLayerTile>;

impl TileMap {
    /// Calls hashbrown's `HashMap::new`, which gives an empty map.
    #[verifier::external_body]
    fn new() -> (empty: TileMap)
        ensures
            tile_map_view(empty) =~= Map::empty(),
    {
        TileMap { map: bevy::utils::hashbrown::HashMap::new() }
    }

    /// Calls `HashMap::remove`: the tile under `key`, if any, leaves the map
    /// and is returned.
    #[verifier::external_body]
    fn remove(&mut self, key: (i32, i32)) -> (removed: Option<EditorLayerTile>)
        ensures
            tile_map_view(*final(self)) == tile_map_view(*old(self)).remove(key),
            removed == (if tile_map_view(*old(self)).contains_key(key) {
                Some(tile_map_view(*old(self))[key])
            } else {
                None
            }),
    {
        self.map.remove(&key)
    }

    /// Calls `HashMap::insert`: afterwards `key` maps to `tile`.
    #[verifier::external_body]
    fn insert(&mut self, key: (i32, i32), tile: EditorLayerTile)
        ensures
            tile_map_view(*final(self)) == tile_map_view(*old(self)).insert(key, tile),
    {
        self.map.insert(key, tile);
    }

    /// Walks the map with `HashMap::iter`, copying each key and the
    /// characters of its tile; the order is that of the hash table, about
    /// which nothing is said.
    #[verifier::external_body]
    fn entries(&self) -> (entries: Vec<((i32, i32), Vec<char>)>)
        ensures
            forall|i: int, j: int|
                0 <= i < j < entries@.len() ==> #[trigger] entries@[i].0 != #[trigger] entries@[j].0,
            forall|i: int|
                0 <= i < entries@.len() ==> tile_map_view(*self).contains_key(#[trigger] entries@[i].0)
                    && entries@[i].1@ == tile_map_view(*self)[entries@[i].0].cells(),
            forall|k: (i32, i32)|
                tile_map_view(*self).contains_key(k) ==> exists|i: int|
                    0 <= i < entries@.len() && #[trigger] entries@[i].0 == k,
    {
        self.map.iter().map(|(key, tile)| (*key, tile.data.to_vec())).collect()
    }
}

/// A square texture of characters, row by row from the top.
pub struct GlyphTextureSource {
    pub data: Vec<char>,
    pub width: usize,
    pub height: usize,
}

/// The tile coordinate of a grid coordinate: it divided by 32, rounding
/// down.
pub open spec fn tile_coordinate(v: int) -> int {
    v / 32
}

/// Where in its tile the character at `x`, `y` lies: tiles hold their rows
/// from the top, and a row holds its characters from the left.
pub open spec fn cell_index(x: int, y: int) -> int {
    x % 32 + (31 - y % 32) * 32
}

/// The tile key of the character at `x`, `y`.
pub open spec fn tile_key(x: int, y: int) -> (i32, i32) {
    (tile_coordinate(x) as i32, tile_coordinate(y) as i32)
}

/// The tile `key`, whose lower corner lies at 32 times `key`, overlaps the
/// rectangle from `start` (included) to `end` (excluded).
pub open spec fn tile_overlaps(key: (i32, i32), start: IVec2, end: IVec2) -> bool {
    let (sx, sy) = (32 * key.0, 32 * key.1);
    &&& vstd::math::max(start.x as int, sx) < vstd::math::min(end.x as int, sx + 32)
    &&& vstd::math::max(start.y as int, sy) < vstd::math::min(end.y as int, sy + 32)
}

/// The lower corner of the tile `key`.
pub open spec fn tile_corner(key: (i32, i32)) -> IVec2 {
    IVec2 { x: (32 * key.0) as i32, y: (32 * key.1) as i32 }
}

/// Every stored tile holds 1024 characters, one of them other than a
/// space, and lies where grid positions reach.
pub open spec fn tiles_sound(tiles: Map<(i32, i32), Seq<char>>) -> bool {
    forall|k: (i32, i32)| #[trigger]
        tiles.contains_key(k) ==> {
            &&& tiles[k].len() == 1024
            &&& exists|i: int| 0 <= i < 1024 && tiles[k][i] != ' '
            &&& -0x400_0000 <= k.0 < 0x400_0000 && -0x400_0000 <= k.1 < 0x400_0000
        }
}

/// An editor layer: whether it is shown, its name and its tiles.
pub struct EditorLayer {
    visible: bool,
    name: String,
    tiles: TileMap,
}

impl EditorLayer {
    /// Whether the layer is shown.
    pub closed spec fn spec_visible(self) -> bool {
        self.visible
    }

    /// The layer's name.
    pub closed spec fn spec_name(self) -> String {
        self.name
    }

    /// Every stored tile is consistent and holds a character other than a
    /// space, and its key is the tile coordinate of some grid position.
    #[verifier::type_invariant]
    pub closed spec fn wf(self) -> bool {
        forall|k: (i32, i32)| #[trigger]
            tile_map_view(self.tiles).contains_key(k) ==> tile_map_view(self.tiles)[k].wf()
                && non_space_count(tile_map_view(self.tiles)[k].cells(), 1024) > 0 && -0x400_0000
                <= k.0 < 0x400_0000 && -0x400_0000 <= k.1 < 0x400_0000
    }

    /// The tiles, by their characters.
    pub closed spec fn tiles_view(self) -> Map<(i32, i32), Seq<char>> {
        Map::new(
            |k: (i32, i32)| tile_map_view(self.tiles).contains_key(k),
            |k: (i32, i32)| tile_map_view(self.tiles)[k].cells(),
        )
    }

    /// A well-formed layer's tiles are sound.
    proof fn lemma_sound(self)
        requires
            self.wf(),
        ensures
            tiles_sound(self.tiles_view()),
    {
        assert forall|k: (i32, i32)| #[trigger] self.tiles_view().contains_key(k) implies {
            &&& self.tiles_view()[k].len() == 1024
            &&& exists|i: int| 0 <= i < 1024 && self.tiles_view()[k][i] != ' '
            &&& -0x400_0000 <= k.0 < 0x400_0000 && -0x400_0000 <= k.1 < 0x400_0000
        } by {
            assert(tile_map_view(self.tiles).contains_key(k));
            let cells = tile_map_view(self.tiles)[k].cells();
            if forall|i: int| 0 <= i < 1024 ==> cells[i] == ' ' {
                lemma_all_spaces(cells, 1024);
            }
        }
    }

    /// The character at `x`, `y`: a space where no tile is stored.
    pub open spec fn char_at(self, x: int, y: int) -> char {
        let key = tile_key(x, y);
        if self.tiles_view().contains_key(key) {
            self.tiles_view()[key][cell_index(x, y)]
        } else {
            ' '
        }
    }

    /// An empty, visible layer with the given name.
    pub fn new(name: String) -> (layer: Self)
        ensures
            layer.spec_visible(),
            layer.spec_name() == name,
            layer.tiles_view() =~= Map::empty(),
            tiles_sound(layer.tiles_view()),
    {
        EditorLayer { visible: true, name, tiles: TileMap::new() }
    }

    /// Whether the layer is shown.
    pub fn visible(&self) -> (visible: bool)
        ensures
            visible == self.spec_visible(),
    {
        self.visible
    }

    /// The layer's name.
    pub fn name(&self) -> (name: &String)
        ensures
            *name == self.spec_name(),
    {
        &self.name
    }

    /// Shows a hidden layer and hides a shown one.
    pub fn toggle_visible(&mut self)
        ensures
            final(self).spec_visible() == !old(self).spec_visible(),
            final(self).spec_name() == old(self).spec_name(),
            final(self).tiles_view() == old(self).tiles_view(),
            tiles_sound(final(self).tiles_view()),
    {
        proof {
            use_type_invariant(&*self);
            self.lemma_sound();
        }
        self.visible = !self.visible;
    }

    /// Writes `character` at `position`. A tile is created for a character
    /// other than a space, and a tile that holds only spaces afterwards is
    /// dropped. Always `Ok`.
    pub fn write_character(&mut self, position: IVec2, character: char) -> (res: Result<(), ()>)
        ensures
            res is Ok,
            final(self).spec_visible() == old(self).spec_visible(),
            final(self).spec_name() == old(self).spec_name(),
            forall|x: int, y: int|
                i32::MIN <= x <= i32::MAX && i32::MIN <= y <= i32::MAX ==> #[trigger] final(self).char_at(x, y) == if x == position.x && y == position.y {
                    character
                } else {
                    old(self).char_at(x, y)
                },
            tiles_sound(final(self).tiles_view()),
    {
        proof {
            use_type_invariant(&*self);
            self.lemma_sound();
        }
        let tx = match position.x.checked_div_euclid(32) {
            Some(v) => v,
            None => {
                return Ok(());
            },
        };
        let ty = match position.y.checked_div_euclid(32) {
            Some(v) => v,
            None => {
                return Ok(());
            },
        };
        let rx = match position.x.checked_rem_euclid(32) {
            Some(v) => v,
            None => {
                return Ok(());
            },
        };
        let ry = match position.y.checked_rem_euclid(32) {
            Some(v) => v,
            None => {
                return Ok(());
            },
        };
        let key = (tx, ty);
        let index = (rx + (31 - ry) * 32) as usize;
        let ghost px = position.x as int;
        let ghost py = position.y as int;
        proof {
            assert(tx == px / 32 && rx == px % 32);
            assert(ty == py / 32 && ry == py % 32);
            assert(key == tile_key(px, py));
            assert(index == cell_index(px, py));
        }
        let ghost old_self = *self;
        let ghost old_view = tile_map_view(self.tiles);
        let mut tiles = TileMap::new();
        std::mem::swap(&mut tiles, &mut self.tiles);
        if character != ' ' {
            let tile = tiles.remove(key);
            let mut tile = match tile {
                Some(t) => t,
                None => EditorLayerTile::new(),
            };
            let nonempty = tile.write(index, character);
            proof {
                lemma_count_pos(tile.cells(), index as int, 1024);
                assert(nonempty);
            }
            tiles.insert(key, tile);
            proof {
                assert forall|x: int, y: int|
                    i32::MIN <= x <= i32::MAX && i32::MIN <= y <= i32::MAX implies #[trigger] tile_map_view(
                    tiles,
                ).contains_key(tile_key(x, y)) == (old_view.contains_key(tile_key(x, y)) || tile_key(x, y) == key)
                    && (tile_map_view(tiles).contains_key(tile_key(x, y)) ==> tile_map_view(tiles)[tile_key(x, y)].cells()[cell_index(x, y)]
                    == if x == px && y == py {
                    character
                } else if old_view.contains_key(tile_key(x, y)) {
                    old_view[tile_key(x, y)].cells()[cell_index(x, y)]
                } else {
                    ' '
                }) by {
                    lemma_cell_index_range(x, y);
                    if tile_key(x, y) == key && cell_index(x, y) == cell_index(px, py) {
                        lemma_position_unique(x, y, px, py);
                    }
                }
            }
            self.tiles = tiles;
            proof {
                assert forall|x: int, y: int|
                    i32::MIN <= x <= i32::MAX && i32::MIN <= y <= i32::MAX implies #[trigger] self.char_at(x, y) == if x == px && y == py {
                    character
                } else {
                    old_self.char_at(x, y)
                } by {
                    assert(tile_map_view(tiles).contains_key(tile_key(x, y)) == (old_view.contains_key(tile_key(x, y)) || tile_key(x, y) == key));
                }
                use_type_invariant(&*self);
                self.lemma_sound();
            }
            return Ok(());
        }
        let tile = tiles.remove(key);
        match tile {
            Some(t) => {
                let mut t = t;
                let ghost before_cells = t.cells();
                let nonempty = t.write(index, character);
                let ghost after_cells = t.cells();
                if nonempty {
                    tiles.insert(key, t);
                } else {
                    proof {
                        lemma_count_zero(after_cells, 1024);
                    }
                }
                proof {
                    assert forall|x: int, y: int|
                        i32::MIN <= x <= i32::MAX && i32::MIN <= y <= i32::MAX && tile_key(x, y) == key implies (if tile_map_view(tiles).contains_key(key) {
                        tile_map_view(tiles)[key].cells()[cell_index(x, y)]
                    } else {
                        ' '
                    }) == if x == px && y == py {
                        ' '
                    } else {
                        before_cells[cell_index(x, y)]
                    } by {
                        lemma_cell_index_range(x, y);
                        if cell_index(x, y) == cell_index(px, py) {
                            lemma_position_unique(x, y, px, py);
                        }
                        assert(after_cells[cell_index(x, y)] == before_cells.update(index as int, character)[cell_index(x, y)]);
                    }
                }
            },
            None => {},
        }
        self.tiles = tiles;
        proof {
            assert forall|x: int, y: int|
                i32::MIN <= x <= i32::MAX && i32::MIN <= y <= i32::MAX implies #[trigger] self.char_at(x, y) == if x == px && y == py {
                character
            } else {
                old_self.char_at(x, y)
            } by {
                lemma_cell_index_range(x, y);
                if tile_key(x, y) != key {
                    assert(tile_map_view(tiles).contains_key(tile_key(x, y)) == old_view.contains_key(tile_key(x, y)));
                }
            }
            use_type_invariant(&*self);
            self.lemma_sound();
        }
        Ok(())
    }

    /// The stored tiles that overlap the rectangle from `start` (included)
    /// to `end` (excluded), each as a texture of its characters with the
    /// position of its lower corner; in no particular order.
    #[verifier::rlimit(40)]
    pub fn get_texture_sources(&self, start: IVec2, end: IVec2) -> (sources: Vec<(GlyphTextureSource, IVec2)>)
        ensures
            forall|i: int|
                0 <= i < sources@.len() ==> {
                    let (texture, corner) = #[trigger] sources@[i];
                    let key = tile_key(corner.x as int, corner.y as int);
                    &&& corner.x == 32 * key.0 && corner.y == 32 * key.1
                    &&& self.tiles_view().contains_key(key)
                    &&& tile_overlaps(key, start, end)
                    &&& texture.data@ == self.tiles_view()[key]
                    &&& texture.width == 32 && texture.height == 32
                    &&& exists|j: int| 0 <= j < 1024 && texture.data@[j] != ' '
                },
            forall|key: (i32, i32)|
                #![trigger self.tiles_view().contains_key(key)]
                self.tiles_view().contains_key(key) && tile_overlaps(key, start, end) ==> exists|i: int|
                    0 <= i < sources@.len() && #[trigger] sources@[i].1 == tile_corner(key),
            forall|i: int, j: int|
                0 <= i < j < sources@.len() ==> #[trigger] sources@[i].1 != #[trigger] sources@[j].1,
    {
        proof {
            use_type_invariant(self);
            self.lemma_sound();
        }
        let entries = self.tiles.entries();
        let mut sources: Vec<(GlyphTextureSource, IVec2)> = Vec::new();
        let mut i: usize = 0;
        while i < entries.len()
            invariant
                i <= entries@.len(),
                forall|a: int, b: int|
                    0 <= a < b < entries@.len() ==> #[trigger] entries@[a].0 != #[trigger] entries@[b].0,
                forall|a: int|
                    0 <= a < entries@.len() ==> tile_map_view(self.tiles).contains_key(#[trigger] entries@[a].0)
                        && entries@[a].1@ == tile_map_view(self.tiles)[entries@[a].0].cells(),
                forall|k: (i32, i32)|
                    tile_map_view(self.tiles).contains_key(k) ==> exists|a: int|
                        0 <= a < entries@.len() && #[trigger] entries@[a].0 == k,
                forall|k: (i32, i32)| #[trigger]
                    tile_map_view(self.tiles).contains_key(k) ==> -0x400_0000 <= k.0 < 0x400_0000
                        && -0x400_0000 <= k.1 < 0x400_0000,
                forall|a: int|
                    0 <= a < sources@.len() ==> {
                        let (texture, corner) = #[trigger] sources@[a];
                        let key = tile_key(corner.x as int, corner.y as int);
                        &&& corner.x == 32 * key.0 && corner.y == 32 * key.1
                        &&& self.tiles_view().contains_key(key)
                        &&& tile_overlaps(key, start, end)
                        &&& texture.data@ == self.tiles_view()[key]
                        &&& texture.width == 32 && texture.height == 32
                        &&& exists|b: int| 0 <= b < i && entries@[b].0 == key
                    },
                forall|b: int|
                    0 <= b < i && tile_overlaps(#[trigger] entries@[b].0, start, end) ==> exists|a: int|
                        0 <= a < sources@.len() && #[trigger] sources@[a].1 == tile_corner(entries@[b].0),
                forall|a: int, c: int|
                    0 <= a < c < sources@.len() ==> #[trigger] sources@[a].1 != #[trigger] sources@[c].1,
            decreases entries@.len() - i,
        {
            let key = entries[i].0;
            proof {
                assert(tile_map_view(self.tiles).contains_key(entries@[i as int].0));
                assert(tile_map_view(self.tiles).contains_key(key));
            }
            let tile_start = IVec2 { x: key.0 * 32, y: key.1 * 32 };
            if overlaps_tile(key, start, end) {
                let data = entries[i].1.clone();
                proof {
                    assert(data@ =~= entries@[i as int].1@);
                    assert(tile_key(tile_start.x as int, tile_start.y as int) == key);
                }
                let ghost old_sources = sources@;
                sources.push((GlyphTextureSource { data, width: 32, height: 32 }, tile_start));
                proof {
                    assert forall|a: int, c: int|
                        0 <= a < c < sources@.len() implies #[trigger] sources@[a].1 != #[trigger] sources@[c].1 by {
                        if c == sources@.len() - 1 {
                            let b = choose|b: int| 0 <= b < i && entries@[b].0 == tile_key(sources@[a].1.x as int, sources@[a].1.y as int);
                            assert(entries@[b].0 != entries@[i as int].0);
                        }
                    }
                    assert(sources@[sources@.len() - 1] == (GlyphTextureSource { data, width: 32, height: 32 }, tile_start));
                    assert forall|b: int|
                        0 <= b < i + 1 && tile_overlaps(#[trigger] entries@[b].0, start, end) implies exists|a: int|
                            0 <= a < sources@.len() && #[trigger] sources@[a].1 == tile_corner(entries@[b].0) by {
                        if b == i {
                            assert(sources@[old_sources.len() as int].1 == tile_corner(entries@[b].0));
                        } else {
                            let a = choose|a: int| 0 <= a < old_sources.len() && #[trigger] old_sources[a].1 == tile_corner(entries@[b].0);
                            assert(sources@[a] == old_sources[a]);
                        }
                    }
                }
            }
            i = i + 1;
        }
        proof {
            assert forall|key: (i32, i32)|
                #![trigger self.tiles_view().contains_key(key)]
                self.tiles_view().contains_key(key) && tile_overlaps(key, start, end) implies exists|a: int|
                    0 <= a < sources@.len() && #[trigger] sources@[a].1 == tile_corner(key) by {
                assert(tile_map_view(self.tiles).contains_key(key));
                let b = choose|b: int| 0 <= b < entries@.len() && #[trigger] entries@[b].0 == key;
                assert(tile_overlaps(entries@[b].0, start, end));
            }
        }
        sources
    }
}

/// Whether the tile `key` overlaps the rectangle from `start` to `end`.
fn overlaps_tile(key: (i32, i32), start: IVec2, end: IVec2) -> (overlaps: bool)
    requires
        -0x400_0000 <= key.0 < 0x400_0000,
        -0x400_0000 <= key.1 < 0x400_0000,
    ensures
        overlaps == tile_overlaps(key, start, end),
{
    let (sx, sy) = (key.0 as i64 * 32, key.1 as i64 * 32);
    let low_x = if start.x as i64 > sx { start.x as i64 } else { sx };
    let high_x = if (end.x as i64) < sx + 32 { end.x as i64 } else { sx + 32 };
    let low_y = if start.y as i64 > sy { start.y as i64 } else { sy };
    let high_y = if (end.y as i64) < sy + 32 { end.y as i64 } else { sy + 32 };
    low_x < high_x && low_y < high_y
}

/// What a read gives back of a write: after `character` was written at
/// `position`, the layer holds it there; a character other than a space is
/// found in the tile of that position, at its cell, which is where the
/// tile's texture holds it.
pub proof fn lemma_write_then_read(before: EditorLayer, after: EditorLayer, position: IVec2, character: char)
    requires
        forall|x: int, y: int|
            i32::MIN <= x <= i32::MAX && i32::MIN <= y <= i32::MAX ==> #[trigger] after.char_at(x, y) == if x
                == position.x && y == position.y {
                character
            } else {
                before.char_at(x, y)
            },
    ensures
        after.char_at(position.x as int, position.y as int) == character,
        character != ' ' ==> after.tiles_view().contains_key(tile_key(position.x as int, position.y as int))
            && after.tiles_view()[tile_key(position.x as int, position.y as int)][cell_index(
            position.x as int,
            position.y as int,
        )] == character,
{
    assert(after.char_at(position.x as int, position.y as int) == character);
}

/// Only tiles that show a character are kept: every stored tile holds,
/// at some grid position within it, a character other than a space.
pub proof fn lemma_stored_tiles_show(layer: EditorLayer, key: (i32, i32))
    requires
        tiles_sound(layer.tiles_view()),
        layer.tiles_view().contains_key(key),
    ensures
        exists|x: int, y: int|
            i32::MIN <= x <= i32::MAX && i32::MIN <= y <= i32::MAX && tile_key(x, y) == key
                && #[trigger] layer.char_at(x, y) != ' ',
{
    let i = choose|i: int| 0 <= i < 1024 && layer.tiles_view()[key][i] != ' ';
    let x = 32 * key.0 + i % 32;
    let y = 32 * key.1 + 31 - i / 32;
    assert(x / 32 == key.0 && x % 32 == i % 32);
    assert(y / 32 == key.1 && y % 32 == 31 - i / 32);
    assert(cell_index(x, y) == i);
    assert(tile_key(x, y) == key);
    assert(layer.char_at(x, y) != ' ');
}

/// Tile overlap law: the tile `key` overlaps the rectangle from `start`
/// (included) to `end` (excluded) exactly when some grid position of the
/// rectangle lies in that tile, a tile holding 32 by 32 positions; so
/// [`EditorLayer::get_texture_sources`] gives back every stored tile that
/// holds a position of the rectangle, down to its last column and row.
pub proof fn lemma_tile_overlaps_cells(key: (i32, i32), start: IVec2, end: IVec2)
    requires
        -0x400_0000 <= key.0 < 0x400_0000,
        -0x400_0000 <= key.1 < 0x400_0000,
    ensures
        tile_overlaps(key, start, end) <==> exists|x: int, y: int|
            start.x <= x < end.x && start.y <= y < end.y && #[trigger] tile_key(x, y) == key,
{
    let (sx, sy) = (32 * key.0, 32 * key.1);
    if tile_overlaps(key, start, end) {
        let x = vstd::math::max(start.x as int, sx);
        let y = vstd::math::max(start.y as int, sy);
        assert(x / 32 == key.0 && y / 32 == key.1);
        assert(tile_key(x, y) == key);
    }
    if exists|x: int, y: int| start.x <= x < end.x && start.y <= y < end.y && #[trigger] tile_key(x, y) == key {
        let (x, y) = choose|x: int, y: int|
            start.x <= x < end.x && start.y <= y < end.y && #[trigger] tile_key(x, y) == key;
        assert(x / 32 == key.0 && y / 32 == key.1);
        assert(sx <= x < sx + 32 && sy <= y < sy + 32);
    }
}

/// A tile's cell index lies within the tile.
proof fn lemma_cell_index_range(x: int, y: int)
    ensures
        0 <= cell_index(x, y) < 1024,
{
}

/// A grid position is determined by its tile key and cell index.
proof fn lemma_position_unique(x1: int, y1: int, x2: int, y2: int)
    requires
        i32::MIN <= x1 <= i32::MAX,
        i32::MIN <= y1 <= i32::MAX,
        i32::MIN <= x2 <= i32::MAX,
        i32::MIN <= y2 <= i32::MAX,
        tile_key(x1, y1) == tile_key(x2, y2),
        cell_index(x1, y1) == cell_index(x2, y2),
    ensures
        x1 == x2 && y1 == y2,
{
    assert(x1 / 32 == x2 / 32);
    assert(y1 / 32 == y2 / 32);
}

/// A character other than a space makes the count positive.
proof fn lemma_count_pos(s: Seq<char>, i: int, n: int)
    requires
        0 <= i < n <= s.len(),
        s[i] != ' ',
    ensures
        non_space_count(s, n) >= 1,
    decreases n,
{
    lemma_count_bounds(s, n - 1);
    if i < n - 1 {
        lemma_count_pos(s, i, n - 1);
    }
}

/// A sequence of spaces counts zero.
proof fn lemma_all_spaces(s: Seq<char>, n: int)
    requires
        0 <= n <= s.len(),
        forall|j: int| 0 <= j < n ==> s[j] == ' ',
    ensures
        non_space_count(s, n) == 0,
    decreases n,
{
    if n > 0 {
        lemma_all_spaces(s, n - 1);
    }
}

} // verus!
