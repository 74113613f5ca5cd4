//! Font atlases: glyph images packed into one square texture.
use vstd::prelude::*;
use crate::math::{IVec2, UVec2};

pub mod builder;
pub mod cache;
pub mod packing;



verus! {

/// Where a glyph image lies in an atlas: its lower corner, its size, and the
/// offset of the image relative to the glyph's origin.
#[derive(Clone, Copy, Debug, PartialEq, Eq, Structural)]
pub struct AtlasItem {
    pub start: UVec2,
    pub size: UVec2,
    pub offset: IVec2,
}

/// A map from font glyph identifiers to the index of the glyph in an atlas.
#[verifier::external_body]
#[derive(Debug)]
pub struct GlyphIndexMap {
    map: bevy::utils::HashMap<u16, u16>,
}

/// What a [`GlyphIndexMap`] holds.
pub uninterp spec fn glyph_index_view(m: GlyphIndexMap) -> Map<u16, u16>;

impl GlyphIndexMap {
    /// Calls `HashMap::default` (bevy's hashbrown map), which is empty.
    #[verifier::external_body]
    pub(crate) fn new() -> (empty: GlyphIndexMap)
        ensures
            glyph_index_view(empty) =~= Map::empty(),
    {
        GlyphIndexMap { map: bevy::utils::HashMap::default() }
    }

    /// Calls `HashMap::insert`: afterwards `glyph` maps to `index`.
    #[verifier::external_body]
    pub(crate) fn insert(&mut self, glyph: u16, index: u16)
        ensures
            glyph_index_view(*final(self)) == glyph_index_view(*old(self)).insert(glyph, index),
    {
        self.map.insert(glyph, index);
    }

    /// Calls `HashMap::get` and copies the index found, if any.
    #[verifier::external_body]
    pub(crate) fn get(&self, glyph: u16) -> (found: Option<u16>)
        ensures
            found == (if glyph_index_view(*self).contains_key(glyph) {
                Some(glyph_index_view(*self)[glyph])
            } else {
                None
            }),
    {
        self.map.get(&glyph).copied()
    }
}

impl Clone for GlyphIndexMap {
    /// Calls `HashMap::clone`, which copies every entry.
    #[verifier::external_body]
    fn clone(&self) -> (copy: Self)
        ensures
            glyph_index_view(copy) == glyph_index_view(*self),
    {
        GlyphIndexMap { map: self.map.clone() }
    }
}

/// A font atlas: an RGBA texture `size` pixels square, where each glyph's
/// image lies, which glyph each image shows, and the index of each glyph.
#[derive(Clone, Debug)]
pub struct Atlas {
    pub data: Vec<u8>,
    pub size: u32,
    pub items: Vec<AtlasItem>,
    pub local_index: GlyphIndexMap,
    pub glyph_ids: Vec<u16>,
}

} // verus!
