//! Glyph textures as the render world receives them: lines of text, and
//! the grid of atlas indices extracted from them, its rows from the bottom.
use vstd::prelude::*;
use crate::atlas::Atlas;
use crate::font::CustomFontSource;
use crate::glyph_animation::GlyphAnimationSource;
use crate::glyph_gen_pipeline::{encode_text, text_fits, text_maps_safely, text_width, texture_bytes};

verus! {

/// A texture given as lines of text, from the top.
pub struct GlyphTexture {
    pub data: Vec<String>,
}

/// A texture of glyph indices, two bytes per cell and its rows from the
/// bottom, with the distances between glyphs and between lines in pixels.
pub struct ExtractedGlyphTexture {
    pub data: Vec<u8>,
    pub width: u32,
    pub height: u32,
    pub advance: u32,
    pub line_spacing: u32,
}

/// `texture` holds the cells of `text`, rows from the bottom, glyphs 19
/// pixels apart and lines 40.
pub open spec fn extracted_from(
    texture: ExtractedGlyphTexture,
    text: Seq<String>,
    atlas: Atlas,
    font: CustomFontSource,
) -> bool {
    &&& texture.data@ == texture_bytes(text, atlas, font, true)
    &&& texture.width == text_width(text) as u32
    &&& texture.height == text.len() as u32
    &&& texture.advance == 19
    &&& texture.line_spacing == 40
}

/// The texture of `text`, its rows from the bottom.
fn extract_lines(text: &[String], atlas: &Atlas, font: &CustomFontSource) -> (texture: ExtractedGlyphTexture)
    requires
        text_fits(text@),
        text_maps_safely(text@, *font),
    ensures
        extracted_from(texture, text@, *atlas, *font),
{
    let data = encode_text(text, atlas, font, true);
    let width = text[0].as_str().as_bytes().len();
    #[verifier::truncate]
    let width = width as u32;
    #[verifier::truncate]
    let height = text.len() as u32;
    ExtractedGlyphTexture { data, width, height, advance: 19, line_spacing: 40 }
}

impl ExtractedGlyphTexture {
    /// The texture of the lines of `source`.
    pub fn extract(source: &GlyphTexture, atlas: &Atlas, font: &CustomFontSource) -> (texture: Self)
        requires
            text_fits(source.data@),
            text_maps_safely(source.data@, *font),
        ensures
            extracted_from(texture, source.data@, *atlas, *font),
    {
        extract_lines(source.data.as_slice(), atlas, font)
    }

    /// The texture of frame `frame` of the animation `source`.
    pub fn extract_animation(
        source: &GlyphAnimationSource,
        atlas: &Atlas,
        font: &CustomFontSource,
        frame: usize,
    ) -> (texture: Self)
        requires
            frame < source.frames@.len(),
            text_fits(source.frames@[frame as int].data@),
            text_maps_safely(source.frames@[frame as int].data@, *font),
        ensures
            extracted_from(texture, source.frames@[frame as int].data@, *atlas, *font),
    {
        extract_lines(source.frames[frame].data.as_slice(), atlas, font)
    }
}

/// Extracting frame `frame` of an animation gives, field by field, what
/// extracting a texture that holds that frame's lines gives: the texture of
/// given lines is determined by them.
pub proof fn lemma_extract_animation_is_extract(
    source: GlyphAnimationSource,
    frame: int,
    atlas: Atlas,
    font: CustomFontSource,
    from_animation: ExtractedGlyphTexture,
    from_texture: ExtractedGlyphTexture,
)
    requires
        0 <= frame < source.frames@.len(),
        extracted_from(from_animation, source.frames@[frame].data@, atlas, font),
        extracted_from(from_texture, (GlyphTexture { data: source.frames@[frame].data }).data@, atlas, font),
    ensures
        from_animation.data@ == from_texture.data@,
        from_animation.width == from_texture.width,
        from_animation.height == from_texture.height,
        from_animation.advance == from_texture.advance,
        from_animation.line_spacing == from_texture.line_spacing,
{
}

} // verus!
