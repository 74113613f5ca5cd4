use bevy_ascii_game::atlas::builder::{AtlasBuilder, RenderedGlyph, RenderedImage};
use bevy_ascii_game::atlas::cache::chars_to_build;
use bevy_ascii_game::atlas::packing::{pack, try_pack_all};
use bevy_ascii_game::font::{CustomFontLoader, CustomFontSource, FontSize};
use bevy_ascii_game::glyph_gen_pipeline::{
    chars_of, encode_text, fits_texture, maps_text_safely, GlyphTexture,
};
use bevy_ascii_game::glyph_render_plugin::{self as render_plugin, ExtractedGlyphTexture};
use bevy_ascii_game::math::{IVec2, UVec2};

/// A font file with only a character map, in which 'A' is glyph 5 and
/// 'B'..='C' are glyphs 7 and 8.
fn tiny_font() -> Vec<u8> {
    let mut f: Vec<u8> = Vec::new();
    let u16b = |f: &mut Vec<u8>, v: u16| f.extend_from_slice(&v.to_be_bytes());
    let u32b = |f: &mut Vec<u8>, v: u32| f.extend_from_slice(&v.to_be_bytes());
    u32b(&mut f, 0x0001_0000);
    u16b(&mut f, 1);
    u16b(&mut f, 16);
    u16b(&mut f, 0);
    u16b(&mut f, 0);
    f.extend_from_slice(b"cmap");
    u32b(&mut f, 0);
    u32b(&mut f, 28);
    u32b(&mut f, 52);
    // cmap header with one encoding record (Windows, UCS-4).
    u16b(&mut f, 0);
    u16b(&mut f, 1);
    u16b(&mut f, 3);
    u16b(&mut f, 10);
    u32b(&mut f, 12);
    // Format 12 subtable with two groups.
    u16b(&mut f, 12);
    u16b(&mut f, 0);
    u32b(&mut f, 40);
    u32b(&mut f, 0);
    u32b(&mut f, 2);
    u32b(&mut f, 'A' as u32);
    u32b(&mut f, 'A' as u32);
    u32b(&mut f, 5);
    u32b(&mut f, 'B' as u32);
    u32b(&mut f, 'C' as u32);
    u32b(&mut f, 7);
    f
}

fn lines(v: &[&str]) -> Vec<String> {
    v.iter().map(|s| s.to_string()).collect()
}

#[test]
fn font_size_defaults_to_32() {
    assert_eq!(FontSize::default().0, 32);
}

#[test]
fn font_loader_extension_and_bytes() {
    let loader = CustomFontLoader;
    assert_eq!(loader.extensions(), &["ttf"]);
    assert!(loader.load_bytes(&tiny_font()).is_some());
    assert!(loader.load_bytes(b"not a font").is_none());
    assert!(CustomFontSource::from_bytes(&tiny_font(), 1).is_none());
}

#[test]
fn character_map_is_read_from_the_font() {
    let font = CustomFontSource::from_bytes(&tiny_font(), 0).unwrap();
    assert_eq!(font.glyph_id('A'), 5);
    assert_eq!(font.glyph_id('B'), 7);
    assert_eq!(font.glyph_id('C'), 8);
    assert_eq!(font.glyph_id('D'), 0);
    assert_eq!(font.as_ref().charmap().map('A'), 5);
}

#[test]
fn packing_fills_shelves_then_grows() {
    let sizes = vec![UVec2 { x: 100, y: 10 }, UVec2 { x: 100, y: 10 }, UVec2 { x: 100, y: 8 }];
    let (side, places) = pack(&sizes);
    assert_eq!(side, 256);
    assert_eq!(places, vec![UVec2 { x: 0, y: 0 }, UVec2 { x: 100, y: 0 }, UVec2 { x: 0, y: 10 }]);
    let (side, places) = try_pack_all(&vec![UVec2 { x: 300, y: 5 }]).unwrap();
    assert_eq!(side, 512);
    assert_eq!(places, vec![UVec2 { x: 0, y: 0 }]);
    let (side, places) = try_pack_all(&vec![]).unwrap();
    assert_eq!(side, 256);
    assert!(places.is_empty());
}

#[test]
fn packing_too_wide_fails() {
    assert!(try_pack_all(&vec![UVec2 { x: u32::MAX, y: 1 }]).is_none());
}

#[test]
fn chars_to_build_adds_what_is_missing() {
    assert_eq!(chars_to_build(None, &vec!['a', 'b']), Some(vec!['a', 'b']));
    assert_eq!(chars_to_build(Some(&vec!['a', 'b', 'c']), &vec!['c', 'a']), None);
    let mut all = chars_to_build(Some(&vec!['a']), &vec!['b', 'a']).unwrap();
    all.sort();
    assert_eq!(all, vec!['a', 'b']);
}

#[test]
fn chars_of_reads_characters() {
    assert_eq!(chars_of(&"hé!".to_string()), vec!['h', 'é', '!']);
    assert!(chars_of(&String::new()).is_empty());
}

#[test]
fn textures_hold_atlas_indices() {
    let font = CustomFontSource::from_bytes(&tiny_font(), 0).unwrap();
    let mut builder = AtlasBuilder::new(&font, 16);
    // The font has no outlines: nothing is rendered, and the atlas is empty.
    assert!(builder.insert_char('A').is_none());
    let atlas = builder.try_build().unwrap();
    assert_eq!(atlas.size, 256);
    assert!(atlas.items.is_empty());
    assert_eq!(atlas.data.len(), 256 * 256 * 4);
    assert_eq!(&atlas.data[0..4], &[0xff, 0x00, 0x00, 0xff]);

    let text = lines(&["AB", "c "]);
    assert!(fits_texture(&text));
    let top_down = encode_text(&text, &atlas, &font, false);
    // Every character is missing from the atlas: its cell holds u16::MAX.
    assert_eq!(top_down, vec![0xff; 8]);
    let texture = GlyphTexture::from_text(&text, &atlas, &font);
    assert_eq!((texture.width, texture.height, texture.advance, texture.leading), (2, 2, 19, 32));

    let wide = lines(&["é", "ab"]);
    assert!(fits_texture(&wide));
    // "é" is one character in two bytes: its second cell stays zero.
    let encoded = encode_text(&wide, &atlas, &font, true);
    assert_eq!(encoded, vec![0xff, 0xff, 0xff, 0xff, 0xff, 0xff, 0, 0]);
    let extracted = ExtractedGlyphTexture::extract(
        &render_plugin::GlyphTexture { data: wide.clone() },
        &atlas,
        &font,
    );
    assert_eq!(extracted.data, encoded);
    assert_eq!((extracted.width, extracted.height), (2, 2));
    assert_eq!((extracted.advance, extracted.line_spacing), (19, 40));
}

#[test]
fn texture_fit_checks() {
    assert!(!fits_texture(&[]));
    assert!(!fits_texture(&lines(&["ab", "a"])));
    assert!(fits_texture(&lines(&["", ""])));
}

fn float_advance(size: u32) -> u32 {
    ((size as f32) * 19.0 / 32.0) as u32
}

fn float_line_spacing(size: u32) -> u32 {
    ((size as f32) * 40.0 / 32.0) as u32
}

#[test]
fn font_metrics_of_common_sizes() {
    assert_eq!(FontSize(32).advance(), 19);
    assert_eq!(FontSize(32).line_spacing(), 40);
    assert_eq!(FontSize(14).advance(), 8);
    assert_eq!(FontSize(14).line_spacing(), 17);
    assert_eq!(FontSize(0).advance(), 0);
}

#[test]
fn font_metrics_match_float_arithmetic() {
    let mut sizes: Vec<u32> = (0..20_000).collect();
    let mut s: u64 = 1;
    while s < u32::MAX as u64 {
        for d in [0u64, 1, 2, 3, 5, 7, 11, 13] {
            if s + d <= u32::MAX as u64 {
                sizes.push((s + d) as u32);
            }
            if s > d {
                sizes.push((s - d) as u32);
            }
        }
        s = s * 3 / 2 + 1;
    }
    sizes.extend_from_slice(&[
        u32::MAX,
        u32::MAX - 1,
        (1 << 24) + 1,
        (1 << 24) + 3,
        (1 << 25) + 2,
        (1 << 25) + 6,
        (1 << 31) + 77,
        3_435_973_837,
    ]);
    let mut x: u32 = 12345;
    for _ in 0..20_000 {
        x = x.wrapping_mul(1_664_525).wrapping_add(1_013_904_223);
        sizes.push(x);
    }
    for size in sizes {
        assert_eq!(FontSize(size).advance(), float_advance(size), "advance of {}", size);
        assert_eq!(FontSize(size).line_spacing(), float_line_spacing(size), "line spacing of {}", size);
    }
}

/// A font with one glyph, a square, for 'A'.
fn square_font() -> Vec<u8> {
    fn be16(v: &mut Vec<u8>, x: u16) {
        v.extend_from_slice(&x.to_be_bytes());
    }
    fn be32(v: &mut Vec<u8>, x: u32) {
        v.extend_from_slice(&x.to_be_bytes());
    }
    let mut cmap = Vec::new();
    be16(&mut cmap, 0);
    be16(&mut cmap, 1);
    be16(&mut cmap, 3);
    be16(&mut cmap, 10);
    be32(&mut cmap, 12);
    be16(&mut cmap, 12);
    be16(&mut cmap, 0);
    be32(&mut cmap, 28);
    be32(&mut cmap, 0);
    be32(&mut cmap, 1);
    be32(&mut cmap, 'A' as u32);
    be32(&mut cmap, 'A' as u32);
    be32(&mut cmap, 1);

    let mut glyf = Vec::new();
    be16(&mut glyf, 1);
    for v in [0u16, 0, 512, 512] {
        be16(&mut glyf, v);
    }
    be16(&mut glyf, 3);
    be16(&mut glyf, 0);
    glyf.extend_from_slice(&[1, 1, 1, 1]);
    for x in [0i16, 512, 0, -512] {
        be16(&mut glyf, x as u16);
    }
    for y in [0i16, 0, 512, 0] {
        be16(&mut glyf, y as u16);
    }

    let mut head = Vec::new();
    be16(&mut head, 1);
    be16(&mut head, 0);
    be32(&mut head, 0x0001_0000);
    be32(&mut head, 0);
    be32(&mut head, 0x5F0F_3CF5);
    be16(&mut head, 0);
    be16(&mut head, 1024);
    head.extend_from_slice(&[0; 16]);
    for v in [0u16, 0, 512, 512] {
        be16(&mut head, v);
    }
    be16(&mut head, 0);
    be16(&mut head, 8);
    be16(&mut head, 2);
    be16(&mut head, 0);
    be16(&mut head, 0);

    let mut hhea = Vec::new();
    be32(&mut hhea, 0x0001_0000);
    be16(&mut hhea, 800);
    be16(&mut hhea, (-200i16) as u16);
    be16(&mut hhea, 0);
    be16(&mut hhea, 600);
    hhea.extend_from_slice(&[0; 22]);
    be16(&mut hhea, 2);

    let mut hmtx = Vec::new();
    for _ in 0..2 {
        be16(&mut hmtx, 600);
        be16(&mut hmtx, 0);
    }

    let mut loca = Vec::new();
    for v in [0u16, 0, (glyf.len() / 2) as u16] {
        be16(&mut loca, v);
    }

    let mut maxp = Vec::new();
    be32(&mut maxp, 0x0000_5000);
    be16(&mut maxp, 2);

    let tables: Vec<(&[u8; 4], Vec<u8>)> = vec![
        (b"cmap", cmap),
        (b"glyf", glyf),
        (b"head", head),
        (b"hhea", hhea),
        (b"hmtx", hmtx),
        (b"loca", loca),
        (b"maxp", maxp),
    ];
    let mut font = Vec::new();
    be32(&mut font, 0x0001_0000);
    be16(&mut font, tables.len() as u16);
    be16(&mut font, 64);
    be16(&mut font, 2);
    be16(&mut font, 48);
    let mut offset = 12 + 16 * tables.len();
    let mut body = Vec::new();
    for (tag, data) in tables.iter() {
        font.extend_from_slice(*tag);
        be32(&mut font, 0);
        be32(&mut font, offset as u32);
        be32(&mut font, data.len() as u32);
        let mut padded = data.clone();
        while padded.len() % 4 != 0 {
            padded.push(0);
        }
        offset += padded.len();
        body.extend_from_slice(&padded);
    }
    font.extend_from_slice(&body);
    font
}

#[test]
fn atlas_indexes_rendered_glyphs() {
    let font = CustomFontSource::from_bytes(&square_font(), 0).unwrap();
    assert_eq!(font.glyph_id('A'), 1);
    let mut builder = AtlasBuilder::new(&font, 16);
    assert!(builder.insert_char('A').is_some());
    let atlas = builder.try_build().unwrap();
    assert_eq!(atlas.glyph_ids, vec![1]);
    assert_eq!(atlas.items.len(), 1);
    assert_eq!(atlas.items[0].start, UVec2 { x: 0, y: 0 });
    assert!(atlas.items[0].size.x > 0 && atlas.items[0].size.y > 0);
    // The glyph's pixels are opaque where drawn.
    assert_eq!(atlas.data[3], 0xff);

    let text = lines(&["AB", "BA"]);
    let encoded = encode_text(&text, &atlas, &font, false);
    // 'A' is the atlas's glyph 0; 'B' has no glyph in it.
    assert_eq!(encoded, vec![0, 0, 0xff, 0xff, 0xff, 0xff, 0, 0]);
}

#[test]
fn rendered_images_become_opaque_glyphs() {
    let image = RenderedImage { left: -2, top: 7, width: 2, height: 1, data: vec![1, 2, 3, 4, 5, 6, 7, 8] };
    let glyph = RenderedGlyph::from_image(9, image);
    assert_eq!(glyph.glyph_id, 9);
    assert_eq!(glyph.ofset, IVec2 { x: 7, y: -2 });
    assert_eq!(glyph.size, UVec2 { x: 2, y: 1 });
    assert_eq!(glyph.texture, vec![1, 2, 3, 0xff, 5, 6, 7, 0xff]);
}

#[test]
fn font_cache_key_is_stable() {
    let font = CustomFontSource::from_bytes(&tiny_font(), 0).unwrap();
    assert!(font.key() == font.key());
    let other = CustomFontSource::from_bytes(&tiny_font(), 0).unwrap();
    assert!(font.key() != other.key());
}

/// The tiny font with its second group's first glyph at `u32::MAX`, so
/// that looking up 'C' would pass it.
fn overflowing_font() -> Vec<u8> {
    let mut f = tiny_font();
    let n = f.len();
    f[n - 4..].copy_from_slice(&u32::MAX.to_be_bytes());
    f
}

#[test]
fn character_map_overflow_is_detected() {
    let font = CustomFontSource::from_bytes(&tiny_font(), 0).unwrap();
    assert!(font.maps_safely('A'));
    assert!(font.maps_safely('C'));
    assert!(maps_text_safely(&lines(&["AB", "CD"]), &font));
    let crafted = CustomFontSource::from_bytes(&overflowing_font(), 0).unwrap();
    assert!(!crafted.maps_safely('C'));
    assert!(!maps_text_safely(&lines(&["AB", "CD"]), &crafted));
    assert!(maps_text_safely(&lines(&["A"]), &crafted));
}

#[test]
fn metrics_grow_with_the_size() {
    let sizes = [0u32, 1, 13, 14, 32, 1000, 883011, 0xFF_FFFF, 0x100_0001, 0x7FFF_FFFF, u32::MAX - 1, u32::MAX];
    for pair in sizes.windows(2) {
        let (a, b) = (FontSize(pair[0]), FontSize(pair[1]));
        assert!(a.advance() <= b.advance());
        assert!(a.line_spacing() <= b.line_spacing());
    }
    assert_eq!(FontSize(32).advance(), 19);
    assert_eq!(FontSize(14).advance(), 8);
    assert_eq!(FontSize(32).line_spacing(), 40);
    assert_eq!(FontSize(14).line_spacing(), 17);
}

#[test]
fn fonts_are_found_in_collections() {
    let mut collection: Vec<u8> = Vec::new();
    collection.extend_from_slice(b"ttcf");
    collection.extend_from_slice(&0x0001_0000u32.to_be_bytes());
    collection.extend_from_slice(&1u32.to_be_bytes());
    collection.extend_from_slice(&16u32.to_be_bytes());
    collection.extend_from_slice(&tiny_font());
    let font = CustomFontSource::from_bytes(&collection, 0).unwrap();
    assert_eq!(font.as_ref().offset, 16);
    assert!(CustomFontSource::from_bytes(&collection, 1).is_none());
    assert!(CustomFontSource::from_bytes(&collection[..15], 0).is_none());
    let mut bad = collection.clone();
    bad[16..20].copy_from_slice(b"abcd");
    assert!(CustomFontSource::from_bytes(&bad, 0).is_none());
    assert_eq!(CustomFontSource::from_bytes(&tiny_font(), 0).unwrap().as_ref().offset, 0);
}

#[test]
fn glyphs_too_large_to_render_are_refused() {
    let font = CustomFontSource::from_bytes(&square_font(), 0).unwrap();
    assert!(font.renders_safely(16, 1));
    assert!(font.renders_safely(16384, 1));
    assert!(!font.renders_safely(20000, 1));
    let mut builder = AtlasBuilder::new(&font, 20000);
    assert_eq!(builder.try_insert_char('A'), None);
    assert!(builder.try_build().unwrap().items.is_empty());
    let mut builder = AtlasBuilder::new(&font, 16);
    assert_eq!(builder.try_insert_char('A'), Some(Some(())));
    assert_eq!(builder.try_insert_glyph(1), Some(Some(())));
    let atlas = builder.try_build().unwrap();
    assert_eq!(atlas.glyph_ids, vec![1, 1]);
    let crafted = CustomFontSource::from_bytes(&overflowing_font(), 0).unwrap();
    let mut builder = AtlasBuilder::new(&crafted, 16);
    assert_eq!(builder.try_insert_char('C'), None);
}
