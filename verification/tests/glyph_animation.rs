use bevy_ascii_game::glyph_animation::{
    GlyphAnimationAssetLoader, GlyphAnimationFrameMeta, GlyphAnimationMeta, GlyphAnimationSource,
    GylphAnimationFrame,
};
use bevy_ascii_game::math::UVec2;

fn lines(v: &[&str]) -> Vec<String> {
    v.iter().map(|s| s.to_string()).collect()
}

fn frame(asset: &str, start: (u32, u32), size: (u32, u32), offset: (u32, u32)) -> GlyphAnimationFrameMeta {
    GlyphAnimationFrameMeta { asset: asset.to_string(), start, size, offset }
}

#[test]
fn animation_loader_extension() {
    assert_eq!(GlyphAnimationAssetLoader {}.extensions(), &["anim.ron"]);
}

#[test]
fn parse_bytes_splits_lines_and_drops_carriage_returns() {
    let parsed = GlyphAnimationAssetLoader::parse_bytes(b"ab\r\ncd\nef".to_vec());
    assert_eq!(parsed, lines(&["ab", "cd", "ef"]));
}

#[test]
fn parse_bytes_keeps_empty_lines() {
    assert_eq!(GlyphAnimationAssetLoader::parse_bytes(b"".to_vec()), lines(&[""]));
    assert_eq!(GlyphAnimationAssetLoader::parse_bytes(b"a\n".to_vec()), lines(&["a", ""]));
    assert_eq!(GlyphAnimationAssetLoader::parse_bytes(b"\n\n".to_vec()), lines(&["", "", ""]));
}

#[test]
fn parse_bytes_strips_one_carriage_return_only() {
    assert_eq!(GlyphAnimationAssetLoader::parse_bytes(b"a\r\r\nb\r".to_vec()), lines(&["a\r", "b"]));
}

#[test]
fn parse_bytes_decodes_utf8() {
    assert_eq!(
        GlyphAnimationAssetLoader::parse_bytes("é☃\nx".as_bytes().to_vec()),
        lines(&["é☃", "x"])
    );
}

#[test]
fn frame_is_cut_and_padded() {
    let data = lines(&["0123456", "abcdefg", "ABCDEFG"]);
    let meta = frame("f", (2, 1), (3, 2), (1, 9));
    let size = UVec2 { x: 6, y: 3 };
    assert!(GylphAnimationFrame::fits(&meta, &data, size));
    let cut = GylphAnimationFrame::new(&meta, &data, size);
    assert_eq!(cut.data, lines(&[" cde  ", " CDE  ", ""]));
}

#[test]
fn frame_respects_character_boundaries() {
    let data = lines(&["éa"]);
    let size = UVec2 { x: 2, y: 1 };
    assert!(!GylphAnimationFrame::fits(&frame("f", (1, 0), (1, 1), (0, 0)), &data, size));
    let whole = frame("f", (0, 0), (2, 1), (0, 0));
    assert!(GylphAnimationFrame::fits(&whole, &data, size));
    assert_eq!(GylphAnimationFrame::new(&whole, &data, size).data, lines(&["é"]));
}

#[test]
fn frame_that_does_not_fit_is_refused() {
    let data = lines(&["abc"]);
    let size = UVec2 { x: 2, y: 1 };
    assert!(!GylphAnimationFrame::fits(&frame("f", (0, 0), (3, 1), (0, 0)), &data, size));
    assert!(!GylphAnimationFrame::fits(&frame("f", (0, 0), (1, 2), (0, 0)), &data, UVec2 { x: 2, y: 2 }));
    assert!(!GylphAnimationFrame::fits(&frame("f", (0, 0), (1, 1), (0, 0)), &data, UVec2 { x: 2, y: 0 }));
}

#[test]
fn frame_without_lines_is_empty() {
    let data: Vec<String> = vec![];
    let meta = frame("f", (0, 0), (4, 0), (0, 0));
    let size = UVec2 { x: 3, y: 2 };
    assert!(GylphAnimationFrame::fits(&meta, &data, size));
    assert_eq!(GylphAnimationFrame::new(&meta, &data, size).data, lines(&["", ""]));
}

#[test]
fn unique_assets_names_each_file_once() {
    let meta = GlyphAnimationMeta {
        name: "walk".to_string(),
        size: (1, 1),
        default_name: None,
        frames: vec![
            frame("a.txt", (0, 0), (1, 1), (0, 0)),
            frame("b.txt", (0, 0), (1, 1), (0, 0)),
            frame("a.txt", (1, 0), (1, 1), (0, 0)),
        ],
    };
    assert_eq!(meta.unique_assets(), lines(&["a.txt", "b.txt"]));
}

#[test]
fn animation_is_assembled_from_its_files() {
    let meta = GlyphAnimationMeta {
        name: "walk".to_string(),
        size: (2, 1),
        default_name: Some("step".to_string()),
        frames: vec![frame("a.txt", (0, 0), (2, 1), (0, 0)), frame("a.txt", (2, 0), (1, 1), (1, 0))],
    };
    let files = vec![("a.txt".to_string(), lines(&["xyz"]))];
    let source: GlyphAnimationSource = GlyphAnimationSource::from_meta(&meta, &files).unwrap();
    assert_eq!(source.name, "walk");
    assert_eq!(source.size, UVec2 { x: 2, y: 1 });
    assert_eq!(source.frames.len(), 2);
    assert_eq!(source.frames[0].data, lines(&["xy"]));
    assert_eq!(source.frames[1].data, lines(&[" z"]));
}

#[test]
fn animation_with_a_missing_file_is_refused() {
    let meta = GlyphAnimationMeta {
        name: "walk".to_string(),
        size: (1, 1),
        default_name: None,
        frames: vec![frame("missing.txt", (0, 0), (1, 1), (0, 0))],
    };
    let files = vec![("a.txt".to_string(), lines(&["x"]))];
    assert!(GlyphAnimationSource::from_meta(&meta, &files).is_none());
}

#[test]
fn parse_bytes_gives_back_the_text_when_joined() {
    let text = "ab\n\né☃ x\n";
    let parsed = GlyphAnimationAssetLoader::parse_bytes(text.as_bytes().to_vec());
    assert_eq!(parsed.len(), 1 + text.matches('\n').count());
    assert_eq!(parsed.join("\n"), text);
}
