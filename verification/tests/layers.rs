use bevy_ascii_game::layers::EditorLayer;
use bevy_ascii_game::math::IVec2;

fn at(x: i32, y: i32) -> IVec2 {
    IVec2 { x, y }
}

#[test]
fn new_layer_is_visible_and_named() {
    let layer = EditorLayer::new(String::from("background"));
    assert!(layer.visible());
    assert_eq!(layer.name(), "background");
    assert!(layer.get_texture_sources(at(-100, -100), at(100, 100)).is_empty());
}

#[test]
fn toggle_visible_flips() {
    let mut layer = EditorLayer::new(String::from("a"));
    layer.toggle_visible();
    assert!(!layer.visible());
    layer.toggle_visible();
    assert!(layer.visible());
}

#[test]
fn written_character_reads_back_in_its_tile() {
    let mut layer = EditorLayer::new(String::from("a"));
    assert_eq!(layer.write_character(at(3, 5), 'x'), Ok(()));
    let sources = layer.get_texture_sources(at(0, 0), at(32, 32));
    assert_eq!(sources.len(), 1);
    let (texture, corner) = &sources[0];
    assert_eq!(*corner, at(0, 0));
    assert_eq!(texture.width, 32);
    assert_eq!(texture.height, 32);
    assert_eq!(texture.data.len(), 1024);
    // Rows are stored from the top: row 31 - 5 = 26, column 3.
    assert_eq!(texture.data[3 + 26 * 32], 'x');
    assert_eq!(texture.data.iter().filter(|c| **c != ' ').count(), 1);
}

#[test]
fn negative_positions_fall_in_lower_tiles() {
    let mut layer = EditorLayer::new(String::from("a"));
    assert_eq!(layer.write_character(at(-1, -1), '#'), Ok(()));
    let sources = layer.get_texture_sources(at(-32, -32), at(0, 0));
    assert_eq!(sources.len(), 1);
    let (texture, corner) = &sources[0];
    assert_eq!(*corner, at(-32, -32));
    // x = -1 is column 31; y = -1 is row 31 from the bottom, row 0 from the top.
    assert_eq!(texture.data[31], '#');
}

#[test]
fn clearing_the_last_character_drops_the_tile() {
    let mut layer = EditorLayer::new(String::from("a"));
    layer.write_character(at(40, 2), 'a').unwrap();
    layer.write_character(at(41, 2), 'b').unwrap();
    layer.write_character(at(40, 2), ' ').unwrap();
    assert_eq!(layer.get_texture_sources(at(32, 0), at(64, 32)).len(), 1);
    layer.write_character(at(41, 2), ' ').unwrap();
    assert!(layer.get_texture_sources(at(-1000, -1000), at(1000, 1000)).is_empty());
}

#[test]
fn writing_a_space_where_nothing_is_changes_nothing() {
    let mut layer = EditorLayer::new(String::from("a"));
    layer.write_character(at(7, 7), ' ').unwrap();
    assert!(layer.get_texture_sources(at(-1000, -1000), at(1000, 1000)).is_empty());
}

#[test]
fn overwriting_keeps_one_character() {
    let mut layer = EditorLayer::new(String::from("a"));
    layer.write_character(at(0, 0), 'a').unwrap();
    layer.write_character(at(0, 0), 'b').unwrap();
    let sources = layer.get_texture_sources(at(0, 0), at(1, 1));
    assert_eq!(sources.len(), 1);
    assert_eq!(sources[0].0.data[31 * 32], 'b');
    assert_eq!(sources[0].0.data.iter().filter(|c| **c != ' ').count(), 1);
}

#[test]
fn only_overlapping_tiles_are_returned() {
    let mut layer = EditorLayer::new(String::from("a"));
    layer.write_character(at(0, 0), 'a').unwrap();
    layer.write_character(at(64, 0), 'b').unwrap();
    layer.write_character(at(0, 64), 'c').unwrap();
    let mut corners: Vec<(i32, i32)> = layer
        .get_texture_sources(at(10, 10), at(70, 20))
        .iter()
        .map(|(_, c)| (c.x, c.y))
        .collect();
    corners.sort();
    assert_eq!(corners, vec![(0, 0), (64, 0)]);
    // The end is excluded: a rectangle ending at a tile's start misses it.
    assert!(layer.get_texture_sources(at(-5, -5), at(0, 0)).is_empty());
}

#[test]
fn extreme_positions_are_written() {
    let mut layer = EditorLayer::new(String::from("a"));
    layer.write_character(at(i32::MAX, i32::MIN), 'z').unwrap();
    let sources = layer.get_texture_sources(at(i32::MAX - 1, i32::MIN), at(i32::MAX, i32::MIN + 1));
    assert_eq!(sources.len(), 1);
    assert_eq!(sources[0].1, at(i32::MAX - 31, i32::MIN));
}
