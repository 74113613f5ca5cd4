use bevy_ascii_game::layers::EditorLayer;
use bevy_ascii_game::math::IVec2;
use bevy_ascii_game::tools::{
    type_input, type_tool_navigate, type_tool_write, ToolKey, TranslateTool, TypeInput, TypeMode,
};

fn at(x: i32, y: i32) -> IVec2 {
    IVec2 { x, y }
}

fn char_at(layer: &EditorLayer, p: IVec2) -> char {
    let tile = IVec2 { x: p.x.div_euclid(32) * 32, y: p.y.div_euclid(32) * 32 };
    for (texture, corner) in layer.get_texture_sources(p, IVec2 { x: p.x + 1, y: p.y + 1 }) {
        if corner == tile {
            let x = (p.x - tile.x) as usize;
            let y = 31 - (p.y - tile.y) as usize;
            return texture.data[x + y * 32];
        }
    }
    ' '
}

#[test]
fn type_modes_cycle_and_name_themselves() {
    let mut mode = TypeMode::default();
    assert_eq!(mode, TypeMode::Regular);
    assert_eq!(mode.id(), 0);
    assert_eq!(mode.label(), "Regular");
    mode.cycle();
    assert_eq!(mode, TypeMode::Insert);
    assert_eq!(mode.id(), 1);
    assert_eq!(mode.label(), "Insert");
    mode.cycle();
    assert_eq!(mode, TypeMode::Inplace);
    assert_eq!(mode.id(), 1);
    assert_eq!(mode.label(), "Inplace");
    assert_eq!(mode.next(), TypeMode::Regular);
}

#[test]
fn keys_read_as_type_input() {
    assert_eq!(type_input(&ToolKey::Space), TypeInput::Key(' '));
    assert_eq!(type_input(&ToolKey::Backspace), TypeInput::Backspace);
    assert_eq!(type_input(&ToolKey::Delete), TypeInput::Delete);
    assert_eq!(type_input(&ToolKey::Other(Some("q".to_string()))), TypeInput::Key('q'));
    assert_eq!(type_input(&ToolKey::Other(Some("é".to_string()))), TypeInput::Key('é'));
    assert_eq!(type_input(&ToolKey::Other(Some("ab".to_string()))), TypeInput::Nothing);
    assert_eq!(type_input(&ToolKey::Other(None)), TypeInput::Nothing);
    assert_eq!(type_input(&ToolKey::Escape), TypeInput::Nothing);
    assert_eq!(type_input(&ToolKey::ArrowUp), TypeInput::Nothing);
}

#[test]
fn arrows_move_the_type_cursor_and_escape_closes() {
    assert_eq!(type_tool_navigate(&ToolKey::ArrowLeft, at(0, 0)), (at(-1, 0), false));
    assert_eq!(type_tool_navigate(&ToolKey::ArrowRight, at(0, 0)), (at(1, 0), false));
    assert_eq!(type_tool_navigate(&ToolKey::ArrowDown, at(0, 0)), (at(0, -1), false));
    assert_eq!(type_tool_navigate(&ToolKey::ArrowUp, at(0, 0)), (at(0, 1), false));
    assert_eq!(type_tool_navigate(&ToolKey::Escape, at(4, 4)), (at(4, 4), true));
    assert_eq!(type_tool_navigate(&ToolKey::Space, at(4, 4)), (at(4, 4), false));
}

#[test]
fn typing_writes_relative_to_the_layer() {
    let mut layer = EditorLayer::new("a".to_string());
    let cursor = type_tool_write(&TypeMode::Regular, TypeInput::Key('h'), at(5, 5), &mut layer, at(2, 1));
    assert_eq!(cursor, at(6, 5));
    assert_eq!(char_at(&layer, at(3, 4)), 'h');
    let cursor = type_tool_write(&TypeMode::Inplace, TypeInput::Key('i'), cursor, &mut layer, at(2, 1));
    assert_eq!(cursor, at(6, 5));
    assert_eq!(char_at(&layer, at(4, 4)), 'i');
}

#[test]
fn backspace_and_delete_erase() {
    let mut layer = EditorLayer::new("a".to_string());
    let origin = at(0, 0);
    let c = type_tool_write(&TypeMode::Insert, TypeInput::Key('a'), at(0, 0), &mut layer, origin);
    let c = type_tool_write(&TypeMode::Insert, TypeInput::Key('b'), c, &mut layer, origin);
    assert_eq!(c, at(2, 0));
    let c = type_tool_write(&TypeMode::Insert, TypeInput::Backspace, c, &mut layer, origin);
    assert_eq!(c, at(1, 0));
    assert_eq!(char_at(&layer, at(1, 0)), ' ');
    assert_eq!(char_at(&layer, at(0, 0)), 'a');
    let c = type_tool_write(&TypeMode::Insert, TypeInput::Delete, at(0, 0), &mut layer, origin);
    assert_eq!(c, at(1, 0));
    assert_eq!(char_at(&layer, at(0, 0)), ' ');
    let c = type_tool_write(&TypeMode::Insert, TypeInput::Nothing, c, &mut layer, origin);
    assert_eq!(c, at(1, 0));
}

#[test]
fn translate_moves_and_restores_to_the_origin() {
    let mut tool = TranslateTool::new();
    assert_eq!(tool.initial, Some(at(0, 0)));
    let out = tool.handle_key(&ToolKey::ArrowRight, Some(at(5, 5)));
    assert_eq!(out.layer_position, Some(at(6, 5)));
    assert!(!out.close);
    assert_eq!(tool.initial, Some(at(0, 0)));
    let out = tool.handle_key(&ToolKey::Escape, Some(at(6, 5)));
    assert_eq!(out.layer_position, Some(at(0, 0)));
    assert!(out.close);
}

#[test]
fn translate_remembers_the_first_place() {
    let mut tool = TranslateTool { initial: None };
    let out = tool.handle_key(&ToolKey::ArrowDown, Some(at(3, 3)));
    assert_eq!(out.layer_position, Some(at(3, 2)));
    assert_eq!(tool.initial, Some(at(3, 3)));
    let out = tool.handle_key(&ToolKey::ArrowUp, Some(at(3, 2)));
    assert_eq!(out.layer_position, Some(at(3, 3)));
    assert_eq!(tool.initial, Some(at(3, 3)));
    let out = tool.handle_key(&ToolKey::Enter, Some(at(3, 3)));
    assert!(out.close);
    assert_eq!(out.layer_position, Some(at(3, 3)));
}

#[test]
fn translate_without_a_layer() {
    let mut tool = TranslateTool { initial: None };
    let out = tool.handle_key(&ToolKey::ArrowLeft, None);
    assert_eq!(out.layer_position, None);
    assert_eq!(tool.initial, None);
    let out = tool.handle_key(&ToolKey::Escape, None);
    assert!(out.close);
    assert_eq!(out.layer_position, None);
}

#[test]
fn keys_that_do_not_move_work_at_the_edges() {
    let corner = at(i32::MAX, i32::MIN);
    assert_eq!(type_tool_navigate(&ToolKey::Escape, corner), (corner, true));
    assert_eq!(type_tool_navigate(&ToolKey::Space, corner), (corner, false));
    assert_eq!(type_tool_navigate(&ToolKey::ArrowLeft, corner), (at(i32::MAX - 1, i32::MIN), false));
    assert_eq!(type_tool_navigate(&ToolKey::ArrowUp, corner), (at(i32::MAX, i32::MIN + 1), false));
    let mut layer = EditorLayer::new("a".to_string());
    let cursor = type_tool_write(&TypeMode::Regular, TypeInput::Nothing, corner, &mut layer, at(-5, 5));
    assert_eq!(cursor, corner);
    let cursor = type_tool_write(&TypeMode::Inplace, TypeInput::Key('z'), corner, &mut layer, at(0, 0));
    assert_eq!(cursor, corner);
    let sources = layer.get_texture_sources(at(i32::MAX - 1, i32::MIN), at(i32::MAX, i32::MIN + 1));
    assert_eq!(sources.len(), 1);
    assert_eq!(sources[0].1, at(i32::MAX - 31, i32::MIN));
    assert_eq!(sources[0].0.data[1023], 'z');
    let mut tool = TranslateTool { initial: None };
    let out = tool.handle_key(&ToolKey::Enter, Some(corner));
    assert_eq!((out.layer_position, out.close), (Some(corner), true));
    assert_eq!(tool.initial, None);
}

#[test]
fn arrows_then_escape_or_enter() {
    let keys = [ToolKey::ArrowRight, ToolKey::ArrowRight, ToolKey::ArrowUp, ToolKey::ArrowLeft, ToolKey::ArrowDown, ToolKey::ArrowDown];
    for (last, expected) in [(ToolKey::Escape, at(3, 4)), (ToolKey::Enter, at(4, 3))] {
        let mut tool = TranslateTool { initial: None };
        let mut position = at(3, 4);
        for key in keys.iter() {
            let out = tool.handle_key(key, Some(position));
            assert!(!out.close);
            position = out.layer_position.unwrap();
        }
        assert_eq!(position, at(4, 3));
        assert_eq!(tool.initial, Some(at(3, 4)));
        let out = tool.handle_key(&last, Some(position));
        assert!(out.close);
        assert_eq!(out.layer_position, Some(expected));
    }
}
