use bevy_ascii_game::brush::{brush_update, BrushAction};
use bevy_ascii_game::editor::{
    editor_shortcuts, reuse_entries, stale_entries, tool_ui_action, ToolUiAction,
};
use bevy_ascii_game::keyboard_display::{keyboard_display_key, DisplayKey};
use bevy_ascii_game::math::{IVec2, UVec2};
use bevy_ascii_game::menu::{apply_presses, panel_position, toggle_menu, update_position, MenuAction};
use bevy_ascii_game::mount::MountOrigin;

#[test]
fn menu_toggles_once_per_press() {
    assert!(!apply_presses(true, &vec![true]));
    assert!(apply_presses(true, &vec![true, false, true]));
    assert!(apply_presses(false, &vec![false, true, true, true]));
    assert!(!apply_presses(false, &vec![]));
}

#[test]
fn menu_builds_and_despawns_its_widget() {
    assert_eq!(toggle_menu(true, &vec![true], true), (false, MenuAction::Despawn));
    assert_eq!(toggle_menu(false, &vec![true], false), (true, MenuAction::Build));
    assert_eq!(toggle_menu(true, &vec![], true), (true, MenuAction::Keep));
    assert_eq!(toggle_menu(false, &vec![], false), (false, MenuAction::Keep));
}

#[test]
fn menus_sit_at_the_far_corner() {
    assert_eq!(update_position(UVec2 { x: 80, y: 40 }, UVec2 { x: 20, y: 10 }), IVec2 { x: 60, y: 30 });
    assert_eq!(update_position(UVec2 { x: 5, y: 5 }, UVec2 { x: 20, y: 10 }), IVec2 { x: -15, y: -5 });
    assert_eq!(panel_position(UVec2 { x: 80, y: 40 }, UVec2 { x: 20, y: 10 }), IVec2 { x: 60, y: -40 });
}

#[test]
fn keyboard_display_types_and_wraps() {
    let mut data = vec![' '; 6];
    let p = keyboard_display_key(&mut data, 3, 2, 0, DisplayKey::Character('a'));
    assert_eq!(p, 1);
    assert_eq!(data, vec!['a', '_', ' ', ' ', ' ', ' ']);
    let p = keyboard_display_key(&mut data, 3, 2, 5, DisplayKey::Character('z'));
    assert_eq!(p, 0);
    assert_eq!(data[5], 'z');
    assert_eq!(data[0], '_');
    let p = keyboard_display_key(&mut data, 3, 2, 0, DisplayKey::Backspace);
    assert_eq!(p, 5);
    assert_eq!(data[5], '_');
    assert_eq!(data[0], ' ');
    let p = keyboard_display_key(&mut data, 3, 2, 5, DisplayKey::Other);
    assert_eq!(p, 5);
}

#[test]
fn brush_centres_without_a_tilemap() {
    let u = brush_update(IVec2 { x: 10, y: 10 }, IVec2 { x: 1, y: 2 }, Some(UVec2 { x: 4, y: 3 }), None, true, true, false);
    assert_eq!(u.position, IVec2 { x: 9, y: 11 });
    assert_eq!(u.action, BrushAction::Nothing);
}

#[test]
fn brush_snaps_to_tiles_and_paints() {
    let tilemap = Some((IVec2 { x: 2, y: 0 }, UVec2 { x: 4, y: 4 }));
    let u = brush_update(IVec2 { x: 9, y: -1 }, IVec2 { x: 0, y: 0 }, None, tilemap, true, true, false);
    assert_eq!(u.position, IVec2 { x: 6, y: -4 });
    assert_eq!(u.action, BrushAction::Insert(IVec2 { x: 1, y: -1 }));
    let u = brush_update(IVec2 { x: 9, y: -1 }, IVec2 { x: 1, y: 1 }, None, tilemap, false, true, false);
    assert_eq!(u.position, IVec2 { x: 5, y: -5 });
    assert_eq!(u.action, BrushAction::Nothing);
    let u = brush_update(IVec2 { x: 1, y: 0 }, IVec2 { x: 0, y: 0 }, None, tilemap, true, false, true);
    assert_eq!(u.action, BrushAction::Clear(IVec2 { x: -1, y: 0 }));
}

#[test]
fn shortcuts_wait_while_a_tool_types() {
    let s = editor_shortcuts(true, true, true, true, false);
    assert!(!s.open_type_tool && !s.open_translate_tool && !s.isolate_selected);
    let s = editor_shortcuts(false, true, false, true, false);
    assert!(s.open_type_tool && !s.open_translate_tool && s.isolate_selected);
    let s = editor_shortcuts(false, false, true, false, true);
    assert!(!s.open_type_tool && s.open_translate_tool && s.isolate_selected);
}

#[test]
fn tool_panel_container() {
    assert_eq!(tool_ui_action(false, true, true), ToolUiAction::Nothing);
    assert_eq!(tool_ui_action(true, true, true), ToolUiAction::Build);
    assert_eq!(tool_ui_action(true, true, false), ToolUiAction::Nothing);
    assert_eq!(tool_ui_action(true, false, false), ToolUiAction::Clear);
}

#[test]
fn layer_entries_are_reused_and_stale_ones_found() {
    let shown = vec![(1u64, 10u64), (2, 20)];
    assert_eq!(reuse_entries(&vec![2, 3, 1], &shown), vec![Some(20), None, Some(10)]);
    assert_eq!(stale_entries(&vec![10, 20, 30], &vec![20, 31]), vec![10, 30]);
    assert!(stale_entries(&vec![], &vec![1]).is_empty());
}

#[test]
fn rider_sits_at_the_mount_origin() {
    let origin = MountOrigin { origin: IVec2 { x: 13, y: 4 } };
    assert_eq!(origin.rider_position(IVec2 { x: 10, y: 10 }), IVec2 { x: 23, y: 14 });
}
