use bevy_ascii_game::math::{IVec2, UVec2};
use bevy_ascii_game::ui::{
    Border, Constraint, Padding, Positioned, RootLogic, RowLogic, Text, TextLogic,
};

fn size(x: u32, y: u32) -> UVec2 {
    UVec2 { x, y }
}

#[test]
fn constrain_clamps_each_bounded_component() {
    let c = Constraint { width: Some(2..=5), height: None };
    assert_eq!(c.constrain(size(1, 100)), size(2, 100));
    assert_eq!(c.constrain(size(9, 0)), size(5, 0));
    assert_eq!(c.constrain(size(3, 7)), size(3, 7));
    let both = Constraint { width: Some(0..=10), height: Some(4..=4) };
    assert_eq!(both.constrain(size(20, 1)), size(10, 4));
}

#[test]
fn constrain_with_an_inverted_range_gives_its_end() {
    let c = Constraint { width: Some(8..=3), height: None };
    assert_eq!(c.constrain(size(1, 0)).x, 3);
    assert_eq!(c.constrain(size(10, 0)).x, 3);
}

#[test]
fn removing_bounds() {
    let c = Constraint { width: Some(1..=2), height: Some(3..=4) };
    let no_x = c.remove_x_bounds();
    assert!(no_x.width.is_none());
    assert_eq!(no_x.height, Some(3..=4));
    let no_y = c.remove_y_bounds();
    assert!(no_y.height.is_none());
    assert_eq!(no_y.width, Some(1..=2));
}

#[test]
fn symmetric_border_and_padding() {
    let b = Border::symmetric(Some('|'), Some('-'));
    assert_eq!((b.top, b.bottom, b.left, b.right), (Some('-'), Some('-'), Some('|'), Some('|')));
    let p = Padding::symmetric(Some(1), None);
    assert_eq!((p.top, p.bottom, p.left, p.right), (None, None, Some(1), Some(1)));
}

#[test]
fn text_is_as_wide_as_its_bytes() {
    assert_eq!(TextLogic::layout(&Text { text: String::from("hello") }), size(5, 1));
    assert_eq!(TextLogic::layout(&Text { text: String::from("é") }), size(2, 1));
    assert_eq!(TextLogic::layout(&Text { text: String::new() }), size(0, 1));
}

#[test]
fn row_stacks_children_downwards() {
    let constraint = Constraint { width: Some(0..=4), height: None };
    let child = RowLogic::child_constraint(&constraint);
    assert!(child.height.is_none());
    assert_eq!(child.width, Some(0..=4));
    let (placed, total) = RowLogic::layout(&constraint, &vec![size(3, 1), size(6, 2), size(1, 1)]);
    let offsets: Vec<(i32, i32)> = placed.iter().map(|p| (p.offset.x, p.offset.y)).collect();
    assert_eq!(offsets, vec![(0, 0), (0, 1), (0, 3)]);
    assert_eq!(placed[1].size, size(4, 2));
    assert_eq!(total, size(4, 4));
}

#[test]
fn empty_row_is_empty() {
    let constraint = Constraint { width: None, height: None };
    let (placed, total) = RowLogic::layout(&constraint, &vec![]);
    assert!(placed.is_empty());
    assert_eq!(total, size(0, 0));
}

#[test]
fn root_cuts_its_child_to_its_size() {
    let c = RootLogic::child_constraint(size(10, 3));
    assert_eq!(c.width, Some(0..=10));
    assert_eq!(c.height, Some(0..=3));
    let (placed, own) = RootLogic::layout(size(10, 3), size(12, 2));
    assert_eq!(placed.offset, IVec2 { x: 0, y: 0 });
    assert_eq!(placed.size, size(10, 2));
    assert_eq!(own, size(10, 3));
}

#[test]
fn positions_shift_by_their_parent() {
    let p = Positioned { offset: IVec2 { x: 1, y: 2 }, size: size(3, 4) };
    let moved = p.shifted(IVec2 { x: -5, y: 10 });
    assert_eq!(moved.offset, IVec2 { x: -4, y: 12 });
    assert_eq!(moved.size, size(3, 4));
}

#[test]
fn removing_a_bound_keeps_the_other_as_it_is() {
    let mut used = 2..=4u32;
    for _ in used.by_ref() {}
    let c = Constraint { width: Some(1..=9), height: Some(used.clone()) };
    let no_x = c.remove_x_bounds();
    assert_eq!(no_x.width, None);
    assert_eq!(no_x.height, Some(used.clone()));
    assert!(no_x.height.unwrap().is_empty());
    let no_y = c.remove_y_bounds();
    assert_eq!(no_y.width, Some(1..=9));
    assert_eq!(no_y.height, None);
}
