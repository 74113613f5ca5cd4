//! Menus that a key or a gamepad button switches on and off, and where
//! they sit on the screen.
use vstd::prelude::*;
use crate::math::{IVec2, UVec2};

verus! {

/// Which command the menu toggle asks for after the toggle inputs of a frame were applied.
#[derive(PartialEq, Eq, Structural, Debug)]
pub enum MenuAction {
    /// Nothing changes.
    Keep,
    /// The menu widget exists but the menu was switched off: despawn it.
    Despawn,
    /// No menu widget exists and the menu is switched on: build it.
    Build,
}

/// How many of `presses` are set.
pub open spec fn press_count(presses: Seq<bool>) -> nat
    decreases presses.len(),
{
    if presses.len() == 0 {
        0
    } else {
        press_count(presses.drop_last()) + if presses.last() {
            1nat
        } else {
            0nat
        }
    }
}

/// `enabled` after each set press switched it once.
pub open spec fn toggled(enabled: bool, presses: Seq<bool>) -> bool {
    enabled != (press_count(presses) % 2 == 1)
}

/// The state after the presses of a frame (the toggle key, then the select
/// button of each gamepad): each press switches the menu once.
pub fn apply_presses(enabled: bool, presses: &Vec<bool>) -> (after: bool)
    ensures
        after == toggled(enabled, presses@),
{
    let mut state = enabled;
    let mut i: usize = 0;
    while i < presses.len()
        invariant
            i <= presses@.len(),
            state == toggled(enabled, presses@.take(i as int)),
        decreases presses@.len() - i,
    {
        proof {
            assert(presses@.take(i + 1).drop_last() =~= presses@.take(i as int));
        }
        if presses[i] {
            state = !state;
        }
        i = i + 1;
    }
    proof {
        assert(presses@.take(presses@.len() as int) =~= presses@);
    }
    state
}

/// Switches a menu with the presses of a frame, then says whether its
/// widget is to be built (switched on without one), despawned (switched
/// off with one) or kept.
pub fn toggle_menu(enabled: bool, presses: &Vec<bool>, has_root: bool) -> (toggle: (bool, MenuAction))
    ensures
        toggle.0 == toggled(enabled, presses@),
        toggle.1 == (if has_root && !toggle.0 {
            MenuAction::Despawn
        } else if !has_root && toggle.0 {
            MenuAction::Build
        } else {
            MenuAction::Keep
        }),
{
    let after = apply_presses(enabled, presses);
    let action = if has_root && !after {
        MenuAction::Despawn
    } else if !has_root && after {
        MenuAction::Build
    } else {
        MenuAction::Keep
    };
    (after, action)
}

/// A size component read as a signed one, as `as i32` does.
pub open spec fn signed(v: u32) -> int {
    (v as i32) as int
}

/// Where a menu of `root_size` sits in a buffer of `buffer_size`: at the
/// far corner, each component the buffer's minus the menu's, both read as
/// signed values.
pub fn update_position(buffer_size: UVec2, root_size: UVec2) -> (position: IVec2)
    requires
        i32::MIN <= signed(buffer_size.x) - signed(root_size.x) <= i32::MAX,
        i32::MIN <= signed(buffer_size.y) - signed(root_size.y) <= i32::MAX,
    ensures
        position.x == signed(buffer_size.x) - signed(root_size.x),
        position.y == signed(buffer_size.y) - signed(root_size.y),
{
    #[verifier::truncate]
    let bx = buffer_size.x as i32;
    #[verifier::truncate]
    let by = buffer_size.y as i32;
    #[verifier::truncate]
    let rx = root_size.x as i32;
    #[verifier::truncate]
    let ry = root_size.y as i32;
    IVec2 { x: bx - rx, y: by - ry }
}

/// Where the tileset panel of `root_size` sits in a buffer of
/// `buffer_size`: the buffer's width minus the panel's across, and the
/// buffer's height, negated, down.
pub fn panel_position(buffer_size: UVec2, root_size: UVec2) -> (position: IVec2)
    requires
        i32::MIN <= signed(buffer_size.x) - signed(root_size.x) <= i32::MAX,
        signed(buffer_size.y) != i32::MIN,
    ensures
        position.x == signed(buffer_size.x) - signed(root_size.x),
        position.y == -signed(buffer_size.y),
{
    #[verifier::truncate]
    let bx = buffer_size.x as i32;
    #[verifier::truncate]
    let by = buffer_size.y as i32;
    #[verifier::truncate]
    let rx = root_size.x as i32;
    IVec2 { x: bx - rx, y: -by }
}

} // verus!
