//! The keyboard display: a grid of characters where typed keys appear one
//! after another, wrapping around, with a cursor after the last one.
use vstd::prelude::*;

verus! {

/// The cell of a position that counts cells from the start: its column
/// and, wrapping around, its row.
pub open spec fn cell_of(position: int, width: int, height: int) -> int {
    position % width + width * ((position / width) % height)
}

/// A key as the display reads it.
#[derive(Debug, PartialEq, Eq, Structural, Clone, Copy)]
pub enum DisplayKey {
    Backspace,
    /// A key that types text, with its first character.
    Character(char),
    Other,
}

/// The cell index of a position, as the display computes it.
fn cell_index(position: usize, width: usize, height: usize) -> (index: usize)
    requires
        width > 0,
        height > 0,
        width * height <= usize::MAX,
    ensures
        index == cell_of(position as int, width as int, height as int),
        index < width * height,
{
    let x = position % width;
    let y = (position / width) % height;
    proof {
        assert(x + width * y < width * height) by (nonlinear_arith)
            requires
                x < width,
                y < height,
        ;
    }
    x + width * y
}

/// The display's answer to a key, with the cursor at `position` in the grid
/// `data` of `width` by `height`: backspace moves the position back one
/// (wrapping around), puts the cursor there and clears the cell after it;
/// a character is written at the position, the cursor after it, and the
/// position moves on (wrapping around). Gives the new position.
pub fn keyboard_display_key(data: &mut Vec<char>, width: usize, height: usize, position: usize, key: DisplayKey) -> (after: usize)
    requires
        width > 0,
        height > 0,
        width * height <= usize::MAX,
        old(data)@.len() == width * height,
        position < width * height,
        position + width * height <= usize::MAX,
    ensures
        final(data)@.len() == old(data)@.len(),
        after < width * height,
        ({
            let cells = (width * height) as int;
            match key {
                DisplayKey::Backspace => {
                    let back = (position + cells - 1) % cells;
                    &&& after == back
                    &&& final(data)@ == old(data)@.update(cell_of(back, width as int, height as int), '_').update(
                        cell_of(back + 1, width as int, height as int),
                        ' ',
                    )
                },
                DisplayKey::Character(c) => {
                    &&& after == (position + 1) % cells
                    &&& final(data)@ == old(data)@.update(cell_of(position as int, width as int, height as int), c).update(
                        cell_of(position + 1, width as int, height as int),
                        '_',
                    )
                },
                DisplayKey::Other => after == position && final(data)@ == old(data)@,
            }
        }),
{
    let cells = width * height;
    match key {
        DisplayKey::Backspace => {
            let back = (position + cells - 1) % cells;
            let index = cell_index(back, width, height);
            data.set(index, '_');
            let index = cell_index(back + 1, width, height);
            data.set(index, ' ');
            back
        },
        DisplayKey::Character(c) => {
            let index = cell_index(position, width, height);
            data.set(index, c);
            let index = cell_index(position + 1, width, height);
            data.set(index, '_');
            (position + 1) % cells
        },
        DisplayKey::Other => position,
    }
}

/// The cell of a position is the position counted modulo the grid's size.
pub proof fn lemma_cell_wraps(position: int, width: int, height: int)
    requires
        position >= 0,
        width > 0,
        height > 0,
    ensures
        cell_of(position, width, height) == position % (width * height),
{
    let q = position / width;
    let x = position % width;
    vstd::arithmetic::div_mod::lemma_fundamental_div_mod(position, width);
    vstd::arithmetic::div_mod::lemma_mod_pos_bound(position, width);
    vstd::arithmetic::div_mod::lemma_div_pos_is_pos(position, width);
    vstd::arithmetic::div_mod::lemma_fundamental_div_mod(q, height);
    vstd::arithmetic::div_mod::lemma_mod_pos_bound(q, height);
    let r = q % height;
    let k = q / height;
    vstd::arithmetic::div_mod::lemma_div_pos_is_pos(q, height);
    assert(position == (width * height) * k + (x + width * r)) by (nonlinear_arith)
        requires
            position == width * q + x,
            q == height * k + r,
    ;
    assert(0 <= x + width * r < width * height) by (nonlinear_arith)
        requires
            0 <= x < width,
            0 <= r < height,
    ;
    vstd::arithmetic::div_mod::lemma_fundamental_div_mod_converse(position, width * height, k, x + width * r);
}

} // verus!
