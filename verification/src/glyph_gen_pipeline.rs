//! Glyph textures: lines of text turned into a grid of atlas indices, two
//! bytes per character, for the glyph shaders to draw.
use vstd::prelude::*;
use vstd::utf8::encode_utf8;
use vstd::std_specs::iter::IteratorSpec;
use crate::atlas::{glyph_index_view, Atlas};
use crate::font::{char_glyph_id, char_maps_safely, CustomFontSource};

verus! {

broadcast use vstd::string::axiom_spec_iter, vstd::string::next_postcondition;

/// The characters of `s`, in order.
pub fn chars_of(s: &String) -> (chars: Vec<char>)
    ensures
        chars@ == s@,
{
    let text = s.as_str();
    let mut iter = text.chars();
    let mut chars: Vec<char> = Vec::new();
    loop
        invariant
            iter.obeys_prophetic_iter_laws(),
            chars@ + iter.remaining() == s@,
            iter.decrease() is Some,
        decreases iter.decrease()->0,
    {
        match iter.next() {
            Some(c) => {
                chars.push(c);
                proof {
                    assert(chars@ + iter.remaining() =~= s@);
                }
            },
            None => {
                proof {
                    assert(chars@ =~= s@);
                }
                return chars;
            },
        }
    }
}

/// Every character takes at least one byte.
proof fn lemma_encoding_longer(chars: Seq<char>)
    ensures
        encode_utf8(chars).len() >= chars.len(),
    decreases chars.len(),
{
    if chars.len() > 0 {
        lemma_encoding_longer(chars.drop_first());
    }
}

/// The width of a text in bytes: that of its first line.
pub open spec fn text_width(text: Seq<String>) -> int {
    encode_utf8(text[0]@).len() as int
}

/// The text can be turned into a texture: it has a line, all its lines are
/// equally long in bytes, and the texture's length fits in memory.
pub open spec fn text_fits(text: Seq<String>) -> bool {
    &&& text.len() >= 1
    &&& forall|y: int| 0 <= y < text.len() ==> #[trigger] encode_utf8(text[y]@).len() == text_width(text)
    &&& 2 * text_width(text) * text.len() <= usize::MAX
}

/// Every character of `text` can be looked up in the font's character map
/// without overflow.
pub open spec fn text_maps_safely(text: Seq<String>, font: CustomFontSource) -> bool {
    forall|y: int, x: int|
        0 <= y < text.len() && 0 <= x < text[y]@.len() ==> #[trigger] char_maps_safely(
            font.spec_data(),
            text[y]@[x],
        )
}

/// Whether every character of `text` can be looked up in the font's
/// character map without overflow.
pub fn maps_text_safely(text: &[String], font: &CustomFontSource) -> (safe: bool)
    ensures
        safe == text_maps_safely(text@, *font),
{
    let mut y: usize = 0;
    while y < text.len()
        invariant
            y <= text@.len(),
            forall|k: int, x: int|
                0 <= k < y && 0 <= x < text@[k]@.len() ==> #[trigger] char_maps_safely(
                    font.spec_data(),
                    text@[k]@[x],
                ),
        decreases text@.len() - y,
    {
        let line = chars_of(&text[y]);
        let mut x: usize = 0;
        while x < line.len()
            invariant
                y < text@.len(),
                line@ == text@[y as int]@,
                x <= line@.len(),
                forall|k: int, i: int|
                    0 <= k < y && 0 <= i < text@[k]@.len() ==> #[trigger] char_maps_safely(
                        font.spec_data(),
                        text@[k]@[i],
                    ),
                forall|i: int| 0 <= i < x ==> #[trigger] char_maps_safely(font.spec_data(), line@[i]),
            decreases line@.len() - x,
        {
            if !font.maps_safely(line[x]) {
                return false;
            }
            x = x + 1;
        }
        proof {
            assert forall|k: int, i: int|
                0 <= k < y + 1 && 0 <= i < text@[k]@.len() implies #[trigger] char_maps_safely(
                font.spec_data(),
                text@[k]@[i],
            ) by {
                if k == y {
                    assert(char_maps_safely(font.spec_data(), line@[i]));
                }
            }
        }
        y = y + 1;
    }
    true
}

/// The atlas index of the glyph that the font gives `c`; `u16::MAX` where
/// the atlas lacks that glyph.
pub open spec fn glyph_code(atlas: Atlas, font: CustomFontSource, c: char) -> u16 {
    let glyph = char_glyph_id(font.spec_data(), font.spec_offset(), c);
    if glyph_index_view(atlas.local_index).contains_key(glyph) {
        glyph_index_view(atlas.local_index)[glyph]
    } else {
        u16::MAX
    }
}

/// The code of the cell at column `x` of line `y`: that of the character
/// there, or zero past the line's last character.
pub open spec fn cell_code(text: Seq<String>, atlas: Atlas, font: CustomFontSource, y: int, x: int) -> u16 {
    if x < text[y]@.len() {
        glyph_code(atlas, font, text[y]@[x])
    } else {
        0
    }
}

/// The line of the text shown in row `row` of the texture: the same line,
/// or, when `flip`, the lines from the bottom.
pub open spec fn source_line(height: int, row: int, flip: bool) -> int {
    if flip {
        height - 1 - row
    } else {
        row
    }
}

/// Byte `i` of the texture of `text`: the cells row after row, each as its
/// code in two bytes, the low one first.
pub open spec fn texture_byte(text: Seq<String>, atlas: Atlas, font: CustomFontSource, flip: bool, i: int) -> u8 {
    let width = text_width(text);
    let cell = i / 2;
    let y = source_line(text.len() as int, cell / width, flip);
    let code = cell_code(text, atlas, font, y, cell % width);
    if i % 2 == 0 {
        (code % 256) as u8
    } else {
        (code / 256) as u8
    }
}

/// The texture of `text` as a whole.
pub open spec fn texture_bytes(text: Seq<String>, atlas: Atlas, font: CustomFontSource, flip: bool) -> Seq<u8> {
    Seq::new(
        (2 * text_width(text) * text.len()) as nat,
        |i: int| texture_byte(text, atlas, font, flip, i),
    )
}

/// The texture while it is written: the cells of the lines before `y`, and
/// of line `y` before column `x`, are written; the others are zero.
spec fn partial_texture(
    text: Seq<String>,
    atlas: Atlas,
    font: CustomFontSource,
    flip: bool,
    y: int,
    x: int,
) -> Seq<u8> {
    let width = text_width(text);
    Seq::new(
        (2 * width * text.len()) as nat,
        |i: int|
            {
                let cell = i / 2;
                let line = source_line(text.len() as int, cell / width, flip);
                if line < y || (line == y && cell % width < x) {
                    texture_byte(text, atlas, font, flip, i)
                } else {
                    0u8
                }
            },
    )
}

/// A byte of the texture lies in a cell within the grid.
proof fn lemma_cell_in_grid(i: int, width: int, height: int)
    requires
        0 <= i < 2 * width * height,
        width > 0,
        height > 0,
    ensures
        0 <= i / 2 < width * height,
        0 <= (i / 2) / width < height,
        0 <= (i / 2) % width < width,
        i / 2 == width * ((i / 2) / width) + (i / 2) % width,
{
    let cell = i / 2;
    assert(0 <= cell < width * height) by (nonlinear_arith)
        requires
            0 <= i < 2 * width * height,
            cell == i / 2,
    ;
    vstd::arithmetic::div_mod::lemma_fundamental_div_mod(cell, width);
    vstd::arithmetic::div_mod::lemma_div_pos_is_pos(cell, width);
    vstd::arithmetic::div_mod::lemma_mod_pos_bound(cell, width);
    assert((i / 2) / width < height) by (nonlinear_arith)
        requires
            0 <= cell < width * height,
            cell == i / 2,
            width > 0,
            cell == width * (cell / width) + cell % width,
            0 <= cell % width < width,
            cell / width >= 0,
    ;
}

/// The cell at column `x` of row `row` decodes back to them.
proof fn lemma_cell_decode(x: int, row: int, width: int, height: int)
    requires
        0 <= x < width,
        0 <= row < height,
    ensures
        (x + row * width) / width == row,
        (x + row * width) % width == x,
        0 <= x + row * width,
        2 * (x + row * width) + 1 < 2 * width * height,
{
    vstd::arithmetic::div_mod::lemma_fundamental_div_mod_converse(x + row * width, width, row, x);
    assert(x + row * width < width * height) by (nonlinear_arith)
        requires
            0 <= x < width,
            0 <= row < height,
    ;
    assert(0 <= row * width) by (nonlinear_arith)
        requires
            0 <= row,
            0 < width,
    ;
    assert(2 * (x + row * width) + 1 < 2 * width * height) by (nonlinear_arith)
        requires
            x + row * width < width * height,
    ;
}

/// Texture layout law: in the texture of `text`, the cell at column `x`
/// of line `y` lies in row `y`, or, when `flip`, in row `height - 1 - y`
/// (the lines from the bottom), for every number of lines; it holds the
/// atlas index of the glyph of the character there, low byte first, and
/// zero past the line's last character.
pub proof fn lemma_texture_cell(text: Seq<String>, atlas: Atlas, font: CustomFontSource, flip: bool, y: int, x: int)
    requires
        text_fits(text),
        0 <= y < text.len(),
        0 <= x < text_width(text),
    ensures
        ({
            let row = if flip {
                text.len() - 1 - y
            } else {
                y
            };
            let i = 2 * (x + row * text_width(text));
            let code: u16 = if x < text[y]@.len() {
                glyph_code(atlas, font, text[y]@[x])
            } else {
                0
            };
            &&& 0 <= i && i + 1 < texture_bytes(text, atlas, font, flip).len()
            &&& texture_bytes(text, atlas, font, flip)[i] == (code % 256) as u8
            &&& texture_bytes(text, atlas, font, flip)[i + 1] == (code / 256) as u8
        }),
{
    let width = text_width(text);
    let height = text.len() as int;
    let row = if flip {
        height - 1 - y
    } else {
        y
    };
    lemma_cell_decode(x, row, width, height);
    let i = 2 * (x + row * width);
    assert(i / 2 == x + row * width);
    assert((i + 1) / 2 == x + row * width);
    assert(source_line(height, row, flip) == y);
}

/// Nothing written yet: the texture is zero.
proof fn lemma_partial_start(text: Seq<String>, atlas: Atlas, font: CustomFontSource, flip: bool)
    requires
        text_fits(text),
    ensures
        partial_texture(text, atlas, font, flip, 0, 0) =~= Seq::new(
            (2 * text_width(text) * text.len()) as nat,
            |i: int| 0u8,
        ),
{
    let width = text_width(text);
    let height = text.len() as int;
    assert forall|i: int| 0 <= i < 2 * width * height implies #[trigger] partial_texture(
        text,
        atlas,
        font,
        flip,
        0,
        0,
    )[i] == 0u8 by {
        if width > 0 {
            lemma_cell_in_grid(i, width, height);
        } else {
            assert(2 * width * height == 0) by (nonlinear_arith)
                requires
                    width == 0,
            ;
        }
    }
}

/// Every line written: the texture is whole.
proof fn lemma_partial_end(text: Seq<String>, atlas: Atlas, font: CustomFontSource, flip: bool)
    requires
        text_fits(text),
    ensures
        partial_texture(text, atlas, font, flip, text.len() as int, 0) =~= texture_bytes(
            text,
            atlas,
            font,
            flip,
        ),
{
    let width = text_width(text);
    let height = text.len() as int;
    assert forall|i: int| 0 <= i < 2 * width * height implies #[trigger] partial_texture(
        text,
        atlas,
        font,
        flip,
        height,
        0,
    )[i] == texture_byte(text, atlas, font, flip, i) by {
        if width > 0 {
            lemma_cell_in_grid(i, width, height);
        } else {
            assert(2 * width * height == 0) by (nonlinear_arith)
                requires
                    width == 0,
            ;
        }
    }
}

/// Past the last character of line `y` there is nothing to write: the
/// line is done.
proof fn lemma_partial_line_done(
    text: Seq<String>,
    atlas: Atlas,
    font: CustomFontSource,
    flip: bool,
    y: int,
)
    requires
        text_fits(text),
        0 <= y < text.len(),
        text[y]@.len() <= text_width(text),
    ensures
        partial_texture(text, atlas, font, flip, y, text[y]@.len() as int) =~= partial_texture(
            text,
            atlas,
            font,
            flip,
            y + 1,
            0,
        ),
{
    let width = text_width(text);
    let height = text.len() as int;
    let n = text[y]@.len() as int;
    assert forall|i: int| 0 <= i < 2 * width * height implies #[trigger] partial_texture(
        text,
        atlas,
        font,
        flip,
        y,
        n,
    )[i] == partial_texture(text, atlas, font, flip, y + 1, 0)[i] by {
        if width > 0 {
            lemma_cell_in_grid(i, width, height);
        } else {
            assert(2 * width * height == 0) by (nonlinear_arith)
                requires
                    width == 0,
            ;
        }
    }
}

/// Writing the cell at column `x` of line `y`, in texture row `row`,
/// moves the written part one cell on.
proof fn lemma_partial_write(
    text: Seq<String>,
    atlas: Atlas,
    font: CustomFontSource,
    flip: bool,
    y: int,
    x: int,
    row: int,
)
    requires
        text_fits(text),
        0 <= y < text.len(),
        0 <= x < text[y]@.len(),
        text[y]@.len() <= text_width(text),
        row == source_line(text.len() as int, y, flip),
    ensures
        ({
            let index = 2 * (x + row * text_width(text));
            let code = glyph_code(atlas, font, text[y]@[x]);
            &&& 0 <= index
            &&& index + 1 < 2 * text_width(text) * text.len()
            &&& partial_texture(text, atlas, font, flip, y, x).update(index, (code % 256) as u8).update(
                index + 1,
                (code / 256) as u8,
            ) =~= partial_texture(text, atlas, font, flip, y, x + 1)
        }),
{
    let width = text_width(text);
    let height = text.len() as int;
    let cell0 = x + row * width;
    let index = 2 * cell0;
    let code = glyph_code(atlas, font, text[y]@[x]);
    lemma_cell_decode(x, row, width, height);
    assert(source_line(height, row, flip) == y);
    let before = partial_texture(text, atlas, font, flip, y, x);
    let after = partial_texture(text, atlas, font, flip, y, x + 1);
    let written = before.update(index, (code % 256) as u8).update(index + 1, (code / 256) as u8);
    assert forall|i: int| 0 <= i < 2 * width * height implies #[trigger] written[i] == after[i] by {
        lemma_cell_in_grid(i, width, height);
        let cell = i / 2;
        if cell == cell0 {
            assert(i == index || i == index + 1);
            assert(cell / width == row && cell % width == x);
        } else {
            assert(i != index && i != index + 1);
            if source_line(height, cell / width, flip) == y {
                assert(cell / width == row);
                assert(cell == x + row * width ==> cell % width == x);
                assert(cell == row * width + cell % width) by (nonlinear_arith)
                    requires
                        cell == width * (cell / width) + cell % width,
                        cell / width == row,
                ;
                assert(cell % width != x);
            }
        }
    }
}

/// The atlas index of the glyph that the font gives `c`, or `u16::MAX`.
fn glyph_code_of(atlas: &Atlas, font: &CustomFontSource, c: char) -> (code: u16)
    requires
        char_maps_safely(font.spec_data(), c),
    ensures
        code == glyph_code(*atlas, *font, c),
{
    match atlas.local_index.get(font.glyph_id(c)) {
        Some(index) => index,
        None => u16::MAX,
    }
}

/// The texture of `text`: for each line (from the top, or from the bottom
/// when `flip`) a row of cells, one for each byte of the line's width; the
/// cell of a character holds the atlas index of its glyph, low byte first,
/// and cells past the line's last character hold zero.
pub fn encode_text(text: &[String], atlas: &Atlas, font: &CustomFontSource, flip: bool) -> (data: Vec<u8>)
    requires
        text_fits(text@),
        text_maps_safely(text@, *font),
    ensures
        data@ == texture_bytes(text@, *atlas, *font, flip),
{
    let height = text.len();
    let width = text[0].as_str().as_bytes().len();
    let ghost w = text_width(text@);
    let ghost h = height as int;
    proof {
        assert(width == w);
        assert(2 * width <= 2 * w * h) by (nonlinear_arith)
            requires
                h >= 1,
                width == w,
                w >= 0,
        ;
    }
    let n = 2 * width * height;
    let mut data: Vec<u8> = Vec::new();
    let mut k: usize = 0;
    while k < n
        invariant
            k <= n,
            data@ =~= Seq::new(k as nat, |i: int| 0u8),
        decreases n - k,
    {
        data.push(0u8);
        k = k + 1;
    }
    proof {
        lemma_partial_start(text@, *atlas, *font, flip);
    }
    let mut y: usize = 0;
    while y < height
        invariant
            text_fits(text@),
            text_maps_safely(text@, *font),
            height == text@.len(),
            width == text_width(text@),
            n == 2 * width * height,
            y <= height,
            data@ == partial_texture(text@, *atlas, *font, flip, y as int, 0),
        decreases height - y,
    {
        let line = chars_of(&text[y]);
        let row = if flip {
            height - 1 - y
        } else {
            y
        };
        proof {
            lemma_encoding_longer(text@[y as int]@);
            assert(encode_utf8(text@[y as int]@).len() == text_width(text@));
        }
        let mut x: usize = 0;
        while x < line.len()
            invariant
                text_fits(text@),
                text_maps_safely(text@, *font),
                height == text@.len(),
                width == text_width(text@),
                n == 2 * width * height,
                y < height,
                row == source_line(height as int, y as int, flip),
                line@ == text@[y as int]@,
                line@.len() <= width,
                x <= line@.len(),
                data@ == partial_texture(text@, *atlas, *font, flip, y as int, x as int),
            decreases line@.len() - x,
        {
            let code = glyph_code_of(atlas, font, line[x]);
            proof {
                lemma_partial_write(text@, *atlas, *font, flip, y as int, x as int, row as int);
                lemma_cell_decode(x as int, row as int, width as int, height as int);
            }
            let index = 2 * (x + row * width);
            data.set(index, (code % 256) as u8);
            data.set(index + 1, (code / 256) as u8);
            x = x + 1;
        }
        proof {
            lemma_partial_line_done(text@, *atlas, *font, flip, y as int);
        }
        y = y + 1;
    }
    proof {
        lemma_partial_end(text@, *atlas, *font, flip);
    }
    data
}

/// Whether `text` can be turned into a texture.
pub fn fits_texture(text: &[String]) -> (fits: bool)
    ensures
        fits == text_fits(text@),
{
    if text.len() == 0 {
        return false;
    }
    let width = text[0].as_str().as_bytes().len();
    let mut y: usize = 0;
    while y < text.len()
        invariant
            1 <= text@.len(),
            width == text_width(text@),
            y <= text@.len(),
            forall|k: int| 0 <= k < y ==> #[trigger] encode_utf8(text@[k]@).len() == text_width(text@),
        decreases text@.len() - y,
    {
        if text[y].as_str().as_bytes().len() != width {
            return false;
        }
        y = y + 1;
    }
    match width.checked_mul(text.len()) {
        Some(cells) => {
            proof {
                assert(2 * width * text@.len() == cells * 2) by (nonlinear_arith)
                    requires
                        cells == width * text@.len(),
                ;
            }
            cells.checked_mul(2).is_some()
        },
        None => {
            proof {
                assert(2 * width * text@.len() >= width * text@.len()) by (nonlinear_arith)
                    requires
                        width >= 0,
                        text@.len() >= 1,
                ;
            }
            false
        },
    }
}

/// A texture of glyph indices, two bytes per cell, with the distances
/// between glyphs and between lines in pixels.
pub struct GlyphTexture {
    pub data: Vec<u8>,
    pub width: u32,
    pub height: u32,
    pub advance: u32,
    pub leading: u32,
}

impl GlyphTexture {
    /// The texture of `text`, its lines from the top; glyphs 19 pixels
    /// apart and lines 32.
    pub fn from_text(text: &[String], atlas: &Atlas, font: &CustomFontSource) -> (texture: Self)
        requires
            text_fits(text@),
            text_maps_safely(text@, *font),
        ensures
            texture.data@ == texture_bytes(text@, *atlas, *font, false),
            texture.width == text_width(text@) as u32,
            texture.height == text@.len() as u32,
            texture.advance == 19,
            texture.leading == 32,
    {
        let data = encode_text(text, atlas, font, false);
        let width = text[0].as_str().as_bytes().len();
        #[verifier::truncate]
        let width = width as u32;
        #[verifier::truncate]
        let height = text.len() as u32;
        GlyphTexture { data, width, height, advance: 19, leading: 32 }
    }
}

} // verus!
