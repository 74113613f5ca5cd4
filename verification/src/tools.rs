//! The editor's keyboard tools: the type tool, which writes characters
//! into the selected layer, and the translate tool, which moves it.
use vstd::prelude::*;
use crate::layers::EditorLayer;
use crate::math::IVec2;

verus! {

/// How the type tool moves after writing a character.
#[derive(Debug, PartialEq, Eq, Structural, Clone, Copy)]
pub enum TypeMode {
    /// The cursor moves on after each character.
    Regular,
    /// The cursor moves on after each character.
    Insert,
    /// The cursor stays on the character written.
    Inplace,
}

impl Default for TypeMode {
    /// The type tool starts in the regular mode.
    fn default() -> (mode: TypeMode)
        ensures
            mode == TypeMode::Regular,
    {
        TypeMode::Regular
    }
}

impl TypeMode {
    /// Which cursor the mode shows: 0 for the regular mode, 1 for the
    /// others.
    pub fn id(&self) -> (id: usize)
        ensures
            id == (if *self == TypeMode::Regular {
                0usize
            } else {
                1usize
            }),
    {
        match self {
            TypeMode::Regular => 0,
            TypeMode::Insert => 1,
            TypeMode::Inplace => 1,
        }
    }

    /// The mode after this one: regular, insert, in place, and back.
    pub open spec fn spec_next(self) -> TypeMode {
        match self {
            TypeMode::Regular => TypeMode::Insert,
            TypeMode::Insert => TypeMode::Inplace,
            TypeMode::Inplace => TypeMode::Regular,
        }
    }

    /// The mode after this one.
    pub fn next(&self) -> (next: Self)
        ensures
            next == self.spec_next(),
    {
        match self {
            TypeMode::Regular => TypeMode::Insert,
            TypeMode::Insert => TypeMode::Inplace,
            TypeMode::Inplace => TypeMode::Regular,
        }
    }

    /// Moves on to the next mode.
    pub fn cycle(&mut self)
        ensures
            *final(self) == old(self).spec_next(),
    {
        *self = self.next();
    }

    /// The mode's name as the tool's panel shows it.
    pub fn label(&self) -> (label: &'static str)
        ensures
            label@ == (match *self {
                TypeMode::Regular => "Regular"@,
                TypeMode::Insert => "Insert"@,
                TypeMode::Inplace => "Inplace"@,
            }),
    {
        match self {
            TypeMode::Regular => "Regular",
            TypeMode::Insert => "Insert",
            TypeMode::Inplace => "Inplace",
        }
    }
}

/// Cycling through the modes three times comes back to the start.
pub proof fn lemma_mode_cycle_returns(mode: TypeMode)
    ensures
        mode.spec_next().spec_next().spec_next() == mode,
        mode.spec_next() != mode,
{
}

/// A pressed key, as the tools read it.
#[derive(Debug, PartialEq, Eq, Clone)]
pub enum ToolKey {
    Escape,
    Enter,
    ArrowLeft,
    ArrowRight,
    ArrowDown,
    ArrowUp,
    Space,
    Backspace,
    Delete,
    /// Another key, with the text it types, if any.
    Other(Option<String>),
}

/// What a key asks the type tool to write.
#[derive(Debug, PartialEq, Eq, Structural, Clone, Copy)]
pub enum TypeInput {
    Nothing,
    Key(char),
    Backspace,
    Delete,
}

/// What `key` asks the type tool to write: a space for the space bar, the
/// character that another key types when it types exactly one, and the
/// erasing keys.
pub open spec fn spec_type_input(key: ToolKey) -> TypeInput {
    match key {
        ToolKey::Space => TypeInput::Key(' '),
        ToolKey::Backspace => TypeInput::Backspace,
        ToolKey::Delete => TypeInput::Delete,
        ToolKey::Other(Some(text)) => if text@.len() == 1 {
            TypeInput::Key(text@[0])
        } else {
            TypeInput::Nothing
        },
        _ => TypeInput::Nothing,
    }
}

/// `v` moved by `dx`, `dy`.
pub open spec fn moved(v: IVec2, dx: int, dy: int) -> IVec2 {
    IVec2 { x: (v.x + dx) as i32, y: (v.y + dy) as i32 }
}

/// Where the arrow `key` moves the cursor: one cell, or nowhere for
/// another key.
pub open spec fn arrow_move(key: ToolKey, cursor: IVec2) -> IVec2 {
    match key {
        ToolKey::ArrowLeft => moved(cursor, -1, 0),
        ToolKey::ArrowRight => moved(cursor, 1, 0),
        ToolKey::ArrowDown => moved(cursor, 0, -1),
        ToolKey::ArrowUp => moved(cursor, 0, 1),
        _ => cursor,
    }
}

/// The cursor stays within `i32` where the arrow `key` moves it by one;
/// any other key leaves it be.
pub open spec fn can_move(key: ToolKey, cursor: IVec2) -> bool {
    match key {
        ToolKey::ArrowLeft => i32::MIN < cursor.x,
        ToolKey::ArrowRight => cursor.x < i32::MAX,
        ToolKey::ArrowDown => i32::MIN < cursor.y,
        ToolKey::ArrowUp => cursor.y < i32::MAX,
        _ => true,
    }
}

/// The type tool's reading of a pressed key.
pub fn type_input(key: &ToolKey) -> (input: TypeInput)
    ensures
        input == spec_type_input(*key),
{
    match key {
        ToolKey::Space => TypeInput::Key(' '),
        ToolKey::Backspace => TypeInput::Backspace,
        ToolKey::Delete => TypeInput::Delete,
        ToolKey::Other(Some(text)) => {
            let chars = crate::glyph_gen_pipeline::chars_of(text);
            if chars.len() == 1 {
                TypeInput::Key(chars[0])
            } else {
                TypeInput::Nothing
            }
        },
        _ => TypeInput::Nothing,
    }
}

/// The first part of the type tool's answer to a key: the escape key
/// closes the tool, and the arrows move the cursor.
pub fn type_tool_navigate(key: &ToolKey, cursor: IVec2) -> (outcome: (IVec2, bool))
    requires
        can_move(*key, cursor),
    ensures
        outcome.0 == arrow_move(*key, cursor),
        outcome.1 == (*key == ToolKey::Escape),
{
    match key {
        ToolKey::Escape => (cursor, true),
        ToolKey::ArrowLeft => (IVec2 { x: cursor.x - 1, y: cursor.y }, false),
        ToolKey::ArrowRight => (IVec2 { x: cursor.x + 1, y: cursor.y }, false),
        ToolKey::ArrowDown => (IVec2 { x: cursor.x, y: cursor.y - 1 }, false),
        ToolKey::ArrowUp => (IVec2 { x: cursor.x, y: cursor.y + 1 }, false),
        _ => (cursor, false),
    }
}

/// The cursor, and the cell it writes relative to the layer, stay within
/// `i32` for the input: a character moves the cursor on unless the mode
/// keeps it in place, backspace moves it back before it erases, delete
/// moves it on after, and no input touches nothing.
pub open spec fn input_fits(mode: TypeMode, input: TypeInput, cursor: IVec2, layer_position: IVec2) -> bool {
    let relative_x = cursor.x - layer_position.x;
    let relative_y = cursor.y - layer_position.y;
    let relative_fits = i32::MIN <= relative_x <= i32::MAX && i32::MIN <= relative_y <= i32::MAX;
    match input {
        TypeInput::Key(_) => relative_fits && (mode != TypeMode::Inplace ==> cursor.x < i32::MAX),
        TypeInput::Backspace => i32::MIN < cursor.x && i32::MIN <= relative_x - 1 <= i32::MAX
            && i32::MIN <= relative_y <= i32::MAX,
        TypeInput::Delete => relative_fits && cursor.x < i32::MAX,
        TypeInput::Nothing => true,
    }
}

/// Where the cursor ends after the input, and which cell of the layer it
/// writes (relative to the layer) and what.
pub open spec fn input_effect(mode: TypeMode, input: TypeInput, cursor: IVec2, layer_position: IVec2) -> (
    IVec2,
    Option<(int, int, char)>,
) {
    let relative_x = cursor.x - layer_position.x;
    let relative_y = cursor.y - layer_position.y;
    match input {
        TypeInput::Key(c) => (
            if mode != TypeMode::Inplace {
                moved(cursor, 1, 0)
            } else {
                cursor
            },
            Some((relative_x, relative_y, c)),
        ),
        TypeInput::Backspace => (moved(cursor, -1, 0), Some((relative_x - 1, relative_y, ' '))),
        TypeInput::Delete => (moved(cursor, 1, 0), Some((relative_x, relative_y, ' '))),
        TypeInput::Nothing => (cursor, None),
    }
}

/// The second part of the type tool's answer to a key, where a layer is
/// selected: a character is written at the cursor, which then moves on
/// unless the mode keeps it in place; backspace moves the cursor back and
/// erases there; delete erases at the cursor and moves it on. The layer
/// lies at `layer_position`.
pub fn type_tool_write(
    mode: &TypeMode,
    input: TypeInput,
    cursor: IVec2,
    layer: &mut EditorLayer,
    layer_position: IVec2,
) -> (after: IVec2)
    requires
        input_fits(*mode, input, cursor, layer_position),
    ensures
        after == input_effect(*mode, input, cursor, layer_position).0,
        final(layer).spec_visible() == old(layer).spec_visible(),
        final(layer).spec_name() == old(layer).spec_name(),
        forall|x: int, y: int|
            i32::MIN <= x <= i32::MAX && i32::MIN <= y <= i32::MAX ==> #[trigger] final(layer).char_at(x, y)
                == match input_effect(*mode, input, cursor, layer_position).1 {
                Some((wx, wy, c)) => if x == wx && y == wy {
                    c
                } else {
                    old(layer).char_at(x, y)
                },
                None => old(layer).char_at(x, y),
            },
{
    match input {
        TypeInput::Key(c) => {
            let relative = IVec2 { x: cursor.x - layer_position.x, y: cursor.y - layer_position.y };
            let written = layer.write_character(relative, c);
            if written.is_ok() && *mode != TypeMode::Inplace {
                IVec2 { x: cursor.x + 1, y: cursor.y }
            } else {
                cursor
            }
        },
        TypeInput::Backspace => {
            let moved_cursor = IVec2 { x: cursor.x - 1, y: cursor.y };
            let relative = IVec2 { x: moved_cursor.x - layer_position.x, y: moved_cursor.y - layer_position.y };
            let _ = layer.write_character(relative, ' ');
            moved_cursor
        },
        TypeInput::Delete => {
            let relative = IVec2 { x: cursor.x - layer_position.x, y: cursor.y - layer_position.y };
            let _ = layer.write_character(relative, ' ');
            IVec2 { x: cursor.x + 1, y: cursor.y }
        },
        TypeInput::Nothing => cursor,
    }
}

/// The translate tool's step: from the place it remembers and a key, for
/// the selected layer at `layer_position` (if one is selected), the place
/// it remembers afterwards and its answer. The arrows move the layer by one
/// cell, remembering its first place; escape puts it back at the place
/// remembered and closes the tool; enter closes the tool.
pub open spec fn translate_key(initial: Option<IVec2>, key: ToolKey, layer_position: Option<IVec2>) -> (
    Option<IVec2>,
    TranslateOutcome,
) {
    let remembered = match (layer_position, initial) {
        (Some(p), None) => if is_arrow(key) {
            Some(p)
        } else {
            None
        },
        _ => initial,
    };
    let position = match (key, layer_position) {
        (ToolKey::Escape, Some(p)) => match initial {
            Some(i) => Some(i),
            None => Some(p),
        },
        (_, Some(p)) => Some(arrow_move(key, p)),
        _ => None,
    };
    (remembered, TranslateOutcome { layer_position: position, close: key == ToolKey::Escape || key == ToolKey::Enter })
}

/// `key` is one of the four arrows.
pub open spec fn is_arrow(key: ToolKey) -> bool {
    ||| key == ToolKey::ArrowLeft
    ||| key == ToolKey::ArrowRight
    ||| key == ToolKey::ArrowDown
    ||| key == ToolKey::ArrowUp
}

/// How far the arrow `key` moves a position, along each axis.
pub open spec fn arrow_delta(key: ToolKey) -> (int, int) {
    match key {
        ToolKey::ArrowLeft => (-1, 0),
        ToolKey::ArrowRight => (1, 0),
        ToolKey::ArrowDown => (0, -1),
        ToolKey::ArrowUp => (0, 1),
        _ => (0, 0),
    }
}

/// How far the arrows among `keys` move a position in all.
pub open spec fn net_delta(keys: Seq<ToolKey>) -> (int, int)
    decreases keys.len(),
{
    if keys.len() == 0 {
        (0, 0)
    } else {
        let rest = net_delta(keys.drop_first());
        (arrow_delta(keys[0]).0 + rest.0, arrow_delta(keys[0]).1 + rest.1)
    }
}

/// The translate tool's steps on `keys` in turn, from the place it
/// remembers and the layer's position: the place remembered and the
/// layer's position afterwards.
pub open spec fn translate_run(initial: Option<IVec2>, layer_position: Option<IVec2>, keys: Seq<ToolKey>) -> (
    Option<IVec2>,
    Option<IVec2>,
)
    decreases keys.len(),
{
    if keys.len() == 0 {
        (initial, layer_position)
    } else {
        let (remembered, outcome) = translate_key(initial, keys[0], layer_position);
        translate_run(remembered, outcome.layer_position, keys.drop_first())
    }
}

/// Every step of the run on `keys` moves the layer within `i32`.
pub open spec fn translate_run_moves(initial: Option<IVec2>, layer_position: Option<IVec2>, keys: Seq<
    ToolKey,
>) -> bool
    decreases keys.len(),
{
    keys.len() == 0 || {
        let (remembered, outcome) = translate_key(initial, keys[0], layer_position);
        &&& layer_position matches Some(p) ==> can_move(keys[0], p)
        &&& translate_run_moves(remembered, outcome.layer_position, keys.drop_first())
    }
}

/// A run of arrows from `p` whose every step stays within `i32` moves the
/// layer by their net delta, which keeps it within `i32`; the tool
/// remembers `p` unless it remembered a place already.
proof fn lemma_arrows_run(initial: Option<IVec2>, p: IVec2, keys: Seq<ToolKey>)
    requires
        forall|i: int| 0 <= i < keys.len() ==> is_arrow(#[trigger] keys[i]),
        translate_run_moves(initial, Some(p), keys),
    ensures
        translate_run(initial, Some(p), keys) == (if initial is None && keys.len() > 0 {
            Some(p)
        } else {
            initial
        }, Some(moved(p, net_delta(keys).0, net_delta(keys).1))),
        i32::MIN <= p.x + net_delta(keys).0 <= i32::MAX,
        i32::MIN <= p.y + net_delta(keys).1 <= i32::MAX,
    decreases keys.len(),
{
    if keys.len() > 0 {
        let k = keys[0];
        assert(is_arrow(k));
        let (remembered, outcome) = translate_key(initial, k, Some(p));
        assert(can_move(k, p));
        let p1 = arrow_move(k, p);
        assert(outcome.layer_position == Some(p1));
        assert(p1.x == p.x + arrow_delta(k).0 && p1.y == p.y + arrow_delta(k).1);
        let rest = keys.drop_first();
        assert forall|i: int| 0 <= i < rest.len() implies is_arrow(#[trigger] rest[i]) by {
            assert(rest[i] == keys[i + 1]);
        }
        lemma_arrows_run(remembered, p1, rest);
        assert(remembered == if initial is None {
            Some(p)
        } else {
            initial
        });
    }
}

/// A run on `keys` followed by `key` is the run on `keys`, then the step on
/// `key`.
proof fn lemma_run_push(initial: Option<IVec2>, layer_position: Option<IVec2>, keys: Seq<ToolKey>, key: ToolKey)
    ensures
        translate_run(initial, layer_position, keys.push(key)) == ({
            let (remembered, position) = translate_run(initial, layer_position, keys);
            let (last_remembered, outcome) = translate_key(remembered, key, position);
            (last_remembered, outcome.layer_position)
        }),
        translate_run_moves(initial, layer_position, keys.push(key)) == (translate_run_moves(
            initial,
            layer_position,
            keys,
        ) && ({
            let (remembered, position) = translate_run(initial, layer_position, keys);
            position matches Some(p) ==> can_move(key, p)
        })),
    decreases keys.len(),
{
    if keys.len() > 0 {
        let (remembered, outcome) = translate_key(initial, keys[0], layer_position);
        assert(keys.push(key)[0] == keys[0]);
        assert(keys.push(key).drop_first() =~= keys.drop_first().push(key));
        lemma_run_push(remembered, outcome.layer_position, keys.drop_first(), key);
    } else {
        assert(keys.push(key)[0] == key);
        assert(keys.push(key).drop_first() =~= Seq::<ToolKey>::empty());
        let (remembered, outcome) = translate_key(initial, key, layer_position);
        assert(translate_run(remembered, outcome.layer_position, Seq::<ToolKey>::empty()) == (
        remembered, outcome.layer_position));
        assert(translate_run_moves(remembered, outcome.layer_position, Seq::<ToolKey>::empty()));
    }
}

/// Translating a layer and then settling: arrows that keep the layer
/// within `i32` at every step move it from `q` by their net delta, while
/// the tool remembers `q`; escape then puts the layer back at `q`, and
/// enter keeps it where the arrows took it, neither moving it out of
/// `i32`.
pub proof fn lemma_translate_then_settle(q: IVec2, keys: Seq<ToolKey>)
    requires
        forall|i: int| 0 <= i < keys.len() ==> is_arrow(#[trigger] keys[i]),
        translate_run_moves(None, Some(q), keys),
    ensures
        translate_run(None, Some(q), keys) == (if keys.len() > 0 {
            Some(q)
        } else {
            None
        }, Some(moved(q, net_delta(keys).0, net_delta(keys).1))),
        translate_run(None, Some(q), keys.push(ToolKey::Escape)).1 == Some(q),
        translate_run(None, Some(q), keys.push(ToolKey::Enter)).1 == Some(
            moved(q, net_delta(keys).0, net_delta(keys).1),
        ),
        translate_run_moves(None, Some(q), keys.push(ToolKey::Escape)),
        translate_run_moves(None, Some(q), keys.push(ToolKey::Enter)),
{
    lemma_arrows_run(None, q, keys);
    lemma_run_push(None, Some(q), keys, ToolKey::Escape);
    lemma_run_push(None, Some(q), keys, ToolKey::Enter);
}

/// The translate tool: where the layer stood before the tool moved it.
pub struct TranslateTool {
    pub initial: Option<IVec2>,
}

/// The translate tool's answer to a key.
#[derive(Debug, PartialEq, Eq, Structural, Clone, Copy)]
pub struct TranslateOutcome {
    /// Where the selected layer stands afterwards.
    pub layer_position: Option<IVec2>,
    /// The tool closes.
    pub close: bool,
}

impl TranslateTool {
    /// A translate tool as the editor opens it, remembering the origin as
    /// the layer's first place.
    pub fn new() -> (tool: Self)
        ensures
            tool.initial == Some(IVec2 { x: 0, y: 0 }),
    {
        TranslateTool { initial: Some(IVec2 { x: 0, y: 0 }) }
    }

    /// The translate tool's answer to a key, for the selected layer at
    /// `layer_position` (if one is selected): the arrows move it by one
    /// cell, remembering its first place; escape puts it back at the place
    /// remembered and closes the tool; enter closes the tool.
    pub fn handle_key(&mut self, key: &ToolKey, layer_position: Option<IVec2>) -> (outcome: TranslateOutcome)
        requires
            layer_position matches Some(p) ==> can_move(*key, p),
        ensures
            (final(self).initial, outcome) == translate_key(old(self).initial, *key, layer_position),
    {
        match key {
            ToolKey::ArrowLeft | ToolKey::ArrowRight | ToolKey::ArrowDown | ToolKey::ArrowUp => {
                match layer_position {
                    Some(p) => {
                        if self.initial.is_none() {
                            self.initial = Some(p);
                        }
                        let (moved_to, _) = type_tool_navigate(key, p);
                        TranslateOutcome { layer_position: Some(moved_to), close: false }
                    },
                    None => TranslateOutcome { layer_position: None, close: false },
                }
            },
            ToolKey::Escape => {
                let restored = match (layer_position, self.initial) {
                    (Some(_), Some(initial)) => Some(initial),
                    (p, _) => p,
                };
                TranslateOutcome { layer_position: restored, close: true }
            },
            ToolKey::Enter => TranslateOutcome { layer_position, close: true },
            _ => TranslateOutcome { layer_position, close: false },
        }
    }
}

} // verus!
