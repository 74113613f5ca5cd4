//! The logic of an ASCII-art game and its editors: font atlases, glyph
//! textures and animations, editor layers, widget layout, and the decisions
//! of the editor's tools, with their contracts proved by Verus.
use vstd::prelude::*;

pub mod atlas;
pub mod brush;
pub mod editor;
pub mod font;
pub mod glyph_animation;
pub mod glyph_animation_graph;
pub mod glyph_gen_pipeline;
pub mod glyph_render_plugin;
pub mod keyboard_display;
pub mod layers;
pub mod math;
pub mod menu;
pub mod mount;
pub mod tools;
pub mod ui;

