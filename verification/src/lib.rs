//! The core of a 2D tile-map level editor: tile kinds, sprite animations,
//! the editor's placement and undo rules, and the text format of a map file.
//!
//! Everything here works on plain values: pixels and cells are integers,
//! times are whole microseconds, textures are numbers. The entities of the
//! scene live in a `hecs::World`. Window, input polling, texture loading and
//! file access belong to the program built around this crate.

pub mod animation;
pub mod assets;
pub mod editor;
pub mod map_file;
pub mod rendering;
pub mod tile;
pub mod tile_map;
pub mod world;
