//! A character-grid layout and composition engine for fixed-size text
//! displays: a bounds-clipped grid of display cells with formatted write
//! primitives, and a cursor-driven compositor for nested rows, columns,
//! padded frames and fixed-column grids.

pub mod fields;
pub mod buffer;
pub mod ui;
pub mod widgets;
