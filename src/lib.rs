//! Terminal street maps: a bounded geographic region, with its roads and
//! waterways, drawn as a grid of directional glyphs.
pub mod style;
pub mod geo;
pub mod map;
pub mod ascii_map;
pub mod records;
pub mod text;
pub mod overpass;
pub mod api_wrapper;
