//! Sprite sheets in BYOND's DMI format: the sprite model, its geometry
//! transforms, and the codecs that carry it across the scripting boundary
//! and the clipboard.
pub mod raster;
pub mod text;
pub mod model;
pub mod geometry;
pub mod tiles;
pub mod codec;
pub mod clipboard;
pub mod overlay;
pub mod workspace;
