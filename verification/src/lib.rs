//! Space scenarios in the terminal: a scene store fed by producers, a camera that is a reference
//! frame, and backends that rasterize what it sees.
//!
//! Numbers in double precision are held by bit pattern ([`binary64`]). The library compares and
//! quantizes them exactly, over integers; arithmetic in floating point is its caller's.

pub mod binary64;
pub mod dither;
pub mod text;
pub mod ident;
pub mod keyed;
pub mod scene;
pub mod frames;
pub mod lod;
pub mod camera;
pub mod render;
pub mod canvas;
pub mod braille;
pub mod color;
pub mod renderer;
pub mod frame_doc;
pub mod scene_doc;
pub mod replay;
pub mod message;
pub mod names;
pub mod producer;
