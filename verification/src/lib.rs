//! The core of an ASCII-art camera: sampling frames into characters, the
//! `.tcam` recording format, HTML and SVG export, and the decisions that the
//! interactive program takes on keys, frames and devices.
pub mod app;
pub mod capture;
pub mod cli;
pub mod color;
pub mod decoder;
pub mod encoder;
pub mod export;
pub mod format;
pub mod frame;
pub mod laws;
pub mod luma;
pub mod names;
pub mod playback;
pub mod recording;
pub mod render;
pub mod rle;
pub mod roundtrip;
pub mod text;
pub mod ui;
pub mod wire;
