//! Verified core of an OSD (on-screen display) toolkit for FPV video
//! recordings: the binary OSD frame format, the Artlynk SEI payload decoder,
//! glyph overlay onto RGBA pixel buffers and encoder selection.
pub mod frame;
pub mod text;
pub mod artlynk;
pub mod overlay;
pub mod encoders;
pub mod pattern;
pub mod srt;
pub mod template;
pub mod carving;
pub mod video_info;
