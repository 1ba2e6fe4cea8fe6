//! Verified core of a glyph-field wave animation: the bounded histories of
//! click pulses and cursor trail, the packing of those histories into the
//! fixed-size arrays handed to the shader, the layout of the glyph atlas, and
//! the pointer-button state that drives click-and-hold pulses.

pub mod history;
pub mod uniforms;
pub mod glyphs;
pub mod atlas;
pub mod input;
