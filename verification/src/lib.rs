//! A G-code pipeline for toolpath previews: text is parsed into lines of
//! words, the lines are interpreted into motions, and the motions are
//! flattened into the vertex pairs that a renderer draws.

pub mod gcode;
pub mod tessellator;
