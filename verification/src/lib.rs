//! ASCII rendering engine core: asset decoders, glyph atlases, overlay
//! compositing, audio bookkeeping and the decisions of the application shell.

pub mod text;
pub mod text_laws;
pub mod engine;
pub mod assets;
pub mod audio;
pub mod ascii;
pub mod shell;
