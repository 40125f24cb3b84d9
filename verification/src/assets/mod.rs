//! Asset decoders.

pub mod fault;
pub mod hot_reload;
pub mod inflate;
pub mod inflate_block_laws;
pub mod inflate_laws;
pub mod obj;
pub mod obj_laws;
pub mod path;
pub mod png;
pub mod png_file_laws;
pub mod png_laws;
pub mod watch_laws;
