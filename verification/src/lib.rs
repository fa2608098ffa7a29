pub mod bytes;
pub mod error;
pub mod format;
pub mod directory;
pub mod inflate;
pub mod chunk_index;
pub mod text;
pub mod object;
pub mod image;
pub mod scan;
pub mod nfs;
pub mod session;
pub mod cli;
