//! Lexical handling of `/`-separated paths: decomposition into components,
//! file-name queries, structural equality and an owned, growable buffer.
//!
//! Nothing here touches a file system. Every contract is stated over the
//! UTF-8 bytes of the path text.

pub mod compare;
pub mod components;
pub mod laws;
pub mod lexical;
pub mod path;
pub mod path_buf;
pub mod slicing;

pub use components::{Component, Components};
pub use path::Path;
pub use path_buf::PathBuf;
