pub mod error;
pub mod fs;
pub mod glob;
pub mod graph;
pub mod tree;

pub use error::{Error, Result};

