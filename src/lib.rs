//! A sparse, auto-growing grid of characters in which every cell carries a
//! display style. Any coordinate may be addressed: rows and cells come into
//! being, blank and unstyled, the first time an operation touches them.
pub mod style;
pub mod grid;
pub mod buffer;
pub mod laws;

pub use buffer::Buffer;
pub use style::{Cell, Style};
