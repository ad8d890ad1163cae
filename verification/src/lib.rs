//! Luty's verified core: `.cube` LUT parsing, LUT catalog building,
//! output naming and the small decisions around image export.

pub mod text;
pub mod paths;
pub mod bits;
pub mod cube;
pub mod catalog;
pub mod order;
pub mod cache;
pub mod output;
pub mod imaging;
pub mod settings;
