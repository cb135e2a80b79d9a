pub mod catalog;
pub mod names;
pub mod resolver;
pub mod variant;
