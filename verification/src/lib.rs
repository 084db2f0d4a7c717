//! Finding and removing installed applications across Linux package formats.
pub mod backend;
pub mod backends;
pub mod model;
pub mod path;
pub mod sort;
pub mod table;
pub mod text;
pub mod ui;
