pub mod banner;
pub mod detect;
pub mod document;
pub mod error;
pub mod laws;
pub mod sync;
pub mod target;
pub mod text;
