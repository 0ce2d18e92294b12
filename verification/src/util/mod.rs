pub mod clock;
pub mod config;
pub mod double;
pub mod text;
