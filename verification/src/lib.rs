pub mod archive;
pub mod config;
pub mod dump;
pub mod retention;
pub mod schedule;
pub mod selection;
pub mod text;
