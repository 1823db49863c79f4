pub mod text;
pub mod error;
pub mod collections;
pub mod config;
pub mod map;
pub mod tree;
pub mod tree_objects;
pub mod cache;
pub mod log;
pub mod parent;
pub mod cli;
pub mod pluck;
pub mod tree_laws;
