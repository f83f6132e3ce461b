//! Package tracking, build ordering and template maintenance for a void-packages tree.

pub mod actions;
pub mod app;
pub mod building;
pub mod bump;
pub mod cli;
pub mod config;
pub mod dep_graph;
pub mod gcc;
pub mod git;
pub mod keys;
pub mod line;
pub mod load;
pub mod order;
pub mod package;
pub mod poll;
pub mod reading;
pub mod repo;
pub mod screen;
pub mod settings;
pub mod shlibs;
pub mod shown;
pub mod table;
pub mod template;
pub mod text;
pub mod ui;
pub mod version;
pub mod version_check;
