//! Verified core of a code-intelligence toolkit for z4 sources and registries.
pub mod act;
pub mod atomic;
pub mod batch;
pub mod chronos;
pub mod config;
pub mod data_edit;
pub mod dispatch;
pub mod editor;
pub mod exact_search;
pub mod grammar;
pub mod hexdoc;
pub mod json;
pub mod mapper;
pub mod package_json;
pub mod path;
pub mod pathing;
pub mod registry;
pub mod repo_map;
pub mod scanner;
pub mod server;
pub mod shell;
pub mod skeleton;
pub mod slicer;
pub mod store;
pub mod sort;
pub mod text;
pub mod tool_args;
pub mod workspace;
pub mod z4;
