//! gruth — Git Repository UTility Helper.
//!
//! The verified core of a dashboard that watches many git repositories:
//! repository state, filtering and sorting, key handling, theme resolution,
//! version comparison and release-archive extraction.

pub mod text;
pub mod paths;
pub mod git_ops;
pub mod app;
pub mod update;
pub mod config;
pub mod dir_picker;
pub mod cli;
pub mod scanner;
pub mod sync;
pub mod view;
pub mod keys;
