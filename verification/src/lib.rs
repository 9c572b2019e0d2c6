//! Core logic of fzftask, a fuzzy picker for Taskfile tasks: loading a
//! Taskfile with its includes, filtering and selecting tasks, collecting
//! required variables and building the shell command.
pub mod load_laws;
pub mod load_model;
pub mod load_semantics;
pub mod loader;
pub mod matching;
pub mod picker;
pub mod quote;
pub mod required_vars;
pub mod task_map;
pub mod taskdef;
pub mod text;
