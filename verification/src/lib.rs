//! Finds, groups, diagnoses and resumes the local sessions of coding agents.

pub mod app;
pub mod app_laws;
pub mod app_navigation;
pub mod catalog;
pub mod catalog_laws;
pub mod cli;
pub mod dispatch;
pub mod domain;
pub mod domain_laws;
pub mod json;
pub mod model;
pub mod order;
pub mod output;
pub mod output_laws;
pub mod path_laws;
pub mod paths;
pub mod plain;
pub mod provider;
pub mod resume;
pub mod resume_laws;
pub mod screen;
pub mod text;
pub mod text_laws;
pub mod time;
pub mod toml;
pub mod tree;
pub mod tui;
pub mod tui_laws;
pub mod width;
