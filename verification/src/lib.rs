pub mod text;
pub mod keyed;
pub mod model;
pub mod tasks;
pub mod date;
pub mod ci;
pub mod pr_state;
pub mod json;
pub mod github;
pub mod display;
pub mod app_config;
pub mod process;
pub mod feature;
pub mod commands;
pub mod services;
pub mod worktree;
pub mod tracking;
pub mod overview;
pub mod credentials;
pub mod chrome;
