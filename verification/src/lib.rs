//! The verified core of a terminal dashboard for terraform and OpenTofu
//! repositories.

pub mod app;
pub mod config;
pub mod discovery;
pub mod discovery_laws;
pub mod engine;
pub mod engine_laws;
pub mod headless;
pub mod headless_laws;
pub mod lock;
pub mod module;
pub mod path_laws;
pub mod pathmap;
pub mod paths;
pub mod plan_cache;
pub mod run_laws;
pub mod runner;
pub mod state;
pub mod state_laws;
pub mod task;
pub mod task_laws;
pub mod text;
pub mod text_laws;
pub mod ui;
pub mod util;
