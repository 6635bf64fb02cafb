pub mod action;
pub mod config;
pub mod docker;
pub mod error;
pub mod host;
pub mod model;
pub mod order;
pub mod text;
pub mod theme;
pub mod input;
pub mod runtime;
pub mod cli;
pub mod app;
pub mod ui;
pub mod supervisor;
