pub mod text;
pub mod sorted;
pub mod config;
pub mod domain;
pub mod ops;
pub mod cli;
pub mod health;
pub mod recipes;
pub mod output;
pub mod resources;
pub mod sampling;
pub mod docker;
pub mod tui;
pub mod telemetry;
pub mod laws;
