pub mod ball_parser;
pub mod cargo;
pub mod chocolatey;
pub mod cli;
pub mod commands;
pub mod config;
pub mod dep_graph;
pub mod dep_solver;
pub mod context;
pub mod builds;
pub mod download;
pub mod draft;
pub mod error;
pub mod github;
pub mod graph;
pub mod help;
pub mod hooks;
pub mod http;
pub mod injected;
pub mod manifest;
pub mod package;
pub mod platform;
pub mod records;
pub mod registry;
pub mod removal;
pub mod resolver;
pub mod sbom;
pub mod sweep;
pub mod system;
pub mod text;
pub mod update;
pub mod utils;
pub mod versions;
