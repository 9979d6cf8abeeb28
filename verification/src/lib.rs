//! Butler, a service manager: configuration checks, the dependency graph and its
//! ordering, and the decisions of the supervisor that runs the services.

pub mod app;
pub mod command;
pub mod config_laws;
pub mod graph;
pub mod graph_laws;
pub mod lifecycle;
pub mod lifecycle_laws;
pub mod lists;
pub mod logger;
pub mod order;
pub mod outside;
pub mod process;
pub mod protocol;
pub mod runner;
pub mod supervisor;
pub mod text;
pub mod text_laws;
pub mod transition_laws;
pub mod types;
pub mod watch;
pub mod watch_laws;
