//! Decision core of a per-node network observability agent.

pub mod aggregator;
pub mod cli;
pub mod config;
pub mod flow_table;
pub mod health;
pub mod health_server;
pub mod ingest;
pub mod k8s_watcher;
pub mod order;
pub mod pod_cache;
pub mod pod_table;
pub mod probe_loader;
pub mod service;
pub mod text;
pub mod time;
