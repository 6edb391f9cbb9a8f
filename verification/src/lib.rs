//! Core logic of the Votype task-cluster, rule-suggestion and foreground
//! tracking features, with machine-checked contracts.

pub mod text;
pub mod task_cluster_generator;
pub mod task_clusters;
pub mod foreign;
pub mod fresh_id;
pub mod settings;
pub mod suggestion_engine;
pub mod cluster_feedback;
pub mod foreground_tracker;
pub mod http_client;
