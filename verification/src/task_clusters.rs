//! Task clusters: the stored summary of a stretch of related work.

use vstd::prelude::*;
use std::path::PathBuf;
use crate::foreign::{is_hyphenated_v4, new_uuid_v4};

verus! {

/// SQL statements for creating the task_clusters table and its indexes.
/// Applied as one migration of the history database.
pub const MIGRATION_SQL: &'static str = "CREATE TABLE IF NOT EXISTS task_clusters (
    id TEXT PRIMARY KEY,
    summary_id INTEGER NOT NULL,
    date TEXT NOT NULL,
    title TEXT NOT NULL,
    status TEXT NOT NULL,
    time_span TEXT,
    apps_json TEXT NOT NULL,
    source_history_ids_json TEXT NOT NULL,
    total_duration_ms INTEGER NOT NULL,
    entry_count INTEGER NOT NULL,
    summary TEXT,
    blockers_json TEXT NOT NULL,
    next_step TEXT,
    keywords_json TEXT NOT NULL,
    is_user_modified INTEGER NOT NULL DEFAULT 0,
    user_modified_fields TEXT NOT NULL DEFAULT '[]',
    created_at INTEGER NOT NULL,
    updated_at INTEGER NOT NULL
);
CREATE INDEX IF NOT EXISTS idx_task_clusters_date ON task_clusters(date);
CREATE INDEX IF NOT EXISTS idx_task_clusters_summary ON task_clusters(summary_id);";

/// A cluster of history entries that belong to one task.
#[derive(Clone, Debug)]
pub struct TaskCluster {
    pub id: String,
    pub summary_id: i64,
    pub date: String,
    pub title: String,
    pub status: String,
    pub time_span: Option<String>,
    pub apps: Vec<String>,
    pub source_history_ids: Vec<i64>,
    pub total_duration_ms: i64,
    pub entry_count: i64,
    pub summary: Option<String>,
    pub blockers: Vec<String>,
    pub next_step: Option<String>,
    pub keywords: Vec<String>,
    pub is_user_modified: bool,
    pub user_modified_fields: Vec<String>,
    pub created_at: i64,
    pub updated_at: i64,
}

/// Owns the location of the database that task clusters are stored in.
pub struct TaskClustersManager {
    db_path: PathBuf,
}

impl TaskClustersManager {
    /// The database location this manager was created with.
    pub closed spec fn stored_path(&self) -> PathBuf {
        self.db_path
    }

    pub fn new(db_path: PathBuf) -> (m: Self)
        ensures
            m.stored_path() == db_path,
    {
        Self { db_path }
    }

    /// The database location.
    pub fn db_path(&self) -> (p: &PathBuf)
        ensures
            *p == self.stored_path(),
    {
        &self.db_path
    }

    /// A fresh random cluster id: a hyphenated version-4 UUID (36 characters).
    pub fn new_cluster_id() -> (id: String)
        ensures
            is_hyphenated_v4(id@),
    {
        new_uuid_v4()
    }
}

} // verus!
