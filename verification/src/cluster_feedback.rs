//! Thumbs-up / thumbs-down feedback on generated clusters.

use vstd::prelude::*;
use std::path::PathBuf;

verus! {

/// SQL statements for creating the cluster_feedback table.
/// Applied as one migration of the history database.
pub const MIGRATION_SQL: &'static str = "
CREATE TABLE IF NOT EXISTS cluster_feedback (
    id INTEGER PRIMARY KEY AUTOINCREMENT,
    cluster_id TEXT NOT NULL,
    thumb TEXT NOT NULL,
    note TEXT,
    created_at INTEGER NOT NULL
);
CREATE INDEX IF NOT EXISTS idx_cluster_feedback_cluster ON cluster_feedback(cluster_id);
CREATE INDEX IF NOT EXISTS idx_cluster_feedback_created ON cluster_feedback(created_at);
";

/// One piece of feedback on a cluster; `thumb` is `up` or `down`.
#[derive(Clone, Debug)]
pub struct ClusterFeedback {
    pub id: i64,
    pub cluster_id: String,
    pub thumb: String,
    pub note: Option<String>,
    pub created_at: i64,
}

/// Why feedback was refused.
#[derive(Clone, Debug)]
pub enum FeedbackError {
    /// The thumb was neither `up` nor `down`; carries what was given.
    InvalidThumb(String),
}

/// Owns the location of the database that feedback is stored in.
pub struct ClusterFeedbackManager {
    db_path: PathBuf,
}

impl ClusterFeedbackManager {
    /// The database location this manager was created with.
    pub closed spec fn stored_path(&self) -> PathBuf {
        self.db_path
    }

    pub fn new(db_path: PathBuf) -> (m: Self)
        ensures
            m.stored_path() == db_path,
    {
        Self { db_path }
    }

    /// The database location.
    pub fn db_path(&self) -> (p: &PathBuf)
        ensures
            *p == self.stored_path(),
    {
        &self.db_path
    }
}

/// Whether a thumb value is accepted.
pub open spec fn valid_thumb(thumb: Seq<char>) -> bool {
    thumb == "up"@ || thumb == "down"@
}

/// Accepts `up` and `down`; anything else is refused with the value given.
pub fn validate_thumb(thumb: &str) -> (r: Result<(), FeedbackError>)
    ensures
        r is Ok <==> valid_thumb(thumb@),
        r matches Err(FeedbackError::InvalidThumb(t)) ==> t@ == thumb@,
{
    if crate::text::str_equals(thumb, "up") || crate::text::str_equals(thumb, "down") {
        Ok(())
    } else {
        Err(FeedbackError::InvalidThumb(thumb.to_owned()))
    }
}

/// Milliseconds in a day.
pub const MS_PER_DAY: i64 = 86400000;

/// The oldest creation time (milliseconds) that counts as recent: `since_days`
/// days before `now_ms`.
pub fn negative_feedback_cutoff(now_ms: i64, since_days: i64) -> (cutoff: i64)
    requires
        i64::MIN <= since_days * MS_PER_DAY <= i64::MAX,
        i64::MIN <= now_ms - since_days * MS_PER_DAY <= i64::MAX,
    ensures
        cutoff == now_ms - since_days * MS_PER_DAY,
{
    now_ms - since_days * MS_PER_DAY
}

} // verus!
