use rusqlite::Connection;

use votype_core::task_clusters::MIGRATION_SQL;

#[test]
fn test_migration_sql_creates_table_when_applied() {
    let conn = Connection::open_in_memory().unwrap();
    conn.execute_batch(MIGRATION_SQL)
        .expect("MIGRATION_SQL should apply cleanly");
    let count: i64 = conn
        .query_row(
            "SELECT COUNT(*) FROM sqlite_master WHERE type='table' AND name='task_clusters'",
            [],
            |row| row.get(0),
        )
        .unwrap();
    assert_eq!(count, 1);
}

#[test]
fn test_migration_sql_creates_indexes() {
    let conn = Connection::open_in_memory().unwrap();
    conn.execute_batch(MIGRATION_SQL)
        .expect("MIGRATION_SQL should apply cleanly");
    let count: i64 = conn
        .query_row(
            "SELECT count(*) FROM sqlite_master WHERE type='index' AND name IN ('idx_task_clusters_date','idx_task_clusters_summary')",
            [],
            |row| row.get(0),
        )
        .unwrap();
    assert_eq!(count, 2);
}

#[test]
fn feedback_and_suggestion_migrations_apply_twice() {
    let conn = Connection::open_in_memory().unwrap();
    for _ in 0..2 {
        conn.execute_batch(votype_core::cluster_feedback::MIGRATION_SQL).unwrap();
        conn.execute_batch(votype_core::suggestion_engine::MIGRATION_SQL).unwrap();
    }
    let tables: i64 = conn
        .query_row(
            "SELECT COUNT(*) FROM sqlite_master WHERE type='table' AND name IN ('cluster_feedback','app_rule_suggestions')",
            [],
            |row| row.get(0),
        )
        .unwrap();
    assert_eq!(tables, 2);
}
