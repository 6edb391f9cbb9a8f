use std::collections::HashSet;

use votype_core::task_cluster_generator::{
    extract_json_array, format_hhmm, render_entries_block, render_feedback_block,
    render_protected_block, sanitize_outputs, ClusterableEntry, LlmClusterOutput,
};
use votype_core::task_clusters::TaskCluster;

fn output(status: &str, ids: Vec<i64>, entry_count: i64) -> LlmClusterOutput {
    LlmClusterOutput {
        title: "x".into(),
        status: status.into(),
        time_span: None,
        apps: vec![],
        source_history_ids: ids,
        total_duration_ms: 0,
        entry_count,
        summary: None,
        blockers: vec![],
        next_step: None,
        keywords: vec![],
    }
}

#[test]
fn test_extract_json_array_plain() {
    let raw = "[{\"title\":\"a\"}]";
    assert_eq!(extract_json_array(raw), "[{\"title\":\"a\"}]");
}

#[test]
fn test_extract_json_array_strips_fence() {
    let raw = "```json\n[{\"x\":1}]\n```";
    assert_eq!(extract_json_array(raw), "[{\"x\":1}]");
}

#[test]
fn test_extract_json_array_strips_prose() {
    let raw = "Sure! Here is the result:\n[{\"x\":1}]\nLet me know.";
    assert_eq!(extract_json_array(raw), "[{\"x\":1}]");
}

#[test]
fn test_sanitize_drops_unknown_ids() {
    let valid: HashSet<i64> = [1_i64, 2, 3].into_iter().collect();
    let inp = vec![output("进行中", vec![1, 99, 2], 3)];
    let out = sanitize_outputs(inp, &valid);
    assert_eq!(out[0].source_history_ids, vec![1, 2]);
    assert_eq!(out[0].entry_count, 2);
}

#[test]
fn test_sanitize_drops_empty_clusters() {
    let valid: HashSet<i64> = [1, 2].into_iter().collect();
    let inp = vec![output("进行中", vec![99], 1)];
    let out = sanitize_outputs(inp, &valid);
    assert!(out.is_empty());
}

#[test]
fn test_sanitize_coerces_bad_status() {
    let valid: HashSet<i64> = [1].into_iter().collect();
    let inp = vec![output("weird", vec![1], 1)];
    let out = sanitize_outputs(inp, &valid);
    assert_eq!(out[0].status, "进行中");
}

#[test]
fn test_render_entries_truncates_when_many() {
    let mut entries = Vec::new();
    for i in 0..200 {
        entries.push(ClusterableEntry {
            id: i,
            timestamp_ms: i * 60_000,
            app_name: Some("App".into()),
            window_title: Some("win".into()),
            text: "x".repeat(500),
            duration_ms: 1000,
        });
    }
    let out = render_entries_block(&entries);
    // each line should contain the truncated text (200 chars max)
    let first_line = out.lines().next().unwrap();
    assert!(first_line.contains(&"x".repeat(200)));
    assert!(!first_line.contains(&"x".repeat(201)));
}
