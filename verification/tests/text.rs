use chrono::TimeZone;
use votype_core::task_cluster_generator::{
    clusterable_entry, extract_json_array, format_hhmm, format_hhmm_at, render_entries_block,
    render_entries_block_at, render_feedback_block,
    render_protected_block, ClusterableEntry,
};
use votype_core::task_clusters::TaskCluster;
use votype_core::text::{chars_of, is_unicode_whitespace, str_equals};

#[test]
fn whitespace_agrees_with_std() {
    for u in 0u32..=0x10FFFF {
        if let Some(c) = char::from_u32(u) {
            assert_eq!(is_unicode_whitespace(c), c.is_whitespace(), "U+{:04X}", u);
        }
    }
}

#[test]
fn chars_and_equality() {
    assert_eq!(chars_of("a进b"), vec!['a', '进', 'b']);
    assert!(str_equals("进行中", "进行中"));
    assert!(!str_equals("进行中", "完成"));
}

#[test]
fn extract_json_array_edge_cases() {
    assert_eq!(extract_json_array("  ```\n[1]\n```  "), "[1]");
    assert_eq!(extract_json_array("```json\n[1]"), "[1]");
    assert_eq!(extract_json_array("no array here"), "no array here");
    assert_eq!(extract_json_array("] then ["), "] then [");
    assert_eq!(extract_json_array("\u{3000}[a] [b]\n"), "[a] [b]");
    assert_eq!(extract_json_array(""), "");
    assert_eq!(extract_json_array("```json [2] ``` tail ```"), "[2] ``` tail");
}

#[test]
fn hhmm_at_offset_uses_floor_clock() {
    let offsets = [None, Some(0), Some(8 * 3600), Some(-(5 * 3600 + 1800)), Some(86_399), Some(-86_399), Some(i32::MIN), Some(i32::MAX)];
    for ms in [0i64, 59_999, 60_000, 3_600_000, 86_399_999, 86_400_000 + 61_000, -1, -60_000, -3_660_000, i64::MIN, i64::MAX] {
        for off in offsets {
            let t = ms as i128 + 1000 * off.unwrap_or(0) as i128;
            let h = t.div_euclid(3_600_000).rem_euclid(24);
            let m = t.div_euclid(60_000).rem_euclid(60);
            assert_eq!(format_hhmm_at(ms, off), format!("{:02}:{:02}", h, m), "ms = {}, off = {:?}", ms, off);
        }
    }
    // 15:00 UTC is 23:00 in UTC+8.
    assert_eq!(format_hhmm_at(15 * 3_600_000, Some(8 * 3600)), "23:00");
    assert_eq!(format_hhmm_at(45_296_000, None), "12:34");
    assert_eq!(format_hhmm_at(-1, None), "23:59");
}

fn local_offset(ms: i64) -> Option<i32> {
    chrono::Local
        .timestamp_millis_opt(ms)
        .single()
        .map(|dt| dt.offset().local_minus_utc())
}

#[test]
fn hhmm_follows_local_clock() {
    for ms in [0i64, 45_296_000, 1_747_300_000_000, -3_660_000, i64::MIN, i64::MAX] {
        let expected = match chrono::Local.timestamp_millis_opt(ms).single() {
            Some(dt) => dt.format("%H:%M").to_string(),
            None => format_hhmm_at(ms, None),
        };
        assert_eq!(format_hhmm(ms), expected, "ms = {}", ms);
    }
}

fn entry(id: i64, text: &str, app: Option<&str>, window: Option<&str>) -> ClusterableEntry {
    ClusterableEntry {
        id,
        timestamp_ms: 3_600_000 + 5 * 60_000,
        app_name: app.map(String::from),
        window_title: window.map(String::from),
        text: text.to_string(),
        duration_ms: 0,
    }
}

#[test]
fn entries_block_exact_lines() {
    let entries = vec![entry(-7, "hi", None, Some(&"w".repeat(70))), entry(2, "x", Some("App"), None)];
    let out = render_entries_block_at(&entries, &[Some(8 * 3600), None]);
    let expected = format!(
        "[id=-7 | 09:05 | ? | {} | \"hi\"]\n[id=2 | 01:05 | App |  | \"x\"]\n",
        "w".repeat(60)
    );
    assert_eq!(out, expected);
}

#[test]
fn entries_block_uses_local_clock_per_entry() {
    let mut entries = vec![entry(1, "first", None, None), entry(2, "second", Some("App"), None)];
    entries[1].timestamp_ms = 1_747_300_000_000;
    let offsets: Vec<Option<i32>> = entries.iter().map(|e| local_offset(e.timestamp_ms)).collect();
    assert_eq!(render_entries_block(&entries), render_entries_block_at(&entries, &offsets));
}

#[test]
fn entries_block_drops_short_texts_only_when_many() {
    let many: Vec<ClusterableEntry> = (0..151).map(|i| entry(i, "abcd", None, None)).collect();
    assert_eq!(render_entries_block(&many), "");
    let few: Vec<ClusterableEntry> = (0..150).map(|i| entry(i, "abcd", None, None)).collect();
    assert_eq!(render_entries_block(&few).lines().count(), 150);
}

fn cluster(title: &str, ids: Vec<i64>) -> TaskCluster {
    TaskCluster {
        id: "c".into(),
        summary_id: 1,
        date: "2026-05-15".into(),
        title: title.into(),
        status: "完成".into(),
        time_span: None,
        apps: vec![],
        source_history_ids: ids,
        total_duration_ms: 0,
        entry_count: 0,
        summary: None,
        blockers: vec![],
        next_step: None,
        keywords: vec![],
        is_user_modified: true,
        user_modified_fields: vec![],
        created_at: 0,
        updated_at: 0,
    }
}

#[test]
fn protected_block_uses_debug_lists() {
    let cs = vec![cluster("OAuth", vec![1, -2, 3]), cluster("x", vec![])];
    let out = render_protected_block(&cs);
    assert_eq!(out, format!("- \"OAuth\" ids={:?}\n- \"x\" ids={:?}\n", vec![1i64, -2, 3], Vec::<i64>::new()));
}

#[test]
fn feedback_block_counts_whole_days_never_negative() {
    let day = 24 * 3600 * 1000i64;
    let notes = vec![(0i64, "old".to_string()), (10 * day - 1, "recent".to_string()), (20 * day, "future".to_string())];
    let out = render_feedback_block(&notes, 10 * day);
    assert_eq!(out, "- 10d ago: \"old\"\n- 0d ago: \"recent\"\n- 0d ago: \"future\"\n");
}

#[test]
fn clusterable_entry_prefers_polished_text() {
    let e = clusterable_entry(
        7,
        1000,
        Some("Slack".into()),
        None,
        Some("polished".into()),
        "raw".into(),
        None,
    );
    assert_eq!(e.id, 7);
    assert_eq!(e.timestamp_ms, 1000);
    assert_eq!(e.app_name.as_deref(), Some("Slack"));
    assert_eq!(e.window_title, None);
    assert_eq!(e.text, "polished");
    assert_eq!(e.duration_ms, 0);
    let f = clusterable_entry(8, 0, None, Some("w".into()), None, "raw".into(), Some(2500));
    assert_eq!(f.text, "raw");
    assert_eq!(f.duration_ms, 2500);
    assert_eq!(f.window_title.as_deref(), Some("w"));
}
