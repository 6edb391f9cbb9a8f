use std::path::PathBuf;

use votype_core::cluster_feedback::{
    negative_feedback_cutoff, validate_thumb, ClusterFeedbackManager, FeedbackError,
};
use votype_core::http_client::{blocking_proxy_plan, explicit_proxy, pool_key, ClientPool, ProxyPlan};
use votype_core::settings::ProfileLinks;
use votype_core::task_clusters::TaskClustersManager;

#[test]
fn test_add_validates_thumb() {
    assert!(validate_thumb("maybe").is_err());
    assert!(validate_thumb("up").is_ok());
    assert!(validate_thumb("down").is_ok());
    match validate_thumb("Up") {
        Err(FeedbackError::InvalidThumb(t)) => assert_eq!(t, "Up"),
        Ok(()) => panic!("thumb must be exactly 'up' or 'down'"),
    }
}

#[test]
fn test_new_cluster_id_unique() {
    let a = TaskClustersManager::new_cluster_id();
    let b = TaskClustersManager::new_cluster_id();
    assert_ne!(a, b);
    assert_eq!(a.len(), 36); // UUID v4 length
    assert_eq!(&a[14..15], "4");
    assert_eq!(a.matches('-').count(), 4);
}

#[test]
fn managers_keep_their_database_path() {
    let m = ClusterFeedbackManager::new(PathBuf::from("/tmp/history.db"));
    assert_eq!(m.db_path(), &PathBuf::from("/tmp/history.db"));
    let t = TaskClustersManager::new(PathBuf::from("/tmp/clusters.db"));
    assert_eq!(t.db_path(), &PathBuf::from("/tmp/clusters.db"));
}

#[test]
fn cutoff_is_days_before_now() {
    assert_eq!(negative_feedback_cutoff(100 * 86_400_000, 30), 70 * 86_400_000);
    assert_eq!(negative_feedback_cutoff(0, 0), 0);
    assert_eq!(negative_feedback_cutoff(5, -1), 5 + 86_400_000);
}

#[test]
fn proxy_choice() {
    assert_eq!(explicit_proxy(Some("http://p:8080")), Some("http://p:8080"));
    assert_eq!(explicit_proxy(Some("")), None);
    assert_eq!(explicit_proxy(None), None);
    assert!(matches!(blocking_proxy_plan(Some("socks5://x"), false), ProxyPlan::Explicit(ref u) if u == "socks5://x"));
    assert!(matches!(blocking_proxy_plan(Some(""), false), ProxyPlan::Direct));
    assert!(matches!(blocking_proxy_plan(None, false), ProxyPlan::Direct));
    assert!(matches!(blocking_proxy_plan(None, true), ProxyPlan::System));
    assert_eq!(pool_key(Some("")), Some(String::new()));
    assert_eq!(pool_key(None), None);
}

#[test]
fn pool_never_replaces_a_pooled_client() {
    let mut pool: ClientPool<u32> = ClientPool::new();
    assert_eq!(pool.lookup(&None), None);
    assert!(pool.insert_if_absent(None, 1));
    assert!(pool.insert_if_absent(Some("http://p".into()), 2));
    assert!(!pool.insert_if_absent(None, 3));
    assert_eq!(pool.lookup(&None), Some(&1));
    assert_eq!(pool.lookup(&Some("http://p".into())), Some(&2));
    assert_eq!(pool.lookup(&Some(String::new())), None);
}

#[test]
fn profile_links_insert_replaces() {
    let mut links = ProfileLinks::new();
    assert_eq!(links.get("Slack"), None);
    links.insert("Slack".into(), "a".into());
    links.insert("Chrome".into(), "b".into());
    links.insert("Slack".into(), "c".into());
    assert_eq!(links.get("Slack"), Some(&"c".to_string()));
    assert_eq!(links.get("Chrome"), Some(&"b".to_string()));
    assert_eq!(links.pairs().len(), 2);
}

#[test]
fn profile_links_pairs_hold_each_app_once() {
    let mut links = ProfileLinks::new();
    for (app, id) in [("Slack", "a"), ("Chrome", "b"), ("Slack", "c"), ("Chrome", "d"), ("Slack", "e")] {
        links.insert(app.into(), id.into());
    }
    let mut pairs = links.pairs().clone();
    pairs.sort();
    assert_eq!(pairs, vec![("Chrome".to_string(), "d".to_string()), ("Slack".to_string(), "e".to_string())]);
    let copy = links.clone();
    assert_eq!(copy.get("Slack"), Some(&"e".to_string()));
    assert_eq!(copy.pairs(), links.pairs());
}
