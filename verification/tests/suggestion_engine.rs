use votype_core::settings::{
    AppProfile, AppReviewPolicy, AppSettings, PostProcessPrompt, ProfileLinks, TitleMatchType,
    TitleRule,
};
use votype_core::suggestion_engine::{
    after_count, after_prior, after_row, after_rule_check, any_rule_matches,
    apply_accepted_suggestion, begin_suggestion, decision_label, emit_once, mark_decision_applied,
    percent_encode, prior_decision_allows, reset_emission_latch, resolve_prompt_name,
    suggestion_dialog_url, threshold_for_count, Latch, SuggestionDecision, SuggestionPayload,
    SuggestionStep,
};

/// Runs the suggestion steps against a history row, the rule check, the use
/// count of the row's triplet and the earlier decision, as the database
/// would answer them.
fn compute(
    row: Option<(Option<&str>, Option<&str>, Option<&str>)>,
    has_rule: &dyn Fn(&str, &str) -> bool,
    count: i64,
    prior: Option<(i64, &str)>,
) -> Option<SuggestionPayload> {
    let mut step = begin_suggestion(1);
    loop {
        step = match step {
            SuggestionStep::LoadRow { history_id } => {
                assert_eq!(history_id, 1);
                after_row(row.map(|(a, t, p)| {
                    (a.map(String::from), t.map(String::from), p.map(String::from))
                }))
            }
            SuggestionStep::CheckRule { candidate } => {
                let hit = has_rule(&candidate.app_name, &candidate.title);
                after_rule_check(candidate, hit)
            }
            SuggestionStep::CountUses { candidate } => after_count(candidate, count),
            SuggestionStep::LoadPrior { candidate, count, threshold } => after_prior(
                candidate,
                count,
                threshold,
                prior.map(|(t, d)| (t, d.to_string())),
            ),
            SuggestionStep::Finished(result) => return result,
        }
    }
}

fn has_matching_rule_never(_app: &str, _title: &str) -> bool {
    false
}

fn slack_row(prompt: &str) -> Option<(Option<&str>, Option<&str>, Option<&str>)> {
    Some((Some("Slack"), Some("Slack | #a"), Some(prompt)))
}

#[test]
fn returns_none_when_count_below_first_threshold() {
    let result = compute(slack_row("polish"), &has_matching_rule_never, 1, None);
    assert!(result.is_none());
}

#[test]
fn returns_payload_at_first_threshold_5() {
    let result = compute(slack_row("polish"), &has_matching_rule_never, 5, None);
    let payload = result.expect("should return suggestion at 5");
    assert_eq!(payload.app_name, "Slack");
    assert_eq!(payload.title, "Slack | #a");
    assert_eq!(payload.prompt_id, "polish");
    assert_eq!(payload.count, 5);
    assert_eq!(payload.threshold, 5);
}

#[test]
fn picks_highest_threshold_when_count_crosses_multiple() {
    let result = compute(slack_row("polish"), &has_matching_rule_never, 11, None);
    let payload = result.expect("count 11 crosses 5 and 10");
    assert_eq!(payload.threshold, 10);
    assert_eq!(payload.count, 11);
}

#[test]
fn mixed_prompts_do_not_aggregate() {
    // Counting rows per (app, title, prompt) is the app's SQL query, which
    // this test does not run and nothing verifies. What is checked here: with
    // the per-prompt counts that query gives (polish 4, passthrough 1),
    // neither crosses the first threshold of 5.
    let result = compute(slack_row("passthrough"), &has_matching_rule_never, 1, None);
    assert!(result.is_none());
    let result = compute(slack_row("polish"), &has_matching_rule_never, 4, None);
    assert!(result.is_none());
}

#[test]
fn empty_title_returns_none() {
    let row = Some((Some("Slack"), Some(""), Some("polish")));
    let result = compute(row, &has_matching_rule_never, 1, None);
    assert!(result.is_none());
}

#[test]
fn null_app_returns_none() {
    let row = Some((None, Some("a title"), Some("polish")));
    let result = compute(row, &has_matching_rule_never, 1, None);
    assert!(result.is_none());
}

#[test]
fn null_prompt_id_returns_none() {
    let row = Some((Some("Slack"), Some("Slack | #a"), None));
    let result = compute(row, &has_matching_rule_never, 1, None);
    assert!(result.is_none());
}

#[test]
fn missing_row_returns_none() {
    let result = compute(None, &has_matching_rule_never, 5, None);
    assert!(result.is_none());
}

#[test]
fn existing_rule_skips_suggestion() {
    // User already has a TitleRule matching this title.
    let already_matches = |_app: &str, _title: &str| true;
    let result = compute(slack_row("polish"), &already_matches, 5, None);
    assert!(result.is_none());
}

#[test]
fn never_again_silences_at_all_thresholds() {
    for count in [5, 10, 20, 40, 80] {
        let result =
            compute(slack_row("polish"), &has_matching_rule_never, count, Some((5, "never_again")));
        assert!(result.is_none());
    }
}

#[test]
fn dismissed_at_lower_threshold_allows_higher() {
    let result = compute(slack_row("polish"), &has_matching_rule_never, 10, Some((5, "dismissed")));
    let payload = result.expect("threshold 10 > dismissed level 5");
    assert_eq!(payload.threshold, 10);
}

#[test]
fn dismissed_at_same_threshold_skips() {
    let result = compute(slack_row("polish"), &has_matching_rule_never, 5, Some((5, "dismissed")));
    assert!(result.is_none());
}

#[test]
fn accepted_prior_decision_still_skips() {
    let result = compute(slack_row("polish"), &has_matching_rule_never, 5, Some((5, "accepted")));
    assert!(
        result.is_none(),
        "accepted decision should suppress re-prompt"
    );
}

#[test]
fn unknown_prior_decision_does_not_silence() {
    let result = compute(slack_row("polish"), &has_matching_rule_never, 20, Some((40, "other")));
    assert_eq!(result.expect("unknown decision text is ignored").threshold, 20);
}

#[test]
fn threshold_ladder_values() {
    assert_eq!(threshold_for_count(i64::MIN), None);
    assert_eq!(threshold_for_count(4), None);
    assert_eq!(threshold_for_count(5), Some(5));
    assert_eq!(threshold_for_count(9), Some(5));
    assert_eq!(threshold_for_count(10), Some(10));
    assert_eq!(threshold_for_count(19), Some(10));
    assert_eq!(threshold_for_count(20), Some(20));
    assert_eq!(threshold_for_count(39), Some(20));
    assert_eq!(threshold_for_count(40), Some(40));
    assert_eq!(threshold_for_count(i64::MAX), Some(40));
}

#[test]
fn decision_labels_read_back() {
    assert_eq!(decision_label(SuggestionDecision::Accepted), "accepted");
    assert_eq!(decision_label(SuggestionDecision::Dismissed), "dismissed");
    assert_eq!(decision_label(SuggestionDecision::NeverAgain), "never_again");
    let label = decision_label(SuggestionDecision::Dismissed).to_string();
    assert!(prior_decision_allows(&Some((5, label.clone())), 10));
    assert!(!prior_decision_allows(&Some((10, label)), 10));
    let label = decision_label(SuggestionDecision::NeverAgain).to_string();
    assert!(!prior_decision_allows(&Some((5, label)), 40));
    assert!(prior_decision_allows(&None, 5));
}

fn test_settings() -> AppSettings {
    AppSettings {
        app_profiles: vec![],
        app_to_profile: ProfileLinks::new(),
        post_process_prompts: vec![],
    }
}

fn profile(id: &str, name: &str, rules: Vec<TitleRule>) -> AppProfile {
    AppProfile {
        id: id.to_string(),
        name: name.to_string(),
        policy: AppReviewPolicy::Auto,
        prompt_id: None,
        icon: None,
        translate_to_english_on_insert: false,
        disable_selection_clipboard_fallback: false,
        rules,
    }
}

#[test]
fn apply_creates_new_profile_when_app_absent() {
    let mut settings = test_settings();
    apply_accepted_suggestion(&mut settings, "Slack", "Slack | #a", "polish");
    assert_eq!(settings.app_profiles.len(), 1);
    assert_eq!(settings.app_profiles[0].name, "Slack");
    assert_eq!(settings.app_profiles[0].rules.len(), 1);
    assert_eq!(settings.app_profiles[0].rules[0].pattern, "Slack | #a");
    assert_eq!(settings.app_profiles[0].rules[0].match_type, TitleMatchType::Exact);
    assert_eq!(settings.app_profiles[0].rules[0].prompt_id.as_deref(), Some("polish"));
    assert_eq!(
        settings.app_to_profile.get("Slack"),
        Some(&settings.app_profiles[0].id.clone()),
    );
    assert_eq!(settings.app_profiles[0].id.len(), 36);
    assert_ne!(settings.app_profiles[0].id, settings.app_profiles[0].rules[0].id);
}

#[test]
fn apply_appends_to_existing_profile() {
    let mut settings = test_settings();
    settings.app_profiles.push(profile("existing", "Slack", vec![]));
    apply_accepted_suggestion(&mut settings, "Slack", "Slack | #a", "polish");
    assert_eq!(settings.app_profiles.len(), 1, "should not create a duplicate profile");
    assert_eq!(settings.app_profiles[0].rules.len(), 1);
    assert_eq!(settings.app_to_profile.get("Slack"), Some(&"existing".to_string()));
}

#[test]
fn apply_respects_linked_renamed_profile() {
    let mut settings = test_settings();
    settings.app_profiles.push(profile("renamed-id", "Slack (Work)", vec![]));
    settings.app_to_profile.insert("Slack".to_string(), "renamed-id".to_string());

    apply_accepted_suggestion(&mut settings, "Slack", "Slack | #a", "polish");

    assert_eq!(settings.app_profiles.len(), 1, "no duplicate profile");
    assert_eq!(settings.app_profiles[0].rules.len(), 1);
    assert_eq!(settings.app_to_profile.get("Slack"), Some(&"renamed-id".to_string()));
}

#[test]
fn apply_with_stale_link_falls_back_to_name() {
    let mut settings = test_settings();
    settings.app_profiles.push(profile("other", "Chrome", vec![]));
    settings.app_profiles.push(profile("by-name", "Slack", vec![]));
    settings.app_to_profile.insert("Slack".to_string(), "gone".to_string());
    apply_accepted_suggestion(&mut settings, "Slack", "Slack | #a", "polish");
    assert_eq!(settings.app_profiles.len(), 2);
    assert_eq!(settings.app_profiles[0].rules.len(), 0);
    assert_eq!(settings.app_profiles[1].rules.len(), 1);
    assert_eq!(settings.app_to_profile.get("Slack"), Some(&"by-name".to_string()));
    assert!(any_rule_matches(&settings.app_profiles, "Slack", "Slack | #a"));
}

fn make_rule(pattern: &str, mt: TitleMatchType) -> TitleRule {
    TitleRule {
        id: "r1".into(),
        pattern: pattern.into(),
        match_type: mt,
        policy: AppReviewPolicy::Auto,
        prompt_id: None,
    }
}

#[test]
fn any_rule_matches_exact() {
    let profiles = vec![profile("p1", "Slack", vec![make_rule("Slack | #a", TitleMatchType::Exact)])];
    assert!(any_rule_matches(&profiles, "Slack", "Slack | #a"));
    assert!(!any_rule_matches(&profiles, "Slack", "Slack | #b"));
    assert!(!any_rule_matches(&profiles, "Chrome", "Slack | #a"));
}

#[test]
fn any_rule_matches_text_substring() {
    let profiles = vec![profile("p1", "Slack", vec![make_rule("Slack", TitleMatchType::Text)])];
    assert!(any_rule_matches(&profiles, "Slack", "Slack | #a"));
    assert!(any_rule_matches(&profiles, "Slack", "Slack | #b"));
}

#[test]
fn any_rule_matches_regex() {
    let profiles =
        vec![profile("p1", "Slack", vec![make_rule(r"^Slack \| #.+", TitleMatchType::Regex)])];
    assert!(any_rule_matches(&profiles, "Slack", "Slack | #anything"));
    assert!(!any_rule_matches(&profiles, "Slack", "Slack"));
}

#[test]
fn any_rule_matches_invalid_regex_returns_false() {
    let profiles =
        vec![profile("p1", "Slack", vec![make_rule(r"[invalid(regex", TitleMatchType::Regex)])];
    assert!(!any_rule_matches(&profiles, "Slack", "Slack | #a"));
}

#[test]
fn any_rule_matches_text_is_case_sensitive_and_empty_pattern_matches() {
    let profiles = vec![profile("p1", "Slack", vec![make_rule("slack", TitleMatchType::Text)])];
    assert!(!any_rule_matches(&profiles, "Slack", "Slack | #a"));
    let profiles = vec![profile("p1", "Slack", vec![make_rule("", TitleMatchType::Text)])];
    assert!(any_rule_matches(&profiles, "Slack", "anything"));
    assert!(!any_rule_matches(&[], "Slack", "anything"));
}

#[test]
fn resolve_prompt_name_sentinels_and_lookup() {
    let mut settings = test_settings();
    settings.post_process_prompts.push(PostProcessPrompt { id: "polish".into(), name: "Polish".into() });
    settings.post_process_prompts.push(PostProcessPrompt { id: "polish".into(), name: "Second".into() });
    assert_eq!(resolve_prompt_name(&settings, "__PASS_THROUGH__"), "无需润色");
    assert_eq!(resolve_prompt_name(&settings, "__LITE_POLISH__"), "轻量润色");
    assert_eq!(resolve_prompt_name(&settings, "polish"), "Polish");
    assert_eq!(resolve_prompt_name(&settings, "unknown"), "unknown");
}

#[test]
fn latch_claims_once_until_reset() {
    let mut latch = Latch::new();
    assert!(mark_decision_applied(&mut latch));
    assert!(!mark_decision_applied(&mut latch));
    reset_emission_latch(&mut latch);
    assert!(mark_decision_applied(&mut latch));
    assert!(!latch.claim());
    latch.release();
    assert!(latch.claim());
}

#[test]
fn percent_encoding_matches_url_rules() {
    assert_eq!(percent_encode("Slack | #a"), "Slack%20%7C%20%23a");
    assert_eq!(percent_encode("a-b_c.d~e"), "a-b_c.d~e");
    assert_eq!(percent_encode("进行"), "%E8%BF%9B%E8%A1%8C");
    assert_eq!(percent_encode(""), "");
}

#[test]
fn dialog_url_has_all_parameters() {
    let payload = SuggestionPayload {
        app_name: "Slack".into(),
        title: "Slack | #a".into(),
        prompt_id: "polish".into(),
        prompt_name: "polish".into(),
        count: 10,
        threshold: 10,
    };
    assert_eq!(
        suggestion_dialog_url(&payload, "Polish Me"),
        "src/rule_suggestion/index.html?app=Slack&title=Slack%20%7C%20%23a&prompt=Polish%20Me&pid=polish&count=10&threshold=10"
    );
}

fn sample_payload() -> SuggestionPayload {
    SuggestionPayload {
        app_name: "Slack".into(),
        title: "Slack | #a".into(),
        prompt_id: "polish".into(),
        prompt_name: "polish".into(),
        count: 5,
        threshold: 5,
    }
}

#[test]
fn emit_once_passes_only_first_suggestion_per_recording() {
    let mut latch = Latch::new();
    assert!(emit_once(&mut latch, None).is_none());
    assert!(!latch.engaged, "a paste without a suggestion keeps the recording open");
    let first = emit_once(&mut latch, Some(sample_payload())).expect("first suggestion passes");
    assert_eq!(first.threshold, 5);
    assert!(latch.engaged);
    assert!(emit_once(&mut latch, Some(sample_payload())).is_none());
    assert!(emit_once(&mut latch, None).is_none());
    reset_emission_latch(&mut latch);
    assert!(emit_once(&mut latch, Some(sample_payload())).is_some());
}
