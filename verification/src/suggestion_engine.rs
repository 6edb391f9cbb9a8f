//! App rule suggestion engine: after each paste, decide whether the
//! `(app, window title, prompt)` triplet has been used often enough, without
//! a matching title rule or a prior refusal, to suggest recording a rule.

use vstd::prelude::*;
use vstd::string::StringSliceAdditionalSpecFns;
use vstd::utf8::encode_utf8;
use crate::foreign::{
    compile_pattern, is_hyphenated_v4, new_uuid_v4, pattern_is_match, regex_compiles,
    regex_is_match,
};
use crate::fresh_id::{lemma_some_spare_id_unused, lemma_spare_id_shape, spare_id, spare_id_string, spare_unused};
use crate::settings::{
    AppProfile, AppReviewPolicy, AppSettings, PostProcessPrompt, TitleMatchType, TitleRule,
};
use crate::text::{
    chars_of, contains_seq, int_decimal, push_char, push_i64, push_str, seq_contains, str_equals,
};

verus! {

/// SQLite migration: tracks suggestion decisions per (app, title) so we
/// don't re-prompt at thresholds the user has already declined.
pub const MIGRATION_SQL: &'static str = "
CREATE TABLE IF NOT EXISTS app_rule_suggestions (
    id INTEGER PRIMARY KEY AUTOINCREMENT,
    app_name TEXT NOT NULL,
    title TEXT NOT NULL,
    last_threshold INTEGER NOT NULL,
    decision TEXT NOT NULL,
    decision_at INTEGER NOT NULL,
    UNIQUE(app_name, title)
);
CREATE INDEX IF NOT EXISTS idx_ars_app_title
    ON app_rule_suggestions(app_name, title);
";

// ---------------------------------------------------------------------------
// Title rules
// ---------------------------------------------------------------------------

/// Whether `rule` matches `title` under its own match type: Exact is literal
/// equality, Text is case-sensitive substring, Regex compiles the pattern and
/// searches; a pattern that does not compile matches nothing.
pub open spec fn rule_hits(rule: TitleRule, title: Seq<char>) -> bool {
    match rule.match_type {
        TitleMatchType::Exact => rule.pattern@ == title,
        TitleMatchType::Text => contains_seq(title, rule.pattern@),
        TitleMatchType::Regex => regex_compiles(rule.pattern@) && regex_is_match(
            rule.pattern@,
            title,
        ),
    }
}

/// Whether `p` is the profile of `app` and one of its rules matches `title`.
pub open spec fn profile_hits(p: AppProfile, app: Seq<char>, title: Seq<char>) -> bool {
    &&& p.name@ == app
    &&& exists|j: int| 0 <= j < p.rules@.len() && rule_hits(#[trigger] p.rules@[j], title)
}

/// Whether any title rule of any profile named `app` matches `title`.
pub open spec fn rules_match(profiles: Seq<AppProfile>, app: Seq<char>, title: Seq<char>) -> bool {
    exists|i: int| 0 <= i < profiles.len() && profile_hits(#[trigger] profiles[i], app, title)
}

fn rule_matches(rule: &TitleRule, title: &str, title_chars: &Vec<char>) -> (b: bool)
    requires
        title_chars@ == title@,
    ensures
        b == rule_hits(*rule, title@),
{
    match rule.match_type {
        TitleMatchType::Exact => str_equals(rule.pattern.as_str(), title),
        TitleMatchType::Text => {
            let p = chars_of(rule.pattern.as_str());
            seq_contains(title_chars, &p)
        },
        TitleMatchType::Regex => match compile_pattern(rule.pattern.as_str()) {
            Some(c) => pattern_is_match(&c, title),
            None => false,
        },
    }
}

/// Test whether any TitleRule in any AppProfile would match the given title
/// for `app_name`. All match_types are evaluated: Exact = literal equality,
/// Text = case-sensitive substring, Regex = regex compile + match. Invalid
/// regex patterns are treated as non-matching.
pub fn any_rule_matches(profiles: &[AppProfile], app_name: &str, title: &str) -> (r: bool)
    ensures
        r == rules_match(profiles@, app_name@, title@),
{
    let title_chars = chars_of(title);
    let n = profiles.len();
    let mut i: usize = 0;
    while i < n
        invariant
            n == profiles@.len(),
            0 <= i <= n,
            title_chars@ == title@,
            forall|k: int| 0 <= k < i ==> !profile_hits(#[trigger] profiles@[k], app_name@, title@),
        decreases n - i,
    {
        let profile = &profiles[i];
        if str_equals(profile.name.as_str(), app_name) {
            let m = profile.rules.len();
            let mut j: usize = 0;
            while j < m
                invariant
                    m == profile.rules@.len(),
                    0 <= j <= m,
                    title_chars@ == title@,
                    profile == profiles@[i as int],
                    0 <= i < profiles@.len(),
                    profile.name@ == app_name@,
                    forall|k: int| 0 <= k < j ==> !rule_hits(#[trigger] profile.rules@[k], title@),
                decreases m - j,
            {
                if rule_matches(&profile.rules[j], title, &title_chars) {
                    assert(profile_hits(profiles@[i as int], app_name@, title@));
                    return true;
                }
                j = j + 1;
            }
        }
        i = i + 1;
    }
    false
}

// ---------------------------------------------------------------------------
// Thresholds
// ---------------------------------------------------------------------------

/// The threshold ladder: a count at or above a threshold triggers a
/// suggestion at that level.
pub open spec fn threshold_ladder() -> Seq<i64> {
    seq![5i64, 10i64, 20i64, 40i64]
}

/// `t` is on the ladder and `count` has reached it.
pub open spec fn threshold_reached(count: int, t: int) -> bool {
    exists|k: int| 0 <= k < threshold_ladder().len() && threshold_ladder()[k] == t && t <= count
}

/// The highest threshold of the ladder that `count` has reached.
#[verifier::opaque]
pub open spec fn highest_threshold(count: int) -> Option<int> {
    if exists|t: int| threshold_reached(count, t) {
        Some(choose|t: int| threshold_reached(count, t) && forall|u: int| threshold_reached(count, u) ==> u <= t)
    } else {
        None
    }
}

proof fn lemma_highest_is(count: int, t: int)
    requires
        threshold_reached(count, t),
        forall|u: int| threshold_reached(count, u) ==> u <= t,
    ensures
        highest_threshold(count) == Some(t),
{
    reveal(highest_threshold);
    let c = choose|c: int| threshold_reached(count, c) && forall|u: int| threshold_reached(count, u) ==> u <= c;
    assert(threshold_reached(count, c) && forall|u: int| threshold_reached(count, u) ==> u <= c);
}

/// The highest threshold <= count, if any.
pub fn threshold_for_count(count: i64) -> (r: Option<i64>)
    ensures
        match r {
            Some(t) => highest_threshold(count as int) == Some(t as int),
            None => highest_threshold(count as int) is None,
        },
{
    let ladder: Vec<i64> = vec![5, 10, 20, 40];
    assert(ladder@ =~= threshold_ladder());
    let mut k: usize = 4;
    while k > 0
        invariant
            k <= 4,
            ladder@ == threshold_ladder(),
            forall|m: int| k <= m < 4 ==> count < #[trigger] ladder@[m],
        decreases k,
    {
        let t = ladder[k - 1];
        if count >= t {
            proof {
                assert(threshold_ladder()[k - 1] == t);
                assert(threshold_reached(count as int, t as int));
                assert forall|u: int| threshold_reached(count as int, u) implies u <= t by {
                    let m = choose|m: int| 0 <= m < 4 && threshold_ladder()[m] == u && u <= count;
                    assert(m < k);
                }
                lemma_highest_is(count as int, t as int);
            }
            return Some(t);
        }
        k = k - 1;
    }
    proof {
        reveal(highest_threshold);
        assert forall|t: int| !threshold_reached(count as int, t) by {
            if threshold_reached(count as int, t) {
                let m = choose|m: int| 0 <= m < 4 && threshold_ladder()[m] == t && t <= count;
                assert(count < ladder@[m]);
            }
        }
    }
    None
}

/// The ladder, concretely: 40, 20, 10 or 5 as `count` reaches them.
pub proof fn lemma_highest_threshold_values(count: int)
    ensures
        highest_threshold(count) == (if count >= 40 {
            Some(40int)
        } else if count >= 20 {
            Some(20int)
        } else if count >= 10 {
            Some(10int)
        } else if count >= 5 {
            Some(5int)
        } else {
            None::<int>
        }),
{
    let expected: Option<int> = if count >= 40 {
        Some(40int)
    } else if count >= 20 {
        Some(20int)
    } else if count >= 10 {
        Some(10int)
    } else if count >= 5 {
        Some(5int)
    } else {
        None::<int>
    };
    assert forall|u: int| threshold_reached(count, u) implies u <= count && (u == 5 || u == 10
        || u == 20 || u == 40) by {
        let m = choose|m: int| 0 <= m < 4 && threshold_ladder()[m] == u && u <= count;
    }
    match expected {
        Some(t) => {
            let k: int = if t == 5 { 0 } else if t == 10 { 1 } else if t == 20 { 2 } else { 3 };
            assert(threshold_ladder()[k] == t);
            assert(threshold_reached(count, t));
            lemma_highest_is(count, t);
        },
        None => {
            reveal(highest_threshold);
        },
    }
}


// ---------------------------------------------------------------------------
// Deciding on a suggestion
// ---------------------------------------------------------------------------

/// A suggestion to record a title rule for `(app_name, title)` using `prompt_id`.
#[derive(Clone, Debug)]
pub struct SuggestionPayload {
    pub app_name: String,
    pub title: String,
    pub prompt_id: String,
    pub prompt_name: String,
    pub count: i64,
    pub threshold: i64,
}

/// What a user answered to a suggestion.
#[derive(Clone, Copy, Debug, PartialEq, Eq, Structural)]
pub enum SuggestionDecision {
    Accepted,
    Dismissed,
    NeverAgain,
}

/// The `(app_name, window_title, post_process_prompt_id)` of a history row,
/// once each is known to be present and non-empty.
#[derive(Clone, Debug)]
pub struct SuggestionCandidate {
    pub app_name: String,
    pub title: String,
    pub prompt_id: String,
}

/// A history row's three columns, each possibly NULL.
pub type HistoryTriplet = (Option<String>, Option<String>, Option<String>);

/// A suggestion, by the values of its fields.
pub struct PayloadView {
    pub app_name: Seq<char>,
    pub title: Seq<char>,
    pub prompt_id: Seq<char>,
    pub prompt_name: Seq<char>,
    pub count: int,
    pub threshold: int,
}

/// The fields of a payload.
pub open spec fn payload_view(p: SuggestionPayload) -> PayloadView {
    PayloadView {
        app_name: p.app_name@,
        title: p.title@,
        prompt_id: p.prompt_id@,
        prompt_name: p.prompt_name@,
        count: p.count as int,
        threshold: p.threshold as int,
    }
}

/// A column's text, when it is not NULL.
pub open spec fn column_view(c: Option<String>) -> Option<Seq<char>> {
    match c {
        Some(s) => Some(s@),
        None => None,
    }
}

/// A history row by the text of its columns; `None` when there is no such row.
pub open spec fn row_view(row: Option<HistoryTriplet>) -> Option<(Option<Seq<char>>, Option<Seq<char>>, Option<Seq<char>>)> {
    match row {
        Some((a, t, p)) => Some((column_view(a), column_view(t), column_view(p))),
        None => None,
    }
}

/// The triplet a row contributes: all three columns present and non-empty.
pub open spec fn candidate_of(row: Option<(Option<Seq<char>>, Option<Seq<char>>, Option<Seq<char>>)>) -> Option<(Seq<char>, Seq<char>, Seq<char>)> {
    match row {
        Some((Some(a), Some(t), Some(p))) => if a.len() > 0 && t.len() > 0 && p.len() > 0 {
            Some((a, t, p))
        } else {
            None
        },
        _ => None,
    }
}

/// Whether an earlier decision for `(app, title)`, recorded at
/// `last_threshold`, still lets a suggestion at `threshold` be shown:
/// `never_again` and `accepted` silence every threshold, `dismissed`
/// silences its own threshold and those below it.
pub open spec fn prior_allows(prior: Option<(int, Seq<char>)>, threshold: int) -> bool {
    match prior {
        None => true,
        Some((last_threshold, decision)) => !(decision == "never_again"@ || decision
            == "accepted"@ || (decision == "dismissed"@ && last_threshold >= threshold)),
    }
}

/// The earlier decision by its values.
pub open spec fn prior_view(prior: Option<(i64, String)>) -> Option<(int, Seq<char>)> {
    match prior {
        Some((t, d)) => Some((t as int, d@)),
        None => None,
    }
}

/// The suggestion that a history row yields: the row's triplet when no
/// title rule matches, its use count reaches a threshold, and no earlier
/// decision silences that threshold. The prompt's display name starts out
/// as its id.
pub open spec fn suggestion_outcome(
    row: Option<(Option<Seq<char>>, Option<Seq<char>>, Option<Seq<char>>)>,
    has_rule: bool,
    count: int,
    prior: Option<(int, Seq<char>)>,
) -> Option<PayloadView> {
    match candidate_of(row) {
        None => None,
        Some((a, t, p)) => if has_rule {
            None
        } else {
            match highest_threshold(count) {
                None => None,
                Some(th) => if prior_allows(prior, th) {
                    Some(
                        PayloadView {
                            app_name: a,
                            title: t,
                            prompt_id: p,
                            prompt_name: p,
                            count,
                            threshold: th,
                        },
                    )
                } else {
                    None
                },
            }
        },
    }
}

/// Where the computation of a suggestion stands: the next query it needs
/// answered, or its result.
pub enum SuggestionStep {
    /// Load `(app_name, window_title, post_process_prompt_id)` of the history row.
    LoadRow { history_id: i64 },
    /// Ask whether an existing title rule already matches the candidate.
    CheckRule { candidate: SuggestionCandidate },
    /// Count the non-deleted history rows with the candidate's triplet.
    CountUses { candidate: SuggestionCandidate },
    /// Load the earlier decision for the candidate's `(app, title)`.
    LoadPrior { candidate: SuggestionCandidate, count: i64, threshold: i64 },
    /// Done: the suggestion to show, if any.
    Finished(Option<SuggestionPayload>),
}

/// The candidate by its values.
pub open spec fn candidate_view(c: SuggestionCandidate) -> (Seq<char>, Seq<char>, Seq<char>) {
    (c.app_name@, c.title@, c.prompt_id@)
}

/// The result of a finished step, by its values.
pub open spec fn finished_view(s: SuggestionStep) -> Option<Option<PayloadView>> {
    match s {
        SuggestionStep::Finished(Some(p)) => Some(Some(payload_view(p))),
        SuggestionStep::Finished(None) => Some(None),
        _ => None,
    }
}

/// What follows loading `row`: done without a suggestion unless all three
/// columns are present and non-empty, else the rule check for them.
pub open spec fn row_step(row: Option<HistoryTriplet>, s: SuggestionStep) -> bool {
    match candidate_of(row_view(row)) {
        None => finished_view(s) == Some(None::<PayloadView>),
        Some(c) => (s matches SuggestionStep::CheckRule { candidate } && candidate_view(candidate) == c),
    }
}

/// What follows the rule check: done when a rule matches, else count uses.
pub open spec fn rule_step(candidate: SuggestionCandidate, has_rule: bool, s: SuggestionStep) -> bool {
    &&& has_rule ==> finished_view(s) == Some(None::<PayloadView>)
    &&& !has_rule ==> (s matches SuggestionStep::CountUses { candidate: c } && c == candidate)
}

/// What follows counting: done below the first threshold, else load the
/// earlier decision for the highest threshold reached.
pub open spec fn count_step(candidate: SuggestionCandidate, count: i64, s: SuggestionStep) -> bool {
    match highest_threshold(count as int) {
        None => finished_view(s) == Some(None::<PayloadView>),
        Some(th) => (s matches SuggestionStep::LoadPrior { candidate: c, count: n, threshold: t }
            && c == candidate && n == count && t == th),
    }
}

/// What follows loading the earlier decision: done, with the candidate's
/// suggestion at `threshold` (its prompt named by its id) unless that
/// decision silences the threshold.
pub open spec fn prior_step(
    candidate: SuggestionCandidate,
    count: i64,
    threshold: i64,
    prior: Option<(i64, String)>,
    s: SuggestionStep,
) -> bool {
    finished_view(s) == Some(
        if prior_allows(prior_view(prior), threshold as int) {
            Some(
                PayloadView {
                    app_name: candidate.app_name@,
                    title: candidate.title@,
                    prompt_id: candidate.prompt_id@,
                    prompt_name: candidate.prompt_id@,
                    count: count as int,
                    threshold: threshold as int,
                },
            )
        } else {
            None::<PayloadView>
        },
    )
}

/// The first step for the history row `history_id`: load it.
pub fn begin_suggestion(history_id: i64) -> (s: SuggestionStep)
    ensures
        s == (SuggestionStep::LoadRow { history_id }),
{
    SuggestionStep::LoadRow { history_id }
}

/// After the row is loaded (`None` when the row does not exist): give up
/// unless all three columns are present and non-empty, else check the rules.
pub fn after_row(row: Option<HistoryTriplet>) -> (s: SuggestionStep)
    ensures
        row_step(row, s),
{
    match row {
        Some((Some(a), Some(t), Some(p))) => {
            if !a.as_str().is_empty() && !t.as_str().is_empty() && !p.as_str().is_empty() {
                SuggestionStep::CheckRule {
                    candidate: SuggestionCandidate { app_name: a, title: t, prompt_id: p },
                }
            } else {
                SuggestionStep::Finished(None)
            }
        },
        _ => SuggestionStep::Finished(None),
    }
}

/// After the rule check: a matching rule ends the computation, else count uses.
pub fn after_rule_check(candidate: SuggestionCandidate, has_rule: bool) -> (s: SuggestionStep)
    ensures
        rule_step(candidate, has_rule, s),
{
    if has_rule {
        SuggestionStep::Finished(None)
    } else {
        SuggestionStep::CountUses { candidate }
    }
}

/// After counting: below the first threshold ends the computation, else load
/// the earlier decision for the highest threshold reached.
pub fn after_count(candidate: SuggestionCandidate, count: i64) -> (s: SuggestionStep)
    ensures
        count_step(candidate, count, s),
{
    match threshold_for_count(count) {
        Some(t) => SuggestionStep::LoadPrior { candidate, count, threshold: t },
        None => SuggestionStep::Finished(None),
    }
}

/// Whether the earlier decision (threshold, decision text) lets a suggestion
/// at `threshold` be shown.
pub fn prior_decision_allows(prior: &Option<(i64, String)>, threshold: i64) -> (b: bool)
    ensures
        b == prior_allows(prior_view(*prior), threshold as int),
{
    match prior {
        None => true,
        Some((last_threshold, decision)) => {
            if str_equals(decision.as_str(), "never_again") {
                return false;
            }
            if str_equals(decision.as_str(), "accepted") {
                return false;
            }
            if str_equals(decision.as_str(), "dismissed") && *last_threshold >= threshold {
                return false;
            }
            true
        },
    }
}

/// After loading the earlier decision (`None` when there is none): the
/// suggestion, unless that decision silences the threshold.
pub fn after_prior(
    candidate: SuggestionCandidate,
    count: i64,
    threshold: i64,
    prior: Option<(i64, String)>,
) -> (s: SuggestionStep)
    ensures
        prior_step(candidate, count, threshold, prior, s),
{
    if !prior_decision_allows(&prior, threshold) {
        return SuggestionStep::Finished(None);
    }
    let prompt_name = candidate.prompt_id.clone();
    SuggestionStep::Finished(
        Some(
            SuggestionPayload {
                app_name: candidate.app_name,
                title: candidate.title,
                prompt_id: candidate.prompt_id,
                prompt_name,
                count,
                threshold,
            },
        ),
    )
}


// ---------------------------------------------------------------------------
// Accepting a suggestion
// ---------------------------------------------------------------------------

/// `i` is the first profile whose id is `id`.
pub open spec fn first_with_id(ps: Seq<AppProfile>, id: Seq<char>, i: int) -> bool {
    &&& 0 <= i < ps.len()
    &&& ps[i].id@ == id
    &&& forall|j: int| 0 <= j < i ==> ps[j].id@ != id
}

/// `i` is the first profile whose name is `name`.
pub open spec fn first_with_name(ps: Seq<AppProfile>, name: Seq<char>, i: int) -> bool {
    &&& 0 <= i < ps.len()
    &&& ps[i].name@ == name
    &&& forall|j: int| 0 <= j < i ==> ps[j].name@ != name
}

/// The profile that an accepted rule for `app` goes to: the profile linked to
/// `app` when one with that id exists (so renamed profiles are found), else
/// the first profile named `app`; `None` when a new profile is needed.
pub open spec fn accept_target(
    ps: Seq<AppProfile>,
    links: Map<Seq<char>, Seq<char>>,
    app: Seq<char>,
) -> Option<int> {
    if links.contains_key(app) && exists|i: int| 0 <= i < ps.len() && ps[i].id@ == links[app] {
        Some(choose|i: int| first_with_id(ps, links[app], i))
    } else if exists|i: int| 0 <= i < ps.len() && ps[i].name@ == app {
        Some(choose|i: int| first_with_name(ps, app, i))
    } else {
        None
    }
}

/// The rule that accepting a suggestion records: an Exact match of `title`
/// with the Auto policy, routed to `prompt_id`, under a fresh random id.
pub open spec fn is_accepted_rule(r: TitleRule, title: Seq<char>, prompt_id: Seq<char>) -> bool {
    &&& r.pattern@ == title
    &&& r.match_type == TitleMatchType::Exact
    &&& r.policy == AppReviewPolicy::Auto
    &&& r.prompt_id matches Some(p) && p@ == prompt_id
    &&& is_hyphenated_v4(r.id@)
}

/// `after` is `before` with one more rule at the end of its rule list.
pub open spec fn rule_appended(before: AppProfile, after: AppProfile) -> bool {
    &&& after.id == before.id
    &&& after.name == before.name
    &&& after.policy == before.policy
    &&& after.prompt_id == before.prompt_id
    &&& after.icon == before.icon
    &&& after.translate_to_english_on_insert == before.translate_to_english_on_insert
    &&& after.disable_selection_clipboard_fallback == before.disable_selection_clipboard_fallback
    &&& after.rules@.len() == before.rules@.len() + 1
    &&& after.rules@.take(before.rules@.len() as int) == before.rules@
}

/// A profile created for `app` by accepting a suggestion: named `app`, Auto
/// policy, no prompt, no icon, both flags off, under a fresh random id.
pub open spec fn is_created_profile(p: AppProfile, app: Seq<char>) -> bool {
    &&& p.name@ == app
    &&& p.policy == AppReviewPolicy::Auto
    &&& p.prompt_id is None
    &&& p.icon is None
    &&& !p.translate_to_english_on_insert
    &&& !p.disable_selection_clipboard_fallback
    &&& p.rules@.len() == 1
    &&& is_hyphenated_v4(p.id@)
}

/// `after` is `before` once a suggestion for `(app, title, prompt_id)` has
/// been accepted: the accepted rule is appended to the target profile (or to
/// a new profile for `app` when there is none), `app` is linked to that
/// profile, and nothing else changes.
pub open spec fn accepted_into(
    before: AppSettings,
    after: AppSettings,
    app: Seq<char>,
    title: Seq<char>,
    prompt_id: Seq<char>,
) -> bool {
    &&& after.post_process_prompts == before.post_process_prompts
    &&& match accept_target(before.app_profiles@, before.app_to_profile@, app) {
        Some(i) => {
            &&& after.app_profiles@.len() == before.app_profiles@.len()
            &&& forall|j: int|
                0 <= j < before.app_profiles@.len() && j != i ==> after.app_profiles@[j]
                    == before.app_profiles@[j]
            &&& rule_appended(before.app_profiles@[i], after.app_profiles@[i])
            &&& is_accepted_rule(after.app_profiles@[i].rules@.last(), title, prompt_id)
            &&& after.app_to_profile@ == before.app_to_profile@.insert(
                app,
                before.app_profiles@[i].id@,
            )
        },
        None => {
            &&& after.app_profiles@.len() == before.app_profiles@.len() + 1
            &&& after.app_profiles@.drop_last() == before.app_profiles@
            &&& is_created_profile(after.app_profiles@.last(), app)
            &&& forall|j: int|
                0 <= j < before.app_profiles@.len() ==> before.app_profiles@[j].id@
                    != after.app_profiles@.last().id@
            &&& is_accepted_rule(after.app_profiles@.last().rules@[0], title, prompt_id)
            &&& after.app_to_profile@ == before.app_to_profile@.insert(
                app,
                after.app_profiles@.last().id@,
            )
        },
    }
}

fn find_profile_by_id(ps: &Vec<AppProfile>, id: &String) -> (r: Option<usize>)
    ensures
        match r {
            Some(i) => first_with_id(ps@, id@, i as int),
            None => forall|i: int| 0 <= i < ps@.len() ==> ps@[i].id@ != id@,
        },
{
    let mut i: usize = 0;
    while i < ps.len()
        invariant
            0 <= i <= ps@.len(),
            forall|j: int| 0 <= j < i ==> ps@[j].id@ != id@,
        decreases ps@.len() - i,
    {
        if ps[i].id == *id {
            return Some(i);
        }
        i = i + 1;
    }
    None
}

fn find_profile_by_name(ps: &Vec<AppProfile>, name: &str) -> (r: Option<usize>)
    ensures
        match r {
            Some(i) => first_with_name(ps@, name@, i as int),
            None => forall|i: int| 0 <= i < ps@.len() ==> ps@[i].name@ != name@,
        },
{
    let mut i: usize = 0;
    while i < ps.len()
        invariant
            0 <= i <= ps@.len(),
            forall|j: int| 0 <= j < i ==> ps@[j].name@ != name@,
        decreases ps@.len() - i,
    {
        if str_equals(ps[i].name.as_str(), name) {
            return Some(i);
        }
        i = i + 1;
    }
    None
}

proof fn lemma_first_with_id_unique(ps: Seq<AppProfile>, id: Seq<char>, a: int)
    requires
        first_with_id(ps, id, a),
    ensures
        (choose|i: int| first_with_id(ps, id, i)) == a,
{
    let c = choose|i: int| first_with_id(ps, id, i);
    assert(first_with_id(ps, id, c));
}

proof fn lemma_first_with_name_unique(ps: Seq<AppProfile>, name: Seq<char>, a: int)
    requires
        first_with_name(ps, name, a),
    ensures
        (choose|i: int| first_with_name(ps, name, i)) == a,
{
    let c = choose|i: int| first_with_name(ps, name, i);
    assert(first_with_name(ps, name, c));
}

fn append_rule_at(ps: &mut Vec<AppProfile>, i: usize, rule: TitleRule)
    requires
        i < old(ps)@.len(),
    ensures
        final(ps)@.len() == old(ps)@.len(),
        forall|j: int| 0 <= j < old(ps)@.len() && j != i ==> final(ps)@[j] == old(ps)@[j],
        rule_appended(old(ps)@[i as int], final(ps)@[i as int]),
        final(ps)@[i as int].rules@.last() == rule,
{
    let ghost before = ps@;
    let mut p = ps.remove(i);
    let ghost p0 = p;
    p.rules.push(rule);
    assert(p.rules@.take(p0.rules@.len() as int) =~= p0.rules@);
    ps.insert(i, p);
    assert forall|j: int| 0 <= j < before.len() && j != i implies ps@[j] == before[j] by {
        if j < i {
        } else {
        }
    }
}

/// An id that no profile of `ps` has: a fresh random one, or, should that
/// be taken already, the first spare id that is free.
fn fresh_profile_id(ps: &Vec<AppProfile>) -> (id: String)
    ensures
        is_hyphenated_v4(id@),
        forall|j: int| 0 <= j < ps@.len() ==> ps@[j].id@ != id@,
{
    let u = new_uuid_v4();
    if find_profile_by_id(ps, &u).is_none() {
        return u;
    }
    let n = ps.len();
    let ghost used = Seq::new(n as nat, |j: int| ps@[j].id@);
    proof {
        lemma_some_spare_id_unused(used);
    }
    let mut i: u64 = 0;
    while i < n as u64
        invariant
            n == ps@.len(),
            i <= n,
            used == Seq::new(n as nat, |j: int| ps@[j].id@),
            forall|c: int| 0 <= c < i ==> !#[trigger] spare_unused(used, c),
        decreases n - i,
    {
        let c = spare_id_string(i);
        match find_profile_by_id(ps, &c) {
            None => {
                proof {
                    lemma_spare_id_shape(i as nat);
                }
                return c;
            },
            Some(j) => {
                assert(used[j as int] == spare_id(i as nat));
                assert(!spare_unused(used, i as int));
            },
        }
        i = i + 1;
    }
    let c = spare_id_string(n as u64);
    proof {
        lemma_spare_id_shape(n as nat);
        let f = choose|f: int| 0 <= f <= used.len() && #[trigger] spare_unused(used, f);
        assert(f == n);
        assert forall|j: int| 0 <= j < ps@.len() implies ps@[j].id@ != c@ by {
            assert(used[j] == ps@[j].id@);
        }
    }
    c
}

/// Find the AppProfile matching `app_name`, or create a new one. Append a
/// TitleRule with `match_type = Exact` for the given title/prompt_id, and
/// ensure `app_to_profile` maps `app_name` to the resolved profile id so
/// routing can find it.
pub fn apply_accepted_suggestion(
    settings: &mut AppSettings,
    app_name: &str,
    title: &str,
    prompt_id: &str,
)
    ensures
        accepted_into(*old(settings), *final(settings), app_name@, title@, prompt_id@),
{
    let ghost ps = settings.app_profiles@;
    let ghost links = settings.app_to_profile@;
    let rule = TitleRule {
        id: new_uuid_v4(),
        pattern: title.to_owned(),
        match_type: TitleMatchType::Exact,
        policy: AppReviewPolicy::Auto,
        prompt_id: Some(prompt_id.to_owned()),
    };
    // Prefer an existing profile already linked via app_to_profile (handles
    // renamed profiles), else match by name, else create.
    let linked = match settings.app_to_profile.get(app_name) {
        Some(id) => find_profile_by_id(&settings.app_profiles, id),
        None => None,
    };
    let resolved_id: String;
    if let Some(i) = linked {
        proof {
            lemma_first_with_id_unique(ps, links[app_name@], i as int);
        }
        append_rule_at(&mut settings.app_profiles, i, rule);
        resolved_id = settings.app_profiles[i].id.clone();
    } else if let Some(i) = find_profile_by_name(&settings.app_profiles, app_name) {
        proof {
            lemma_first_with_name_unique(ps, app_name@, i as int);
        }
        append_rule_at(&mut settings.app_profiles, i, rule);
        resolved_id = settings.app_profiles[i].id.clone();
    } else {
        let profile = AppProfile {
            id: fresh_profile_id(&settings.app_profiles),
            name: app_name.to_owned(),
            policy: AppReviewPolicy::Auto,
            prompt_id: None,
            icon: None,
            translate_to_english_on_insert: false,
            disable_selection_clipboard_fallback: false,
            rules: vec![rule],
        };
        resolved_id = profile.id.clone();
        settings.app_profiles.push(profile);
        assert(settings.app_profiles@.drop_last() =~= ps);
    }
    // Always (re)bind app_name -> profile id so routing finds it.
    settings.app_to_profile.insert(app_name.to_owned(), resolved_id);
}


// ---------------------------------------------------------------------------
// Decisions, prompt names, latches
// ---------------------------------------------------------------------------

/// How a decision is written in the suggestion table.
pub open spec fn decision_label_spec(d: SuggestionDecision) -> Seq<char> {
    match d {
        SuggestionDecision::Accepted => "accepted"@,
        SuggestionDecision::Dismissed => "dismissed"@,
        SuggestionDecision::NeverAgain => "never_again"@,
    }
}

/// The text stored for a decision: `accepted`, `dismissed` or `never_again`.
pub fn decision_label(d: SuggestionDecision) -> (s: &'static str)
    ensures
        s@ == decision_label_spec(d),
{
    match d {
        SuggestionDecision::Accepted => "accepted",
        SuggestionDecision::Dismissed => "dismissed",
        SuggestionDecision::NeverAgain => "never_again",
    }
}

/// A recorded decision, read back for the same `(app, title)`, lets a later
/// suggestion at `threshold` through exactly when it was a dismissal at a
/// lower threshold: "never again" and "accepted" silence every threshold,
/// "dismissed" lets only a higher threshold ask again.
pub proof fn lemma_recorded_decision_effect(d: SuggestionDecision, recorded_at: int, threshold: int)
    ensures
        prior_allows(Some((recorded_at, decision_label_spec(d))), threshold) == (d
            == SuggestionDecision::Dismissed && threshold > recorded_at),
{
    reveal_strlit("accepted");
    reveal_strlit("dismissed");
    reveal_strlit("never_again");
    assert("accepted"@[0] == 'a' && "dismissed"@[0] == 'd' && "never_again"@[0] == 'n');
    assert("accepted"@ != "dismissed"@);
    assert("accepted"@ != "never_again"@);
    assert("dismissed"@ != "never_again"@);
}

/// `i` is the first prompt whose id is `id`.
pub open spec fn first_prompt_with_id(ps: Seq<PostProcessPrompt>, id: Seq<char>, i: int) -> bool {
    &&& 0 <= i < ps.len()
    &&& ps[i].id@ == id
    &&& forall|j: int| 0 <= j < i ==> ps[j].id@ != id
}

/// The display name of a prompt id: fixed names for the two built-in
/// sentinels, the name of the first prompt with that id, or the id itself.
pub open spec fn prompt_display_name(ps: Seq<PostProcessPrompt>, id: Seq<char>) -> Seq<char> {
    if id == "__PASS_THROUGH__"@ {
        "无需润色"@
    } else if id == "__LITE_POLISH__"@ {
        "轻量润色"@
    } else if exists|i: int| 0 <= i < ps.len() && ps[i].id@ == id {
        ps[choose|i: int| first_prompt_with_id(ps, id, i)].name@
    } else {
        id
    }
}

/// The two built-in prompts have fixed names, whatever prompts are configured.
pub proof fn lemma_builtin_prompt_names(ps: Seq<PostProcessPrompt>)
    ensures
        prompt_display_name(ps, "__PASS_THROUGH__"@) == "无需润色"@,
        prompt_display_name(ps, "__LITE_POLISH__"@) == "轻量润色"@,
{
    reveal_strlit("__PASS_THROUGH__");
    reveal_strlit("__LITE_POLISH__");
    assert("__PASS_THROUGH__"@[2] == 'P' && "__LITE_POLISH__"@[2] == 'L');
}

/// The name to show for `prompt_id`.
pub fn resolve_prompt_name(settings: &AppSettings, prompt_id: &str) -> (r: String)
    ensures
        r@ == prompt_display_name(settings.post_process_prompts@, prompt_id@),
{
    if str_equals(prompt_id, "__PASS_THROUGH__") {
        return "无需润色".to_owned();
    }
    if str_equals(prompt_id, "__LITE_POLISH__") {
        return "轻量润色".to_owned();
    }
    let ps = &settings.post_process_prompts;
    let mut i: usize = 0;
    while i < ps.len()
        invariant
            0 <= i <= ps@.len(),
            ps == &settings.post_process_prompts,
            prompt_id@ != "__PASS_THROUGH__"@,
            prompt_id@ != "__LITE_POLISH__"@,
            forall|j: int| 0 <= j < i ==> ps@[j].id@ != prompt_id@,
        decreases ps@.len() - i,
    {
        if str_equals(ps[i].id.as_str(), prompt_id) {
            proof {
                assert(first_prompt_with_id(ps@, prompt_id@, i as int));
                let c = choose|c: int| first_prompt_with_id(ps@, prompt_id@, c);
                assert(first_prompt_with_id(ps@, prompt_id@, c));
            }
            return ps[i].name.clone();
        }
        i = i + 1;
    }
    prompt_id.to_owned()
}

/// A one-shot flag: the first claim after a reset succeeds, later ones fail.
#[derive(Debug)]
pub struct Latch {
    pub engaged: bool,
}

impl Latch {
    /// A latch that has not been claimed.
    pub fn new() -> (l: Self)
        ensures
            !l.engaged,
    {
        Latch { engaged: false }
    }

    /// Engages the latch; true when this call was the one that engaged it.
    pub fn claim(&mut self) -> (first: bool)
        ensures
            first == !old(self).engaged,
            final(self).engaged,
    {
        let was = self.engaged;
        self.engaged = true;
        !was
    }

    /// Disengages the latch.
    pub fn release(&mut self)
        ensures
            !final(self).engaged,
    {
        self.engaged = false;
    }
}

/// Returns `true` if this caller is the first to claim the decision slot
/// since the dialog was opened; makes button-click and window-close idempotent.
pub fn mark_decision_applied(latch: &mut Latch) -> (first: bool)
    ensures
        first == !old(latch).engaged,
        final(latch).engaged,
{
    latch.claim()
}

/// Re-arms the per-recording emission latch, so the next paste may show one
/// suggestion.
pub fn reset_emission_latch(latch: &mut Latch)
    ensures
        !final(latch).engaged,
{
    latch.release()
}

/// Lets at most one suggestion through per recording: a suggestion passes
/// only while the emission latch is not engaged, and passing engages it; a
/// paste without a suggestion leaves the latch as it was.
pub fn emit_once(latch: &mut Latch, suggestion: Option<SuggestionPayload>) -> (r: Option<
    SuggestionPayload,
>)
    ensures
        r == (if old(latch).engaged {
            None
        } else {
            suggestion
        }),
        final(latch).engaged == (old(latch).engaged || suggestion is Some),
{
    match suggestion {
        Some(p) => {
            if latch.claim() {
                Some(p)
            } else {
                None
            }
        },
        None => None,
    }
}

/// The `k`-th claim took the latch from `states[k]` to `states[k + 1]` and
/// answered `results[k]`, as `Latch::claim` does.
pub open spec fn claimed_at(states: Seq<Latch>, results: Seq<bool>, k: int) -> bool {
    &&& results[k] == !states[k].engaged
    &&& states[k + 1].engaged
}

/// Between two resets only the first claim of a latch succeeds: of `n`
/// successive claims (`results[k]` answered by the claim that took the latch
/// from `states[k]` to `states[k + 1]`) on a latch that starts released,
/// the first returns true and every later one false. This is what makes the
/// decision of a suggestion dialog apply once, whether it comes from a
/// button or from closing the window.
pub proof fn lemma_only_first_claim_succeeds(states: Seq<Latch>, results: Seq<bool>)
    requires
        states.len() == results.len() + 1,
        !states[0].engaged,
        forall|k: int| 0 <= k < results.len() ==> #[trigger] claimed_at(states, results, k),
    ensures
        results.len() > 0 ==> results[0],
        forall|k: int| 0 < k < results.len() ==> !#[trigger] results[k],
{
    if results.len() > 0 {
        assert(claimed_at(states, results, 0));
    }
    assert forall|k: int| 0 < k < results.len() implies !#[trigger] results[k] by {
        assert(claimed_at(states, results, k - 1));
        assert(claimed_at(states, results, k));
    }
}

/// Once a suggestion has passed `emit_once`, no later paste of the same
/// recording passes one: `states[k]` to `states[k + 1]` is the `k`-th
/// paste, with suggestion `inputs[k]` and result `outputs[k]`.
pub proof fn lemma_one_dialog_per_recording(
    states: Seq<Latch>,
    inputs: Seq<Option<SuggestionPayload>>,
    outputs: Seq<Option<SuggestionPayload>>,
    j: int,
    k: int,
)
    requires
        states.len() == inputs.len() + 1,
        outputs.len() == inputs.len(),
        forall|i: int|
            0 <= i < inputs.len() ==> #[trigger] outputs[i] == (if states[i].engaged {
                None
            } else {
                inputs[i]
            }) && states[i + 1].engaged == (states[i].engaged || inputs[i] is Some),
        0 <= j < k < inputs.len(),
        outputs[j] is Some,
    ensures
        outputs[k] is None,
    decreases k - j,
{
    assert(outputs[j] == (if states[j].engaged { None } else { inputs[j] }));
    assert(states[j + 1].engaged);
    if k == j + 1 {
        assert(outputs[k] == (if states[k].engaged { None } else { inputs[k] }));
    } else {
        lemma_latch_stays_engaged(states, inputs, outputs, j + 1, k);
        assert(outputs[k] == (if states[k].engaged { None } else { inputs[k] }));
    }
}

proof fn lemma_latch_stays_engaged(
    states: Seq<Latch>,
    inputs: Seq<Option<SuggestionPayload>>,
    outputs: Seq<Option<SuggestionPayload>>,
    a: int,
    b: int,
)
    requires
        states.len() == inputs.len() + 1,
        outputs.len() == inputs.len(),
        forall|i: int|
            0 <= i < inputs.len() ==> #[trigger] outputs[i] == (if states[i].engaged {
                None
            } else {
                inputs[i]
            }) && states[i + 1].engaged == (states[i].engaged || inputs[i] is Some),
        0 <= a <= b <= inputs.len(),
        states[a].engaged,
    ensures
        states[b].engaged,
    decreases b - a,
{
    if a < b {
        assert(outputs[a] == (if states[a].engaged { None } else { inputs[a] }));
        lemma_latch_stays_engaged(states, inputs, outputs, a + 1, b);
    }
}

// ---------------------------------------------------------------------------
// Dialog URL
// ---------------------------------------------------------------------------

/// Bytes that percent-encoding leaves as they are: ASCII letters, digits and
/// `-` `_` `.` `~`.
pub open spec fn is_unreserved(b: u8) -> bool {
    (48 <= b <= 57) || (65 <= b <= 90) || (97 <= b <= 122) || b == 45 || b == 95 || b == 46
        || b == 126
}

/// Upper-case hex digit of `d` (for `0 <= d < 16`).
pub open spec fn hex_upper(d: int) -> char {
    if d < 10 {
        crate::text::digit_char(d)
    } else if d == 10 {
        'A'
    } else if d == 11 {
        'B'
    } else if d == 12 {
        'C'
    } else if d == 13 {
        'D'
    } else if d == 14 {
        'E'
    } else {
        'F'
    }
}

/// One byte, percent-encoded: unreserved bytes as their character, every
/// other byte as `%XX` in upper-case hex.
pub open spec fn encode_byte(b: u8) -> Seq<char> {
    if is_unreserved(b) {
        seq![b as char]
    } else {
        seq!['%', hex_upper(b as int / 16), hex_upper(b as int % 16)]
    }
}

/// A byte string, percent-encoded byte by byte.
pub open spec fn percent_encoded(bs: Seq<u8>) -> Seq<char>
    decreases bs.len(),
{
    if bs.len() == 0 {
        Seq::empty()
    } else {
        percent_encoded(bs.drop_last()) + encode_byte(bs.last())
    }
}

fn hex_digit(d: u8) -> (c: char)
    requires
        d < 16,
    ensures
        c == hex_upper(d as int),
{
    if d == 0 { '0' }
    else if d == 1 { '1' }
    else if d == 2 { '2' }
    else if d == 3 { '3' }
    else if d == 4 { '4' }
    else if d == 5 { '5' }
    else if d == 6 { '6' }
    else if d == 7 { '7' }
    else if d == 8 { '8' }
    else if d == 9 { '9' }
    else if d == 10 { 'A' }
    else if d == 11 { 'B' }
    else if d == 12 { 'C' }
    else if d == 13 { 'D' }
    else if d == 14 { 'E' }
    else { 'F' }
}

/// Appends `s` percent-encoded over its UTF-8 bytes, so colons, slashes and
/// spaces survive transport in a URL query.
pub fn push_percent_encoded(out: &mut String, s: &str)
    ensures
        final(out)@ == old(out)@ + percent_encoded(encode_utf8(s@)),
{
    let bytes = s.as_bytes();
    let ghost start = out@;
    let mut i: usize = 0;
    while i < bytes.len()
        invariant
            0 <= i <= bytes@.len(),
            bytes@ == encode_utf8(s@),
            out@ == start + percent_encoded(bytes@.take(i as int)),
        decreases bytes@.len() - i,
    {
        let b = bytes[i];
        let ghost before = out@;
        if (48u8 <= b && b <= 57u8) || (65u8 <= b && b <= 90u8) || (97u8 <= b && b <= 122u8)
            || b == 45u8 || b == 95u8 || b == 46u8 || b == 126u8 {
            push_char(out, b as char);
        } else {
            push_char(out, '%');
            push_char(out, hex_digit(b / 16));
            push_char(out, hex_digit(b % 16));
        }
        assert(bytes@.take(i + 1).drop_last() =~= bytes@.take(i as int));
        assert(out@ =~= start + percent_encoded(bytes@.take(i + 1)));
        i = i + 1;
    }
    assert(bytes@.take(bytes@.len() as int) =~= bytes@);
}

/// `s` percent-encoded over its UTF-8 bytes.
pub fn percent_encode(s: &str) -> (r: String)
    ensures
        r@ == percent_encoded(encode_utf8(s@)),
{
    let mut out = String::new();
    push_percent_encoded(&mut out, s);
    out
}

/// The page address of the suggestion dialog for `payload`, with the prompt
/// shown as `prompt_name`.
pub open spec fn dialog_url(p: PayloadView, prompt_name_bytes: Seq<u8>, app: Seq<u8>, title: Seq<u8>, pid: Seq<u8>) -> Seq<char> {
    "src/rule_suggestion/index.html?app="@ + percent_encoded(app) + "&title="@ + percent_encoded(
        title,
    ) + "&prompt="@ + percent_encoded(prompt_name_bytes) + "&pid="@ + percent_encoded(pid)
        + "&count="@ + int_decimal(p.count) + "&threshold="@ + int_decimal(p.threshold)
}

/// The page address of the suggestion dialog: the dialog page with app,
/// title, prompt name, prompt id, count and threshold as query parameters.
pub fn suggestion_dialog_url(payload: &SuggestionPayload, prompt_name: &str) -> (r: String)
    ensures
        r@ == dialog_url(
            payload_view(*payload),
            encode_utf8(prompt_name@),
            encode_utf8(payload.app_name@),
            encode_utf8(payload.title@),
            encode_utf8(payload.prompt_id@),
        ),
{
    let mut out = String::new();
    push_str(&mut out, "src/rule_suggestion/index.html?app=");
    push_percent_encoded(&mut out, payload.app_name.as_str());
    push_str(&mut out, "&title=");
    push_percent_encoded(&mut out, payload.title.as_str());
    push_str(&mut out, "&prompt=");
    push_percent_encoded(&mut out, prompt_name);
    push_str(&mut out, "&pid=");
    push_percent_encoded(&mut out, payload.prompt_id.as_str());
    push_str(&mut out, "&count=");
    push_i64(&mut out, payload.count);
    push_str(&mut out, "&threshold=");
    push_i64(&mut out, payload.threshold);
    out
}


// ---------------------------------------------------------------------------
// Laws
// ---------------------------------------------------------------------------

/// A history row without all three of app, title and prompt (or with one of
/// them empty) never yields a suggestion.
pub proof fn lemma_incomplete_row_never_suggests(
    row: Option<(Option<Seq<char>>, Option<Seq<char>>, Option<Seq<char>>)>,
    has_rule: bool,
    count: int,
    prior: Option<(int, Seq<char>)>,
)
    requires
        candidate_of(row) is None,
    ensures
        suggestion_outcome(row, has_rule, count, prior) is None,
{
}

/// When an existing title rule already matches, no suggestion is made,
/// whatever the count and the earlier decisions.
pub proof fn lemma_existing_rule_never_suggests(
    row: Option<(Option<Seq<char>>, Option<Seq<char>>, Option<Seq<char>>)>,
    count: int,
    prior: Option<(int, Seq<char>)>,
)
    ensures
        suggestion_outcome(row, true, count, prior) is None,
{
}

/// A suggestion is made at the highest threshold of the ladder that the
/// count has reached, and carries the count and the row's triplet.
pub proof fn lemma_suggestion_at_highest_threshold(
    row: Option<(Option<Seq<char>>, Option<Seq<char>>, Option<Seq<char>>)>,
    has_rule: bool,
    count: int,
    prior: Option<(int, Seq<char>)>,
)
    requires
        suggestion_outcome(row, has_rule, count, prior) is Some,
    ensures
        ({
            let p = suggestion_outcome(row, has_rule, count, prior)->0;
            &&& p.count == count
            &&& (p.threshold == 5 || p.threshold == 10 || p.threshold == 20 || p.threshold == 40)
            &&& p.threshold <= count
            &&& (p.threshold < 40 ==> count < 2 * p.threshold)
            &&& candidate_of(row) == Some((p.app_name, p.title, p.prompt_id))
        }),
{
    lemma_highest_threshold_values(count);
}

/// Once "never again" has been recorded for the row's app and title, no
/// count ever yields a suggestion again.
pub proof fn lemma_never_again_is_permanent(
    row: Option<(Option<Seq<char>>, Option<Seq<char>>, Option<Seq<char>>)>,
    has_rule: bool,
    count: int,
    recorded_at: int,
)
    ensures
        suggestion_outcome(
            row,
            has_rule,
            count,
            Some((recorded_at, decision_label_spec(SuggestionDecision::NeverAgain))),
        ) is None,
{
    if let Some(th) = highest_threshold(count) {
        lemma_recorded_decision_effect(SuggestionDecision::NeverAgain, recorded_at, th);
    }
}

/// After a dismissal recorded at `recorded_at`, a complete row without a
/// matching rule is suggested again exactly when its count reaches a higher
/// threshold of the ladder.
pub proof fn lemma_dismissal_waits_for_higher_threshold(
    row: Option<(Option<Seq<char>>, Option<Seq<char>>, Option<Seq<char>>)>,
    count: int,
    recorded_at: int,
)
    requires
        candidate_of(row) is Some,
    ensures
        suggestion_outcome(
            row,
            false,
            count,
            Some((recorded_at, decision_label_spec(SuggestionDecision::Dismissed))),
        ) is Some <==> (highest_threshold(count) matches Some(th) && th > recorded_at),
{
    if let Some(th) = highest_threshold(count) {
        lemma_recorded_decision_effect(SuggestionDecision::Dismissed, recorded_at, th);
    }
}

proof fn lemma_first_with_id_exists(ps: Seq<AppProfile>, id: Seq<char>, i: int)
    requires
        0 <= i < ps.len(),
        ps[i].id@ == id,
    ensures
        exists|m: int| first_with_id(ps, id, m),
    decreases i,
{
    if exists|j: int| 0 <= j < i && ps[j].id@ == id {
        let j = choose|j: int| 0 <= j < i && ps[j].id@ == id;
        lemma_first_with_id_exists(ps, id, j);
    } else {
        assert(first_with_id(ps, id, i));
    }
}

proof fn lemma_first_with_name_exists(ps: Seq<AppProfile>, name: Seq<char>, i: int)
    requires
        0 <= i < ps.len(),
        ps[i].name@ == name,
    ensures
        exists|m: int| first_with_name(ps, name, m),
    decreases i,
{
    if exists|j: int| 0 <= j < i && ps[j].name@ == name {
        let j = choose|j: int| 0 <= j < i && ps[j].name@ == name;
        lemma_first_with_name_exists(ps, name, j);
    } else {
        assert(first_with_name(ps, name, i));
    }
}

/// The target of an acceptance, when there is one, is a profile of the list.
pub proof fn lemma_accept_target_in_range(
    ps: Seq<AppProfile>,
    links: Map<Seq<char>, Seq<char>>,
    app: Seq<char>,
)
    ensures
        accept_target(ps, links, app) matches Some(i) ==> 0 <= i < ps.len(),
{
    if links.contains_key(app) && exists|i: int| 0 <= i < ps.len() && ps[i].id@ == links[app] {
        let i = choose|i: int| 0 <= i < ps.len() && ps[i].id@ == links[app];
        lemma_first_with_id_exists(ps, links[app], i);
    } else if exists|i: int| 0 <= i < ps.len() && ps[i].name@ == app {
        let i = choose|i: int| 0 <= i < ps.len() && ps[i].name@ == app;
        lemma_first_with_name_exists(ps, app, i);
    }
}

/// After accepting, `app` is linked to a profile whose newest rule is an
/// Exact rule matching `title` exactly, so routing finds it.
pub proof fn lemma_accept_links_matching_rule(
    before: AppSettings,
    after: AppSettings,
    app: Seq<char>,
    title: Seq<char>,
    prompt_id: Seq<char>,
)
    requires
        accepted_into(before, after, app, title, prompt_id),
    ensures
        exists|k: int|
            0 <= k < after.app_profiles@.len() && after.app_to_profile@.contains_key(app)
                && after.app_to_profile@[app] == (#[trigger] after.app_profiles@[k]).id@
                && after.app_profiles@[k].rules@.len() > 0 && rule_hits(
                after.app_profiles@[k].rules@.last(),
                title,
            ),
{
    lemma_accept_target_in_range(before.app_profiles@, before.app_to_profile@, app);
    match accept_target(before.app_profiles@, before.app_to_profile@, app) {
        Some(i) => {
            assert(after.app_profiles@[i].id == before.app_profiles@[i].id);
            assert(0 <= i < after.app_profiles@.len());
        },
        None => {
            let k = after.app_profiles@.len() - 1;
            assert(after.app_profiles@[k] == after.app_profiles@.last());
        },
    }
}

/// After accepting, when the rule went to a profile named `app` (found by
/// name, or created), the rule check of the suggestion engine sees a
/// matching rule for `(app, title)`. A rule that went to a linked profile
/// that was renamed is not seen by that check; the recorded `accepted`
/// decision is what keeps such a title quiet.
pub proof fn lemma_accept_then_rule_matches(
    before: AppSettings,
    after: AppSettings,
    app: Seq<char>,
    title: Seq<char>,
    prompt_id: Seq<char>,
)
    requires
        accepted_into(before, after, app, title, prompt_id),
        accept_target(before.app_profiles@, before.app_to_profile@, app) matches Some(i) ==> before.app_profiles@[i].name@ == app,
    ensures
        rules_match(after.app_profiles@, app, title),
{
    lemma_accept_target_in_range(before.app_profiles@, before.app_to_profile@, app);
    match accept_target(before.app_profiles@, before.app_to_profile@, app) {
        Some(i) => {
            let p = after.app_profiles@[i];
            assert(p.name == before.app_profiles@[i].name);
            let j = p.rules@.len() - 1;
            assert(p.rules@[j] == p.rules@.last());
            assert(profile_hits(p, app, title));
        },
        None => {
            let k = after.app_profiles@.len() - 1;
            let p = after.app_profiles@[k];
            assert(p == after.app_profiles@.last());
            assert(p.rules@[0] == p.rules@.last());
            assert(profile_hits(p, app, title));
        },
    }
}

/// The first finished result among four successive steps.
pub open spec fn first_finished(
    s1: SuggestionStep,
    s2: SuggestionStep,
    s3: SuggestionStep,
    s4: SuggestionStep,
) -> Option<Option<PayloadView>> {
    if finished_view(s1) is Some {
        finished_view(s1)
    } else if finished_view(s2) is Some {
        finished_view(s2)
    } else if finished_view(s3) is Some {
        finished_view(s3)
    } else {
        finished_view(s4)
    }
}

/// Answering the steps in turn (the history row, whether a title rule
/// matches, the use count, the earlier decision) finishes with
/// `suggestion_outcome` of those answers.
pub proof fn lemma_steps_reach_outcome(
    row: Option<HistoryTriplet>,
    has_rule: bool,
    count: i64,
    prior: Option<(i64, String)>,
    s1: SuggestionStep,
    s2: SuggestionStep,
    s3: SuggestionStep,
    s4: SuggestionStep,
)
    requires
        row_step(row, s1),
        s1 matches SuggestionStep::CheckRule { candidate } ==> rule_step(candidate, has_rule, s2),
        s2 matches SuggestionStep::CountUses { candidate } ==> count_step(candidate, count, s3),
        s3 matches SuggestionStep::LoadPrior { candidate, count: n, threshold } ==> prior_step(
            candidate,
            n,
            threshold,
            prior,
            s4,
        ),
    ensures
        first_finished(s1, s2, s3, s4) == Some(
            suggestion_outcome(row_view(row), has_rule, count as int, prior_view(prior)),
        ),
{
}


/// A Text rule hits exactly when its pattern occurs at some position of the
/// title; an Exact rule exactly when the title is the pattern.
pub proof fn lemma_text_and_exact_rules(rule: TitleRule, title: Seq<char>)
    ensures
        rule.match_type == TitleMatchType::Text ==> (rule_hits(rule, title) <==> exists|i: int|
            0 <= i && i + rule.pattern@.len() <= title.len() && #[trigger] title.subrange(
                i,
                i + rule.pattern@.len(),
            ) == rule.pattern@),
        rule.match_type == TitleMatchType::Exact ==> (rule_hits(rule, title) <==> title
            == rule.pattern@),
{
    if rule.match_type == TitleMatchType::Text {
        let p = rule.pattern@;
        if rule_hits(rule, title) {
            let i = choose|i: int| crate::text::occurs_at(title, p, i);
            assert(title.subrange(i, i + p.len()) == p);
        }
        if exists|i: int| 0 <= i && i + p.len() <= title.len() && #[trigger] title.subrange(i, i + p.len()) == p {
            let i = choose|i: int| 0 <= i && i + p.len() <= title.len() && #[trigger] title.subrange(i, i + p.len()) == p;
            assert(crate::text::occurs_at(title, p, i));
        }
    }
}

/// A Text rule of a profile named `app` whose pattern occurs anywhere in
/// the title (not only at its start) makes the rules match.
pub proof fn lemma_text_rule_anywhere_matches(
    profiles: Seq<AppProfile>,
    app: Seq<char>,
    title: Seq<char>,
    i: int,
    j: int,
    at: int,
)
    requires
        0 <= i < profiles.len(),
        profiles[i].name@ == app,
        0 <= j < profiles[i].rules@.len(),
        profiles[i].rules@[j].match_type == TitleMatchType::Text,
        0 <= at,
        at + profiles[i].rules@[j].pattern@.len() <= title.len(),
        title.subrange(at, at + profiles[i].rules@[j].pattern@.len()) == profiles[i].rules@[j].pattern@,
    ensures
        rules_match(profiles, app, title),
{
    lemma_text_and_exact_rules(profiles[i].rules@[j], title);
    assert(rule_hits(profiles[i].rules@[j], title));
    assert(profile_hits(profiles[i], app, title));
}

/// No profile named `app` means no rule matches, whatever the title.
pub proof fn lemma_other_apps_never_match(profiles: Seq<AppProfile>, app: Seq<char>, title: Seq<char>)
    requires
        forall|i: int| 0 <= i < profiles.len() ==> profiles[i].name@ != app,
    ensures
        !rules_match(profiles, app, title),
{
}

/// The characters percent-encoding may produce: ASCII letters and digits,
/// `-` `_` `.` `~`, and `%`.
pub open spec fn url_safe_char(c: char) -> bool {
    ('0' <= c && c <= '9') || ('A' <= c && c <= 'Z') || ('a' <= c && c <= 'z') || c == '-' || c
        == '_' || c == '.' || c == '~' || c == '%'
}

/// How one byte is percent-encoded, written out: ASCII letters, digits and
/// `-` `_` `.` `~` stand for themselves; every other byte, `&` and `=`
/// among them, becomes `%` and its two upper-case hex digits.
pub proof fn lemma_encode_byte(b: u8)
    ensures
        ((48 <= b <= 57) || (65 <= b <= 90) || (97 <= b <= 122) || b == 45 || b == 95 || b == 46
            || b == 126) ==> encode_byte(b) == seq![b as char],
        !((48 <= b <= 57) || (65 <= b <= 90) || (97 <= b <= 122) || b == 45 || b == 95 || b == 46
            || b == 126) ==> encode_byte(b) == seq![
            '%',
            "0123456789ABCDEF"@[b as int / 16],
            "0123456789ABCDEF"@[b as int % 16],
        ],
{
    reveal_strlit("0123456789ABCDEF");
    let hex = "0123456789ABCDEF"@;
    assert(forall|d: int| 0 <= d < 16 ==> #[trigger] hex[d] == hex_upper(d)) by {
        assert forall|d: int| 0 <= d < 16 implies #[trigger] hex[d] == hex_upper(d) by {
            if d < 10 {
                assert(hex[d] == crate::text::digit_char(d));
            }
        }
    }
    assert(hex[b as int / 16] == hex_upper(b as int / 16));
    assert(hex[b as int % 16] == hex_upper(b as int % 16));
}

/// Percent-encoded text holds only ASCII letters and digits, `-` `_` `.`
/// `~` and `%`: never `&` or `=`, so it cannot break a query string apart.
pub proof fn lemma_percent_encoded_is_url_safe(bs: Seq<u8>)
    ensures
        forall|k: int| 0 <= k < percent_encoded(bs).len() ==> url_safe_char(#[trigger] percent_encoded(bs)[k]),
        forall|k: int| 0 <= k < percent_encoded(bs).len() ==> #[trigger] percent_encoded(bs)[k] != '&' && percent_encoded(bs)[k] != '=',
    decreases bs.len(),
{
    if bs.len() > 0 {
        lemma_percent_encoded_is_url_safe(bs.drop_last());
        let b = bs.last();
        lemma_encode_byte(b);
        reveal_strlit("0123456789ABCDEF");
        let pre = percent_encoded(bs.drop_last());
        let e = encode_byte(b);
        assert forall|k: int| 0 <= k < e.len() implies url_safe_char(#[trigger] e[k]) by {
            if !((48 <= b <= 57) || (65 <= b <= 90) || (97 <= b <= 122) || b == 45 || b == 95 || b == 46 || b == 126) {
                assert(0 <= b as int / 16 < 16 && 0 <= b as int % 16 < 16);
            }
        }
        assert forall|k: int| 0 <= k < percent_encoded(bs).len() implies url_safe_char(#[trigger] percent_encoded(bs)[k]) by {
            if k < pre.len() {
                assert(percent_encoded(bs)[k] == pre[k]);
            } else {
                assert(percent_encoded(bs)[k] == e[k - pre.len()]);
            }
        }
    }
}


/// No two profiles share an id.
pub open spec fn profile_ids_distinct(ps: Seq<AppProfile>) -> bool {
    forall|a: int, b: int| 0 <= a < b < ps.len() ==> #[trigger] ps[a].id@ != #[trigger] ps[b].id@
}

/// Accepting keeps profile ids distinct, and afterwards the app's link leads
/// to the profile that received the rule, so a later acceptance for the
/// same app lands in that same profile.
pub proof fn lemma_accept_routes_back(
    before: AppSettings,
    after: AppSettings,
    app: Seq<char>,
    title: Seq<char>,
    prompt_id: Seq<char>,
)
    requires
        accepted_into(before, after, app, title, prompt_id),
        profile_ids_distinct(before.app_profiles@),
    ensures
        profile_ids_distinct(after.app_profiles@),
        accept_target(after.app_profiles@, after.app_to_profile@, app) matches Some(k) && 0 <= k
            < after.app_profiles@.len() && is_accepted_rule(
            after.app_profiles@[k].rules@.last(),
            title,
            prompt_id,
        ),
{
    let bp = before.app_profiles@;
    let ap = after.app_profiles@;
    lemma_accept_target_in_range(bp, before.app_to_profile@, app);
    match accept_target(bp, before.app_to_profile@, app) {
        Some(i) => {
            assert forall|j: int| 0 <= j < bp.len() implies #[trigger] ap[j].id@ == bp[j].id@ by {
                if j == i {
                    assert(ap[i].id == bp[i].id);
                }
            }
            assert(profile_ids_distinct(ap)) by {
                assert forall|a: int, b: int| 0 <= a < b < ap.len() implies #[trigger] ap[a].id@ != #[trigger] ap[b].id@ by {
                    assert(ap[a].id@ == bp[a].id@ && ap[b].id@ == bp[b].id@);
                }
            }
            let id = bp[i].id@;
            assert(after.app_to_profile@[app] == id);
            assert(first_with_id(ap, id, i)) by {
                assert forall|j: int| 0 <= j < i implies ap[j].id@ != id by {
                    assert(ap[j].id@ == bp[j].id@);
                }
            }
            lemma_first_with_id_unique(ap, id, i);
        },
        None => {
            let l = ap.len() - 1;
            assert(ap[l] == ap.last());
            assert forall|j: int| 0 <= j < l implies #[trigger] ap[j] == bp[j] by {
                assert(ap.drop_last()[j] == ap[j]);
            }
            assert(profile_ids_distinct(ap)) by {
                assert forall|a: int, b: int| 0 <= a < b < ap.len() implies #[trigger] ap[a].id@ != #[trigger] ap[b].id@ by {
                    assert(ap[a] == bp[a]);
                    if b < l {
                        assert(ap[b] == bp[b]);
                    }
                }
            }
            let id = ap[l].id@;
            assert(after.app_to_profile@[app] == id);
            assert(first_with_id(ap, id, l)) by {
                assert forall|j: int| 0 <= j < l implies ap[j].id@ != id by {
                    assert(ap[j] == bp[j]);
                }
            }
            lemma_first_with_id_unique(ap, id, l);
            assert(ap[l].rules@[0] == ap[l].rules@.last());
        },
    }
}

} // verus!
