//! Prompt rendering for the task-cluster generator and validation of what
//! the model returns.

use vstd::prelude::*;
use vstd::arithmetic::div_mod::{
    lemma_fundamental_div_mod, lemma_fundamental_div_mod_converse, lemma_mod_bound,
};
use crate::foreign::{local_utc_offset_secs, offset_in_range};
use std::collections::HashSet;
use crate::task_clusters::TaskCluster;
use crate::text::{
    int_decimal, push_i64, push_str, chars_of, first_index_in_window, first_index_of, has_prefix, last_index_in_window, last_index_of,
    occurs_in_window, rfind, rfind_in_window, str_equals, trim, trim_bounds,
};

verus! {

/// Subset of fields the LLM returns; ids are filled, server-side fields (id,
/// summary_id, etc.) added later.
#[derive(Clone, Debug)]
pub struct LlmClusterOutput {
    pub title: String,
    pub status: String,
    pub time_span: Option<String>,
    pub apps: Vec<String>,
    pub source_history_ids: Vec<i64>,
    pub total_duration_ms: i64,
    pub entry_count: i64,
    pub summary: Option<String>,
    pub blockers: Vec<String>,
    pub next_step: Option<String>,
    pub keywords: Vec<String>,
}

/// A history entry as the clustering prompt shows it.
#[derive(Clone, Debug)]
pub struct ClusterableEntry {
    pub id: i64,
    pub timestamp_ms: i64,
    pub app_name: Option<String>,
    pub window_title: Option<String>,
    pub text: String,
    pub duration_ms: i64,
}

/// A day's history entry as clustering sees it: the post-processed text when
/// there is one, else the raw transcription; a missing duration counts as 0.
pub fn clusterable_entry(
    id: i64,
    timestamp_ms: i64,
    app_name: Option<String>,
    window_title: Option<String>,
    post_processed_text: Option<String>,
    transcription_text: String,
    duration_ms: Option<i64>,
) -> (e: ClusterableEntry)
    ensures
        e.id == id,
        e.timestamp_ms == timestamp_ms,
        e.app_name == app_name,
        e.window_title == window_title,
        e.text == (match post_processed_text {
            Some(t) => t,
            None => transcription_text,
        }),
        e.duration_ms == (match duration_ms {
            Some(d) => d,
            None => 0,
        }),
{
    let text = match post_processed_text {
        Some(t) => t,
        None => transcription_text,
    };
    let duration_ms = match duration_ms {
        Some(d) => d,
        None => 0,
    };
    ClusterableEntry { id, timestamp_ms, app_name, window_title, text, duration_ms }
}

// ---------------------------------------------------------------------------
// Prompt blocks
// ---------------------------------------------------------------------------

/// `n` as `{:02}` renders it: a leading zero for a single digit.
pub open spec fn pad2(n: int) -> Seq<char> {
    if 0 <= n < 10 {
        seq!['0'] + int_decimal(n)
    } else {
        int_decimal(n)
    }
}

/// The wall-clock `HH:MM` of `t` milliseconds after midnight of 1970-01-01
/// on some clock: hours and minutes counted by floor division, so an
/// instant before 1970 still lands on its hour of the previous day.
#[verifier::opaque]
pub open spec fn clock_hhmm(t: int) -> Seq<char> {
    pad2((t / 3600000) % 24) + seq![':'] + pad2((t / 60000) % 60)
}

/// `HH:MM` of the instant `ms` (milliseconds since the epoch) on the clock
/// of a time zone `offset_secs` seconds ahead of UTC; on the UTC clock when
/// no offset is known.
pub open spec fn hhmm(ms: int, offset_secs: Option<i32>) -> Seq<char> {
    match offset_secs {
        Some(s) => clock_hhmm(ms + 1000 * s),
        None => clock_hhmm(ms),
    }
}

fn push_pad2(out: &mut String, n: i64)
    requires
        0 <= n < 100,
    ensures
        final(out)@ == old(out)@ + pad2(n as int),
{
    if n < 10 {
        let ghost before = out@;
        push_str(out, "0");
        proof {
            reveal_strlit("0");
        }
        push_i64(out, n);
        assert(out@ =~= before + pad2(n as int));
    } else {
        push_i64(out, n);
    }
}

/// Hour of day and minute of hour do not change when whole days are added.
proof fn lemma_whole_days_keep_clock(t: int, n: int, u: int)
    requires
        u == t + 86400000 * n,
    ensures
        (t / 3600000) % 24 == (u / 3600000) % 24,
        (t / 60000) % 60 == (u / 60000) % 60,
{
    lemma_fundamental_div_mod(u, 3600000);
    lemma_mod_bound(u, 3600000);
    let q = u / 3600000;
    let r = u % 3600000;
    lemma_fundamental_div_mod_converse(t, 3600000, q - 24 * n, r);
    lemma_fundamental_div_mod(q, 24);
    lemma_mod_bound(q, 24);
    lemma_fundamental_div_mod_converse(q - 24 * n, 24, q / 24 - n, q % 24);

    lemma_fundamental_div_mod(u, 60000);
    lemma_mod_bound(u, 60000);
    let q2 = u / 60000;
    let r2 = u % 60000;
    lemma_fundamental_div_mod_converse(t, 60000, q2 - 1440 * n, r2);
    lemma_fundamental_div_mod(q2, 60);
    lemma_mod_bound(q2, 60);
    lemma_fundamental_div_mod_converse(q2 - 1440 * n, 60, q2 / 60 - 24 * n, q2 % 60);
}

/// `HH:MM` of the instant `ms` in a time zone `offset_secs` seconds ahead of
/// UTC (UTC itself when the offset is unknown).
pub fn format_hhmm_at(ms: i64, offset_secs: Option<i32>) -> (r: String)
    ensures
        r@ == hhmm(ms as int, offset_secs),
{
    let t: i128 = match offset_secs {
        Some(s) => ms as i128 + 1000 * (s as i128),
        None => ms as i128,
    };
    // Shift by a whole number of days so that the instant is not negative.
    let u: u128 = (t + 9_331_200_000_000_000_000i128) as u128;
    proof {
        assert(86400000 * 108_000_000_000int == 9_331_200_000_000_000_000int);
        lemma_whole_days_keep_clock(t as int, 108_000_000_000, u as int);
    }
    let h = ((u / 3600000) % 24) as i64;
    let m = ((u / 60000) % 60) as i64;
    let mut out = String::new();
    push_pad2(&mut out, h);
    push_str(&mut out, ":");
    proof {
        reveal_strlit(":");
    }
    push_pad2(&mut out, m);
    reveal(clock_hhmm);
    assert(out@ =~= hhmm(ms as int, offset_secs));
    out
}

/// `HH:MM` of the instant `ms` on the local clock: the time zone's offset
/// from UTC at that instant is read from the machine's settings, so the
/// contract holds for every offset the time zone may have (UTC when chrono
/// finds no local time for `ms`).
pub fn format_hhmm(ms: i64) -> (r: String)
    ensures
        exists|o: Option<i32>| offset_in_range(o) && r@ == #[trigger] hhmm(ms as int, o),
{
    let offset = local_utc_offset_secs(ms);
    let r = format_hhmm_at(ms, offset);
    assert(offset_in_range(offset) && r@ == hhmm(ms as int, offset));
    r
}


/// The fence that opens and closes a fenced code block.
pub open spec fn fence() -> Seq<char> {
    seq!['`', '`', '`']
}

/// The fence that opens a fenced code block labelled `json`.
pub open spec fn json_fence() -> Seq<char> {
    seq!['`', '`', '`', 'j', 's', 'o', 'n']
}

/// When `t` starts with `opener` and a closing fence follows, the trimmed
/// text between them.
pub open spec fn fenced_body(t: Seq<char>, opener: Seq<char>) -> Option<Seq<char>> {
    if has_prefix(t, opener) {
        let rest = t.subrange(opener.len() as int, t.len() as int);
        match rfind(rest, fence()) {
            Some(e) => Some(trim(rest.subrange(0, e))),
            None => None,
        }
    } else {
        None
    }
}

/// What `extract_json_array` returns for `raw`: the trimmed text; inside a
/// ```` ```json ```` or ```` ``` ```` fence, the trimmed body of the fence;
/// otherwise the span from the first `[` to the last `]` when that span is
/// non-empty and in order.
pub open spec fn extract_json_array_spec(raw: Seq<char>) -> Seq<char> {
    let t = trim(raw);
    match fenced_body(t, json_fence()) {
        Some(b) => b,
        None => match fenced_body(t, fence()) {
            Some(b) => b,
            None => {
                let s = first_index_of(t, '[');
                let e = last_index_of(t, ']');
                if s is Some && e is Some && e->0 > s->0 {
                    t.subrange(s->0, e->0 + 1)
                } else {
                    t
                }
            },
        },
    }
}

fn fenced_bounds(v: &Vec<char>, lo: usize, hi: usize, opener: &Vec<char>, closer: &Vec<char>) -> (r:
    Option<(usize, usize)>)
    requires
        lo <= hi <= v@.len(),
        closer@ == fence(),
    ensures
        match r {
            Some((a, b)) => lo <= a <= b <= hi && fenced_body(
                v@.subrange(lo as int, hi as int),
                opener@,
            ) == Some(v@.subrange(a as int, b as int)),
            None => fenced_body(v@.subrange(lo as int, hi as int), opener@) is None,
        },
{
    let ghost w = v@.subrange(lo as int, hi as int);
    if !occurs_in_window(v, lo, hi, opener, lo) {
        return None;
    }
    let start = lo + opener.len();
    assert(w.subrange(opener@.len() as int, w.len() as int) =~= v@.subrange(start as int, hi as int));
    match rfind_in_window(v, start, hi, closer) {
        Some(e) => {
            assert(v@.subrange(start as int, hi as int).subrange(0, e as int) =~= v@.subrange(
                start as int,
                start + e,
            ));
            let (a, b) = trim_bounds(v, start, start + e);
            Some((a, b))
        },
        None => None,
    }
}

/// Strip ```` ```json ```` fences and surrounding prose if the model added them.
pub fn extract_json_array(raw: &str) -> (r: &str)
    ensures
        r@ == extract_json_array_spec(raw@),
{
    let v = chars_of(raw);
    let (ta, tb) = trim_bounds(&v, 0, v.len());
    assert(v@.subrange(0, v@.len() as int) =~= raw@);
    let ghost t = v@.subrange(ta as int, tb as int);
    let json_open: Vec<char> = vec!['`', '`', '`', 'j', 's', 'o', 'n'];
    let plain_open: Vec<char> = vec!['`', '`', '`'];
    assert(json_open@ =~= json_fence());
    assert(plain_open@ =~= fence());
    if let Some((a, b)) = fenced_bounds(&v, ta, tb, &json_open, &plain_open) {
        return raw.substring_char(a, b);
    }
    if let Some((a, b)) = fenced_bounds(&v, ta, tb, &plain_open, &plain_open) {
        return raw.substring_char(a, b);
    }
    let s = first_index_in_window(&v, ta, tb, '[');
    let e = last_index_in_window(&v, ta, tb, ']');
    if let (Some(s), Some(e)) = (s, e) {
        if e > s {
            assert(t.subrange(s as int, e + 1) =~= v@.subrange(ta + s, ta + e + 1));
            return raw.substring_char(ta + s, ta + e + 1);
        }
    }
    raw.substring_char(ta, tb)
}


/// The first `n` characters of `s` (all of `s` when it is shorter), as
/// `chars().take(n)` collects them.
pub open spec fn prefix(s: Seq<char>, n: int) -> Seq<char> {
    if s.len() <= n {
        s
    } else {
        s.take(n)
    }
}

fn push_prefix(out: &mut String, s: &str, n: usize)
    ensures
        final(out)@ == old(out)@ + prefix(s@, n as int),
{
    let len = s.unicode_len();
    if len <= n {
        push_str(out, s);
    } else {
        let part = s.substring_char(0, n);
        push_str(out, part);
    }
}

/// Whether the entries block shortens texts and drops very short ones: it
/// does when there are more than 150 entries.
pub open spec fn truncates(entries: Seq<ClusterableEntry>) -> bool {
    entries.len() > 150
}

/// Whether an entry is left out of the block: only when truncating, and only
/// when its text has fewer than 5 characters.
pub open spec fn entry_skipped(e: ClusterableEntry, truncate: bool) -> bool {
    truncate && e.text@.len() < 5
}

/// One line of the entries block:
/// `[id=<id> | <HH:MM> | <app or ?> | <window title, 60 chars> | "<text>"]`,
/// the time on the clock of `offset_secs`, the text cut to 200 characters
/// when truncating.
#[verifier::opaque]
pub open spec fn entry_line(e: ClusterableEntry, truncate: bool, offset_secs: Option<i32>) -> Seq<char> {
    let text = if truncate { prefix(e.text@, 200) } else { e.text@ };
    let window = match e.window_title {
        Some(w) => prefix(w@, 60),
        None => Seq::empty(),
    };
    let app = match e.app_name {
        Some(a) => a@,
        None => "?"@,
    };
    "[id="@ + int_decimal(e.id as int) + " | "@ + hhmm(e.timestamp_ms as int, offset_secs) + " | "@
        + app + " | "@ + window + " | \""@ + text + "\"]\n"@
}

/// The lines of the given entries, in order, skipped entries left out; the
/// entry at position `i` is shown on the clock of `offsets[i]`.
pub open spec fn entry_lines(es: Seq<ClusterableEntry>, truncate: bool, offsets: Seq<Option<i32>>) -> Seq<char>
    decreases es.len(),
{
    if es.len() == 0 {
        Seq::empty()
    } else {
        entry_lines(es.drop_last(), truncate, offsets) + if entry_skipped(es.last(), truncate) {
            Seq::empty()
        } else {
            entry_line(es.last(), truncate, offsets[es.len() - 1])
        }
    }
}

#[verifier::spinoff_prover]
#[verifier::rlimit(40)]
fn push_entry_line(out: &mut String, e: &ClusterableEntry, truncate: bool, offset_secs: Option<i32>)
    ensures
        final(out)@ == old(out)@ + entry_line(*e, truncate, offset_secs),
{
    reveal(entry_line);
    let ghost before = out@;
    push_str(out, "[id=");
    push_i64(out, e.id);
    push_str(out, " | ");
    let ts = format_hhmm_at(e.timestamp_ms, offset_secs);
    push_str(out, ts.as_str());
    push_str(out, " | ");
    match &e.app_name {
        Some(a) => push_str(out, a.as_str()),
        None => push_str(out, "?"),
    }
    push_str(out, " | ");
    match &e.window_title {
        Some(w) => push_prefix(out, w.as_str(), 60),
        None => {},
    }
    push_str(out, " | \"");
    if truncate {
        push_prefix(out, e.text.as_str(), 200);
    } else {
        push_str(out, e.text.as_str());
    }
    push_str(out, "\"]\n");
    assert(out@ =~= before + entry_line(*e, truncate, offset_secs));
}

/// The entries block with each entry's time on the clock of its offset
/// (`offsets[i]` for `entries[i]`).
pub fn render_entries_block_at(entries: &[ClusterableEntry], offsets: &[Option<i32>]) -> (r: String)
    requires
        offsets@.len() == entries@.len(),
    ensures
        r@ == entry_lines(entries@, truncates(entries@), offsets@),
{
    let mut out = String::new();
    let truncate_each = entries.len() > 150;
    let mut i: usize = 0;
    while i < entries.len()
        invariant
            0 <= i <= entries@.len(),
            offsets@.len() == entries@.len(),
            truncate_each == truncates(entries@),
            out@ == entry_lines(entries@.take(i as int), truncate_each, offsets@),
        decreases entries@.len() - i,
    {
        let e = &entries[i];
        assert(entries@.take(i + 1).drop_last() =~= entries@.take(i as int));
        assert(entries@.take(i + 1).last() == *e);
        if truncate_each && e.text.as_str().unicode_len() < 5 {
            i = i + 1;
            continue;
        }
        push_entry_line(&mut out, e, truncate_each, offsets[i]);
        i = i + 1;
    }
    assert(entries@.take(entries@.len() as int) =~= entries@);
    out
}

/// Render the entries block for the prompt — chooses field strategy based on
/// count; each entry's time is on the local clock at that entry's instant.
pub fn render_entries_block(entries: &[ClusterableEntry]) -> (r: String)
    ensures
        exists|offsets: Seq<Option<i32>>|
            {
                &&& offsets.len() == entries@.len()
                &&& forall|i: int| 0 <= i < offsets.len() ==> offset_in_range(#[trigger] offsets[i])
                &&& r@ == #[trigger] entry_lines(entries@, truncates(entries@), offsets)
            },
{
    let mut offsets: Vec<Option<i32>> = Vec::new();
    let mut i: usize = 0;
    while i < entries.len()
        invariant
            0 <= i <= entries@.len(),
            offsets@.len() == i,
            forall|k: int| 0 <= k < i ==> offset_in_range(#[trigger] offsets@[k]),
        decreases entries@.len() - i,
    {
        let o = local_utc_offset_secs(entries[i].timestamp_ms);
        offsets.push(o);
        i = i + 1;
    }
    let r = render_entries_block_at(entries, offsets.as_slice());
    assert(r@ == entry_lines(entries@, truncates(entries@), offsets@));
    r
}

/// Debug rendering of a list of ids without its brackets: `1, 2, 3`.
pub open spec fn ids_list(ids: Seq<i64>) -> Seq<char>
    decreases ids.len(),
{
    if ids.len() == 0 {
        Seq::empty()
    } else if ids.len() == 1 {
        int_decimal(ids[0] as int)
    } else {
        ids_list(ids.drop_last()) + ", "@ + int_decimal(ids.last() as int)
    }
}

/// One line of the protected block: `- "<title>" ids=[<ids>]`.
pub open spec fn protected_line(c: TaskCluster) -> Seq<char> {
    "- \""@ + c.title@ + "\" ids=["@ + ids_list(c.source_history_ids@) + "]\n"@
}

/// The lines of the given clusters, in order.
pub open spec fn protected_lines(cs: Seq<TaskCluster>) -> Seq<char>
    decreases cs.len(),
{
    if cs.len() == 0 {
        Seq::empty()
    } else {
        protected_lines(cs.drop_last()) + protected_line(cs.last())
    }
}

fn push_ids(out: &mut String, ids: &Vec<i64>)
    ensures
        final(out)@ == old(out)@ + ids_list(ids@),
{
    let ghost start = out@;
    let mut i: usize = 0;
    while i < ids.len()
        invariant
            0 <= i <= ids@.len(),
            out@ == start + ids_list(ids@.take(i as int)),
        decreases ids@.len() - i,
    {
        let ghost before = out@;
        assert(ids@.take(i + 1).drop_last() =~= ids@.take(i as int));
        if i > 0 {
            push_str(out, ", ");
        }
        push_i64(out, ids[i]);
        assert(ids@.take(i + 1).last() == ids@[i as int]);
        if i == 0 {
            assert(ids@.take(1)[0] == ids@[0]);
        }
        assert(out@ =~= start + ids_list(ids@.take(i + 1)));
        i = i + 1;
    }
    assert(ids@.take(ids@.len() as int) =~= ids@);
}

/// Render the protected cluster summary block.
pub fn render_protected_block(protected: &[TaskCluster]) -> (r: String)
    ensures
        r@ == protected_lines(protected@),
{
    let mut out = String::new();
    let mut i: usize = 0;
    while i < protected.len()
        invariant
            0 <= i <= protected@.len(),
            out@ == protected_lines(protected@.take(i as int)),
        decreases protected@.len() - i,
    {
        let c = &protected[i];
        let ghost before = out@;
        assert(protected@.take(i + 1).drop_last() =~= protected@.take(i as int));
        push_str(&mut out, "- \"");
        push_str(&mut out, c.title.as_str());
        push_str(&mut out, "\" ids=[");
        push_ids(&mut out, &c.source_history_ids);
        push_str(&mut out, "]\n");
        assert(out@ =~= before + protected_line(*c));
        i = i + 1;
    }
    assert(protected@.take(protected@.len() as int) =~= protected@);
    out
}

/// Whole days between `ts` and `now` (milliseconds), never negative.
pub open spec fn days_ago(now: int, ts: int) -> int {
    if now - ts > 0 {
        (now - ts) / 86400000
    } else {
        0
    }
}

/// One line of the feedback block: `- <days>d ago: "<note>"`.
pub open spec fn feedback_line(now: int, note: (i64, String)) -> Seq<char> {
    "- "@ + int_decimal(days_ago(now, note.0 as int)) + "d ago: \""@ + note.1@ + "\"\n"@
}

/// The lines of the given notes, in order.
pub open spec fn feedback_lines(now: int, notes: Seq<(i64, String)>) -> Seq<char>
    decreases notes.len(),
{
    if notes.len() == 0 {
        Seq::empty()
    } else {
        feedback_lines(now, notes.drop_last()) + feedback_line(now, notes.last())
    }
}

/// Render recent negative feedback notes (created_at_ms, note) for prompt
/// injection.
pub fn render_feedback_block(notes: &[(i64, String)], now_ms: i64) -> (r: String)
    requires
        forall|i: int|
            0 <= i < notes@.len() ==> i64::MIN <= now_ms - (#[trigger] notes@[i]).0 <= i64::MAX,
    ensures
        r@ == feedback_lines(now_ms as int, notes@),
{
    let mut out = String::new();
    let mut i: usize = 0;
    while i < notes.len()
        invariant
            0 <= i <= notes@.len(),
            forall|k: int|
                0 <= k < notes@.len() ==> i64::MIN <= now_ms - (#[trigger] notes@[k]).0 <= i64::MAX,
            out@ == feedback_lines(now_ms as int, notes@.take(i as int)),
        decreases notes@.len() - i,
    {
        let (ts, note) = &notes[i];
        assert(i64::MIN <= now_ms - notes@[i as int].0 <= i64::MAX);
        let ghost before = out@;
        assert(notes@.take(i + 1).drop_last() =~= notes@.take(i as int));
        let diff = now_ms - *ts;
        let q = if diff > 0 { diff / 86400000 } else { 0 };
        let days: i64 = if q > 0 { q } else { 0 };
        push_str(&mut out, "- ");
        push_i64(&mut out, days);
        push_str(&mut out, "d ago: \"");
        push_str(&mut out, note.as_str());
        push_str(&mut out, "\"\n");
        assert(out@ =~= before + feedback_line(now_ms as int, notes@[i as int]));
        i = i + 1;
    }
    assert(notes@.take(notes@.len() as int) =~= notes@);
    out
}


// ---------------------------------------------------------------------------
// Sanitizing what the model returned
// ---------------------------------------------------------------------------

/// The statuses a cluster may carry: in progress, done, blocked, shelved.
pub open spec fn allowed_status(s: Seq<char>) -> bool {
    s == "进行中"@ || s == "完成"@ || s == "卡住"@ || s == "已搁置"@
}

/// The ids of `ids` that are in `valid`, in order.
pub open spec fn kept_ids(ids: Seq<i64>, valid: Set<i64>) -> Seq<i64> {
    ids.filter(|id: i64| valid.contains(id))
}

/// `r` is `o` sanitized: ids outside `valid` dropped, an unknown status
/// replaced by "进行中" (in progress), the entry count set to the number of
/// ids kept, every other field unchanged.
pub open spec fn sanitized_from(o: LlmClusterOutput, r: LlmClusterOutput, valid: Set<i64>) -> bool {
    &&& r.title == o.title
    &&& r.time_span == o.time_span
    &&& r.apps == o.apps
    &&& r.total_duration_ms == o.total_duration_ms
    &&& r.summary == o.summary
    &&& r.blockers == o.blockers
    &&& r.next_step == o.next_step
    &&& r.keywords == o.keywords
    &&& r.source_history_ids@ == kept_ids(o.source_history_ids@, valid)
    &&& if allowed_status(o.status@) {
        r.status == o.status
    } else {
        r.status@ == "进行中"@
    }
    &&& r.entry_count == r.source_history_ids@.len() as i64
}

/// `outs` is `ins` sanitized, in order, with the clusters left without ids
/// dropped.
pub open spec fn sanitized(ins: Seq<LlmClusterOutput>, outs: Seq<LlmClusterOutput>, valid: Set<i64>) -> bool
    decreases ins.len(),
{
    if ins.len() == 0 {
        outs.len() == 0
    } else if kept_ids(ins.last().source_history_ids@, valid).len() > 0 {
        &&& outs.len() > 0
        &&& sanitized_from(ins.last(), outs.last(), valid)
        &&& sanitized(ins.drop_last(), outs.drop_last(), valid)
    } else {
        sanitized(ins.drop_last(), outs, valid)
    }
}

fn is_allowed_status(s: &str) -> (b: bool)
    ensures
        b == allowed_status(s@),
{
    str_equals(s, "进行中") || str_equals(s, "完成") || str_equals(s, "卡住") || str_equals(s, "已搁置")
}

fn retain_valid(ids: &Vec<i64>, valid: &HashSet<i64>) -> (r: Vec<i64>)
    ensures
        r@ == kept_ids(ids@, valid@),
{
    broadcast use vstd::std_specs::hash::group_hash_axioms;

    let mut r: Vec<i64> = Vec::new();
    let mut k: usize = 0;
    while k < ids.len()
        invariant
            0 <= k <= ids@.len(),
            r@ == kept_ids(ids@.take(k as int), valid@),
        decreases ids@.len() - k,
    {
        let id = ids[k];
        assert(ids@.take(k + 1).drop_last() =~= ids@.take(k as int));
        assert(ids@.take(k + 1).last() == id);
        reveal_with_fuel(Seq::filter, 1);
        if valid.contains(&id) {
            r.push(id);
        }
        k = k + 1;
    }
    assert(ids@.take(ids@.len() as int) =~= ids@);
    r
}

fn sanitize_one(o: LlmClusterOutput, valid: &HashSet<i64>) -> (r: LlmClusterOutput)
    ensures
        sanitized_from(o, r, valid@),
{
    let mut r = o;
    let ids = retain_valid(&r.source_history_ids, valid);
    let n = ids.len();
    r.source_history_ids = ids;
    if !is_allowed_status(r.status.as_str()) {
        r.status = "进行中".to_owned();
    }
    r.entry_count = n as i64;
    r
}

/// Drop ids that do not exist in `valid_ids`. Coerce status to fallback if
/// invalid. Clusters left without ids are dropped.
pub fn sanitize_outputs(outputs: Vec<LlmClusterOutput>, valid_ids: &HashSet<i64>) -> (r: Vec<
    LlmClusterOutput,
>)
    ensures
        sanitized(outputs@, r@, valid_ids@),
{
    let ghost ins = outputs@;
    let mut rest = outputs;
    let mut out: Vec<LlmClusterOutput> = Vec::new();
    let mut i: usize = 0;
    let n = rest.len();
    while i < n
        invariant
            n == ins.len(),
            0 <= i <= n,
            rest@ == ins.skip(i as int),
            sanitized(ins.take(i as int), out@, valid_ids@),
        decreases n - i,
    {
        let o = rest.remove(0);
        assert(o == ins[i as int]);
        assert(ins.skip(i as int).drop_first() =~= ins.skip(i + 1));
        assert(ins.take(i + 1).drop_last() =~= ins.take(i as int));
        assert(ins.take(i + 1).last() == o);
        let s = sanitize_one(o, valid_ids);
        if s.source_history_ids.len() > 0 {
            let ghost before = out@;
            out.push(s);
            assert(out@.drop_last() =~= before);
        }
        i = i + 1;
    }
    assert(ins.take(n as int) =~= ins);
    out
}

/// Every cluster that sanitizing keeps has at least one id, only ids from
/// `valid`, an allowed status, and an entry count equal to its number of ids.
pub proof fn lemma_sanitized_outputs_are_clean(
    ins: Seq<LlmClusterOutput>,
    outs: Seq<LlmClusterOutput>,
    valid: Set<i64>,
    k: int,
)
    requires
        sanitized(ins, outs, valid),
        0 <= k < outs.len(),
    ensures
        outs[k].source_history_ids@.len() > 0,
        forall|m: int|
            0 <= m < outs[k].source_history_ids@.len() ==> valid.contains(
                #[trigger] outs[k].source_history_ids@[m],
            ),
        allowed_status(outs[k].status@),
        outs[k].entry_count == outs[k].source_history_ids@.len() as i64,
    decreases ins.len(),
{
    reveal_strlit("进行中");
    if ins.len() == 0 {
    } else if kept_ids(ins.last().source_history_ids@, valid).len() > 0 {
        if k == outs.len() - 1 {
            let o = ins.last();
            let ids = o.source_history_ids@;
            assert(outs[k] == outs.last());
            assert forall|m: int|
                0 <= m < outs[k].source_history_ids@.len() implies valid.contains(
                #[trigger] outs[k].source_history_ids@[m],
            ) by {
                ids.lemma_filter_pred(|id: i64| valid.contains(id), m);
            }
        } else {
            lemma_sanitized_outputs_are_clean(ins.drop_last(), outs.drop_last(), valid, k);
            assert(outs.drop_last()[k] == outs[k]);
        }
    } else {
        lemma_sanitized_outputs_are_clean(ins.drop_last(), outs, valid, k);
    }
}


// ---------------------------------------------------------------------------
// Laws of the prompt blocks and of sanitizing
// ---------------------------------------------------------------------------

/// `t` ends with `tail`.
pub open spec fn ends_with(t: Seq<char>, tail: Seq<char>) -> bool {
    tail.len() <= t.len() && t.subrange(t.len() - tail.len(), t.len() as int) == tail
}

/// `part` occurs somewhere in `t`.
pub open spec fn occurs_in(t: Seq<char>, part: Seq<char>) -> bool {
    exists|p: int| 0 <= p && p + part.len() <= t.len() && #[trigger] t.subrange(p, p + part.len()) == part
}

/// The line of an entry ends with its text, in quotes, cut to 200
/// characters only when the block truncates.
pub proof fn lemma_entry_line_ends_with_text(e: ClusterableEntry, truncate: bool, offset_secs: Option<i32>)
    ensures
        !truncate ==> ends_with(
            entry_line(e, truncate, offset_secs),
            seq!['"'] + e.text@ + seq!['"', ']', '\n'],
        ),
        truncate && e.text@.len() <= 200 ==> ends_with(
            entry_line(e, truncate, offset_secs),
            seq!['"'] + e.text@ + seq!['"', ']', '\n'],
        ),
        truncate && e.text@.len() > 200 ==> ends_with(
            entry_line(e, truncate, offset_secs),
            seq!['"'] + e.text@.take(200) + seq!['"', ']', '\n'],
        ),
{
    reveal(entry_line);
    reveal_strlit(" | \"");
    reveal_strlit("\"]\n");
    let line = entry_line(e, truncate, offset_secs);
    let text = if truncate { prefix(e.text@, 200) } else { e.text@ };
    let tail = seq!['"'] + text + seq!['"', ']', '\n'];
    let window = match e.window_title {
        Some(w) => prefix(w@, 60),
        None => Seq::empty(),
    };
    let app = match e.app_name {
        Some(a) => a@,
        None => "?"@,
    };
    let head = "[id="@ + int_decimal(e.id as int) + " | "@ + hhmm(e.timestamp_ms as int, offset_secs)
        + " | "@ + app + " | "@ + window + seq![' ', '|', ' '];
    assert(" | \""@ =~= seq![' ', '|', ' ', '"']);
    assert("\"]\n"@ =~= seq!['"', ']', '\n']);
    assert(line =~= head + tail);
    assert(line.subrange(line.len() - tail.len(), line.len() as int) =~= tail);
}

/// A block of at most 150 entries drops no entry and cuts no text: it
/// holds every entry's whole text, whatever its length.
pub proof fn lemma_few_entries_keep_full_texts(
    es: Seq<ClusterableEntry>,
    offsets: Seq<Option<i32>>,
    k: int,
)
    requires
        es.len() <= 150,
        0 <= k < es.len(),
    ensures
        !truncates(es),
        !entry_skipped(es[k], truncates(es)),
        ends_with(
            entry_line(es[k], truncates(es), offsets[k]),
            seq!['"'] + es[k].text@ + seq!['"', ']', '\n'],
        ),
        occurs_in(entry_lines(es, truncates(es), offsets), es[k].text@),
{
    lemma_entry_line_ends_with_text(es[k], false, offsets[k]);
    lemma_block_holds_line(es, false, offsets, k);
    let line = entry_line(es[k], false, offsets[k]);
    let block = entry_lines(es, false, offsets);
    let q = choose|q: int| 0 <= q && q + line.len() <= block.len() && #[trigger] block.subrange(q, q + line.len()) == line;
    let t = es[k].text@;
    let start = line.len() - t.len() - 4;
    assert(line.subrange(start + 1, start + 1 + t.len()) =~= t) by {
        let tail = seq!['"'] + t + seq!['"', ']', '\n'];
        assert(line.subrange(line.len() - tail.len(), line.len() as int) == tail);
        assert forall|m: int| 0 <= m < t.len() implies line.subrange(start + 1, start + 1 + t.len())[m] == t[m] by {
            assert(line[start + 1 + m] == line.subrange(line.len() - tail.len(), line.len() as int)[1 + m]);
        }
    }
    assert(block.subrange(q + start + 1, q + start + 1 + t.len()) =~= t) by {
        assert forall|m: int| 0 <= m < t.len() implies block.subrange(q + start + 1, q + start + 1 + t.len())[m] == t[m] by {
            assert(block[q + start + 1 + m] == block.subrange(q, q + line.len())[start + 1 + m]);
            assert(line.subrange(start + 1, start + 1 + t.len())[m] == line[start + 1 + m]);
        }
    }
}

/// Each entry that is not skipped has its line somewhere in the block.
pub proof fn lemma_block_holds_line(
    es: Seq<ClusterableEntry>,
    truncate: bool,
    offsets: Seq<Option<i32>>,
    k: int,
)
    requires
        0 <= k < es.len(),
        !entry_skipped(es[k], truncate),
    ensures
        occurs_in(entry_lines(es, truncate, offsets), entry_line(es[k], truncate, offsets[k])),
    decreases es.len(),
{
    let block = entry_lines(es, truncate, offsets);
    let line = entry_line(es[k], truncate, offsets[k]);
    let rest = entry_lines(es.drop_last(), truncate, offsets);
    if k == es.len() - 1 {
        assert(block =~= rest + line);
        assert(block.subrange(rest.len() as int, (rest.len() + line.len()) as int) =~= line);
    } else {
        assert(es.drop_last()[k] == es[k]);
        lemma_block_holds_line(es.drop_last(), truncate, offsets, k);
        let q = choose|q: int| 0 <= q && q + line.len() <= rest.len() && #[trigger] rest.subrange(q, q + line.len()) == line;
        let last = if entry_skipped(es.last(), truncate) {
            Seq::empty()
        } else {
            entry_line(es.last(), truncate, offsets[es.len() - 1])
        };
        assert(block =~= rest + last);
        assert(block.subrange(q, q + line.len()) =~= rest.subrange(q, q + line.len()));
    }
}

/// Sanitizing keeps each of the four statuses — 进行中 (in progress), 完成
/// (done), 卡住 (blocked), 已搁置 (shelved) — and turns any other status
/// into 进行中.
pub proof fn lemma_sanitize_status(o: LlmClusterOutput, r: LlmClusterOutput, valid: Set<i64>)
    requires
        sanitized_from(o, r, valid),
    ensures
        (o.status@ == "进行中"@ || o.status@ == "完成"@ || o.status@ == "卡住"@ || o.status@
            == "已搁置"@) ==> r.status@ == o.status@,
        !(o.status@ == "进行中"@ || o.status@ == "完成"@ || o.status@ == "卡住"@ || o.status@
            == "已搁置"@) ==> r.status@ == "进行中"@,
{
}

/// Sanitizing keeps exactly the ids found in `valid`, in their order, and
/// counts them.
pub proof fn lemma_sanitize_ids(o: LlmClusterOutput, r: LlmClusterOutput, valid: Set<i64>)
    requires
        sanitized_from(o, r, valid),
    ensures
        forall|m: int| 0 <= m < r.source_history_ids@.len() ==> valid.contains(#[trigger] r.source_history_ids@[m]),
        forall|m: int|
            0 <= m < o.source_history_ids@.len() && valid.contains(#[trigger] o.source_history_ids@[m])
                ==> r.source_history_ids@.contains(o.source_history_ids@[m]),
        r.entry_count == r.source_history_ids@.len() as i64,
{
    let ids = o.source_history_ids@;
    let f = |id: i64| valid.contains(id);
    assert forall|m: int| 0 <= m < r.source_history_ids@.len() implies valid.contains(#[trigger] r.source_history_ids@[m]) by {
        ids.lemma_filter_pred(f, m);
    }
    assert forall|m: int|
        0 <= m < ids.len() && valid.contains(#[trigger] ids[m]) implies r.source_history_ids@.contains(ids[m]) by {
        broadcast use vstd::seq_lib::group_filter_ensures;
        assert(ids.contains(ids[m]));
    }
}


/// `d` days, `h` hours, `m` minutes and `r` more milliseconds after the
/// epoch read `hh:mm` on the UTC clock (two digits each), whatever `d` is;
/// a time zone shifts the instant by its offset before it is read.
pub proof fn lemma_hhmm_reads_hours_and_minutes(d: int, h: int, m: int, r: int, offset_secs: Option<i32>)
    requires
        0 <= h < 24,
        0 <= m < 60,
        0 <= r < 60000,
    ensures
        hhmm(86400000 * d + 3600000 * h + 60000 * m + r - (match offset_secs {
            Some(s) => 1000 * s as int,
            None => 0,
        }), offset_secs) == seq![
            crate::text::digit_char(h / 10),
            crate::text::digit_char(h % 10),
            ':',
            crate::text::digit_char(m / 10),
            crate::text::digit_char(m % 10),
        ],
{
    let t = 86400000 * d + 3600000 * h + 60000 * m + r;
    reveal(clock_hhmm);
    lemma_fundamental_div_mod_converse(t, 3600000, 24 * d + h, 60000 * m + r);
    lemma_fundamental_div_mod_converse(24 * d + h, 24, d, h);
    lemma_fundamental_div_mod_converse(t, 60000, 1440 * d + 60 * h + m, r);
    lemma_fundamental_div_mod_converse(1440 * d + 60 * h + m, 60, 24 * d + h, m);
    lemma_pad2_two_digits(h);
    lemma_pad2_two_digits(m);
    assert(clock_hhmm(t) =~= seq![
        crate::text::digit_char(h / 10),
        crate::text::digit_char(h % 10),
        ':',
        crate::text::digit_char(m / 10),
        crate::text::digit_char(m % 10),
    ]);
}

proof fn lemma_pad2_two_digits(n: int)
    requires
        0 <= n < 100,
    ensures
        pad2(n) == seq![crate::text::digit_char(n / 10), crate::text::digit_char(n % 10)],
{
    reveal_with_fuel(crate::text::nat_decimal, 2);
    if n < 10 {
        assert(pad2(n) =~= seq!['0', crate::text::digit_char(n)]);
    } else {
        assert(crate::text::nat_decimal((n / 10) as nat) == seq![crate::text::digit_char(n / 10)]);
        assert(pad2(n) =~= seq![crate::text::digit_char(n / 10), crate::text::digit_char(n % 10)]);
    }
}

/// A note `d` whole days and `r` more milliseconds old shows as `d` days
/// ago; a note from the future shows as 0 days ago.
pub proof fn lemma_days_ago_counts_whole_days(now: int, d: int, r: int, ts: int)
    ensures
        d >= 0 && 0 <= r < 86400000 && ts == now - 86400000 * d - r ==> days_ago(now, ts) == d,
        ts >= now ==> days_ago(now, ts) == 0,
{
    if d >= 0 && 0 <= r < 86400000 && ts == now - 86400000 * d - r && now - ts > 0 {
        lemma_fundamental_div_mod_converse(now - ts, 86400000, d, r);
    }
}


proof fn lemma_trim_keeps_unpadded(t: Seq<char>)
    requires
        t.len() > 0,
        !crate::text::is_ws(t[0]),
        !crate::text::is_ws(t.last()),
    ensures
        trim(t) == t,
{
    reveal(trim);
    assert(crate::text::trim_start(t) == t);
    assert(crate::text::trim_end(t) == t);
}

/// A reply wrapped in a ```` ```json ```` fence, with no backtick inside,
/// gives back the fenced text, trimmed.
pub proof fn lemma_json_fence_unwrapped(body: Seq<char>)
    requires
        forall|k: int| 0 <= k < body.len() ==> body[k] != '`',
    ensures
        extract_json_array_spec(seq!['`', '`', '`', 'j', 's', 'o', 'n'] + body + seq!['`', '`', '`'])
            == trim(body),
{
    let open = seq!['`', '`', '`', 'j', 's', 'o', 'n'];
    let close = seq!['`', '`', '`'];
    let raw = open + body + close;
    lemma_trim_keeps_unpadded(raw);
    assert(raw.subrange(0, 7) =~= json_fence());
    let rest = raw.subrange(7, raw.len() as int);
    assert(rest =~= body + close);
    reveal(rfind);
    assert(crate::text::occurs_at(rest, fence(), body.len() as int)) by {
        assert(rest.subrange(body.len() as int, body.len() + 3int) =~= fence());
    }
    let c = choose|i: int| crate::text::occurs_at(rest, fence(), i) && forall|j: int|
        crate::text::occurs_at(rest, fence(), j) ==> j <= i;
    assert(crate::text::occurs_at(rest, fence(), c) && forall|j: int|
        crate::text::occurs_at(rest, fence(), j) ==> j <= c);
    assert(c == body.len());
    assert(rest.subrange(0, body.len() as int) =~= body);
}

/// Outside a fence, the reply is cut to the span from its first `[` to its
/// last `]`, whatever brackets lie between: with text before the first `[`
/// and after the last `]` that holds no bracket and no backtick, and no
/// surrounding whitespace, only the bracketed span is kept.
pub proof fn lemma_bracket_span_kept(pre: Seq<char>, mid: Seq<char>, post: Seq<char>)
    requires
        forall|k: int| 0 <= k < pre.len() ==> pre[k] != '[' && pre[k] != ']' && pre[k] != '`',
        forall|k: int| 0 <= k < post.len() ==> post[k] != '[' && post[k] != ']',
        pre.len() > 0 ==> !crate::text::is_ws(pre[0]),
        post.len() > 0 ==> !crate::text::is_ws(post.last()),
    ensures
        extract_json_array_spec(pre + seq!['['] + mid + seq![']'] + post) == seq!['['] + mid
            + seq![']'],
{
    let raw = pre + seq!['['] + mid + seq![']'] + post;
    let s = pre.len() as int;
    let e: int = (pre.len() + 1 + mid.len()) as int;
    assert(raw[s] == '[');
    assert(raw[e] == ']');
    assert(raw[0] != '`') by {
        if pre.len() > 0 {
            assert(raw[0] == pre[0]);
        }
    }
    if post.len() > 0 {
        assert(raw.last() == post.last());
    }
    lemma_trim_keeps_unpadded(raw);
    assert(!has_prefix(raw, json_fence())) by {
        if has_prefix(raw, json_fence()) {
            assert(raw.subrange(0, 7)[0] == raw[0]);
        }
    }
    assert(!has_prefix(raw, fence())) by {
        if has_prefix(raw, fence()) {
            assert(raw.subrange(0, 3)[0] == raw[0]);
        }
    }
    reveal(first_index_of);
    reveal(last_index_of);
    assert(forall|j: int| 0 <= j < s ==> raw[j] == pre[j]);
    let fi = choose|i: int| 0 <= i < raw.len() && raw[i] == '[' && forall|j: int| 0 <= j < i ==> raw[j] != '[';
    assert(0 <= s < raw.len() && raw[s] == '[' && forall|j: int| 0 <= j < s ==> raw[j] != '[');
    assert(0 <= fi < raw.len() && raw[fi] == '[' && forall|j: int| 0 <= j < fi ==> raw[j] != '[');
    assert(fi == s);
    assert(forall|j: int| e < j < raw.len() ==> raw[j] == post[j - e - 1]);
    let li = choose|i: int| 0 <= i < raw.len() && raw[i] == ']' && forall|j: int| i < j < raw.len() ==> raw[j] != ']';
    assert(0 <= e < raw.len() && raw[e] == ']' && forall|j: int| e < j < raw.len() ==> raw[j] != ']');
    assert(0 <= li < raw.len() && raw[li] == ']' && forall|j: int| li < j < raw.len() ==> raw[j] != ']');
    assert(li == e);
    assert(raw.subrange(s, e + 1) =~= seq!['['] + mid + seq![']']);
}

} // verus!
