//! Predictive token budgeting from agent-brain retrieval_log history.
//!
//! The budget check approves or denies a planned LLM spend. A request is denied when its
//! estimate exceeds the hard ceiling, or when its z-score against the phase's token
//! counts of the last 24 hours exceeds the anomaly multiplier.

use vstd::prelude::*;
use vstd::string::*;

use crate::config::TokenBudgetConfig;
pub use crate::stats::{average, percentile};

use crate::stats::{
    average_of, law_statistics_ignore_order, lemma_sorted_samples, lemma_sum_of_permutation,
    percentile_of, sort_ascending, sorted_samples, sum_of, anomaly_test, z_score_exceeds,
    lemma_z_score_monotone, lemma_sum_of_squares_of_permutation, spread,
};
use crate::text::{
    chars_less, chars_lt, lemma_chars_lt_order, contains, decimal, occurs_at, join_path, lowercase, path_join, push_decimal, str_chars, string_from_chars, to_lowercase,
    trim, trim_chars,
};

verus! {

/// Historical token statistics of one workflow phase.
#[derive(Debug, Clone)]
pub struct PhaseTokenStats {
    pub phase: String,
    pub sample_count: u64,
    pub avg_tokens: u64,
    pub p95_tokens: u64,
    pub max_tokens: u64,
}

/// A request to spend tokens in a phase.
#[derive(Debug, Clone)]
pub struct BudgetCheckRequest {
    pub phase: String,
    pub estimated_tokens: u64,
    pub task_kind: Option<String>,
}

/// The budget answer to a request.
#[derive(Debug, Clone)]
pub struct BudgetCheckResponse {
    pub allowed: bool,
    pub frozen: bool,
    pub predicted_p95: u64,
    pub predicted_avg: u64,
    pub sample_count: u64,
    pub ceiling: u64,
    pub reason: String,
}

/// Historical statistics over all phases.
#[derive(Debug, Clone)]
pub struct BudgetStatsReport {
    pub brain_db: String,
    pub lookback_days: u32,
    pub phases: Vec<PhaseTokenStats>,
    pub global_avg_tokens: u64,
    pub global_p95_tokens: u64,
}

/// The abstract content of a budget answer.
pub struct BudgetDecision {
    pub allowed: bool,
    pub frozen: bool,
    pub predicted_p95: u64,
    pub predicted_avg: u64,
    pub sample_count: u64,
    pub ceiling: u64,
    pub reason: Seq<char>,
}

impl View for BudgetCheckResponse {
    type V = BudgetDecision;

    open spec fn view(&self) -> BudgetDecision {
        BudgetDecision {
            allowed: self.allowed,
            frozen: self.frozen,
            predicted_p95: self.predicted_p95,
            predicted_avg: self.predicted_avg,
            sample_count: self.sample_count,
            ceiling: self.ceiling,
            reason: self.reason@,
        }
    }
}

/// An approval.
pub open spec fn allow_decision(
    p95: u64,
    avg: u64,
    count: u64,
    ceiling: u64,
    reason: Seq<char>,
) -> BudgetDecision {
    BudgetDecision {
        allowed: true,
        frozen: false,
        predicted_p95: p95,
        predicted_avg: avg,
        sample_count: count,
        ceiling,
        reason,
    }
}

/// A denial: the route is frozen.
pub open spec fn deny_decision(
    p95: u64,
    avg: u64,
    count: u64,
    ceiling: u64,
    reason: Seq<char>,
) -> BudgetDecision {
    BudgetDecision {
        allowed: false,
        frozen: true,
        predicted_p95: p95,
        predicted_avg: avg,
        sample_count: count,
        ceiling,
        reason,
    }
}

/// The estimate the budget check weighs: at least one token.
pub open spec fn effective_estimate(estimated: u64) -> u64 {
    if estimated < 1 {
        1
    } else {
        estimated
    }
}

/// Why an estimate over the hard ceiling is denied.
pub open spec fn ceiling_reason(estimate: u64, ceiling: u64) -> Seq<char> {
    "estimated "@ + decimal(estimate as nat) + " tokens exceeds hard ceiling "@ + decimal(
        ceiling as nat,
    )
}

/// An anomaly multiplier given in thousandths, written with one decimal (rounded half up).
pub open spec fn multiplier_label(milli: u64) -> Seq<char> {
    let tenths = (milli as nat + 50) / 100;
    decimal(tenths / 10) + "."@ + decimal(tenths % 10)
}

/// Why an estimate whose z-score is over the anomaly multiplier is denied.
pub open spec fn anomaly_reason(estimate: u64, milli: u64, mean: u64) -> Seq<char> {
    "estimated "@ + decimal(estimate as nat) + " tokens exceeds the 24 h mean ("@ + decimal(
        mean as nat,
    ) + ") by more than "@ + multiplier_label(milli)
        + " standard deviations — possible runaway LLM usage"@
}

/// Why a request is allowed when brain.db is missing.
pub open spec fn cold_start_reason(db_path: Seq<char>) -> Seq<char> {
    "brain.db not found at "@ + db_path + " — allowing cold start"@
}

/// The budget decision.
///
/// `history` is `None` when brain.db does not exist, else the token counts of the
/// phase over the last 24 hours. A disabled budget allows everything. Otherwise an
/// estimate over the hard ceiling is denied, with or without history; then an estimate
/// whose z-score against the history exceeds the anomaly multiplier is denied as a
/// statistical anomaly; everything else is allowed.
pub open spec fn budget_decision(
    config: TokenBudgetConfig,
    estimated: u64,
    db_path: Seq<char>,
    history: Option<Seq<u64>>,
) -> BudgetDecision {
    let ceiling = config.max_tokens_per_route;
    let milli = config.anomaly_multiplier_milli;
    let estimate = effective_estimate(estimated);
    if !config.enabled {
        allow_decision(0, 0, 0, ceiling, "token budget disabled"@)
    } else {
        match history {
            None => if estimate > ceiling {
                deny_decision(0, 0, 0, ceiling, ceiling_reason(estimate, ceiling))
            } else {
                allow_decision(0, 0, 0, ceiling, cold_start_reason(db_path))
            },
            Some(samples) => {
                let count = samples.len() as u64;
                let avg = average_of(samples);
                let p95 = percentile_of(samples, 95);
                if estimate > ceiling {
                    deny_decision(p95, avg, count, ceiling, ceiling_reason(estimate, ceiling))
                } else if z_score_exceeds(samples, estimate, milli) {
                    deny_decision(p95, avg, count, ceiling, anomaly_reason(estimate, milli, avg))
                } else {
                    allow_decision(p95, avg, count, ceiling, "within predicted token budget"@)
                }
            },
        }
    }
}

/// The phase a request is counted under: trimmed and lowercased, `implementing` when blank.
pub open spec fn normalized_phase(phase: Seq<char>) -> Seq<char> {
    let p = lowercase(trim(phase));
    if p.len() == 0 {
        "implementing"@
    } else {
        p
    }
}

/// The phase a request is counted under.
pub fn normalize_phase(phase: &str) -> (p: String)
    ensures
        p@ == normalized_phase(phase@),
{
    let chars = str_chars(phase);
    let trimmed = string_from_chars(&trim_chars(&chars));
    let p = to_lowercase(trimmed.as_str());
    if p.as_str().is_empty() {
        String::from_str("implementing")
    } else {
        p
    }
}

/// Milliseconds in a day.
pub open spec fn day_ms() -> int {
    86_400_000int
}

/// The start of the lookback window: `days` (at least one) before `now_ms`.
pub open spec fn window_start(now_ms: int, days: u32) -> int {
    let d = if days < 1 {
        1
    } else {
        days
    };
    now_ms - d * day_ms()
}

/// The start of the lookback window that ends at `now_ms`, in milliseconds since the epoch.
pub fn lookback_since(now_ms: i64, days: u32) -> (since: i64)
    requires
        window_start(now_ms as int, days) >= i64::MIN,
    ensures
        since == window_start(now_ms as int, days),
{
    let d: i64 = if days < 1 {
        1
    } else {
        days as i64
    };
    now_ms - d * 24 * 3600 * 1000
}

#[verifier::external_type_specification]
#[verifier::external_body]
pub struct ExSystemTimeError(std::time::SystemTimeError);

/// The time elapsed since the Unix epoch, or an error when the clock is before it.
///
/// Trusted: calls `SystemTime::elapsed` on `UNIX_EPOCH`. The result depends on the
/// clock; nothing is claimed of it.
#[verifier::external_body]
fn elapsed_since_epoch() -> Result<std::time::Duration, std::time::SystemTimeError> {
    std::time::UNIX_EPOCH.elapsed()
}

/// How far the clock is before the Unix epoch.
///
/// Trusted: calls `SystemTimeError::duration`. Nothing is claimed.
#[verifier::external_body]
fn time_before_epoch(e: &std::time::SystemTimeError) -> std::time::Duration {
    e.duration()
}

/// A duration in whole milliseconds.
///
/// Trusted: calls `Duration::as_millis`. Nothing is claimed.
#[verifier::external_body]
fn whole_millis(d: &std::time::Duration) -> u128 {
    d.as_millis()
}

/// A clock reading in milliseconds from the epoch: `ms` after it, or `ms` before it.
pub open spec fn clock_ms(ms: u128, before_epoch: bool) -> int {
    if before_epoch {
        -(ms as int)
    } else {
        ms as int
    }
}

/// The start of the lookback window that ends at a clock reading, when it fits an `i64`.
pub open spec fn clock_window(ms: u128, before_epoch: bool, days: u32) -> Option<i64> {
    let w = window_start(clock_ms(ms, before_epoch), days);
    if i64::MIN <= w <= i64::MAX {
        Some(w as i64)
    } else {
        None
    }
}

/// The start of the lookback window that ends at a clock reading of `ms` milliseconds
/// after the epoch (before it, when `before_epoch`); `None` when it does not fit an `i64`.
pub fn window_from_clock(ms: u128, before_epoch: bool, days: u32) -> (r: Option<i64>)
    ensures
        r == clock_window(ms, before_epoch, days),
{
    let d: i128 = if days < 1 {
        1
    } else {
        days as i128
    };
    let span: i128 = d * 86_400_000;
    // Beyond this reading no window start fits, whatever the span.
    if ms > 0x8000_0000_0000_0000u128 + 400_000_000_000_000_000u128 {
        return None;
    }
    let now: i128 = if before_epoch {
        -(ms as i128)
    } else {
        ms as i128
    };
    let w: i128 = now - span;
    if -0x8000_0000_0000_0000i128 <= w && w <= 0x7fff_ffff_ffff_ffffi128 {
        Some(w as i64)
    } else {
        None
    }
}

/// The start of the lookback window that ends now; `None` when the clock reading is
/// so far from the epoch that the window start does not fit an `i64`.
pub fn lookback_since_ms(days: u32) -> (since: Option<i64>)
    ensures
        exists|ms: u128, before_epoch: bool| since == #[trigger] clock_window(ms, before_epoch, days),
{
    match elapsed_since_epoch() {
        Ok(d) => {
            let ms = whole_millis(&d);
            window_from_clock(ms, false, days)
        },
        Err(e) => {
            let ms = whole_millis(&time_before_epoch(&e));
            window_from_clock(ms, true, days)
        },
    }
}

/// A stored token count as a sample: negative counts become zero.
pub open spec fn clamp_tokens(t: i64) -> u64 {
    if t < 0 {
        0
    } else {
        t as u64
    }
}

/// The stored token counts as samples.
pub fn clamp_token_samples(raw: &Vec<i64>) -> (samples: Vec<u64>)
    ensures
        samples@ == raw@.map_values(|t: i64| clamp_tokens(t)),
{
    let mut samples: Vec<u64> = Vec::new();
    let mut i: usize = 0;
    while i < raw.len()
        invariant
            i <= raw@.len(),
            samples@ == raw@.take(i as int).map_values(|t: i64| clamp_tokens(t)),
        decreases raw@.len() - i,
    {
        let t = raw[i];
        let c: u64 = if t < 0 {
            0
        } else {
            t as u64
        };
        samples.push(c);
        i = i + 1;
        proof {
            assert(samples@ =~= raw@.take(i as int).map_values(|t: i64| clamp_tokens(t)));
        }
    }
    proof {
        assert(raw@.take(i as int) =~= raw@);
    }
    samples
}

/// Where brain.db is: the configured path, else `brain.db` in the memory directory.
pub open spec fn brain_db_location(config: TokenBudgetConfig, memory_dir: Seq<char>) -> Seq<char> {
    match config.brain_db_path {
        Some(p) => p@,
        None => path_join(memory_dir, "brain.db"@),
    }
}

/// Where brain.db is, given the memory directory of the agent body.
pub fn brain_db_path(config: &TokenBudgetConfig, memory_dir: &str) -> (p: String)
    ensures
        p@ == brain_db_location(*config, memory_dir@),
{
    match &config.brain_db_path {
        Some(p) => p.clone(),
        None => join_path(memory_dir, "brain.db"),
    }
}

/// The abstract content of a phase's statistics.
pub struct PhaseSummary {
    pub phase: Seq<char>,
    pub sample_count: u64,
    pub avg_tokens: u64,
    pub p95_tokens: u64,
    pub max_tokens: u64,
}

impl View for PhaseTokenStats {
    type V = PhaseSummary;

    open spec fn view(&self) -> PhaseSummary {
        PhaseSummary {
            phase: self.phase@,
            sample_count: self.sample_count,
            avg_tokens: self.avg_tokens,
            p95_tokens: self.p95_tokens,
            max_tokens: self.max_tokens,
        }
    }
}

/// The abstract content of a statistics table.
pub open spec fn summaries(table: Seq<PhaseTokenStats>) -> Seq<PhaseSummary> {
    table.map_values(|s: PhaseTokenStats| s@)
}

/// The largest sample; zero for no samples.
pub open spec fn max_of(s: Seq<u64>) -> u64 {
    if s.len() == 0 {
        0
    } else {
        sorted_samples(s).last()
    }
}

/// The statistics of a phase with the given samples.
pub open spec fn phase_summary(phase: Seq<char>, samples: Seq<u64>) -> PhaseSummary {
    PhaseSummary {
        phase,
        sample_count: samples.len() as u64,
        avg_tokens: average_of(samples),
        p95_tokens: percentile_of(samples, 95),
        max_tokens: max_of(samples),
    }
}

/// The token counts, as samples, of the rows of a phase, in row order.
pub open spec fn samples_for(rows: Seq<(String, i64)>, phase: Seq<char>) -> Seq<u64>
    decreases rows.len(),
{
    if rows.len() == 0 {
        seq![]
    } else if rows.last().0@ == phase {
        samples_for(rows.drop_last(), phase).push(clamp_tokens(rows.last().1))
    } else {
        samples_for(rows.drop_last(), phase)
    }
}

/// The token counts of all rows, as samples, in row order.
pub open spec fn all_samples(rows: Seq<(String, i64)>) -> Seq<u64> {
    rows.map_values(|r: (String, i64)| clamp_tokens(r.1))
}

/// Some row belongs to the phase.
pub open spec fn has_phase(rows: Seq<(String, i64)>, phase: Seq<char>) -> bool {
    exists|i: int| 0 <= i < rows.len() && #[trigger] rows[i].0@ == phase
}

/// The table has an entry for the phase.
pub open spec fn table_has_phase(table: Seq<PhaseSummary>, phase: Seq<char>) -> bool {
    exists|k: int| 0 <= k < table.len() && #[trigger] table[k].phase == phase
}

/// The per-phase statistics of the rows: one entry per phase that occurs, in ascending
/// order of phase name.
pub open spec fn is_phase_table(rows: Seq<(String, i64)>, table: Seq<PhaseSummary>) -> bool {
    &&& forall|a: int, b: int|
        0 <= a < b < table.len() ==> chars_lt(#[trigger] table[a].phase, #[trigger] table[b].phase)
    &&& forall|i: int| 0 <= i < rows.len() ==> table_has_phase(table, #[trigger] rows[i].0@)
    &&& forall|k: int| 0 <= k < table.len() ==> has_phase(rows, #[trigger] table[k].phase)
    &&& forall|k: int|
        0 <= k < table.len() ==> #[trigger] table[k] == phase_summary(
            table[k].phase,
            samples_for(rows, table[k].phase),
        )
}

/// The samples of one phase sum to no more than all samples.
pub proof fn lemma_phase_sum_bounded(rows: Seq<(String, i64)>, phase: Seq<char>)
    ensures
        sum_of(samples_for(rows, phase)) <= sum_of(all_samples(rows)),
    decreases rows.len(),
{
    if rows.len() > 0 {
        lemma_phase_sum_bounded(rows.drop_last(), phase);
        assert(all_samples(rows).drop_last() =~= all_samples(rows.drop_last()));
        if rows.last().0@ == phase {
            assert(samples_for(rows, phase).drop_last() =~= samples_for(rows.drop_last(), phase));
        }
    }
}

/// The phase is one of the listed names.
pub open spec fn lists_phase(names: Seq<String>, phase: Seq<char>) -> bool {
    exists|k: int| 0 <= k < names.len() && #[trigger] names[k]@ == phase
}

/// The total of the sample counts of a table.
pub open spec fn table_sample_total(table: Seq<PhaseSummary>) -> nat
    decreases table.len(),
{
    if table.len() == 0 {
        0
    } else {
        table_sample_total(table.drop_last()) + table.last().sample_count as nat
    }
}

/// How many rows the listed phases cover, counting each listed phase once.
pub open spec fn rows_counted(rows: Seq<(String, i64)>, phases: Seq<Seq<char>>) -> nat
    decreases phases.len(),
{
    if phases.len() == 0 {
        0
    } else {
        rows_counted(rows, phases.drop_last()) + samples_for(rows, phases.last()).len()
    }
}

/// How often a phase is listed.
pub open spec fn occurrences(phases: Seq<Seq<char>>, phase: Seq<char>) -> nat
    decreases phases.len(),
{
    if phases.len() == 0 {
        0
    } else {
        occurrences(phases.drop_last(), phase) + if phases.last() == phase {
            1nat
        } else {
            0nat
        }
    }
}

proof fn lemma_samples_len_bounded(rows: Seq<(String, i64)>, phase: Seq<char>)
    ensures
        samples_for(rows, phase).len() <= rows.len(),
    decreases rows.len(),
{
    if rows.len() > 0 {
        lemma_samples_len_bounded(rows.drop_last(), phase);
    }
}

proof fn lemma_rows_counted_step(rows: Seq<(String, i64)>, phases: Seq<Seq<char>>)
    requires
        rows.len() > 0,
    ensures
        rows_counted(rows, phases) == rows_counted(rows.drop_last(), phases) + occurrences(
            phases,
            rows.last().0@,
        ),
    decreases phases.len(),
{
    if phases.len() > 0 {
        lemma_rows_counted_step(rows, phases.drop_last());
    }
}

proof fn lemma_occurrences_of_listed(phases: Seq<Seq<char>>, phase: Seq<char>)
    requires
        phases.no_duplicates(),
    ensures
        occurrences(phases, phase) == if phases.contains(phase) {
            1nat
        } else {
            0nat
        },
    decreases phases.len(),
{
    if phases.len() > 0 {
        let rest = phases.drop_last();
        assert(rest.no_duplicates());
        lemma_occurrences_of_listed(rest, phase);
        if phases.last() == phase {
            assert(phases.contains(phase));
            if rest.contains(phase) {
                let k = choose|k: int| 0 <= k < rest.len() && rest[k] == phase;
                assert(phases[k] == phases[phases.len() - 1]);
            }
        } else {
            if phases.contains(phase) {
                let k = choose|k: int| 0 <= k < phases.len() && phases[k] == phase;
                assert(rest[k] == phase);
            }
            if rest.contains(phase) {
                let k = choose|k: int| 0 <= k < rest.len() && rest[k] == phase;
                assert(phases[k] == phase);
            }
        }
    }
}

proof fn lemma_rows_counted_all(rows: Seq<(String, i64)>, phases: Seq<Seq<char>>)
    requires
        phases.no_duplicates(),
        forall|i: int| 0 <= i < rows.len() ==> phases.contains(#[trigger] rows[i].0@),
    ensures
        rows_counted(rows, phases) == rows.len(),
    decreases rows.len(),
{
    if rows.len() == 0 {
        assert forall|k: int| 0 <= k <= phases.len() implies rows_counted(rows, phases.take(k))
            == 0 by {
            lemma_rows_counted_empty(rows, phases.take(k));
        }
        assert(phases.take(phases.len() as int) =~= phases);
    } else {
        let rest = rows.drop_last();
        assert forall|i: int| 0 <= i < rest.len() implies phases.contains(#[trigger] rest[i].0@) by {
            assert(rows[i] == rest[i]);
        }
        lemma_rows_counted_all(rest, phases);
        lemma_rows_counted_step(rows, phases);
        assert(phases.contains(rows[rows.len() - 1].0@));
        lemma_occurrences_of_listed(phases, rows.last().0@);
    }
}

proof fn lemma_rows_counted_empty(rows: Seq<(String, i64)>, phases: Seq<Seq<char>>)
    requires
        rows.len() == 0,
    ensures
        rows_counted(rows, phases) == 0,
    decreases phases.len(),
{
    if phases.len() > 0 {
        lemma_rows_counted_empty(rows, phases.drop_last());
    }
}

/// The names of a table's phases.
pub open spec fn table_phases(table: Seq<PhaseSummary>) -> Seq<Seq<char>> {
    table.map_values(|s: PhaseSummary| s.phase)
}

proof fn lemma_table_total_counts(rows: Seq<(String, i64)>, table: Seq<PhaseSummary>)
    requires
        rows.len() <= u64::MAX,
        forall|k: int|
            0 <= k < table.len() ==> #[trigger] table[k] == phase_summary(
                table[k].phase,
                samples_for(rows, table[k].phase),
            ),
    ensures
        table_sample_total(table) == rows_counted(rows, table_phases(table)),
    decreases table.len(),
{
    if table.len() > 0 {
        let rest = table.drop_last();
        assert forall|k: int| 0 <= k < rest.len() implies #[trigger] rest[k] == phase_summary(
            rest[k].phase,
            samples_for(rows, rest[k].phase),
        ) by {
            assert(rest[k] == table[k]);
        }
        lemma_table_total_counts(rows, rest);
        assert(table_phases(table).drop_last() =~= table_phases(rest));
        let last = table.len() - 1;
        assert(table[last] == phase_summary(table[last].phase, samples_for(rows, table[last].phase)));
        lemma_samples_len_bounded(rows, table[last].phase);
    }
}

/// Every row is counted exactly once: the sample counts of a phase table add up to the
/// number of rows.
pub proof fn law_phase_table_counts_every_row(rows: Seq<(String, i64)>, table: Seq<PhaseSummary>)
    requires
        rows.len() <= u64::MAX,
        is_phase_table(rows, table),
    ensures
        table_sample_total(table) == rows.len(),
{
    let phases = table_phases(table);
    assert forall|a: int, b: int| 0 <= a < phases.len() && 0 <= b < phases.len() && a != b implies phases[a]
        != phases[b] by {
        if a < b {
            assert(chars_lt(table[a].phase, table[b].phase));
            lemma_chars_lt_order(table[a].phase, table[b].phase, table[b].phase);
        } else {
            assert(chars_lt(table[b].phase, table[a].phase));
            lemma_chars_lt_order(table[b].phase, table[a].phase, table[a].phase);
        }
    }
    assert(phases.no_duplicates());
    assert forall|i: int| 0 <= i < rows.len() implies phases.contains(#[trigger] rows[i].0@) by {
        assert(table_has_phase(table, rows[i].0@));
        let k = choose|k: int| 0 <= k < table.len() && #[trigger] table[k].phase == rows[i].0@;
        assert(phases[k] == rows[i].0@);
    }
    lemma_rows_counted_all(rows, phases);
    lemma_table_total_counts(rows, table);
}

/// The distinct phases of the rows, in ascending order.
fn distinct_phases(rows: &Vec<(String, i64)>) -> (phases: Vec<String>)
    ensures
        forall|a: int, b: int|
            0 <= a < b < phases@.len() ==> chars_lt(#[trigger] phases@[a]@, #[trigger] phases@[b]@),
        forall|i: int| 0 <= i < rows@.len() ==> lists_phase(phases@, #[trigger] rows@[i].0@),
        forall|k: int| 0 <= k < phases@.len() ==> has_phase(rows@, #[trigger] phases@[k]@),
{
    let mut phases: Vec<String> = Vec::new();
    let mut keys: Vec<Vec<char>> = Vec::new();
    let n = rows.len();
    let mut i: usize = 0;
    while i < n
        invariant
            n == rows@.len(),
            i <= n,
            keys@.len() == phases@.len(),
            forall|k: int| 0 <= k < keys@.len() ==> #[trigger] keys@[k]@ == phases@[k]@,
            forall|a: int, b: int|
                0 <= a < b < phases@.len() ==> chars_lt(
                    #[trigger] phases@[a]@,
                    #[trigger] phases@[b]@,
                ),
            forall|r: int| 0 <= r < i ==> lists_phase(phases@, #[trigger] rows@[r].0@),
            forall|k: int| 0 <= k < phases@.len() ==> has_phase(rows@, #[trigger] phases@[k]@),
        decreases n - i,
    {
        let key = str_chars(rows[i].0.as_str());
        let mut j: usize = 0;
        while j < keys.len() && chars_less(&keys[j], &key)
            invariant
                j <= keys@.len(),
                keys@.len() == phases@.len(),
                forall|k: int| 0 <= k < keys@.len() ==> #[trigger] keys@[k]@ == phases@[k]@,
                forall|k: int| 0 <= k < j ==> chars_lt(#[trigger] phases@[k]@, key@),
            decreases keys@.len() - j,
        {
            j = j + 1;
        }
        let found = j < phases.len() && phases[j] == rows[i].0;
        proof {
            assert(rows@[i as int].0@ == key@);
        }
        if !found {
            let ghost old_phases = phases@;
            proof {
                if j < old_phases.len() {
                    lemma_chars_lt_order(old_phases[j as int]@, key@, key@);
                }
            }
            phases.insert(j, rows[i].0.clone());
            keys.insert(j, key);
            proof {
                assert forall|a: int, b: int|
                    0 <= a < b < phases@.len() implies chars_lt(
                    #[trigger] phases@[a]@,
                    #[trigger] phases@[b]@,
                ) by {
                    if b < j {
                    } else if a < j && b == j {
                    } else if a < j {
                        lemma_chars_lt_order(old_phases[a]@, key@, old_phases[b - 1]@);
                        if b - 1 > j {
                            lemma_chars_lt_order(key@, old_phases[j as int]@, old_phases[b - 1]@);
                        }
                    } else if a == j {
                        if b - 1 > j {
                            lemma_chars_lt_order(key@, old_phases[j as int]@, old_phases[b - 1]@);
                        }
                    } else {
                        assert(phases@[a] == old_phases[a - 1]);
                        assert(phases@[b] == old_phases[b - 1]);
                    }
                }
                assert forall|r: int| 0 <= r < i + 1 implies lists_phase(
                    phases@,
                    #[trigger] rows@[r].0@,
                ) by {
                    if r == i {
                        assert(phases@[j as int]@ == rows@[r].0@);
                    } else {
                        assert(lists_phase(old_phases, rows@[r].0@));
                        let k = choose|k: int|
                            0 <= k < old_phases.len() && #[trigger] old_phases[k]@ == rows@[r].0@;
                        if k < j {
                            assert(phases@[k]@ == rows@[r].0@);
                        } else {
                            assert(phases@[k + 1]@ == rows@[r].0@);
                        }
                    }
                }
                assert forall|k: int| 0 <= k < phases@.len() implies has_phase(
                    rows@,
                    #[trigger] phases@[k]@,
                ) by {
                    if k < j {
                        assert(phases@[k] == old_phases[k]);
                    } else if k == j {
                        assert(rows@[i as int].0@ == phases@[k]@);
                    } else {
                        assert(phases@[k] == old_phases[k - 1]);
                    }
                }
                assert forall|k: int| 0 <= k < keys@.len() implies #[trigger] keys@[k]@
                    == phases@[k]@ by {
                    if k < j {
                    } else if k == j {
                    } else {
                    }
                }
            }
        } else {
            proof {
                assert forall|r: int| 0 <= r < i + 1 implies lists_phase(
                    phases@,
                    #[trigger] rows@[r].0@,
                ) by {
                    if r == i {
                        assert(phases@[j as int]@ == rows@[r].0@);
                    }
                }
            }
        }
        i = i + 1;
    }
    phases
}

/// The token counts of the rows of a phase, in row order.
fn phase_samples(rows: &Vec<(String, i64)>, phase: &String) -> (samples: Vec<u64>)
    ensures
        samples@ == samples_for(rows@, phase@),
{
    let mut samples: Vec<u64> = Vec::new();
    let n = rows.len();
    for i in 0..n
        invariant
            n == rows@.len(),
            samples@ == samples_for(rows@.take(i as int), phase@),
    {
        proof {
            assert(rows@.take(i + 1).drop_last() =~= rows@.take(i as int));
            assert(rows@.take(i + 1).last() == rows@[i as int]);
        }
        if rows[i].0 == *phase {
            let t = rows[i].1;
            let c: u64 = if t < 0 {
                0
            } else {
                t as u64
            };
            samples.push(c);
        }
    }
    proof {
        assert(rows@.take(n as int) =~= rows@);
    }
    samples
}

/// The statistics of a phase from its samples.
fn summarize(phase: String, samples: &Vec<u64>) -> (stats: PhaseTokenStats)
    requires
        sum_of(samples@) <= u64::MAX,
    ensures
        stats@ == phase_summary(phase@, samples@),
{
    let sorted = sort_ascending(samples.as_slice());
    proof {
        lemma_sorted_samples(samples@);
        lemma_sum_of_permutation(sorted@, samples@);
        law_statistics_ignore_order(sorted@, samples@, 95);
    }
    let max_tokens = if sorted.len() == 0 {
        0
    } else {
        sorted[sorted.len() - 1]
    };
    PhaseTokenStats {
        sample_count: sorted.len() as u64,
        avg_tokens: average(sorted.as_slice()),
        p95_tokens: percentile(sorted.as_slice(), 95),
        max_tokens,
        phase,
    }
}

/// Per-phase statistics of retrieval_log rows `(phase, tokens_used)`: one entry per phase,
/// in ascending order of phase name.
pub fn phase_stats(rows: &Vec<(String, i64)>) -> (table: Vec<PhaseTokenStats>)
    requires
        forall|p: Seq<char>| sum_of(#[trigger] samples_for(rows@, p)) <= u64::MAX,
    ensures
        is_phase_table(rows@, summaries(table@)),
{
    let phases = distinct_phases(rows);
    let mut table: Vec<PhaseTokenStats> = Vec::new();
    let m = phases.len();
    for k in 0..m
        invariant
            m == phases@.len(),
            table@.len() == k,
            forall|q: int| 0 <= q < k ==> #[trigger] table@[q]@ == phase_summary(
                phases@[q]@,
                samples_for(rows@, phases@[q]@),
            ),
            forall|p: Seq<char>| sum_of(#[trigger] samples_for(rows@, p)) <= u64::MAX,
    {
        let samples = phase_samples(rows, &phases[k]);
        let stats = summarize(phases[k].clone(), &samples);
        table.push(stats);
    }
    proof {
        let t = summaries(table@);
        assert forall|q: int| 0 <= q < t.len() implies #[trigger] t[q].phase == phases@[q]@ by {
        }
        assert forall|i: int| 0 <= i < rows@.len() implies table_has_phase(
            t,
            #[trigger] rows@[i].0@,
        ) by {
            assert(lists_phase(phases@, rows@[i].0@));
            let k = choose|k: int| 0 <= k < phases@.len() && #[trigger] phases@[k]@ == rows@[i].0@;
            assert(t[k].phase == rows@[i].0@);
        }
        assert forall|a: int, b: int| 0 <= a < b < t.len() implies chars_lt(
            #[trigger] t[a].phase,
            #[trigger] t[b].phase,
        ) by {
            assert(chars_lt(phases@[a]@, phases@[b]@));
        }
        assert forall|k: int| 0 <= k < t.len() implies has_phase(rows@, #[trigger] t[k].phase) by {
            assert(has_phase(rows@, phases@[k]@));
        }
        assert forall|k: int| 0 <= k < t.len() implies #[trigger] t[k] == phase_summary(
            t[k].phase,
            samples_for(rows@, t[k].phase),
        ) by {
            assert(table@[k]@ == phase_summary(phases@[k]@, samples_for(rows@, phases@[k]@)));
        }
    }
    table
}

/// The token statistics report over retrieval_log rows `(phase, tokens_used)` read from
/// `db_path` within the lookback window.
pub fn load_stats(config: &TokenBudgetConfig, db_path: &str, rows: &Vec<(String, i64)>) -> (report:
    BudgetStatsReport)
    requires
        sum_of(all_samples(rows@)) <= u64::MAX,
    ensures
        report.brain_db@ == db_path@,
        report.lookback_days == config.lookback_days,
        is_phase_table(rows@, summaries(report.phases@)),
        report.global_avg_tokens == average_of(all_samples(rows@)),
        report.global_p95_tokens == percentile_of(all_samples(rows@), 95),
{
    proof {
        assert forall|p: Seq<char>| sum_of(#[trigger] samples_for(rows@, p)) <= u64::MAX by {
            lemma_phase_sum_bounded(rows@, p);
        }
    }
    let phases = phase_stats(rows);
    let mut raw: Vec<i64> = Vec::new();
    let n = rows.len();
    for i in 0..n
        invariant
            n == rows@.len(),
            raw@ == rows@.take(i as int).map_values(|r: (String, i64)| r.1),
    {
        raw.push(rows[i].1);
        proof {
            assert(raw@ =~= rows@.take(i + 1).map_values(|r: (String, i64)| r.1));
        }
    }
    let samples = clamp_token_samples(&raw);
    proof {
        assert(samples@ =~= all_samples(rows@));
    }
    BudgetStatsReport {
        brain_db: String::from_str(db_path),
        lookback_days: config.lookback_days,
        phases,
        global_avg_tokens: average(samples.as_slice()),
        global_p95_tokens: percentile(samples.as_slice(), 95),
    }
}

/// A denial that freezes the route.
pub fn deny(
    predicted_p95: u64,
    predicted_avg: u64,
    sample_count: u64,
    ceiling: u64,
    reason: String,
) -> (r: BudgetCheckResponse)
    ensures
        r@ == deny_decision(predicted_p95, predicted_avg, sample_count, ceiling, reason@),
{
    BudgetCheckResponse {
        allowed: false,
        frozen: true,
        predicted_p95,
        predicted_avg,
        sample_count,
        ceiling,
        reason,
    }
}

fn allow(
    predicted_p95: u64,
    predicted_avg: u64,
    sample_count: u64,
    ceiling: u64,
    reason: String,
) -> (r: BudgetCheckResponse)
    ensures
        r@ == allow_decision(predicted_p95, predicted_avg, sample_count, ceiling, reason@),
{
    BudgetCheckResponse {
        allowed: true,
        frozen: false,
        predicted_p95,
        predicted_avg,
        sample_count,
        ceiling,
        reason,
    }
}

/// The reason for a denial over the hard ceiling.
fn ceiling_denial_reason(estimate: u64, ceiling: u64) -> (reason: String)
    ensures
        reason@ == ceiling_reason(estimate, ceiling),
{
    let mut reason = String::from_str("estimated ");
    push_decimal(&mut reason, estimate);
    reason.append(" tokens exceeds hard ceiling ");
    push_decimal(&mut reason, ceiling);
    reason
}

/// Appends the anomaly multiplier, given in thousandths, with one decimal.
fn push_multiplier_label(s: &mut String, milli: u64)
    ensures
        final(s)@ == old(s)@ + multiplier_label(milli),
{
    let tenths: u64 = milli / 100 + if milli % 100 >= 50 {
        1
    } else {
        0
    };
    proof {
        assert(tenths == (milli as nat + 50) / 100);
    }
    push_decimal(s, tenths / 10);
    s.append(".");
    push_decimal(s, tenths % 10);
}

/// The reason for a denial as a statistical anomaly.
fn anomaly_denial_reason(estimate: u64, milli: u64, mean: u64) -> (reason: String)
    ensures
        reason@ == anomaly_reason(estimate, milli, mean),
{
    let mut reason = String::from_str("estimated ");
    push_decimal(&mut reason, estimate);
    reason.append(" tokens exceeds the 24 h mean (");
    push_decimal(&mut reason, mean);
    reason.append(") by more than ");
    push_multiplier_label(&mut reason, milli);
    reason.append(" standard deviations — possible runaway LLM usage");
    reason
}

/// Decides whether a planned spend may proceed.
///
/// `db_path` is where brain.db was looked for; `history` is `None` when it does not
/// exist, else the token counts of the request's phase over the last 24 hours. The
/// request's phase and task kind do not enter the decision otherwise: only its estimate
/// does.
pub fn check_budget(
    config: &TokenBudgetConfig,
    req: &BudgetCheckRequest,
    db_path: &str,
    history: Option<&Vec<u64>>,
) -> (r: BudgetCheckResponse)
    requires
        config.enabled ==> (history matches Some(h) ==> sum_of(h@) <= u64::MAX),
    ensures
        r@ == budget_decision(
            *config,
            req.estimated_tokens,
            db_path@,
            match history {
                Some(h) => Some(h@),
                None => None,
            },
        ),
{
    let ceiling = config.max_tokens_per_route;
    if !config.enabled {
        return allow(0, 0, 0, ceiling, String::from_str("token budget disabled"));
    }
    let estimated = if req.estimated_tokens < 1 {
        1
    } else {
        req.estimated_tokens
    };
    let samples = match history {
        None => {
            if estimated > ceiling {
                return deny(0, 0, 0, ceiling, ceiling_denial_reason(estimated, ceiling));
            }
            let mut reason = String::from_str("brain.db not found at ");
            reason.append(db_path);
            reason.append(" — allowing cold start");
            return allow(0, 0, 0, ceiling, reason);
        },
        Some(h) => h,
    };
    let sample_count = samples.len() as u64;
    let predicted_avg = average(samples.as_slice());
    let predicted_p95 = percentile(samples.as_slice(), 95);
    if estimated > ceiling {
        return deny(
            predicted_p95,
            predicted_avg,
            sample_count,
            ceiling,
            ceiling_denial_reason(estimated, ceiling),
        );
    }
    let milli = config.anomaly_multiplier_milli;
    let anomalous = anomaly_test(samples.as_slice(), estimated, milli);
    if anomalous {
        return deny(
            predicted_p95,
            predicted_avg,
            sample_count,
            ceiling,
            anomaly_denial_reason(estimated, milli, predicted_avg),
        );
    }
    allow(
        predicted_p95,
        predicted_avg,
        sample_count,
        ceiling,
        String::from_str("within predicted token budget"),
    )
}

/// Every answer is either an approval or a freeze, never both and never neither, and
/// carries the configured ceiling.
pub proof fn law_denial_freezes(
    config: TokenBudgetConfig,
    estimated: u64,
    db_path: Seq<char>,
    history: Option<Seq<u64>>,
)
    ensures
        ({
            let d = budget_decision(config, estimated, db_path, history);
            d.frozen == !d.allowed && d.ceiling == config.max_tokens_per_route
        }),
{
}

/// With the budget enabled, an estimate over the hard ceiling is denied, whether or not
/// there is history.
pub proof fn law_ceiling_is_hard(
    config: TokenBudgetConfig,
    estimated: u64,
    db_path: Seq<char>,
    history: Option<Seq<u64>>,
)
    requires
        config.enabled,
        effective_estimate(estimated) > config.max_tokens_per_route,
    ensures
        !budget_decision(config, estimated, db_path, history).allowed,
{
}

/// A disabled budget approves everything.
pub proof fn law_open_when_disabled(
    config: TokenBudgetConfig,
    estimated: u64,
    db_path: Seq<char>,
    history: Option<Seq<u64>>,
)
    requires
        !config.enabled,
    ensures
        budget_decision(config, estimated, db_path, history).allowed,
{
}

/// Without brain.db, only the hard ceiling can deny.
pub proof fn law_cold_start_checks_only_ceiling(
    config: TokenBudgetConfig,
    estimated: u64,
    db_path: Seq<char>,
)
    requires
        config.enabled,
    ensures
        budget_decision(config, estimated, db_path, None).allowed <==> effective_estimate(
            estimated,
        ) <= config.max_tokens_per_route,
{
}

/// Within the ceiling, an estimate is denied exactly when its z-score against the
/// history exceeds the anomaly multiplier.
pub proof fn law_anomaly_is_z_score(
    config: TokenBudgetConfig,
    estimated: u64,
    db_path: Seq<char>,
    history: Seq<u64>,
)
    requires
        config.enabled,
        effective_estimate(estimated) <= config.max_tokens_per_route,
    ensures
        budget_decision(config, estimated, db_path, Some(history)).allowed <==> !z_score_exceeds(
            history,
            effective_estimate(estimated),
            config.anomaly_multiplier_milli,
        ),
{
}

/// A history without spread (no samples, or all alike) has no z-score: only the hard
/// ceiling can deny.
pub proof fn law_without_spread_checks_only_ceiling(
    config: TokenBudgetConfig,
    estimated: u64,
    db_path: Seq<char>,
    history: Seq<u64>,
)
    requires
        config.enabled,
        spread(history) <= 0,
    ensures
        budget_decision(config, estimated, db_path, Some(history)).allowed <==> effective_estimate(
            estimated,
        ) <= config.max_tokens_per_route,
{
}

/// If an estimate is denied, any larger estimate in the same situation is denied too.
pub proof fn law_denial_is_monotone(
    config: TokenBudgetConfig,
    smaller: u64,
    larger: u64,
    db_path: Seq<char>,
    history: Option<Seq<u64>>,
)
    requires
        smaller <= larger,
        !budget_decision(config, smaller, db_path, history).allowed,
    ensures
        !budget_decision(config, larger, db_path, history).allowed,
{
    if let Some(h) = history {
        let e1 = effective_estimate(smaller);
        let e2 = effective_estimate(larger);
        if z_score_exceeds(h, e1, config.anomaly_multiplier_milli) {
            lemma_z_score_monotone(h, e1, e2, config.anomaly_multiplier_milli);
        }
    }
}

/// The answer depends on the estimate only through the tokens it weighs: an estimate of
/// zero counts as one.
pub proof fn law_only_the_weighed_estimate_counts(
    config: TokenBudgetConfig,
    estimated: u64,
    db_path: Seq<char>,
    history: Option<Seq<u64>>,
)
    ensures
        budget_decision(config, estimated, db_path, history) == budget_decision(
            config,
            effective_estimate(estimated),
            db_path,
            history,
        ),
{
}

/// A denial happens only with the budget enabled, and its reason says what was exceeded.
pub proof fn law_denial_is_explained(
    config: TokenBudgetConfig,
    estimated: u64,
    db_path: Seq<char>,
    history: Option<Seq<u64>>,
)
    requires
        !budget_decision(config, estimated, db_path, history).allowed,
    ensures
        config.enabled,
        contains(budget_decision(config, estimated, db_path, history).reason, "exceeds"@),
{
    let e = effective_estimate(estimated);
    let c = config.max_tokens_per_route;
    let m = config.anomaly_multiplier_milli;
    reveal_strlit("exceeds");
    reveal_strlit(" tokens exceeds hard ceiling ");
    reveal_strlit(" tokens exceeds the 24 h mean (");
    reveal_strlit(" tokens ");
    reveal_strlit(" hard ceiling ");
    reveal_strlit(" the 24 h mean (");
    let d = budget_decision(config, estimated, db_path, history);
    if e > c {
        let head = "estimated "@ + decimal(e as nat) + " tokens "@;
        let tail = " hard ceiling "@ + decimal(c as nat);
        assert(" tokens exceeds hard ceiling "@ =~= " tokens "@ + "exceeds"@ + " hard ceiling "@);
        assert(ceiling_reason(e, c) =~= head + "exceeds"@ + tail);
        lemma_contains_middle(head, "exceeds"@, tail);
    } else {
        let avg = match history {
            Some(h) => average_of(h),
            None => 0,
        };
        let head = "estimated "@ + decimal(e as nat) + " tokens "@;
        let tail = " the 24 h mean ("@ + decimal(avg as nat) + ") by more than "@
            + multiplier_label(m) + " standard deviations — possible runaway LLM usage"@;
        assert(" tokens exceeds the 24 h mean ("@ =~= " tokens "@ + "exceeds"@
            + " the 24 h mean ("@);
        assert(anomaly_reason(e, m, avg) =~= head + "exceeds"@ + tail);
        lemma_contains_middle(head, "exceeds"@, tail);
    }
}

/// A sequence contains what stands in its middle.
proof fn lemma_contains_middle(a: Seq<char>, p: Seq<char>, b: Seq<char>)
    ensures
        contains(a + p + b, p),
{
    assert((a + p + b).subrange(a.len() as int, (a.len() + p.len()) as int) =~= p);
    assert(occurs_at(a + p + b, p, a.len() as int));
}

/// The answer depends on which token counts the history holds, not on their order.
pub proof fn law_history_order_is_irrelevant(
    config: TokenBudgetConfig,
    estimated: u64,
    db_path: Seq<char>,
    history: Seq<u64>,
    reordered: Seq<u64>,
)
    requires
        history.to_multiset() == reordered.to_multiset(),
    ensures
        budget_decision(config, estimated, db_path, Some(history)) == budget_decision(
            config,
            estimated,
            db_path,
            Some(reordered),
        ),
{
    law_statistics_ignore_order(history, reordered, 95);
    lemma_sum_of_permutation(history, reordered);
    lemma_sum_of_squares_of_permutation(history, reordered);
}

/// The phase a request is counted under is never empty.
pub proof fn law_normalized_phase_is_never_empty(phase: Seq<char>)
    ensures
        normalized_phase(phase).len() > 0,
{
    reveal_strlit("implementing");
}

/// With the budget enabled and history present, every answer, approval or denial,
/// reports that history's statistics: how many samples it holds, their 95th percentile
/// (one of the samples) and their mean rounded down.
pub proof fn law_answer_reports_history_statistics(
    config: TokenBudgetConfig,
    estimated: u64,
    db_path: Seq<char>,
    history: Seq<u64>,
)
    requires
        config.enabled,
        history.len() <= u64::MAX,
        sum_of(history) <= u64::MAX,
    ensures
        ({
            let d = budget_decision(config, estimated, db_path, Some(history));
            &&& d.sample_count == history.len()
            &&& d.predicted_p95 == percentile_of(history, 95)
            &&& d.predicted_avg == average_of(history)
            &&& history.len() > 0 ==> history.contains(d.predicted_p95)
            &&& history.len() > 0 ==> d.predicted_avg * history.len() <= sum_of(history) < (
            d.predicted_avg + 1) * history.len()
            &&& history.len() == 0 ==> d.predicted_p95 == 0 && d.predicted_avg == 0
        }),
{
    let d = budget_decision(config, estimated, db_path, Some(history));
    if history.len() > 0 {
        crate::stats::law_percentile_is_a_sample(history, 95);
        let n = history.len() as int;
        let total = sum_of(history) as int;
        let q = total / n;
        assert(q * n <= total < (q + 1) * n) by (nonlinear_arith)
            requires
                n > 0,
                total >= 0,
                q == total / n,
        ;
        assert(d.predicted_avg == q);
    }
}

/// A phase's samples, one for each of its rows.
proof fn lemma_samples_for_rows(rows: Seq<(String, i64)>, phase: Seq<char>)
    ensures
        forall|i: int|
            0 <= i < rows.len() && #[trigger] rows[i].0@ == phase ==> samples_for(
                rows,
                phase,
            ).contains(clamp_tokens(rows[i].1)),
        forall|x: u64|
            #[trigger] samples_for(rows, phase).contains(x) ==> exists|i: int|
                0 <= i < rows.len() && #[trigger] rows[i].0@ == phase && clamp_tokens(rows[i].1)
                    == x,
    decreases rows.len(),
{
    if rows.len() > 0 {
        let rest = rows.drop_last();
        lemma_samples_for_rows(rest, phase);
        let s = samples_for(rows, phase);
        let t = samples_for(rest, phase);
        let last = rows.len() - 1;
        assert forall|i: int|
            0 <= i < rows.len() && #[trigger] rows[i].0@ == phase implies s.contains(
                clamp_tokens(rows[i].1),
            ) by {
            if i == last {
                assert(s[s.len() - 1] == clamp_tokens(rows[i].1));
            } else {
                assert(rest[i] == rows[i]);
                assert(t.contains(clamp_tokens(rows[i].1)));
                let j = choose|j: int| 0 <= j < t.len() && t[j] == clamp_tokens(rows[i].1);
                if rows.last().0@ == phase {
                    assert(s[j] == t[j]);
                }
            }
        }
        assert forall|x: u64| #[trigger] s.contains(x) implies exists|i: int|
            0 <= i < rows.len() && #[trigger] rows[i].0@ == phase && clamp_tokens(rows[i].1)
                == x by {
            let j = choose|j: int| 0 <= j < s.len() && s[j] == x;
            if rows.last().0@ == phase && j == s.len() - 1 {
                assert(rows[last].0@ == phase);
            } else {
                assert(t[j] == x);
                assert(t.contains(x));
                let i = choose|i: int|
                    0 <= i < rest.len() && #[trigger] rest[i].0@ == phase && clamp_tokens(
                        rest[i].1,
                    ) == x;
                assert(rows[i] == rest[i]);
            }
        }
    }
}

/// The largest of some samples is at least each of them, and is one of them.
proof fn lemma_max_of(s: Seq<u64>)
    requires
        s.len() > 0,
    ensures
        forall|j: int| 0 <= j < s.len() ==> s[j] <= max_of(s),
        s.contains(max_of(s)),
{
    crate::stats::lemma_percentile_index(s.len() as int, 100, 100);
    crate::stats::lemma_sorted_samples(s);
    assert(percentile_of(s, 100) == max_of(s));
    crate::stats::law_percentile_is_a_sample(s, 100);
    assert forall|j: int| 0 <= j < s.len() implies s[j] <= max_of(s) by {
        crate::stats::law_percentile_extremes(s, j);
    }
}

/// The entry's largest token count is at least the count of every row of its phase, and is
/// the count of one of them.
pub open spec fn max_is_largest_row(rows: Seq<(String, i64)>, entry: PhaseSummary) -> bool {
    &&& forall|i: int|
        0 <= i < rows.len() && #[trigger] rows[i].0@ == entry.phase ==> clamp_tokens(rows[i].1)
            <= entry.max_tokens
    &&& exists|i: int|
        0 <= i < rows.len() && #[trigger] rows[i].0@ == entry.phase && clamp_tokens(rows[i].1)
            == entry.max_tokens
}

/// In a phase table, each phase's largest token count is at least the count of every row
/// of that phase, and is the count of one of them.
pub proof fn law_phase_max_is_largest_row(rows: Seq<(String, i64)>, table: Seq<PhaseSummary>)
    requires
        is_phase_table(rows, table),
    ensures
        forall|k: int, i: int|
            0 <= k < table.len() && 0 <= i < rows.len() && #[trigger] rows[i].0@
                == #[trigger] table[k].phase ==> clamp_tokens(rows[i].1) <= table[k].max_tokens,
        forall|k: int|
            0 <= k < table.len() ==> exists|i: int|
                0 <= i < rows.len() && #[trigger] rows[i].0@ == table[k].phase && clamp_tokens(
                    rows[i].1,
                ) == #[trigger] table[k].max_tokens,
{
    assert forall|k: int| 0 <= k < table.len() implies max_is_largest_row(rows, #[trigger] table[k]) by {
        let p = table[k].phase;
        let s = samples_for(rows, p);
        assert(table[k] == phase_summary(p, s));
        lemma_samples_for_rows(rows, p);
        assert(has_phase(rows, p));
        let i0 = choose|i: int| 0 <= i < rows.len() && #[trigger] rows[i].0@ == p;
        assert(s.contains(clamp_tokens(rows[i0].1)));
        lemma_max_of(s);
        assert forall|i: int| 0 <= i < rows.len() && #[trigger] rows[i].0@ == p implies clamp_tokens(
            rows[i].1,
        ) <= table[k].max_tokens by {
            assert(s.contains(clamp_tokens(rows[i].1)));
            let j = choose|j: int| 0 <= j < s.len() && s[j] == clamp_tokens(rows[i].1);
        }
        assert(s.contains(max_of(s)));
    }
}

/// The lookback window starts the given number of whole days (at least one) of
/// 86 400 000 ms before the clock reading; the same reading with more days starts the
/// window earlier by exactly the extra days, and a later reading starts it later.
pub proof fn law_window_is_days_before_reading(
    ms: u128,
    before_epoch: bool,
    d1: u32,
    d2: u32,
    later_ms: u128,
)
    ensures
        clock_window(ms, before_epoch, d1) matches Some(w) ==> w == (if before_epoch {
            -(ms as int)
        } else {
            ms as int
        }) - (if d1 < 1 {
            1
        } else {
            d1 as int
        }) * 86_400_000,
        d1 >= 1 && d1 <= d2 && clock_window(ms, before_epoch, d1) is Some && clock_window(
            ms,
            before_epoch,
            d2,
        ) is Some ==> clock_window(ms, before_epoch, d1)->0 - clock_window(
            ms,
            before_epoch,
            d2,
        )->0 == (d2 - d1) * 86_400_000,
        ms < later_ms && clock_window(ms, false, d1) is Some && clock_window(later_ms, false, d1)
            is Some ==> clock_window(ms, false, d1)->0 < clock_window(later_ms, false, d1)->0,
{
}

} // verus!
