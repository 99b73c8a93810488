use agent_heart::config::TokenBudgetConfig;
use agent_heart::stats::{anomaly_test, average, percentile};
use agent_heart::token_budget::{
    brain_db_path, check_budget, clamp_token_samples, deny, load_stats, lookback_since,
    window_from_clock,
    lookback_since_ms, normalize_phase, phase_stats, BudgetCheckRequest,
};
use rusqlite::Connection;
use std::path::Path;
use tempfile::TempDir;

fn seed_db(path: &Path) {
    let conn = Connection::open(path).unwrap();
    conn.execute_batch(
        r#"
        CREATE TABLE retrieval_log (
            id TEXT PRIMARY KEY,
            timestamp INTEGER NOT NULL,
            query_hash TEXT,
            phase TEXT NOT NULL,
            items_returned TEXT,
            tokens_used INTEGER NOT NULL,
            truncated INTEGER NOT NULL,
            cache_hit INTEGER NOT NULL,
            latency_ms INTEGER NOT NULL
        );
        "#,
    )
    .unwrap();
    let now = chrono::Utc::now().timestamp_millis();
    for (i, tokens) in [(100, 120), (101, 150), (102, 900), (103, 130)] {
        conn.execute(
            "INSERT INTO retrieval_log (id, timestamp, query_hash, phase, items_returned, tokens_used, truncated, cache_hit, latency_ms) VALUES (?1, ?2, 'q', 'implementing', '[]', ?3, 0, 0, 1)",
            (i.to_string(), now, tokens),
        )
        .unwrap();
    }
}

/// Reads the phase's token counts within the window, as the daemon does.
fn phase_samples(path: &Path, days: u32, phase: &str) -> Vec<u64> {
    let conn = Connection::open(path).unwrap();
    let since = lookback_since_ms(days).unwrap();
    let mut stmt = conn
        .prepare(
            "SELECT tokens_used FROM retrieval_log WHERE timestamp >= ?1 AND phase != 'upstream_call' AND phase = ?2 ORDER BY tokens_used ASC",
        )
        .unwrap();
    let raw: Vec<i64> = stmt
        .query_map((since, phase), |row| row.get::<_, i64>(0))
        .unwrap()
        .map(|r| r.unwrap())
        .collect();
    clamp_token_samples(&raw)
}

#[test]
fn blocks_anomaly_spike() {
    let dir = TempDir::new().unwrap();
    let db = dir.path().join("brain.db");
    seed_db(&db);
    let config = TokenBudgetConfig {
        enabled: true,
        max_tokens_per_route: 5000,
        anomaly_multiplier_milli: 2000,
        lookback_days: 7,
        min_samples: 2,
        brain_db_path: Some(db.display().to_string()),
    };
    let phase = normalize_phase("implementing");
    let samples = phase_samples(&db, 1, &phase);
    let resp = check_budget(
        &config,
        &BudgetCheckRequest {
            phase: "implementing".into(),
            estimated_tokens: 5000,
            task_kind: None,
        },
        &db.display().to_string(),
        Some(&samples),
    );
    assert!(!resp.allowed);
    assert!(resp.frozen);
}

#[test]
fn allows_normal_request() {
    let dir = TempDir::new().unwrap();
    let db = dir.path().join("brain.db");
    seed_db(&db);
    let config = TokenBudgetConfig::default();
    let mut config = config;
    config.brain_db_path = Some(db.display().to_string());
    let phase = normalize_phase("implementing");
    let samples = phase_samples(&db, 1, &phase);
    let resp = check_budget(
        &config,
        &BudgetCheckRequest {
            phase: "implementing".into(),
            estimated_tokens: 140,
            task_kind: None,
        },
        &db.display().to_string(),
        Some(&samples),
    );
    assert!(resp.allowed);
}

fn request(tokens: u64) -> BudgetCheckRequest {
    BudgetCheckRequest {
        phase: "implementing".into(),
        estimated_tokens: tokens,
        task_kind: None,
    }
}

fn config(milli: u64, ceiling: u64) -> TokenBudgetConfig {
    TokenBudgetConfig {
        enabled: true,
        max_tokens_per_route: ceiling,
        anomaly_multiplier_milli: milli,
        lookback_days: 7,
        min_samples: 5,
        brain_db_path: None,
    }
}

#[test]
fn disabled_budget_allows_everything() {
    let mut c = config(2000, 10);
    c.enabled = false;
    let resp = check_budget(&c, &request(1_000_000), "/x/brain.db", None);
    assert!(resp.allowed);
    assert!(!resp.frozen);
    assert_eq!(resp.ceiling, 10);
    assert_eq!(resp.sample_count, 0);
    assert_eq!(resp.reason, "token budget disabled");
}

#[test]
fn missing_database_allows_cold_start_within_ceiling() {
    let resp = check_budget(&config(2000, 10), &request(10), "/x/brain.db", None);
    assert!(resp.allowed);
    assert_eq!(
        resp.reason,
        "brain.db not found at /x/brain.db — allowing cold start"
    );
}

#[test]
fn ceiling_applies_on_cold_start() {
    let resp = check_budget(&config(2000, 10), &request(11), "/x/brain.db", None);
    assert!(!resp.allowed);
    assert!(resp.frozen);
    assert_eq!(resp.sample_count, 0);
    assert_eq!(resp.reason, "estimated 11 tokens exceeds hard ceiling 10");
}

#[test]
fn ceiling_denial_reason() {
    let samples = vec![120u64, 150, 900, 130];
    let resp = check_budget(&config(2000, 5000), &request(5001), "db", Some(&samples));
    assert!(!resp.allowed);
    assert!(resp.frozen);
    assert_eq!(resp.predicted_p95, 900);
    assert_eq!(resp.predicted_avg, 325);
    assert_eq!(resp.sample_count, 4);
    assert_eq!(resp.reason, "estimated 5001 tokens exceeds hard ceiling 5000");
}

#[test]
fn anomaly_denial_reason() {
    let samples = vec![120u64, 150, 900, 130];
    let resp = check_budget(&config(2000, 5000), &request(5000), "db", Some(&samples));
    assert!(!resp.allowed);
    assert_eq!(
        resp.reason,
        "estimated 5000 tokens exceeds the 24 h mean (325) by more than 2.0 standard deviations — possible runaway LLM usage"
    );
}

#[test]
fn z_score_boundary() {
    // mean 325, population standard deviation 332.15: 2 deviations above is 989.3.
    let samples = vec![120u64, 150, 900, 130];
    let resp = check_budget(&config(2000, 5000), &request(989), "db", Some(&samples));
    assert!(resp.allowed);
    assert_eq!(resp.reason, "within predicted token budget");
    let resp = check_budget(&config(2000, 5000), &request(990), "db", Some(&samples));
    assert!(!resp.allowed);
    // mean 200, standard deviation 100: 700 is 5 deviations above, over 2.5.
    let resp = check_budget(&config(2500, 8000), &request(700), "db", Some(&vec![100, 300]));
    assert!(!resp.allowed);
    // 450 is 2.5 deviations above: not over.
    let resp = check_budget(&config(2500, 8000), &request(450), "db", Some(&vec![100, 300]));
    assert!(resp.allowed);
    let resp = check_budget(&config(2500, 8000), &request(451), "db", Some(&vec![100, 300]));
    assert!(!resp.allowed);
}

#[test]
fn multiplier_label_rounds_to_tenths() {
    let samples = vec![100u64, 300];
    let resp = check_budget(&config(2449, 8000), &request(5000), "db", Some(&samples));
    assert!(resp.reason.contains("by more than 2.4 standard deviations"));
    let resp = check_budget(&config(2450, 8000), &request(5000), "db", Some(&samples));
    assert!(resp.reason.contains("by more than 2.5 standard deviations"));
    let resp = check_budget(&config(12345, 8000), &request(5000), "db", Some(&samples));
    assert!(resp.reason.contains("by more than 12.3 standard deviations"));
}

#[test]
fn history_without_spread_checks_only_ceiling() {
    let resp = check_budget(&config(2500, 8000), &request(7000), "db", Some(&vec![100, 100, 100]));
    assert!(resp.allowed);
    assert_eq!(resp.reason, "within predicted token budget");
    let resp = check_budget(&config(2500, 8000), &request(7000), "db", Some(&vec![]));
    assert!(resp.allowed);
    assert_eq!(resp.sample_count, 0);
}

#[test]
fn zero_estimate_counts_as_one_token() {
    let samples = vec![1u64, 1, 1];
    let resp = check_budget(&config(2500, 0), &request(0), "db", Some(&samples));
    assert!(!resp.allowed);
    assert_eq!(resp.reason, "estimated 1 tokens exceeds hard ceiling 0");
}

#[test]
fn larger_estimates_stay_denied() {
    let samples = vec![120u64, 150, 900, 130];
    for e in [990u64, 2000, 4000, 5000, 6000] {
        let resp = check_budget(&config(2000, 5000), &request(e), "db", Some(&samples));
        assert!(!resp.allowed, "estimate {e}");
    }
}

#[test]
fn history_order_does_not_matter() {
    let a = vec![120u64, 150, 900, 130];
    let b = vec![900u64, 130, 120, 150];
    for e in [500u64, 989, 990, 2000] {
        let ra = check_budget(&config(2000, 5000), &request(e), "db", Some(&a));
        let rb = check_budget(&config(2000, 5000), &request(e), "db", Some(&b));
        assert_eq!(ra.allowed, rb.allowed);
        assert_eq!(ra.predicted_p95, rb.predicted_p95);
        assert_eq!(ra.predicted_avg, rb.predicted_avg);
        assert_eq!(ra.reason, rb.reason);
    }
}

#[test]
fn anomaly_test_on_large_terms() {
    assert!(anomaly_test(&[120, 150, 900, 130], 990, 2000));
    assert!(!anomaly_test(&[120, 150, 900, 130], 989, 2000));
    // Terms far beyond 128 bits: mean 2^61, deviation 2^61, estimate 3 deviations above.
    let unit = 1u64 << 61;
    assert!(anomaly_test(&[0, 2 * unit], 4 * unit, 2999));
    assert!(!anomaly_test(&[0, 2 * unit], 4 * unit, 3000));
    // Many zero samples and one large one: the largest estimate is √100000 ≈ 316.23
    // deviations above the mean.
    let mut many = vec![0u64; 100_000];
    many.push(u64::MAX);
    assert!(anomaly_test(&many, u64::MAX, 316_000));
    assert!(!anomaly_test(&many, u64::MAX, 317_000));
}

#[test]
fn disabled_budget_takes_any_history() {
    let mut c = config(2500, 10);
    c.enabled = false;
    let resp = check_budget(&c, &request(u64::MAX), "db", Some(&vec![u64::MAX, u64::MAX]));
    assert!(resp.allowed);
}

#[test]
fn huge_estimate_over_ceiling_is_denied() {
    let resp = check_budget(&config(2500, 8000), &request(u64::MAX), "db", Some(&vec![7]));
    assert!(!resp.allowed);
    assert_eq!(resp.reason, format!("estimated {} tokens exceeds hard ceiling 8000", u64::MAX));
}

#[test]
fn deny_freezes() {
    let r = deny(1, 2, 3, 4, "no".to_string());
    assert!(!r.allowed);
    assert!(r.frozen);
    assert_eq!((r.predicted_p95, r.predicted_avg, r.sample_count, r.ceiling), (1, 2, 3, 4));
    assert_eq!(r.reason, "no");
}

#[test]
fn percentile_nearest_rank() {
    let v = [120u64, 150, 900, 130];
    assert_eq!(percentile(&v, 95), 900);
    assert_eq!(percentile(&v, 50), 130);
    assert_eq!(percentile(&v, 0), 120);
    assert_eq!(percentile(&v, 100), 900);
    assert_eq!(percentile(&v, 255), 900);
    assert_eq!(percentile(&[], 95), 0);
    let w: Vec<u64> = (1..=20).collect();
    assert_eq!(percentile(&w, 95), 19);
    assert_eq!(percentile(&w, 96), 20);
    assert_eq!(percentile(&w, 5), 1);
    assert_eq!(percentile(&w, 6), 2);
}

#[test]
fn average_rounds_down() {
    assert_eq!(average(&[120, 150, 900, 130]), 325);
    assert_eq!(average(&[1, 2]), 1);
    assert_eq!(average(&[]), 0);
    assert_eq!(average(&[u64::MAX]), u64::MAX);
}

#[test]
fn phase_is_trimmed_and_lowercased() {
    assert_eq!(normalize_phase("  Implementing \n"), "implementing");
    assert_eq!(normalize_phase("REVIEW"), "review");
    assert_eq!(normalize_phase("   "), "implementing");
    assert_eq!(normalize_phase(""), "implementing");
    assert_eq!(normalize_phase("\u{3000}Plan\u{a0}"), "plan");
}

#[test]
fn lookback_window() {
    assert_eq!(lookback_since(1_000_000_000, 7), 1_000_000_000 - 7 * 86_400_000);
    assert_eq!(lookback_since(1_000_000_000, 0), 1_000_000_000 - 86_400_000);
    assert_eq!(lookback_since(0, 1), -86_400_000);
    assert_eq!(window_from_clock(1_000, false, 1), Some(1_000 - 86_400_000));
    assert_eq!(window_from_clock(1_000, true, 2), Some(-1_000 - 2 * 86_400_000));
    assert_eq!(window_from_clock(i64::MAX as u128, false, 1), Some(i64::MAX - 86_400_000));
    assert_eq!(window_from_clock(i64::MAX as u128 + 86_400_000, false, 1), Some(i64::MAX));
    assert_eq!(window_from_clock(i64::MAX as u128 + 86_400_001, false, 1), None);
    assert_eq!(window_from_clock(i64::MAX as u128, true, 1), None);
    assert_eq!(window_from_clock(u128::MAX, true, 1), None);
    let now = chrono::Utc::now().timestamp_millis();
    let since = lookback_since_ms(2).unwrap();
    assert!(since <= now - 2 * 86_400_000 + 5_000);
    assert!(since >= now - 2 * 86_400_000 - 5_000);
}

#[test]
fn negative_token_counts_become_zero() {
    assert_eq!(clamp_token_samples(&vec![-5, 0, 7, i64::MAX]), vec![0, 0, 7, i64::MAX as u64]);
}

#[test]
fn brain_db_default_location() {
    let c = config(2500, 8000);
    assert_eq!(brain_db_path(&c, "/home/u/.autonomic/memory"), "/home/u/.autonomic/memory/brain.db");
    assert_eq!(brain_db_path(&c, "/mem/"), "/mem/brain.db");
    let mut c2 = c.clone();
    c2.brain_db_path = Some("/data/b.db".into());
    assert_eq!(brain_db_path(&c2, "/mem"), "/data/b.db");
}

#[test]
fn phase_table_is_sorted_and_grouped() {
    let rows = vec![
        ("review".to_string(), 10i64),
        ("implementing".to_string(), 300),
        ("review".to_string(), -4),
        ("Implementing".to_string(), 7),
        ("implementing".to_string(), 100),
    ];
    let table = phase_stats(&rows);
    let names: Vec<&str> = table.iter().map(|s| s.phase.as_str()).collect();
    assert_eq!(names, vec!["Implementing", "implementing", "review"]);
    assert_eq!(table[1].sample_count, 2);
    assert_eq!(table[1].avg_tokens, 200);
    assert_eq!(table[1].p95_tokens, 300);
    assert_eq!(table[1].max_tokens, 300);
    assert_eq!(table[2].sample_count, 2);
    assert_eq!(table[2].avg_tokens, 5);
    assert_eq!(table[2].max_tokens, 10);
    assert_eq!(table[0].max_tokens, 7);
}

#[test]
fn stats_report_covers_all_rows() {
    let rows = vec![
        ("b".to_string(), 4i64),
        ("a".to_string(), 2),
        ("b".to_string(), 6),
    ];
    let report = load_stats(&config(2500, 8000), "/db", &rows);
    assert_eq!(report.brain_db, "/db");
    assert_eq!(report.lookback_days, 7);
    assert_eq!(report.global_avg_tokens, 4);
    assert_eq!(report.global_p95_tokens, 6);
    assert_eq!(report.phases.len(), 2);
    assert_eq!(report.phases[0].phase, "a");
    assert_eq!(report.phases[1].avg_tokens, 5);
}
