use agent_heart::config::{
    config_path, state_dir, BrainConfig, LoggingConfig, ScheduleConfig, ServerConfig, SpineConfig,
    TokenBudgetConfig,
};

#[test]
fn defaults() {
    let s = ScheduleConfig::default();
    assert_eq!(s.cron, "0 0 3 * * *");
    assert!(s.enabled);
    let t = TokenBudgetConfig::default();
    assert!(t.enabled);
    assert_eq!(t.max_tokens_per_route, 8000);
    assert_eq!(t.anomaly_multiplier_milli, 2500);
    assert_eq!(t.lookback_days, 7);
    assert_eq!(t.min_samples, 5);
    assert!(t.brain_db_path.is_none());
    assert_eq!(ServerConfig::default().port, 3101);
    assert_eq!(SpineConfig::default().url, "http://localhost:3100");
    let l = LoggingConfig::default();
    assert_eq!(l.level, "info");
    assert!(l.file.is_none());
    assert!(BrainConfig::default().binary_path.is_none());
}

#[test]
fn paths_under_home() {
    assert_eq!(config_path("/home/ann"), "/home/ann/.autonomic/config.toml");
    assert_eq!(config_path("/home/ann/"), "/home/ann/.autonomic/config.toml");
    assert_eq!(state_dir("/root"), "/root/.autonomic/state/heart");
    assert_eq!(config_path(""), ".autonomic/config.toml");
}
