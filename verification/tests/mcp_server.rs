use agent_heart::mcp_server::default_max_age_days;

#[test]
fn default_max_age_days_is_90() {
    assert_eq!(default_max_age_days(), 90);
}
