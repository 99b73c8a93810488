use agent_heart::brain_client::{
    binary_candidates, gc_outcome, home_candidates, which_candidate, BrainHandle,
};
use agent_heart::finetune::{merged_dataset_path, train_arguments};

#[test]
fn gc_command_needs_a_binary() {
    let h = BrainHandle::with_binary(None);
    assert_eq!(h.gc_command("0.3", 90), Err("agent-brain binary not found".to_string()));
    let h = BrainHandle::with_binary(Some("/usr/local/bin/agent-brain".into()));
    assert_eq!(
        h.gc_command("0.3", 90).unwrap(),
        vec!["/usr/local/bin/agent-brain", "gc", "--min-confidence", "0.3", "--max-age-days", "90"]
    );
    assert_eq!(h.binary().map(|s| s.as_str()), Some("/usr/local/bin/agent-brain"));
}

#[test]
fn candidate_locations() {
    assert_eq!(
        binary_candidates(Some("/opt/ab"), "agent-brain"),
        vec!["/opt/ab", "/usr/local/bin/agent-brain", "/opt/homebrew/bin/agent-brain"]
    );
    assert_eq!(
        binary_candidates(None, "agent-muscle"),
        vec!["/usr/local/bin/agent-muscle", "/opt/homebrew/bin/agent-muscle"]
    );
    assert_eq!(
        home_candidates("/home/u", "agent-brain"),
        vec!["/home/u/.cargo/bin/agent-brain", "/home/u/.local/bin/agent-brain"]
    );
    assert_eq!(which_candidate("  /usr/bin/agent-brain\n"), Some("/usr/bin/agent-brain".to_string()));
    assert_eq!(which_candidate(" \n"), None);
}

#[test]
fn dataset_location() {
    assert_eq!(merged_dataset_path(Some("/d/m.jsonl"), "/mem"), "/d/m.jsonl");
    assert_eq!(merged_dataset_path(None, "/mem"), "/mem/datasets/spine.merged.jsonl");
    assert_eq!(train_arguments("/d"), vec!["train", "--data", "/d"]);
}

#[test]
fn gc_outcome_reads_stats_or_explains_failure() {
    let ok = gc_outcome(true, "exit status: 0", b" {\"removed\": 3} ", "").unwrap();
    assert_eq!(ok["removed"], 3);
    assert!(gc_outcome(true, "exit status: 0", b"not json", "").is_err());
    assert!(gc_outcome(true, "exit status: 0", b"{} {}", "").is_err());
    assert_eq!(
        gc_outcome(false, "exit status: 2", b"{}", "boom").unwrap_err(),
        "agent-brain gc exited with exit status: 2: boom"
    );
}
