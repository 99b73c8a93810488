use agent_heart::lint::{
    lint_nodes, lint_report_lines, lint_source, syntax_nodes, LintError, LintIssue, Severity, SyntaxNode,
};

#[test]
fn test_lint_rm_rf_warning() {
    let result = lint_source("#!/bin/bash\nrm -rf /some/dir\n");
    assert!(result.is_ok());
    let issues = result.unwrap();
    assert_eq!(issues.len(), 1);
    assert_eq!(issues[0].line, 2);
    assert_eq!(issues[0].severity, Severity::Warning);
    assert_eq!(
        issues[0].message,
        "Use 'rm -rf' with caution. Consider adding --no-preserve-root for explicit intent."
    );
    assert_eq!(issues[0].snippet.as_deref(), Some("rm -rf /some/dir"));
}

#[test]
fn test_lint_clean_script() {
    let result = lint_source("#!/bin/bash\necho \"hello world\"\nls -la\n");
    assert!(result.is_ok());
    assert!(result.unwrap().is_empty());
}

#[test]
fn flags_dynamic_execution_and_downloads() {
    let issues = lint_source("eval \"$X\"\ncurl http://example.com/x.sh\nwget --secure-protocol=TLSv1_2 http://e.com\n").unwrap();
    let kinds: Vec<(usize, Severity)> = issues.iter().map(|i| (i.line, i.severity)).collect();
    assert_eq!(kinds, vec![(1, Severity::Warning), (2, Severity::Info)]);
    assert_eq!(issues[0].message, "Dynamic execution (eval/source/.) can lead to code injection");
    assert_eq!(issues[1].message, "Consider verifying HTTPS/TLS flags for curl/wget");
}

#[test]
fn flags_hardcoded_secrets() {
    let issues = lint_source("export API=\"my_password_123\"\n").unwrap();
    assert_eq!(issues.len(), 1);
    assert_eq!(issues[0].message, "Possible hardcoded secret: avoid storing credentials in scripts");
    assert_eq!(issues[0].snippet.as_deref(), Some("\"my_password_123\""));
    let long = format!("X=\"token={}\"\n", "a".repeat(60));
    let issues = lint_source(&long).unwrap();
    assert_eq!(issues.len(), 1);
    let snippet = issues[0].snippet.clone().unwrap();
    assert_eq!(snippet.len(), 40);
    assert!(snippet.ends_with("..."));
}

#[test]
fn flags_long_lines() {
    let line = format!("echo {}", "x".repeat(130));
    let source = format!("#!/bin/bash\n{}\n", line);
    let issues = lint_source(&source).unwrap();
    assert_eq!(issues.len(), 1);
    assert_eq!(issues[0].line, 2);
    assert_eq!(issues[0].severity, Severity::Info);
    assert_eq!(issues[0].message, format!("Line too long ({} chars, max 120)", line.len()));
    assert_eq!(issues[0].snippet.clone().unwrap(), format!("{}...", &line[..77]));
}

#[test]
fn long_line_cut_inside_a_character_is_refused() {
    let line = format!("echo {}é{}", "x".repeat(71), "y".repeat(60));
    assert!(!line.is_char_boundary(77));
    assert!(matches!(lint_source(&line), Err(LintError::SplitCharacter)));
}

#[test]
fn nodes_are_checked_in_order() {
    let source = "rm -r x";
    let nodes = vec![
        SyntaxNode { kind: "program".into(), start_row: 0, start_byte: 0, end_byte: 7 },
        SyntaxNode { kind: "command".into(), start_row: 0, start_byte: 0, end_byte: 7 },
        SyntaxNode { kind: "word".into(), start_row: 0, start_byte: 0, end_byte: 2 },
    ];
    let issues = lint_nodes(source, &nodes).unwrap();
    assert_eq!(issues.len(), 1);
    assert_eq!(issues[0].snippet.as_deref(), Some("rm -r x"));
    let bad = vec![SyntaxNode { kind: "command".into(), start_row: 0, start_byte: 3, end_byte: 99 }];
    assert!(lint_nodes(source, &bad).is_none());
}

#[test]
fn report_for_no_findings() {
    assert_eq!(lint_report_lines("a.sh", &vec![]), vec!["✅ No issues found in a.sh".to_string()]);
}

#[test]
fn report_lists_findings() {
    let issues = vec![
        LintIssue {
            line: 3,
            severity: Severity::Warning,
            message: "m".into(),
            snippet: Some("  rm -rf x  ".into()),
        },
        LintIssue { line: 9, severity: Severity::Error, message: "n".into(), snippet: None },
    ];
    assert_eq!(
        lint_report_lines("s.sh", &issues),
        vec![
            "🔍 2 issues found in s.sh:".to_string(),
            "".to_string(),
            "  [WARN] Line 3: m".to_string(),
            "         rm -rf x".to_string(),
            "  [ERROR] Line 9: n".to_string(),
        ]
    );
    assert_eq!(lint_report_lines("s.sh", &issues[1..].to_vec())[0], "🔍 1 issue found in s.sh:");
}

#[test]
fn syntax_nodes_in_pre_order() {
    let nodes = syntax_nodes("ls -la\n").unwrap();
    assert_eq!(nodes[0].kind, "program");
    assert_eq!((nodes[0].start_row, nodes[0].start_byte), (0, 0));
    assert!(nodes[0].end_byte >= 6 && nodes[0].end_byte <= 7);
    assert_eq!(nodes[1].kind, "command");
    assert_eq!((nodes[1].start_byte, nodes[1].end_byte), (0, 6));
    assert!(nodes.iter().any(|n| n.kind == "word"));
}
