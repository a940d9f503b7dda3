use autonoetic_gateway::code_excerpts::{
    build_code_excerpts, build_risk_summary, is_executable_source, language_from_path,
    script_code_excerpt, ArtifactFile, PromotionRecord, MAX_FILES, MAX_PER_FILE_BYTES,
};

#[test]
fn script_excerpt_passes_small_content_through() {
    let ex = script_code_excerpt(Some("/tmp/signal_self_test.py"), "print('hi')\n", "python")
        .expect("excerpt for non-empty content");
    assert_eq!(ex.file_name, "/tmp/signal_self_test.py");
    assert_eq!(ex.content, "print('hi')");
    assert_eq!(ex.language, "python");
    assert!(!ex.truncated);
    assert_eq!(ex.truncated_from_bytes, None);
    assert_eq!(ex.size_bytes, "print('hi')".len());
}

#[test]
fn script_excerpt_bounds_large_content_head_and_tail() {
    let body = format!("{}\n{}\n", "a".repeat(40_000), "b".repeat(40_000));
    let ex = script_code_excerpt(Some("/tmp/big.py"), &body, "python")
        .expect("excerpt for non-empty content");
    assert!(ex.truncated);
    assert_eq!(ex.truncated_from_bytes, Some(body.trim().len()));
    assert!(ex.content.contains("truncated"));
    assert!(ex.content.starts_with("aaaa"));
    assert!(ex.content.ends_with("bbbb"));
}

#[test]
fn script_excerpt_is_none_for_empty_content() {
    assert!(script_code_excerpt(Some("/tmp/s.py"), "   \n", "python").is_none());
}

#[test]
fn script_excerpt_language_hint_fills_unrecognized_extension() {
    let ex = script_code_excerpt(Some("/tmp/run_me"), "x = 1", "python")
        .expect("excerpt for non-empty content");
    assert_eq!(ex.language, "python");
}

#[test]
fn script_excerpt_never_panics_on_multibyte_boundary() {
    let body = "é".repeat(40_000);
    let ex = script_code_excerpt(Some("/tmp/unicode.py"), &body, "python")
        .expect("excerpt for non-empty content");
    assert!(ex.truncated);
}

#[test]
fn a_cut_script_says_how_much_is_missing() {
    let body = "x".repeat(MAX_PER_FILE_BYTES + 100);
    let ex = script_code_excerpt(None, &body, "bash").expect("an excerpt");
    assert_eq!(ex.file_name, "<inline>");
    assert!(ex.content.contains("…\n/* --- truncated 100 bytes --- */\n\n"));
    assert!(ex.content.len() < MAX_PER_FILE_BYTES);
}

fn file(name: &str, content: &[u8]) -> ArtifactFile {
    ArtifactFile { name: name.to_string(), content: content.to_vec() }
}

#[test]
fn artifact_excerpts_show_source_alone_and_at_most_the_limit() {
    assert!(build_code_excerpts(&vec![file("Test_main.py", b"pass")]).is_none());
    let mut files = vec![file("Cargo.lock", b"no code"), file("MAIN.PY", b"print(1)")];
    files.push(file("broken.py", b"x = '\xff'"));
    let found = build_code_excerpts(&files).expect("excerpts");
    assert_eq!(found.len(), 2);
    assert_eq!(found[0].file_name, "MAIN.PY");
    assert!(found[1].content.contains('\u{fffd}'));
    assert_eq!(found[1].size_bytes, 7);
    let many: Vec<ArtifactFile> = (0..10).map(|i| file(&format!("f{i}.py"), b"pass")).collect();
    assert_eq!(build_code_excerpts(&many).expect("excerpts").len(), MAX_FILES);
}

#[test]
fn endings_tell_the_language() {
    assert_eq!(language_from_path("a/b.mjs"), "javascript");
    assert_eq!(language_from_path("lib.rs"), "rust");
    assert_eq!(language_from_path("Makefile"), "text");
    assert!(is_executable_source("RUN.SH"));
    assert!(is_executable_source("data.csv"));
    assert!(!is_executable_source("src/Fixture.py"));
    assert!(!is_executable_source("my_SPEC.rb"));
    assert!(!is_executable_source("yarn.lock"));
    assert!(!is_executable_source(".env"));
}

#[test]
fn risks_are_summed_up() {
    assert!(build_risk_summary(None, None, "art-1", &vec![]).is_none());
    let files = vec![ArtifactFile {
        name: "main.py".to_string(),
        content: b"eval(x); requests.get('http://a:8080')\xff".to_vec(),
    }];
    let hosts = vec!["a:8080".to_string(), "b".to_string()];
    let record = PromotionRecord { auditor_pass: false, has_auditor_findings: true };
    let summary = build_risk_summary(Some(&hosts), Some(record), "art-1", &files).expect("risks");
    assert_eq!(summary.host_count, 2);
    assert_eq!(summary.protocol_mix, vec!["http", "custom_port", "multi_host"]);
    assert_eq!(summary.dangerous_patterns, vec!["eval/exec in main.py"]);
    assert_eq!(summary.auditor_verdict.as_deref(), Some("fail"));
    assert_eq!(summary.auditor_findings_link.as_deref(), Some("audit:art-1"));
}

#[test]
fn dangerous_patterns_are_named_once() {
    let long = format!("import base64, subprocess\n{}", "x".repeat(1024));
    let files = vec![
        ArtifactFile { name: "a.py".to_string(), content: long.into_bytes() },
        ArtifactFile { name: "b.py".to_string(), content: b"subprocess base64".to_vec() },
        ArtifactFile { name: "c.py".to_string(), content: b"https://x http://y".to_vec() },
    ];
    let pass = PromotionRecord { auditor_pass: true, has_auditor_findings: false };
    let summary = build_risk_summary(None, Some(pass), "art-2", &files).expect("risks");
    assert_eq!(
        summary.dangerous_patterns,
        vec!["base64 literal >1 KiB in a.py", "subprocess+base64 combo in b.py"]
    );
    assert_eq!(summary.protocol_mix, vec!["http", "https"]);
    assert_eq!(summary.auditor_verdict.as_deref(), Some("pass"));
    assert_eq!(summary.auditor_findings_link, None);
    let open = PromotionRecord { auditor_pass: false, has_auditor_findings: false };
    let summary = build_risk_summary(None, Some(open), "art-2", &vec![]).expect("a verdict");
    assert_eq!(summary.auditor_verdict.as_deref(), Some("unable_to_evaluate"));
}
