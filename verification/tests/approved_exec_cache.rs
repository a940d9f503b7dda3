use autonoetic_gateway::approved_exec_cache::{
    cache_ttl_secs, capability_digest, compute_fingerprint, extract_host_from_url, is_expired,
    normalize_targets, ApprovedExecCache, ApprovedExecCacheBackfill, ApprovedExecEntry,
    DetectedPattern, DetectedPatternCategory, DEFAULT_GRANT_TTL_SECS,
};
use autonoetic_gateway::clock::Instant;
use autonoetic_gateway::textmap::TextMap;

const TTL: u64 = DEFAULT_GRANT_TTL_SECS;

fn pattern(category: DetectedPatternCategory, pattern: &str, line: usize, reason: &str) -> DetectedPattern {
    DetectedPattern {
        category,
        pattern: pattern.to_string(),
        line_number: Some(line),
        reason: reason.to_string(),
    }
}

fn list(items: &[&str]) -> Vec<String> {
    items.iter().map(|s| s.to_string()).collect()
}

#[test]
fn test_normalize_targets_urls() {
    let patterns = vec![
        pattern(DetectedPatternCategory::UrlLiteral, "https://api.example.com/v1/data", 1, "URL literal"),
        pattern(DetectedPatternCategory::UrlLiteral, "https://status.github.com/api", 2, "URL literal"),
    ];
    let targets = normalize_targets(&patterns);
    assert_eq!(targets, vec!["api.example.com", "status.github.com"]);
}

#[test]
fn test_normalize_targets_dedup() {
    let patterns = vec![
        pattern(DetectedPatternCategory::UrlLiteral, "https://api.example.com/v1", 1, "URL literal"),
        pattern(DetectedPatternCategory::UrlLiteral, "https://api.example.com/v2", 2, "URL literal"),
    ];
    let targets = normalize_targets(&patterns);
    assert_eq!(targets, vec!["api.example.com"]);
}

#[test]
fn test_normalize_targets_ip() {
    let patterns = vec![pattern(DetectedPatternCategory::IpAddress, "192.168.1.100", 1, "IP address")];
    let targets = normalize_targets(&patterns);
    assert_eq!(targets, vec!["192.168.1.100"]);
}

#[test]
fn test_normalize_targets_skips_imports() {
    let patterns = vec![
        pattern(DetectedPatternCategory::Import, "import requests", 1, "HTTP client"),
        pattern(DetectedPatternCategory::UrlLiteral, "https://api.example.com/data", 2, "URL literal"),
    ];
    let targets = normalize_targets(&patterns);
    assert_eq!(targets, vec!["api.example.com"]);
}

#[test]
fn test_compute_fingerprint_deterministic() {
    let fp1 = compute_fingerprint("agent.id", &list(&["host.com"]), "code", None, &vec![]);
    let fp2 = compute_fingerprint("agent.id", &list(&["host.com"]), "code", None, &vec![]);
    assert_eq!(fp1, fp2);
    assert!(fp1.starts_with("sha256:"));
}

#[test]
fn test_compute_fingerprint_different_agents() {
    let fp1 = compute_fingerprint("agent.a", &list(&["host.com"]), "code", None, &vec![]);
    let fp2 = compute_fingerprint("agent.b", &list(&["host.com"]), "code", None, &vec![]);
    assert_ne!(fp1, fp2);
}

#[test]
fn test_compute_fingerprint_different_code() {
    let fp1 = compute_fingerprint("agent.id", &list(&["host.com"]), "code_a", None, &vec![]);
    let fp2 = compute_fingerprint("agent.id", &list(&["host.com"]), "code_b", None, &vec![]);
    assert_ne!(fp1, fp2);
}

#[test]
fn test_compute_fingerprint_different_targets() {
    let fp1 = compute_fingerprint("agent.id", &list(&["host_a.com"]), "code", None, &vec![]);
    let fp2 = compute_fingerprint("agent.id", &list(&["host_b.com"]), "code", None, &vec![]);
    assert_ne!(fp1, fp2);
}

#[test]
fn test_compute_fingerprint_artifact_stable_across_code_changes() {
    let fp1 = compute_fingerprint(
        "agent.id",
        &list(&["wttr.in"]),
        "python3 -c 'old wrapper'",
        Some("art-abc123"),
        &vec![],
    );
    let fp2 = compute_fingerprint(
        "agent.id",
        &list(&["wttr.in"]),
        "python3 /tmp/main.py",
        Some("art-abc123"),
        &vec![],
    );
    assert_eq!(
        fp1, fp2,
        "same artifact_id + targets should produce same fingerprint regardless of code"
    );
}

#[test]
fn test_compute_fingerprint_artifact_differs_from_code() {
    let fp_artifact =
        compute_fingerprint("agent.id", &list(&["host.com"]), "code", Some("art-123"), &vec![]);
    let fp_code = compute_fingerprint("agent.id", &list(&["host.com"]), "code", None, &vec![]);
    assert_ne!(fp_artifact, fp_code, "artifact and code fingerprints should differ");
}

#[test]
fn test_compute_fingerprint_different_artifacts() {
    let fp1 = compute_fingerprint("agent.id", &list(&["host.com"]), "code", Some("art-1"), &vec![]);
    let fp2 = compute_fingerprint("agent.id", &list(&["host.com"]), "code", Some("art-2"), &vec![]);
    assert_ne!(fp1, fp2);
}

const NARROW: &str = r#"{"type":"NetworkAccess","hosts":["api.open-meteo.com"]}"#;
const WIDE: &str = r#"{"type":"NetworkAccess","hosts":["api.open-meteo.com","evil.example.com"]}"#;

#[test]
fn capability_change_changes_fingerprint() {
    let narrow = list(&[NARROW]);
    let wide = list(&[WIDE]);
    let targets = list(&["api.open-meteo.com"]);
    let fp_narrow = compute_fingerprint("agent.id", &targets, "code", None, &narrow);
    let fp_wide = compute_fingerprint("agent.id", &targets, "code", None, &wide);
    assert_ne!(fp_narrow, fp_wide);
    let fp_narrow_again = compute_fingerprint("agent.id", &targets, "code", None, &narrow);
    assert_eq!(fp_narrow, fp_narrow_again);
}

#[test]
fn capability_digest_is_order_independent() {
    let net = r#"{"type":"NetworkAccess","hosts":["x"]}"#;
    let exec = r#"{"type":"CodeExecution","patterns":["*"],"commands":[]}"#;
    assert_eq!(
        capability_digest(&list(&[net, exec])),
        capability_digest(&list(&[exec, net])),
        "digest must not depend on capability ordering"
    );
}

#[test]
fn test_extract_host_from_url() {
    assert_eq!(
        extract_host_from_url("https://api.example.com/v1/forecast"),
        Some("api.example.com".to_string())
    );
    assert_eq!(
        extract_host_from_url("http://192.168.1.1:8080/api"),
        Some("192.168.1.1".to_string())
    );
    assert_eq!(
        extract_host_from_url("https://status.github.com"),
        Some("status.github.com".to_string())
    );
}

fn entry_with_age(approved_at: chrono::DateTime<chrono::Utc>) -> ApprovedExecEntry {
    ApprovedExecEntry {
        fingerprint: "sha256:test".to_string(),
        agent_id: "agent.id".to_string(),
        remote_targets: vec!["host.com".to_string()],
        code_content: "code".to_string(),
        approval_request_id: "apr-test".to_string(),
        approved_at: approved_at.to_rfc3339(),
        approved_by: "operator".to_string(),
        last_used_at: approved_at.to_rfc3339(),
    }
}

#[test]
fn find_expires_entries_past_ttl() {
    let mut cache = ApprovedExecCache::new(TextMap::new());
    let old = chrono::Utc::now() - chrono::Duration::seconds(TTL as i64 + 3600);
    cache.record(entry_with_age(old));

    assert!(cache.find("sha256:test", TTL).is_none());
    assert_eq!(cache.len(), 0, "expired entry must be pruned");
}

#[test]
fn find_returns_entries_within_ttl() {
    let mut cache = ApprovedExecCache::new(TextMap::new());
    let recent = chrono::Utc::now() - chrono::Duration::seconds(TTL as i64 / 2);
    cache.record(entry_with_age(recent));

    assert!(cache.find("sha256:test", TTL).is_some());
    assert_eq!(cache.len(), 1);
}

#[test]
fn find_ttl_zero_never_expires() {
    let mut cache = ApprovedExecCache::new(TextMap::new());
    let ancient = chrono::Utc::now() - chrono::Duration::days(365);
    cache.record(entry_with_age(ancient));

    assert!(
        cache.find("sha256:test", 0).is_some(),
        "ttl 0 disables expiry, matching default_grant_ttl_secs = 0"
    );
}

#[test]
fn find_unparseable_approved_at_fails_closed() {
    let mut cache = ApprovedExecCache::new(TextMap::new());
    let mut entry = entry_with_age(chrono::Utc::now());
    entry.approved_at = "not-a-timestamp".to_string();
    cache.record(entry);

    assert!(
        cache.find("sha256:test", TTL).is_none(),
        "corrupt timestamp must not mint a permanent bypass"
    );
    assert_eq!(cache.len(), 0);
}

#[test]
fn cache_ttl_secs_aligns_with_grant_config() {
    assert_eq!(cache_ttl_secs(Some(3600)), 3600);
    assert_eq!(cache_ttl_secs(None), DEFAULT_GRANT_TTL_SECS);
}

fn backfill_for(ttl_secs: u64) -> ApprovedExecCacheBackfill {
    ApprovedExecCacheBackfill {
        fingerprint: "sha256:test".to_string(),
        agent_id: "agent.id".to_string(),
        remote_targets: vec!["host.com".to_string()],
        code_content: "code".to_string(),
        approval_request_id: "apr-fresh".to_string(),
        ttl_secs,
    }
}

#[test]
fn backfill_replaces_an_expired_entry() {
    let mut cache = ApprovedExecCache::new(TextMap::new());
    let old = chrono::Utc::now() - chrono::Duration::seconds(TTL as i64 + 3600);
    cache.record(entry_with_age(old));

    backfill_for(TTL).record_if_missing(&mut cache);

    let entry = cache
        .find("sha256:test", TTL)
        .expect("re-approval must be cached under a current timestamp");
    assert_eq!(entry.approval_request_id, "apr-fresh");
}

#[test]
fn backfill_leaves_a_live_entry_untouched() {
    let mut cache = ApprovedExecCache::new(TextMap::new());
    let recent = chrono::Utc::now() - chrono::Duration::seconds(TTL as i64 / 2);
    cache.record(entry_with_age(recent));

    backfill_for(TTL).record_if_missing(&mut cache);

    let entry = cache.find("sha256:test", TTL).expect("live entry survives");
    assert_eq!(entry.approval_request_id, "apr-test");
}

#[test]
fn fingerprints_have_their_exact_value() {
    assert_eq!(
        compute_fingerprint("agent.id", &list(&["host.com"]), "code", None, &vec![]),
        "sha256:2a18f93771a21e8f7825f9ec6808275a2815b07049845543b7e32d98aaa46c00"
    );
    assert_eq!(capability_digest(&list(&["b", "a"])), "cf6ab613e3942391f88ed698557e1680f160bd10e88c6b668c50360c10930e2b");
}

#[test]
fn hosts_lose_their_case_their_final_dot_and_their_port() {
    assert_eq!(extract_host_from_url("HTTPS://API.Example.com./x"), Some("api.example.com".to_string()));
    assert_eq!(extract_host_from_url("ftp://example.com"), Some("example.com".to_string()));
    assert_eq!(extract_host_from_url("://example.com"), None);
    assert_eq!(extract_host_from_url("no url at all"), None);
}

#[test]
fn an_approval_expires_exactly_past_its_time() {
    let at = |secs: i64| Instant { secs, nanos: 0 };
    assert!(!is_expired(Some(at(100)), 10, at(109)));
    assert!(is_expired(Some(at(100)), 10, at(110)));
    assert!(!is_expired(Some(at(100)), 0, at(1_000_000)));
    assert!(is_expired(None, 10, at(0)));
}

#[test]
fn removed_and_cleared_approvals_are_gone() {
    let mut cache = ApprovedExecCache::new(TextMap::new());
    cache.record(entry_with_age(chrono::Utc::now()));
    assert!(!cache.remove("sha256:other"));
    assert!(cache.remove("sha256:test"));
    cache.record(entry_with_age(chrono::Utc::now()));
    assert_eq!(cache.clear(), 1);
    assert_eq!(cache.len(), 0);
}

#[test]
fn use_refreshes_the_time_of_use_alone() {
    let mut cache = ApprovedExecCache::new(TextMap::new());
    let mut entry = entry_with_age(chrono::Utc::now());
    entry.last_used_at = "before".to_string();
    let approved_at = entry.approved_at.clone();
    cache.record(entry);
    cache.update_last_used_at("sha256:test", "later");
    let all = cache.all();
    assert_eq!(all.len(), 1);
    assert_eq!(all[0].last_used_at, "later");
    assert_eq!(all[0].approved_at, approved_at);
    cache.update_last_used("sha256:test");
    let used = cache.all().remove(0).last_used_at;
    assert!(chrono::DateTime::parse_from_rfc3339(&used).is_ok(), "{used}");
    assert!(used.contains('T') && used.ends_with("+00:00"), "{used}");
}

#[test]
fn undated_approvals_give_way() {
    let mut cache = ApprovedExecCache::new(TextMap::new());
    let mut entry = entry_with_age(chrono::Utc::now());
    entry.approved_at = "not-a-timestamp".to_string();
    cache.record(entry);
    backfill_for(0).record_if_missing(&mut cache);
    assert_eq!(cache.all()[0].approval_request_id, "apr-test");
    backfill_for(TTL).record_if_missing(&mut cache);
    let kept = cache.all().remove(0);
    assert_eq!(kept.approval_request_id, "apr-fresh");
    assert!(kept.approved_at.ends_with("+00:00"));
    assert_eq!(kept.approved_at, kept.last_used_at);
}

#[test]
fn hosts_are_those_of_the_url_pattern() {
    let re = regex::Regex::new(r"(?i)^[a-z]+://([^/:]+)").unwrap();
    for url in [
        "https://api.example.com/v1",
        "HTTP://192.168.1.1:8080/api",
        "ftp://Host.:21",
        "://host",
        "h1://host",
        "http:/host",
        "http://",
        "http:///path",
        "http://:80",
        "x https://host",
        "\u{17f}cheme://host",
        "\u{212a}eys://host",
        "http://ho\nst/x",
        "http://ü.example",
    ] {
        let expected = re
            .captures(url)
            .and_then(|c| c.get(1))
            .map(|m| m.as_str().trim_end_matches('.').to_ascii_lowercase());
        assert_eq!(extract_host_from_url(url), expected, "{url}");
    }
}
