use autonoetic_gateway::content_store::{
    root_session_id, safe_relative_path, ContentError, ContentStore, ContentVisibility,
    GLOBAL_SESSION_ID, SHORT_ALIAS_LEN,
};

#[test]
fn test_content_store_write_and_read() {
    let mut store = ContentStore::new();

    let content = b"Hello, World!";
    let handle = store.write(content);

    assert!(handle.starts_with("sha256:"));
    assert_eq!(store.read(&handle).unwrap(), content);
}

#[test]
fn project_live_rejects_unsafe_session_id() {
    let store = ContentStore::new();
    for bad in ["../escape", "/abs", "..", ""] {
        assert!(
            store.project_live(bad, &vec![]).is_err(),
            "unsafe session_id {bad:?} must be rejected"
        );
    }
}

#[test]
fn safe_relative_path_classifies_correctly() {
    assert!(safe_relative_path("config.yaml"));
    assert!(safe_relative_path("src/main.rs"));
    assert!(safe_relative_path("./a"));
    assert!(safe_relative_path("root/agent.coder"));
    assert!(!safe_relative_path(""));
    assert!(!safe_relative_path("."));
    assert!(!safe_relative_path(".."));
    assert!(!safe_relative_path("../x"));
    assert!(!safe_relative_path("/abs"));
}

#[test]
fn test_content_store_deduplication() {
    let mut store = ContentStore::new();

    let content = b"Same content";
    let handle1 = store.write(content);
    let handle2 = store.write(content);

    assert_eq!(handle1, handle2);
}

#[test]
fn test_content_store_session_manifest() {
    let mut store = ContentStore::new();

    let content = b"Script content";
    let handle = store.write(content);

    store
        .register_name("session-1", "main.py", &handle);

    let resolved = store.resolve_name("session-1", "main.py").unwrap();
    assert_eq!(resolved, handle);

    let content_back = store.read_by_name("session-1", "main.py").unwrap();
    assert_eq!(content_back, content);
}

#[test]
fn test_content_store_read_by_name_or_handle() {
    let mut store = ContentStore::new();

    let content = b"Test content";
    let handle = store.write(content);
    store
        .register_name("session-1", "test.txt", &handle);


    let by_name = store
        .read_by_name_or_handle("session-1", "test.txt", &vec![])
        .unwrap();
    assert_eq!(by_name, content);


    let by_handle = store.read_by_name_or_handle("session-1", &handle, &vec![]).unwrap();
    assert_eq!(by_handle, content);

    let alias = ContentStore::get_short_alias(&handle);
    let by_cnt = store
        .read_by_name_or_handle("session-1", &format!("cnt_{}", alias), &vec![])
        .unwrap();
    assert_eq!(by_cnt, content);
}

#[test]
fn test_resolve_name_or_handle_to_handle_matches_read() {
    let mut store = ContentStore::new();

    let content = b"resolve probe";
    let handle = store.write(content);
    store.register_name("session-1", "f.py", &handle);
    let short = ContentStore::get_short_alias(&handle);
    let cnt_ref = format!("cnt_{}", short);

    for probe in ["f.py", handle.as_str(), cnt_ref.as_str(), short.as_str()] {
        let h = store
            .resolve_name_or_handle_to_handle("session-1", probe, &vec![])
            .unwrap();
        assert_eq!(store.read(&h).unwrap(), content);
        assert_eq!(
            store.read_by_name_or_handle("session-1", probe, &vec![]).unwrap(),
            content
        );
    }
}

#[test]
fn every_form_of_a_reference_reads_the_content() {
    let mut store = ContentStore::new();
    let handle = store.write(b"all forms");
    store.register_name("session-1", "notes and plans.md", &handle);
    assert_eq!(handle.len(), 71);
    let alias = ContentStore::get_short_alias(&handle);
    assert_eq!(alias.as_str(), &handle[7..15]);
    let forms = vec![
        "notes and plans.md".to_string(),
        handle.clone(),
        alias.clone(),
        format!("cnt_{alias}"),
        format!("cnt:{alias}"),
        format!("sha256:{alias}"),
    ];
    for form in forms {
        let probes = vec![
            form.clone(),
            format!("  {form}"),
            format!("{form}\n"),
            format!("\t{form} \u{a0}"),
        ];
        for probe in probes {
            assert_eq!(
                store.resolve_name_or_handle_to_handle("session-1", &probe, &vec![]).unwrap(),
                handle,
                "{probe:?}"
            );
            assert_eq!(
                store.read_by_name_or_handle("session-1", &probe, &vec![]).unwrap(),
                b"all forms"
            );
        }
    }
}

#[test]
fn test_root_session_visibility() {
    let mut store = ContentStore::new();

    let parent_session = "demo-session";
    let child_session = "demo-session/coder-abc123";

    store
        .set_root_session(child_session, parent_session);


    let content = b"print('Hello from coder')";
    let handle = store.write(content);
    store
        .register_name_with_visibility(
            child_session,
            "weather.py",
            &handle,
            ContentVisibility::Session,
        );


    let child_read = store
        .read_by_name_or_handle(child_session, "weather.py", &vec![])
        .unwrap();
    assert_eq!(child_read, content);


    let parent_read = store
        .read_by_name_or_handle(parent_session, "weather.py", &vec![])
        .unwrap();
    assert_eq!(parent_read, content);


    let parent_read_handle = store
        .read_by_name_or_handle(parent_session, &handle, &vec![])
        .unwrap();
    assert_eq!(parent_read_handle, content);


    let short_alias = ContentStore::get_short_alias(&handle);
    let parent_read_alias = store
        .read_by_name_or_handle(parent_session, &short_alias, &vec![])
        .unwrap();
    assert_eq!(parent_read_alias, content);
}

#[test]
fn test_private_visibility_isolates_from_root() {
    let mut store = ContentStore::new();

    let parent_session = "demo-session";
    let child_session = "demo-session/coder-abc123";

    store
        .set_root_session(child_session, parent_session);


    let content = b"private scratchpad";
    let handle = store.write(content);
    store
        .register_name_with_visibility(
            child_session,
            "scratch.txt",
            &handle,
            ContentVisibility::Private,
        );


    let child_read = store
        .read_by_name_or_handle(child_session, "scratch.txt", &vec![])
        .unwrap();
    assert_eq!(child_read, content);


    let parent_attempt = store.read_by_name_or_handle(parent_session, "scratch.txt", &vec![]);
    assert!(parent_attempt.is_err());
}

#[test]
fn test_sibling_session_visibility() {
    let mut store = ContentStore::new();

    let parent_session = "demo-session";
    let child1_session = "demo-session/coder-abc";
    let child2_session = "demo-session/coder-def";

    store
        .set_root_session(child1_session, parent_session);
    store
        .set_root_session(child2_session, parent_session);


    let content1 = b"child1 output";
    let handle1 = store.write(content1);
    store
        .register_name_with_visibility(
            child1_session,
            "output.py",
            &handle1,
            ContentVisibility::Session,
        );


    let child2_read = store
        .read_by_name_or_handle(child2_session, "output.py", &vec![])
        .unwrap();
    assert_eq!(child2_read, content1);


    let content2 = b"child1 private";
    let handle2 = store.write(content2);
    store
        .register_name_with_visibility(
            child1_session,
            "draft.py",
            &handle2,
            ContentVisibility::Private,
        );


    let child2_attempt = store.read_by_name_or_handle(child2_session, "draft.py", &vec![]);
    assert!(child2_attempt.is_err());
}

#[test]
fn test_root_session_last_writer_wins() {
    let mut store = ContentStore::new();

    let parent_session = "demo-session";
    let child1_session = "demo-session/coder-abc";
    let child2_session = "demo-session/coder-def";

    store
        .set_root_session(child1_session, parent_session);
    store
        .set_root_session(child2_session, parent_session);


    let content1 = b"first version";
    let handle1 = store.write(content1);
    store
        .register_name_with_visibility(
            child1_session,
            "output.txt",
            &handle1,
            ContentVisibility::Session,
        );

    let content2 = b"second version";
    let handle2 = store.write(content2);
    store
        .register_name_with_visibility(
            child2_session,
            "output.txt",
            &handle2,
            ContentVisibility::Session,
        );


    let root_read = store
        .read_by_name_or_handle(parent_session, "output.txt", &vec![])
        .unwrap();
    assert_eq!(root_read, content2);


    let child1_read = store
        .read_by_name_or_handle(child1_session, "output.txt", &vec![])
        .unwrap();
    assert_eq!(child1_read, content1);

    let child2_read = store
        .read_by_name_or_handle(child2_session, "output.txt", &vec![])
        .unwrap();
    assert_eq!(child2_read, content2);
}

#[test]
fn test_content_store_list_names() {
    let mut store = ContentStore::new();

    let h1 = store.write(b"file1");
    let h2 = store.write(b"file2");

    store.register_name("session-1", "a.txt", &h1);
    store.register_name("session-1", "b.txt", &h2);

    let names = store.list_names("session-1");
    assert_eq!(names, vec!["a.txt", "b.txt"]);
}

#[test]
fn test_content_store_stats() {
    let mut store = ContentStore::new();

    store.write(b"content1");
    store.write(b"content2");
    store.write(b"content1");

    let stats = store.stats();
    assert_eq!(stats.entry_count, 2);
    assert!(stats.total_size_bytes > 0);
}

#[test]
fn test_content_store_short_alias() {
    let mut store = ContentStore::new();

    let content = b"test content for alias";
    let handle = store.write(content);
    store
        .register_name("session-1", "test.txt", &handle);


    let short_alias = ContentStore::get_short_alias(&handle);
    assert_eq!(short_alias.len(), SHORT_ALIAS_LEN);
    assert!(short_alias.chars().all(|c| c.is_ascii_hexdigit()));


    let result = store
        .read_by_name_or_handle("session-1", &short_alias, &vec![])
        .unwrap();
    assert_eq!(result, content);


    let result2 = store.read_by_name_or_handle("session-1", &handle, &vec![]).unwrap();
    assert_eq!(result2, content);
}

#[test]
fn test_root_session_id_helper() {
    assert_eq!(root_session_id("demo-session"), "demo-session");
    assert_eq!(
        root_session_id("demo-session/coder.default-abc"),
        "demo-session"
    );
    assert_eq!(root_session_id("a/b/c"), "a");
}

#[test]
fn list_with_handles_and_visibility_then_read_round_trip() {




    let mut store = ContentStore::new();
    let session = "root-session-content";

    let h1 = store.write(b"# title\n\nbody of draft one");
    store
        .register_name_with_visibility(
            session,
            "skills/weather/SKILL.md",
            &h1,
            ContentVisibility::Session,
        );
    let h2 = store.write(b"SECRET-LIKE");
    store
        .register_name_with_visibility(
            session,
            "config/secrets.yaml",
            &h2,
            ContentVisibility::Private,
        );


    let listed = store.list_names_with_handles(session);
    assert_eq!(listed.len(), 2, "both drafts should be listed from t=0");
    let names: Vec<&str> = listed.iter().map(|e| e.name.as_str()).collect();
    assert_eq!(
        names,
        vec!["config/secrets.yaml", "skills/weather/SKILL.md"]
    );


    let manifest = store.load_manifest(session).unwrap();
    let vis_for = |name: &str| -> &'static str {
        let handle = &listed.iter().find(|e| e.name == name).unwrap().handle;
        match manifest
            .visibility
            .get(handle)
            .copied()
            .unwrap_or(ContentVisibility::Session)
        {
            ContentVisibility::Private => "private",
            ContentVisibility::Session => "session",
            ContentVisibility::Global => "global",
        }
    };
    assert_eq!(vis_for("config/secrets.yaml"), "private");
    assert_eq!(vis_for("skills/weather/SKILL.md"), "session");


    let one = store
        .read_by_name_or_handle(session, "skills/weather/SKILL.md", &vec![])
        .unwrap();
    assert_eq!(
        String::from_utf8_lossy(&one),
        "# title\n\nbody of draft one"
    );
    let two = store
        .read_by_name_or_handle(session, "config/secrets.yaml", &vec![])
        .unwrap();
    assert_eq!(String::from_utf8_lossy(&two), "SECRET-LIKE");
}

#[test]
fn global_manifest_probe_for_cross_session_visibility() {





    let mut store = ContentStore::new();
    let child = "root-x/child-a";

    let h = store.write(b"shared");
    store
        .register_name_with_visibility(child, "shared/lib.py", &h, ContentVisibility::Global);


    let child_manifest = store.load_manifest(child).unwrap();
    assert_eq!(
        child_manifest.visibility.get(&h).copied(),
        Some(ContentVisibility::Global)
    );




    let global_manifest = store
        .load_manifest(GLOBAL_SESSION_ID)
        .expect("global manifest must exist after a global register");
    let global_handles: std::collections::HashSet<String> = (0..global_manifest.names.len())
        .map(|i| global_manifest.names.value_at(i).clone())
        .collect();
    assert!(
        global_handles.contains(&h),
        "the global manifest must record the handle for cross-session probes"
    );

    let got = store
        .read_by_name_or_handle(child, "shared/lib.py", &vec![])
        .unwrap();
    assert_eq!(got, b"shared");
}

#[test]
fn resolve_handle_then_read_succeeds_for_named_entry() {





    let mut store = ContentStore::new();
    let sid = "root-rs";
    let h = store.write(b"body-of-draft");
    store
        .register_name_with_visibility(sid, "notes.md", &h, ContentVisibility::Session);

    let resolved = store
        .resolve_name_or_handle_to_handle(sid, "notes.md", &vec![])
        .expect("name must resolve");
    assert_eq!(resolved, h);

    let bytes = store.read_by_name_or_handle(sid, &resolved, &vec![]).unwrap();
    assert_eq!(bytes, b"body-of-draft");

    let err = store
        .resolve_name_or_handle_to_handle(sid, "missing.md", &vec![])
        .err()
        .expect("missing name must fail to resolve");
    assert!(
        err.message().contains("missing.md")
            || err.message().to_lowercase().contains("not found"),
        "resolve error should mention the missing name; got: {}",
        err.message()
    );
}

fn shown<'a>(files: &'a [autonoetic_gateway::content_store::LiveFile], name: &str) -> Option<&'a [u8]> {
    files.iter().find(|f| f.name == name).map(|f| f.content.as_slice())
}

#[test]
fn project_live_materializes_drafts_refreshes_and_skips_unsafe_names() {
    let mut store = ContentStore::new();
    let session = "root-proj";

    let h1 = store.write(b"port: 8080\n");
    let h2 = store.write(b"fn main() {}\n");
    store.register_name(session, "config.yaml", &h1);
    store.register_name(session, "src/main.rs", &h2);
    store.register_name(session, "../escape.txt", &h1);
    store.register_name(session, "", &h1);
    store.register_name(session, ".", &h1);

    let written = store.project_live(session, &vec![]).unwrap();
    assert_eq!(written.len(), 2);
    assert!(!written.iter().any(|f| f.name.contains("..")), "unsafe name must be skipped");
    assert_eq!(shown(&written, "config.yaml"), Some(b"port: 8080\n".as_slice()));
    assert_eq!(shown(&written, "src/main.rs"), Some(b"fn main() {}\n".as_slice()));

    store.cleanup_session(session);
    store.register_name(session, "only.txt", &h2);
    let written2 = store.project_live(session, &vec![]).unwrap();
    assert_eq!(written2.len(), 1);
    assert_eq!(written2[0].name, "only.txt");
    assert!(shown(&written2, "config.yaml").is_none(), "stale file should be cleared");
}

#[test]
fn project_live_reports_the_first_name_that_cannot_be_read() {
    let mut store = ContentStore::new();
    let kept = store.write(b"kept");
    let first = format!("sha256:{}", "a".repeat(64));
    let second = format!("sha256:{}", "b".repeat(64));
    store.register_name("s", "a.txt", &kept);
    store.register_name("s", "b.txt", &first);
    store.register_name("s", "c.txt", &second);
    store.register_name("s", "../d.txt", &second);
    match store.project_live("s", &vec![]) {
        Err(ContentError::Missing { handle }) => assert_eq!(handle, first),
        _ => panic!("the content is missing"),
    }
    store.register_name("s", "b.txt", &"no-handle".to_string());
    match store.project_live("s", &vec![]) {
        Err(e) => {
            let expected = store.read_by_name_or_handle("s", "no-handle", &vec![]).unwrap_err();
            assert_eq!(e.message(), expected.message());
        }
        Ok(_) => panic!("the name stands for nothing"),
    }
}

#[test]
fn test_manifest_updates_merge_across_store_instances() {
    let mut store1 = ContentStore::new();
    let h1 = store1.write(b"first");
    store1.register_name("session-1", "a.txt", &h1);

    let mut store2 = ContentStore { blobs: store1.blobs, manifests: store1.manifests };
    let h2 = store2.write(b"second");
    store2.register_name("session-1", "b.txt", &h2);

    let manifest = store2.load_manifest("session-1").unwrap();
    assert_eq!(manifest.names.get("a.txt"), Some(&h1));
    assert_eq!(manifest.names.get("b.txt"), Some(&h2));
}

#[test]
fn test_root_session_preserved_across_instances() {
    let child = "demo-session/coder-123";
    let parent = "demo-session";

    let mut store1 = ContentStore::new();
    store1.set_root_session(child, parent);

    let mut store2 = ContentStore { blobs: store1.blobs, manifests: store1.manifests };
    let h = store2.write(b"print('hi')");
    store2.register_name(child, "weather.py", &h);

    let manifest = store2.load_manifest(child).unwrap();
    assert_eq!(manifest.root_session_id.as_deref(), Some(parent));
    assert_eq!(manifest.names.get("weather.py"), Some(&h));
}

#[test]
fn handles_are_digests_and_name_their_files() {
    let handle = ContentStore::compute_handle(b"");
    assert_eq!(
        handle,
        "sha256:e3b0c44298fc1c149afbf4c8996fb92427ae41e4649b934ca495991b7852b855"
    );
    assert_eq!(ContentStore::handle_to_short_alias(&handle), "e3b0c442");
    assert_eq!(
        ContentStore::blob_path(&handle),
        Some((
            "e3".to_string(),
            "b0c44298fc1c149afbf4c8996fb92427ae41e4649b934ca495991b7852b855".to_string()
        ))
    );
    assert_eq!(ContentStore::blob_path("x"), None);
    assert_eq!(ContentStore::handle_to_short_alias("plain"), "plain");
    assert_eq!(ContentStore::handle_to_short_alias("sha256:ab"), "sha256:ab");
}

#[test]
fn what_is_missing_is_reported() {
    let mut store = ContentStore::new();
    assert_eq!(store.read("sha256:00").unwrap_err().message(), "Content not found: sha256:00");
    assert_eq!(
        store.resolve_name("s", "a").unwrap_err().message(),
        "Content name 'a' not found in session 's'"
    );
    assert_eq!(
        store.resolve_name_with_root("s", "a", &vec![]).unwrap_err().message(),
        "Content name 'a' not found in session 's', root session, or siblings"
    );
    assert_eq!(
        store.resolve_name_or_handle_to_handle("s", "cnt_00000000", &vec![]).unwrap_err().message(),
        "Content alias '00000000' not found in session 's', root session, or global"
    );
    assert_eq!(
        store.resolve_name_or_handle_to_handle("s", " sha256:123 ", &vec![]).unwrap_err().message(),
        "Content handle 'sha256:123' is not visible in session 's' or its root session"
    );
    assert_eq!(
        store.project_live("../x", &vec![]).unwrap_err().message(),
        "unsafe session_id for live projection: \"../x\""
    );
    let h = store.write(&[0xff, 0xfe]);
    assert!(matches!(store.read_string(&h), Err(ContentError::NotText { .. })));
    let h = store.write("grün".as_bytes());
    assert_eq!(store.read_string(&h).unwrap(), "grün");
    assert!(store.is_stored(&h));
    assert!(!store.is_stored("sha256:00"));
}

#[test]
fn siblings_are_searched_after_the_root() {
    let mut store = ContentStore::new();
    store.set_root_session("root/me", "root");
    let h = store.write(b"x");
    store.register_name("other", "x.txt", &h);
    assert!(store.resolve_name_with_root("root/me", "x.txt", &vec![]).is_err());
    let siblings = vec!["".to_string(), "root".to_string(), "other".to_string()];
    assert_eq!(store.resolve_name_with_root("root/me", "x.txt", &siblings).unwrap(), h);
}

#[test]
fn names_are_found_by_their_handle() {
    let mut store = ContentStore::new();
    store.set_root_session("root/a", "root");
    let h = store.write(b"x");
    store.register_name_with_visibility("root/a", "z.txt", &h, ContentVisibility::Global);
    store.register_name("root", "a.txt", &h);
    assert_eq!(store.find_names_for_handle("root/a", &h), vec!["a.txt", "z.txt"]);
    assert_eq!(store.find_names_for_handle("elsewhere", &h), vec!["z.txt"]);
    assert!(store.is_handle_visible("elsewhere", &h));
    assert!(!store.is_handle_visible("elsewhere", "sha256:00"));
    assert_eq!(store.cleanup_session("root"), 2);
}

#[test]
fn skill_resources_are_imported_under_their_path() {
    let mut store = ContentStore::new();
    let name = store.import_resource("s", "scripts", "run.sh", b"echo hi");
    assert_eq!(name, "scripts/run.sh");
    assert_eq!(store.read_by_name("s", "scripts/run.sh").unwrap(), b"echo hi");
    assert_eq!(store.stats().total_size_bytes, 7);
}
