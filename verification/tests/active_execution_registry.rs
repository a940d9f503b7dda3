use autonoetic_gateway::active_execution_registry::ActiveExecutionRegistry;

#[test]
fn pauses_are_answered_once() {
    let mut r: ActiveExecutionRegistry<u32> = ActiveExecutionRegistry::new();
    assert!(!r.is_pause_pending("root"));
    r.request_pause("root", "first");
    r.request_pause("root", "second");
    r.request_pause("other", "third");
    assert!(r.is_pause_pending("root"));
    assert_eq!(r.take_pause_request("root").as_deref(), Some("second"));
    assert_eq!(r.take_pause_request("root"), None);
    assert!(r.is_pause_pending("other"));
    r.clear_pause("other");
    assert!(!r.is_pause_pending("other"));
}

#[test]
fn tasks_are_aborted_by_workflow() {
    let mut r: ActiveExecutionRegistry<u32> = ActiveExecutionRegistry::new();
    r.register_workflow_task("wf", "a", 1);
    r.register_workflow_task("wf", "b", 2);
    r.register_workflow_task("wf2", "a", 3);
    r.unregister_workflow_task("wf", "b");
    let ids = vec!["b".to_string(), "a".to_string(), "a".to_string()];
    assert_eq!(r.abort_workflow_tasks("wf", &ids), vec![1]);
    assert!(r.abort_workflow_tasks("wf", &ids).is_empty());
    assert_eq!(r.abort_workflow_tasks("wf2", &ids), vec![3]);
}

#[test]
fn processes_are_killed_by_root_session() {
    let mut r: ActiveExecutionRegistry<u32> = ActiveExecutionRegistry::new();
    let a = r.register_sandbox_child_pid("root", 10);
    let b = r.register_sandbox_child_pid("root", 11);
    r.register_sandbox_child_pid("other", 12);
    assert!(a.starts_with("sb-"));
    assert_eq!(a.len(), 39);
    assert_ne!(a, b);
    r.unregister_sandbox_pid(&b);
    assert_eq!(r.kill_sandbox_children_for_root("root"), vec![10]);
    assert!(r.kill_sandbox_children_for_root("root").is_empty());
    assert_eq!(r.kill_sandbox_children_for_root("other"), vec![12]);
    assert_eq!(r.register_sandbox_child_pid_as("u", "root", 1), "sb-u");
}
