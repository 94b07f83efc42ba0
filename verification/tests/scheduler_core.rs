use cargo_lambda::scheduler::{
    InvokeRequest, RequestCache, RequestQueue, ResponseCache, SchedulerAction, SchedulerEvent,
    SupervisorAction, SupervisorEvent, function_startup_env, handle_spawn_failure, scheduler_step,
    supervisor_step, watch_command_args,
};

fn req(id: &str, func: &str) -> InvokeRequest {
    InvokeRequest {
        req_id: id.to_string(),
        function_name: func.to_string(),
        payload: format!("payload-{id}"),
    }
}

#[test]
fn queue_is_fifo_under_interleaving() {
    let mut q = RequestQueue::new();
    q.push(req("1", "a"));
    q.push(req("2", "a"));
    let first = q.pop().unwrap();
    assert_eq!(first.req_id, "1");
    q.push(req("3", "a"));
    assert_eq!(q.pop().unwrap().req_id, "2");
    assert_eq!(q.pop().unwrap().req_id, "3");
    assert!(q.pop().is_none());
}

#[test]
fn upsert_signals_newly_created_once() {
    let mut cache = RequestCache::new("127.0.0.1:9000".to_string());
    let created = cache.upsert(req("1", "a"));
    let (name, api) = created.expect("first upsert must signal newly created");
    assert_eq!(name, "a");
    assert_eq!(api, "127.0.0.1:9000/a");
    assert!(cache.upsert(req("2", "a")).is_none());
    assert!(cache.upsert(req("3", "a")).is_none());
}

#[test]
fn upsert_after_clean_is_newly_created_again() {
    let mut cache = RequestCache::new("addr".to_string());
    assert!(cache.upsert(req("1", "a")).is_some());
    cache.clean(&"a".to_string());
    assert!(cache.pop(&"a".to_string()).is_none());
    assert!(cache.upsert(req("2", "a")).is_some());
}

#[test]
fn clean_is_idempotent() {
    let mut cache = RequestCache::new("addr".to_string());
    cache.clean(&"missing".to_string());
    assert!(cache.upsert(req("1", "a")).is_some());
    cache.clean(&"a".to_string());
    cache.clean(&"a".to_string());
    assert!(cache.pop(&"a".to_string()).is_none());
}

#[test]
fn three_records_two_functions() {
    let mut cache = RequestCache::new("127.0.0.1:9000".to_string());
    let mut spawns = Vec::new();
    for r in [req("1", "a"), req("2", "a"), req("3", "b")] {
        if let Some((name, _api)) = cache.upsert(r) {
            spawns.push(name);
        }
    }
    assert_eq!(spawns, vec!["a".to_string(), "b".to_string()]);
    assert_eq!(cache.pop(&"a".to_string()).unwrap().req_id, "1");
    assert_eq!(cache.pop(&"a".to_string()).unwrap().req_id, "2");
    assert_eq!(cache.pop(&"b".to_string()).unwrap().req_id, "3");
    assert!(cache.pop(&"a".to_string()).is_none());
}

#[test]
fn pop_of_unknown_function_is_none() {
    let mut cache = RequestCache::new("addr".to_string());
    assert!(cache.pop(&"nope".to_string()).is_none());
}

#[test]
fn spawn_failure_clears_registry_entry() {
    let mut cache = RequestCache::new("addr".to_string());
    assert!(cache.upsert(req("1", "a")).is_some());
    handle_spawn_failure(&mut cache, &"a".to_string());
    assert!(cache.pop(&"a".to_string()).is_none());
    let retried = cache.upsert(req("2", "a"));
    assert!(retried.is_some(), "a later submit must trigger a fresh spawn");
}

#[test]
fn register_then_complete_delivers_exactly_the_response() {
    let mut router: ResponseCache<u32> = ResponseCache::new();
    router.push(&"id-1".to_string(), 41);
    let delivery = router.complete(&"id-1".to_string(), "the response".to_string());
    let (sender, response) = delivery.expect("a registered identity must be completed");
    assert_eq!(sender, 41);
    assert_eq!(response, "the response");
    assert!(router.complete(&"id-1".to_string(), "again".to_string()).is_none());
}

#[test]
fn complete_without_register_is_a_no_op() {
    let mut router: ResponseCache<u32> = ResponseCache::new();
    assert!(router.complete(&"ghostly".to_string(), "r".to_string()).is_none());
}

#[test]
fn router_replaces_sender_on_reregistration() {
    let mut router: ResponseCache<u32> = ResponseCache::new();
    router.push(&"id".to_string(), 1);
    router.push(&"id".to_string(), 2);
    assert_eq!(router.pop(&"id".to_string()), Some(2));
    assert_eq!(router.pop(&"id".to_string()), None);
}

#[test]
fn child_exit_while_queued_leaves_caller_unresolved() {
    let mut cache = RequestCache::new("addr".to_string());
    let mut router: ResponseCache<u32> = ResponseCache::new();
    assert!(cache.upsert(req("1", "a")).is_some());
    assert!(cache.upsert(req("2", "a")).is_none());
    router.push(&"2".to_string(), 7);
    assert_eq!(cache.pop(&"a".to_string()).unwrap().req_id, "1");
    let action = scheduler_step(&mut cache, SchedulerEvent::GarbageCollect("a".to_string()));
    assert!(matches!(action, SchedulerAction::Continue));
    assert!(cache.pop(&"a".to_string()).is_none(), "queue and entry must be gone");
    assert_eq!(
        router.pop(&"2".to_string()),
        Some(7),
        "the caller's channel must still be registered, never completed"
    );
}

#[test]
fn scheduler_step_spawns_only_new_functions() {
    let mut cache = RequestCache::new("host".to_string());
    match scheduler_step(&mut cache, SchedulerEvent::Invoke(req("1", "a"))) {
        SchedulerAction::SpawnFunction(name, api) => {
            assert_eq!(name, "a");
            assert_eq!(api, "host/a");
        }
        other => panic!("expected a spawn, got {other:?}"),
    }
    let action = scheduler_step(&mut cache, SchedulerEvent::Invoke(req("2", "a")));
    assert!(matches!(action, SchedulerAction::Continue));
    let action = scheduler_step(&mut cache, SchedulerEvent::Shutdown);
    assert!(matches!(action, SchedulerAction::Exit));
}

#[test]
fn shutdown_kills_child_without_gc_notification() {
    let action = supervisor_step(&"a".to_string(), &SupervisorEvent::Shutdown);
    assert!(matches!(action, SupervisorAction::KillChild));
}

#[test]
fn child_exit_reports_termination_exactly_once() {
    let action = supervisor_step(&"a".to_string(), &SupervisorEvent::ChildExited);
    match action {
        SupervisorAction::ReportTermination(name) => assert_eq!(name, "a"),
        SupervisorAction::KillChild => panic!("a natural exit must be reported"),
    }
}

#[test]
fn startup_env_carries_the_synthetic_identity() {
    let env = function_startup_env(
        &"my-func".to_string(),
        &"host/my-func".to_string(),
        &"debug".to_string(),
    );
    assert_eq!(env.len(), 5);
    assert_eq!(env[0], ("RUST_LOG".to_string(), "debug".to_string()));
    assert_eq!(env[1], ("AWS_LAMBDA_RUNTIME_API".to_string(), "host/my-func".to_string()));
    assert_eq!(env[2], ("AWS_LAMBDA_FUNCTION_NAME".to_string(), "my-func".to_string()));
    assert_eq!(env[3], ("AWS_LAMBDA_FUNCTION_VERSION".to_string(), "1".to_string()));
    assert_eq!(env[4], ("AWS_LAMBDA_FUNCTION_MEMORY_SIZE".to_string(), "4096".to_string()));
}

#[test]
fn watch_args_run_the_named_binary() {
    let args = watch_command_args(&"my-func".to_string());
    assert_eq!(args, vec!["watch", "--", "cargo", "run", "--bin", "my-func"]);
}
