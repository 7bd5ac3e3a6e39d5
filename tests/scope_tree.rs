use leptos_reactive::{
    create_scope, run_scope, run_scope_undisposed, DisposalEvent, EffectId, ResourceId, Runtime,
    Scope, ScopeId, SignalId, StreamingResourceId,
};

fn cleanups(log: &[DisposalEvent]) -> Vec<u64> {
    log.iter()
        .filter_map(|e| match e {
            DisposalEvent::Cleanup { token } => Some(*token),
            _ => None,
        })
        .collect()
}

#[test]
fn disposal_cascade_runs_descendants_first() {
    let mut rt = Runtime::new();
    let root = rt.alloc_scope(None);
    let a = rt.alloc_scope(Some(root));
    let b = rt.alloc_scope(Some(a));
    rt.push_cleanup(root.id, 1);
    rt.push_cleanup(a.id, 2);
    rt.push_cleanup(b.id, 3);
    root.dispose(&mut rt);
    assert_eq!(cleanups(&rt.disposal_log), vec![3, 2, 1]);
    assert!(rt.scopes.is_empty());
}

#[test]
fn disposal_cascade_through_closures() {
    let (mut rt, disposer) = create_scope(|root: Scope, mut rt: Runtime| {
        rt.push_cleanup(root.id, 10);
        let _child = root.child_scope(&mut rt, |a: Scope, mut rt: Runtime| {
            rt.push_cleanup(a.id, 20);
            let _grandchild = a.child_scope(&mut rt, |b: Scope, mut rt: Runtime| {
                rt.push_cleanup(b.id, 30);
                rt
            });
            rt
        });
        rt
    });
    assert_eq!(rt.scopes.len(), 3);
    disposer.dispose(&mut rt);
    assert_eq!(cleanups(&rt.disposal_log), vec![30, 20, 10]);
    assert!(rt.scopes.is_empty());
}

#[test]
fn disposing_twice_runs_cleanups_once() {
    let (mut rt, disposer) = create_scope(|root: Scope, mut rt: Runtime| {
        rt.push_cleanup(root.id, 7);
        rt.push_cleanup(root.id, 8);
        rt
    });
    disposer.dispose(&mut rt);
    disposer.dispose(&mut rt);
    assert_eq!(cleanups(&rt.disposal_log), vec![7, 8]);
}

#[test]
fn cleanups_run_in_registration_order() {
    let mut rt = Runtime::new();
    let s = rt.alloc_scope(None);
    rt.push_cleanup(s.id, 1);
    rt.push_cleanup(s.id, 2);
    rt.push_cleanup(s.id, 3);
    s.dispose(&mut rt);
    assert_eq!(
        rt.disposal_log,
        vec![
            DisposalEvent::Cleanup { token: 1 },
            DisposalEvent::Cleanup { token: 2 },
            DisposalEvent::Cleanup { token: 3 },
        ]
    );
}

#[test]
fn effects_clear_dependencies_before_cleanups() {
    let mut rt = Runtime::new();
    let s = rt.alloc_scope(None);
    rt.push_cleanup(s.id, 9);
    assert_eq!(s.push_effect(&mut rt, 100), EffectId(0));
    assert_eq!(s.push_effect(&mut rt, 101), EffectId(1));
    s.dispose(&mut rt);
    assert_eq!(
        rt.disposal_log,
        vec![
            DisposalEvent::ClearDependencies { scope: s.id, effect: EffectId(0), node: 100 },
            DisposalEvent::ClearDependencies { scope: s.id, effect: EffectId(1), node: 101 },
            DisposalEvent::Cleanup { token: 9 },
        ]
    );
}

#[test]
fn signal_indices_are_stable() {
    let mut rt = Runtime::new();
    let s = rt.alloc_scope(None);
    for n in 0..5usize {
        let id = s.push_signal(&mut rt, 1000 + n as u64);
        assert_eq!(id, SignalId(n));
        assert_eq!(rt.scopes[&s.id.key].signals.get_copy(0), Some(1000));
    }
    let signals = &rt.scopes[&s.id.key].signals;
    let held: Vec<u64> = (0..signals.len()).filter_map(|i| signals.get_copy(i)).collect();
    assert_eq!(held, vec![1000, 1001, 1002, 1003, 1004]);
}

#[test]
fn push_into_disposed_scope_is_silent() {
    let mut rt = Runtime::new();
    let s = rt.alloc_scope(None);
    s.dispose(&mut rt);
    assert_eq!(s.push_signal(&mut rt, 5), SignalId(0));
    assert_eq!(s.push_resource(&mut rt, 5), ResourceId(0));
    rt.push_cleanup(s.id, 4);
    assert!(rt.scopes.is_empty());
    assert!(rt.disposal_log.is_empty());
}

#[test]
fn scope_keys_are_never_reused() {
    let mut rt = Runtime::new();
    let a = rt.alloc_scope(None);
    a.dispose(&mut rt);
    let b = rt.alloc_scope(None);
    assert_eq!(a.id(), ScopeId { key: 0 });
    assert_eq!(b.id(), ScopeId { key: 1 });
    assert!(!rt.scopes.contains_key(&a.id.key));
}

#[test]
fn untrack_restores_flag() {
    let mut rt = Runtime::new();
    let s = rt.alloc_scope(None);
    let seen = s.untrack(&mut rt, |mut inner: Runtime| {
        let was = inner.tracking_suppressed;
        inner.tracking_suppressed = false;
        (was, inner)
    });
    assert!(seen);
    assert!(!rt.tracking_suppressed);
    rt.tracking_suppressed = true;
    s.untrack(&mut rt, |mut inner: Runtime| {
        inner.tracking_suppressed = false;
        ((), inner)
    });
    assert!(rt.tracking_suppressed);
}

#[test]
fn context_shadowing() {
    let mut rt = Runtime::new();
    let root = rt.alloc_scope(None);
    let child = rt.alloc_scope(Some(root));
    let sibling = rt.alloc_scope(Some(root));
    rt.provide_context(root.id, 1, 11);
    rt.provide_context(child.id, 1, 22);
    assert_eq!(rt.use_context(child.id, 1), Some(22));
    assert_eq!(rt.use_context(root.id, 1), Some(11));
    assert_eq!(rt.use_context(sibling.id, 1), Some(11));
    assert_eq!(rt.use_context(sibling.id, 2), None);
    rt.provide_context(child.id, 1, 33);
    assert_eq!(rt.use_context(child.id, 1), Some(33));
}

#[test]
fn all_resources_lists_every_live_scope() {
    let mut rt = Runtime::new();
    let root = rt.alloc_scope(None);
    let child = rt.alloc_scope(Some(root));
    root.push_resource(&mut rt, 1);
    child.push_resource(&mut rt, 2);
    child.push_resource(&mut rt, 3);
    assert_eq!(
        root.all_resources(&rt),
        vec![
            StreamingResourceId { scope: root.id, resource: ResourceId(0) },
            StreamingResourceId { scope: child.id, resource: ResourceId(0) },
            StreamingResourceId { scope: child.id, resource: ResourceId(1) },
        ]
    );
    child.dispose(&mut rt);
    assert_eq!(
        root.all_resources(&rt),
        vec![StreamingResourceId { scope: root.id, resource: ResourceId(0) }]
    );
}

#[test]
fn run_scope_disposes_after_running() {
    let (v, rt) = run_scope(|s: Scope, mut rt: Runtime| {
        rt.push_cleanup(s.id, 1);
        let _c = s.child_scope(&mut rt, |c: Scope, mut rt: Runtime| {
            rt.push_cleanup(c.id, 2);
            rt
        });
        (s.id.key + 41, rt)
    });
    assert_eq!(v, 41);
    assert!(rt.scopes.is_empty());
    assert_eq!(cleanups(&rt.disposal_log), vec![2, 1]);
}

#[test]
fn run_scope_undisposed_leaves_scope_live() {
    let (v, mut rt, d) = run_scope_undisposed(|s: Scope, mut rt: Runtime| {
        rt.push_cleanup(s.id, 5);
        ("done", rt)
    });
    assert_eq!(v, "done");
    assert!(rt.scopes.contains_key(&d.id.key));
    d.dispose(&mut rt);
    assert_eq!(cleanups(&rt.disposal_log), vec![5]);
}

#[test]
fn runtime_run_scope_under_parent() {
    let mut rt = Runtime::new();
    let root = rt.alloc_scope(None);
    let v = rt.run_scope(
        |s: Scope, mut rt: Runtime| {
            rt.push_cleanup(s.id, 3);
            (s.id.key, rt)
        },
        Some(root),
    );
    assert_eq!(v, 1);
    assert_eq!(cleanups(&rt.disposal_log), vec![3]);
    assert_eq!(rt.scopes.len(), 1);
}
