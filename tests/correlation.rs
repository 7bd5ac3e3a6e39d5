use leptos_reactive::{HydrationContext, PendingFragment, Runtime, SharedContext};

fn keys(n: usize) -> Vec<String> {
    let mut rt = Runtime::new();
    let s = rt.alloc_scope(None);
    (0..n).map(|_| s.next_hydration_key(&mut rt)).collect()
}

#[test]
fn two_runs_pair_keys() {
    let a = keys(3);
    let b = keys(3);
    assert_eq!(a, vec!["0".to_string(), "1".to_string(), "2".to_string()]);
    assert_eq!(a, b);
}

#[test]
fn keys_are_decimal() {
    let k = keys(13);
    assert_eq!(k[10], "10");
    assert_eq!(k[12], "12");
}

#[test]
fn first_key_starts_a_session() {
    let mut rt = Runtime::new();
    let s = rt.alloc_scope(None);
    assert!(!s.is_hydrating(&rt));
    s.next_hydration_key(&mut rt);
    assert!(s.is_hydrating(&rt));
}

#[test]
fn fragment_key_follows_the_counter() {
    let mut rt = Runtime::new();
    let s = rt.alloc_scope(None);
    assert_eq!(s.current_fragment_key(&rt), "0f");
    s.next_hydration_key(&mut rt);
    s.next_hydration_key(&mut rt);
    assert_eq!(s.current_fragment_key(&rt), "2f");
    for _ in 0..10 {
        s.next_hydration_key(&mut rt);
    }
    assert_eq!(s.current_fragment_key(&rt), "12f");
}

#[test]
fn with_next_context_swaps_and_restores() {
    let mut rt = Runtime::new();
    let s = rt.alloc_scope(None);
    let mut sc = SharedContext::new();
    sc.context = Some(HydrationContext { prefix: "4-".to_string(), children: 2, count: 0 });
    rt.shared_context = Some(sc);
    let inner = s.with_next_context(&mut rt, |r: Runtime| {
        let c = r.shared_context.as_ref().unwrap().context.clone();
        let t = r.tracking_suppressed;
        ((c, t), r)
    });
    assert_eq!(
        inner,
        (Some(HydrationContext { prefix: "4-2-".to_string(), children: 0, count: 0 }), true)
    );
    assert_eq!(
        rt.shared_context.as_ref().unwrap().context,
        Some(HydrationContext { prefix: "4-".to_string(), children: 3, count: 0 })
    );
    assert!(!rt.tracking_suppressed);
}

#[test]
fn with_next_context_without_context_just_untracks() {
    let mut rt = Runtime::new();
    let s = rt.alloc_scope(None);
    let t = s.with_next_context(&mut rt, |r: Runtime| (r.tracking_suppressed, r));
    assert!(t);
    assert!(rt.shared_context.is_none());
}

#[test]
fn end_hydration_clears_context() {
    let mut rt = Runtime::new();
    let s = rt.alloc_scope(None);
    let mut sc = SharedContext::new();
    sc.context = Some(HydrationContext::new());
    rt.shared_context = Some(sc);
    s.end_hydration(&mut rt);
    assert!(rt.shared_context.as_ref().unwrap().context.is_none());
}

#[test]
fn suspense_registry_replaces_and_drains() {
    let mut rt = Runtime::new();
    let s = rt.alloc_scope(None);
    s.register_suspense(&mut rt, "a".to_string(), 1, 50);
    assert!(s.pending_fragments(&mut rt).is_empty());
    assert_eq!(rt.scopes[&s.id.key].effects.len(), 0);
    s.next_hydration_key(&mut rt);
    s.register_suspense(&mut rt, "a".to_string(), 1, 51);
    s.register_suspense(&mut rt, "b".to_string(), 2, 52);
    s.register_suspense(&mut rt, "a".to_string(), 3, 53);
    let effects = &rt.scopes[&s.id.key].effects;
    let watchers: Vec<u64> = (0..effects.len()).filter_map(|i| effects.get_copy(i)).collect();
    assert_eq!(watchers, vec![51, 52, 53]);
    let taken = s.pending_fragments(&mut rt);
    assert_eq!(
        taken,
        vec![
            PendingFragment { key: "a".to_string(), resolver: 3 },
            PendingFragment { key: "b".to_string(), resolver: 2 },
        ]
    );
    assert!(s.pending_fragments(&mut rt).is_empty());
}

fn draw(rt: &mut Runtime, s: leptos_reactive::Scope, n: usize) -> Vec<String> {
    (0..n).map(|_| s.next_hydration_key(rt)).collect()
}

#[test]
fn nested_keys_are_namespaced() {
    for inner_draws in [0usize, 1, 2] {
        let mut rt = Runtime::new();
        let s = rt.alloc_scope(None);
        let mut sc = SharedContext::new();
        sc.context = Some(HydrationContext::new());
        rt.shared_context = Some(sc);
        assert_eq!(s.next_hydration_key(&mut rt), "0");
        let inner = s.with_next_context(&mut rt, |mut r: Runtime| {
            let ks = draw(&mut r, s, inner_draws);
            (ks, r)
        });
        let expected: Vec<String> = (0..inner_draws).map(|i| format!("0-{}", i)).collect();
        assert_eq!(inner, expected);
        assert_eq!(s.next_hydration_key(&mut rt), "1");
        assert_eq!(rt.shared_context.as_ref().unwrap().id, 0);
    }
}
