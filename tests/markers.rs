use leptos_reactive::{marker_span, HydrationContext, NodeMark, Runtime, SharedContext};

use NodeMark::{Close, Open, Plain};

#[test]
fn marker_span_stops_at_balancing_close() {
    let marks = vec![Open, Plain, Open, Plain, Close, Plain, Close, Plain];
    assert_eq!(marker_span(&marks), (6, 7));
}

#[test]
fn marker_span_without_balance_takes_everything() {
    let marks = vec![Open, Plain, Open, Close];
    assert_eq!(marker_span(&marks), (3, 4));
}

#[test]
fn marker_span_close_first_goes_negative() {
    let marks = vec![Close, Open, Close, Plain];
    assert_eq!(marker_span(&marks), (3, 4));
}

#[test]
fn get_next_marker_needs_a_session() {
    let mut rt = Runtime::new();
    let s = rt.alloc_scope(None);
    let marks = vec![Open, Close];
    assert_eq!(s.get_next_marker(&rt, &marks), (0, 0));
    s.next_hydration_key(&mut rt);
    assert_eq!(s.get_next_marker(&rt, &marks), (1, 2));
}

#[test]
fn get_next_element_draws_key_only_in_context() {
    let mut rt = Runtime::new();
    let s = rt.alloc_scope(None);
    assert_eq!(s.get_next_element(&mut rt), None);
    rt.shared_context = Some(SharedContext::new());
    assert_eq!(s.get_next_element(&mut rt), None);
    rt.shared_context.as_mut().unwrap().context = Some(HydrationContext::new());
    assert_eq!(s.get_next_element(&mut rt), Some("0".to_string()));
    assert_eq!(s.get_next_element(&mut rt), Some("1".to_string()));
    assert_eq!(s.next_hydration_key(&mut rt), "2");
}
