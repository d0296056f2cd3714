use hydration::suspense::SuspenseContext;

#[test]
fn suspense_resolves_to_zero() {
    let mut cx = SuspenseContext::new();
    assert!(cx.ready());
    assert!(cx.has_local_only());

    cx.increment(true);
    cx.increment(false);
    // Before the deferred effects run, nothing is visibly pending.
    assert!(cx.ready());
    assert_eq!(cx.pending_resources(), 0);

    cx.flush_deferred();
    assert_eq!(cx.pending_resources(), 2);
    assert_eq!(cx.pending_serializable_resources(), 1);
    assert!(!cx.has_local_only());
    assert!(!cx.ready());

    cx.decrement(true);
    cx.decrement(false);
    cx.flush_deferred();
    assert_eq!(cx.pending_resources(), 0);
    assert!(cx.ready());
}

#[test]
fn underflow_is_clamped_at_zero() {
    let mut cx = SuspenseContext::new();
    cx.decrement(true);
    cx.decrement(false);
    cx.decrement(false);
    cx.flush_deferred();
    assert_eq!(cx.pending_resources(), 0);
    assert_eq!(cx.pending_serializable_resources(), 0);
    assert!(cx.ready());
}

#[test]
fn out_of_order_resolution_stays_non_negative() {
    let mut cx = SuspenseContext::new();
    cx.decrement(false);
    cx.increment(false);
    cx.increment(true);
    cx.decrement(true);
    cx.flush_deferred();
    assert_eq!(cx.pending_resources(), 1);
    assert_eq!(cx.pending_serializable_resources(), 0);
    assert!(!cx.ready());
}

#[test]
fn disposed_boundary_reports_not_ready() {
    let mut cx = SuspenseContext::new();
    assert!(cx.ready());
    cx.dispose();
    assert!(!cx.ready());
    // Callbacks queued against a torn-down boundary are disabled.
    cx.increment(true);
    cx.flush_deferred();
    assert_eq!(cx.pending_resources(), 0);
    assert_eq!(cx.pending_serializable_resources(), 0);
}

#[test]
fn should_block_is_sticky() {
    let mut cx = SuspenseContext::new();
    assert!(!cx.should_block());
    cx.set_should_block();
    assert!(cx.should_block());
    cx.increment(false);
    cx.flush_deferred();
    cx.decrement(false);
    cx.flush_deferred();
    assert!(cx.should_block());
}

#[test]
fn has_local_only_clears_on_serializable_registration() {
    let mut cx = SuspenseContext::new();
    assert!(cx.has_local_only());
    cx.increment(false);
    cx.flush_deferred();
    assert!(cx.has_local_only());
    cx.increment(true);
    cx.flush_deferred();
    assert!(!cx.has_local_only());
}
