use hydration::key::HydrationCtx;
use hydration::key::HydrationKey;

#[test]
fn peek_does_not_advance() {
    let ctx = HydrationCtx::new(false);
    assert_eq!(ctx.peek(), HydrationKey { id: 0 });
    assert_eq!(ctx.peek(), HydrationKey { id: 0 });
}

#[test]
fn id_increments_and_returns() {
    let mut ctx = HydrationCtx::new(false);
    assert_eq!(ctx.id(), HydrationKey { id: 1 });
    assert_eq!(ctx.id(), HydrationKey { id: 2 });
    assert_eq!(ctx.peek(), HydrationKey { id: 2 });
}

#[test]
fn deterministic_numbering_across_passes() {
    let mut server = HydrationCtx::new(false);
    let mut client = HydrationCtx::new(true);
    let server_keys = server.take_keys(5);
    let client_keys = client.take_keys(5);
    assert_eq!(server_keys, client_keys);
    let ids: Vec<usize> = server_keys.iter().map(|k| k.id).collect();
    assert_eq!(ids, vec![1, 2, 3, 4, 5]);
    let server_texts: Vec<String> = server_keys
        .iter()
        .map(|k| HydrationCtx::to_string(k, false, true))
        .collect();
    let client_texts: Vec<String> = client_keys
        .iter()
        .map(|k| HydrationCtx::to_string(k, false, true))
        .collect();
    assert_eq!(server_texts, client_texts);
}

#[test]
fn counter_wraps_on_overflow() {
    let mut ctx = HydrationCtx::new(false);
    ctx.continue_from(HydrationKey { id: usize::MAX });
    assert_eq!(ctx.id(), HydrationKey { id: 0 });
    assert_eq!(ctx.id(), HydrationKey { id: 1 });
}

#[test]
fn reset_and_continue_from() {
    let mut ctx = HydrationCtx::new(false);
    ctx.id();
    ctx.id();
    ctx.reset_id();
    assert_eq!(ctx.peek(), HydrationKey { id: 0 });
    ctx.continue_from(HydrationKey { id: 7 });
    assert_eq!(ctx.id(), HydrationKey { id: 8 });
}

#[test]
fn stop_hydrating_is_one_way() {
    let mut ctx = HydrationCtx::new(true);
    assert!(ctx.is_hydrating());
    ctx.stop_hydrating();
    assert!(!ctx.is_hydrating());
}

#[test]
fn key_text_forms() {
    let k = HydrationKey { id: 1 };
    assert_eq!(HydrationCtx::to_string(&k, false, false), "_1");
    assert_eq!(HydrationCtx::to_string(&k, true, false), "_1");
    assert_eq!(HydrationCtx::to_string(&k, false, true), "_1o");
    assert_eq!(HydrationCtx::to_string(&k, true, true), "_1c");
    let big = HydrationKey { id: 1204 };
    assert_eq!(HydrationCtx::to_string(&big, false, false), "_1204");
    let zero = HydrationKey { id: 0 };
    assert_eq!(HydrationCtx::to_string(&zero, false, false), "_0");
}
