use hydration::index::detect_hydration_mode;
use hydration::index::MarkerIndex;
use hydration::key::HydrationCtx;
use hydration::key::HydrationKey;
use hydration::markers::comment_marker;
use hydration::markers::parse_marker_key;
use hydration::markers::parse_view_marker;
use hydration::index::ViewMarkerIndex;

#[test]
fn comment_marker_format() {
    assert_eq!(
        comment_marker("_4o", "leptos-dyn-child-start"),
        "hk=_4o|leptos-dyn-child-start"
    );
}

#[test]
fn parse_recovers_key() {
    assert_eq!(
        parse_marker_key("hk=_4o|leptos-dyn-child-start"),
        Some("_4o".to_string())
    );
    assert_eq!(parse_marker_key("hk=abc"), Some("abc".to_string()));
    assert_eq!(parse_marker_key("hk="), Some(String::new()));
    assert_eq!(parse_marker_key("leptos-view|src-9|open"), None);
    assert_eq!(parse_marker_key("hk"), None);
    assert_eq!(parse_marker_key(""), None);
}

#[test]
fn index_round_trip() {
    let keys = ["_1o", "_2o", "_2c", "_3o"];
    let mut comments: Vec<String> = Vec::new();
    comments.push("some unrelated comment".to_string());
    for k in keys.iter() {
        comments.push(comment_marker(k, "leptos-counter-start"));
    }
    let mut index = MarkerIndex::new();
    index.build(&comments);
    for k in keys.iter() {
        assert!(index.lookup(k).is_some());
    }
    assert_eq!(index.lookup("_9o"), None);
    assert_eq!(index.lookup("some unrelated comment"), None);
}

#[test]
fn index_first_occurrence_wins() {
    let comments = vec![
        comment_marker("_5", "fragment-start"),
        comment_marker("_5", "fragment-end"),
    ];
    let mut index = MarkerIndex::new();
    index.build(&comments);
    assert_eq!(index.lookup("_5"), Some(0));
}

#[test]
fn index_build_is_idempotent() {
    let first = vec![comment_marker("_1", "dyn-child-start")];
    let second = vec![comment_marker("_2", "dyn-child-start")];
    let mut index = MarkerIndex::new();
    index.build(&first);
    let before = index.lookup("_1");
    index.build(&second);
    assert_eq!(index.lookup("_1"), before);
    assert_eq!(index.lookup("_2"), None);
}

#[test]
fn two_element_synchronous_tree() {
    // A root holding one text-interpolation child and one static sibling:
    // the walk allocates exactly three keys in order. Only the child
    // boundary needs a comment marker; the others ride on real elements.
    let mut ctx = HydrationCtx::new(false);
    let root = ctx.id();
    let child = ctx.id();
    let sibling = ctx.id();
    assert_eq!(root, HydrationKey { id: 1 });
    assert_eq!(child, HydrationKey { id: 2 });
    assert_eq!(sibling, HydrationKey { id: 3 });

    let child_text = HydrationCtx::to_string(&child, false, false);
    let comments = vec![comment_marker(&child_text, "leptos-dyn-child-start")];
    let mut index = MarkerIndex::new();
    index.build(&comments);
    assert_eq!(index.lookup("_2"), Some(0));
    assert_eq!(index.lookup("_1"), None);
    assert_eq!(index.lookup("_3"), None);
}

#[test]
fn detector_modes() {
    let empty = MarkerIndex::new();
    assert!(!detect_hydration_mode(&empty, false, false, false));
    assert!(detect_hydration_mode(&empty, true, false, false));

    let mut with_root = MarkerIndex::new();
    with_root.build(&vec![comment_marker("_1", "fragment-start")]);
    assert!(detect_hydration_mode(&with_root, false, false, false));
    // The production comment form does not satisfy the debug probe, which
    // looks for the suffixed form.
    assert!(!detect_hydration_mode(&with_root, false, false, true));

    let mut with_debug_root = MarkerIndex::new();
    with_debug_root.build(&vec![comment_marker("_1o", "fragment-start")]);
    assert!(detect_hydration_mode(&with_debug_root, false, false, true));
    assert!(detect_hydration_mode(&with_debug_root, false, true, true));
    assert!(!detect_hydration_mode(&with_debug_root, false, false, false));
}

#[test]
fn parse_view_marker_tag() {
    assert_eq!(
        parse_view_marker("leptos-view|leptos-tests-ssr.rs-8|open"),
        Some("leptos-tests-ssr.rs-8|open".to_string())
    );
    assert_eq!(parse_view_marker("hk=_1|fragment-start"), None);
    assert_eq!(parse_view_marker("leptos-view"), None);
}

#[test]
fn view_index_is_separate_from_hydration_index() {
    let comments = vec![
        "leptos-view|leptos-tests-ssr.rs-8|open".to_string(),
        comment_marker("_1", "fragment-start"),
        "leptos-view|leptos-tests-ssr.rs-8|close".to_string(),
    ];
    let mut views = ViewMarkerIndex::new();
    views.build(&comments);
    assert_eq!(views.lookup("leptos-tests-ssr.rs-8|open"), Some(0));
    assert_eq!(views.lookup("leptos-tests-ssr.rs-8|close"), Some(2));
    assert_eq!(views.lookup("_1"), None);

    let mut markers = MarkerIndex::new();
    markers.build(&comments);
    assert_eq!(markers.lookup("_1"), Some(1));
    assert_eq!(markers.lookup("leptos-tests-ssr.rs-8|open"), None);
}
