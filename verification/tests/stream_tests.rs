use hydration::stream::Emission;
use hydration::stream::EmissionBody;
use hydration::stream::StreamChunk;
use hydration::stream::StreamPipeline;

fn render(out: &[Emission]) -> Vec<String> {
    out.iter()
        .map(|e| {
            let prefix = match e.target {
                None => "main".to_string(),
                Some(h) => format!("oob{}", h),
            };
            let body = match &e.body {
                EmissionBody::Text(s) => format!("text:{}", s),
                EmissionBody::Placeholder(h) => format!("placeholder:{}", h),
                EmissionBody::Failure(h) => format!("failure:{}", h),
            };
            format!("{}/{}", prefix, body)
        })
        .collect()
}

fn sync(s: &str) -> StreamChunk {
    StreamChunk::Sync(s.to_string())
}

#[test]
fn synchronous_content_flows_in_document_order() {
    let mut p = StreamPipeline::new(vec![sync("<div>"), sync("text"), sync("</div>")]);
    let out = p.pump();
    assert_eq!(
        render(&out),
        vec!["main/text:<div>", "main/text:text", "main/text:</div>"]
    );
    assert!(p.main_done());
    assert_eq!(p.boundary_count(), 0);
}

#[test]
fn non_blocking_async_does_not_delay_later_sync() {
    let mut p = StreamPipeline::new(vec![
        sync("a"),
        StreamChunk::Async { handle: 1, should_block: false },
        sync("b"),
    ]);
    let out = p.pump();
    assert_eq!(
        render(&out),
        vec!["main/text:a", "main/placeholder:1", "main/text:b"]
    );
    assert!(p.main_done());
    assert_eq!(p.boundary_count(), 1);

    // The resolved content arrives out of band, tagged with the handle.
    p.resolve(1, vec![sync("late")]);
    let oob = p.pump_boundary(0);
    assert_eq!(render(&oob), vec!["oob1/text:late"]);
}

#[test]
fn blocking_async_holds_everything_behind_it() {
    let mut p = StreamPipeline::new(vec![
        sync("head"),
        StreamChunk::Async { handle: 7, should_block: true },
        sync("tail"),
    ]);
    let out = p.pump();
    assert_eq!(render(&out), vec!["main/text:head"]);
    assert!(!p.main_done());

    // Pumping again without the resolution yields nothing new.
    let out = p.pump();
    assert_eq!(render(&out), Vec::<String>::new());

    p.resolve(7, vec![sync("mid")]);
    let out = p.pump();
    assert_eq!(render(&out), vec!["main/text:mid", "main/text:tail"]);
    assert!(p.main_done());
}

#[test]
fn blocking_resolution_may_arrive_early() {
    let mut p = StreamPipeline::new(vec![
        StreamChunk::Async { handle: 2, should_block: true },
        sync("after"),
    ]);
    p.resolve(2, vec![sync("first")]);
    let out = p.pump();
    assert_eq!(render(&out), vec!["main/text:first", "main/text:after"]);
    assert!(p.main_done());
}

#[test]
fn nested_async_chunks_flatten_recursively() {
    let mut p = StreamPipeline::new(vec![
        StreamChunk::Async { handle: 1, should_block: true },
        sync("end"),
    ]);
    p.resolve(
        1,
        vec![
            sync("outer"),
            StreamChunk::Async { handle: 2, should_block: true },
        ],
    );
    let out = p.pump();
    assert_eq!(render(&out), vec!["main/text:outer"]);
    p.resolve(2, vec![sync("inner")]);
    let out = p.pump();
    assert_eq!(render(&out), vec!["main/text:inner", "main/text:end"]);
}

#[test]
fn failure_is_terminal_for_that_position_only() {
    let mut p = StreamPipeline::new(vec![
        sync("a"),
        StreamChunk::Async { handle: 3, should_block: true },
        sync("b"),
    ]);
    p.fail(3);
    let out = p.pump();
    assert_eq!(
        render(&out),
        vec!["main/text:a", "main/failure:3", "main/text:b"]
    );
    assert!(p.main_done());
}

#[test]
fn out_of_band_failure_leaves_siblings_alone() {
    let mut p = StreamPipeline::new(vec![
        StreamChunk::Async { handle: 1, should_block: false },
        StreamChunk::Async { handle: 2, should_block: false },
    ]);
    let out = p.pump();
    assert_eq!(
        render(&out),
        vec!["main/placeholder:1", "main/placeholder:2"]
    );
    p.fail(1);
    p.resolve(2, vec![sync("ok")]);
    let first = p.pump_boundary(0);
    let second = p.pump_boundary(1);
    assert_eq!(render(&first), vec!["oob1/failure:1"]);
    assert_eq!(render(&second), vec!["oob2/text:ok"]);
}

#[test]
fn resolution_is_consumed_exactly_once() {
    let mut p = StreamPipeline::new(vec![StreamChunk::Async { handle: 4, should_block: true }]);
    p.resolve(4, vec![sync("once")]);
    let out = p.pump();
    assert_eq!(render(&out), vec!["main/text:once"]);
    let out = p.pump();
    assert_eq!(render(&out), Vec::<String>::new());
    assert!(p.main_done());
}
