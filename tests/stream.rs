use xai_sdk::api::{
    CompletionOutputChunk, Delta, FinishReason, GetChatCompletionChunk, InlineCitation,
    SamplingUsage, ToolCall, TOOL_CALL_TYPE_CLIENT_SIDE,
};
use xai_sdk::chat::{
    get_content_status, get_reasoning_status, split_tool_calls, CompletionContext, PhaseStatus,
    StreamEvent, StreamTracker, TokenContext,
};

fn update(index: i32, reasoning: &str, content: &str, finish: i32) -> CompletionOutputChunk {
    let mut delta = Delta::default();
    delta.reasoning_content = reasoning.to_string();
    delta.content = content.to_string();
    let mut output = CompletionOutputChunk::default();
    output.index = index;
    output.finish_reason = finish;
    output.delta = Some(delta);
    output
}

fn chunk_of(outputs: Vec<CompletionOutputChunk>) -> GetChatCompletionChunk {
    let mut chunk = GetChatCompletionChunk::default();
    chunk.id = "stream-id".to_string();
    chunk.outputs = outputs;
    chunk
}

fn call(id: &str, tool_type: i32) -> ToolCall {
    ToolCall {
        id: id.to_string(),
        tool_type,
        status: 0,
        error_message: String::new(),
        function: None,
    }
}

fn stop() -> i32 {
    FinishReason::ReasonStop.into()
}

#[test]
fn reasoning_status_each_rule() {
    assert_eq!(get_reasoning_status(0, 0, stop()), PhaseStatus::Complete);
    assert_eq!(get_reasoning_status(3, 0, stop()), PhaseStatus::Complete);
    assert_eq!(get_reasoning_status(0, 2, 0), PhaseStatus::Complete);
    assert_eq!(get_reasoning_status(4, 0, 0), PhaseStatus::Pending);
    assert_eq!(get_reasoning_status(0, 0, 0), PhaseStatus::Init);
    assert_eq!(get_reasoning_status(2, 5, 0), PhaseStatus::Init);
}

#[test]
fn content_status_each_rule() {
    assert_eq!(get_content_status(0, stop()), PhaseStatus::Complete);
    assert_eq!(get_content_status(7, stop()), PhaseStatus::Complete);
    assert_eq!(get_content_status(1, 0), PhaseStatus::Pending);
    assert_eq!(get_content_status(0, 0), PhaseStatus::Init);
}

#[test]
fn content_without_reasoning_classifies_reasoning_complete_content_pending() {
    assert_eq!(get_reasoning_status(0, 1, 0), PhaseStatus::Complete);
    assert_eq!(get_content_status(1, 0), PhaseStatus::Pending);

    let mut tracker = StreamTracker::new();
    let events = tracker.process_chunk(&chunk_of(vec![update(0, "", "Hi", 0)]));
    let ctx = TokenContext::new(1, 0, PhaseStatus::Complete, PhaseStatus::Pending);
    assert_eq!(
        events,
        vec![
            StreamEvent::ReasoningComplete { completion: CompletionContext::new(1, 0) },
            StreamEvent::ContentToken { context: ctx, output: 0 },
        ]
    );
}

#[test]
fn events_follow_dispatch_order() {
    let mut output = update(0, "think", "say", stop());
    let delta = output.delta.as_mut().unwrap();
    delta.citations = vec![InlineCitation {
        id: "c1".to_string(),
        start_index: 0,
        end_index: 3,
        url: "https://example.com".to_string(),
    }];
    delta.tool_calls = vec![call("a", TOOL_CALL_TYPE_CLIENT_SIDE), call("b", 2)];
    let mut tracker = StreamTracker::new();
    let events = tracker.process_chunk(&chunk_of(vec![output]));
    let ctx = TokenContext::new(1, 0, PhaseStatus::Complete, PhaseStatus::Complete);
    let done = CompletionContext::new(1, 0);
    assert_eq!(
        events,
        vec![
            StreamEvent::ReasoningToken { context: ctx, output: 0 },
            StreamEvent::ReasoningComplete { completion: done },
            StreamEvent::ContentToken { context: ctx, output: 0 },
            StreamEvent::ContentComplete { completion: done },
            StreamEvent::InlineCitations { context: ctx, output: 0 },
            StreamEvent::ClientToolCalls { context: ctx, output: 0 },
            StreamEvent::ServerToolCalls { context: ctx, output: 0 },
        ]
    );
}

#[test]
fn complete_phase_never_regresses() {
    let mut tracker = StreamTracker::new();
    tracker.process_chunk(&chunk_of(vec![update(0, "", "answer", 0)]));
    assert_eq!(tracker.progress(0).reasoning_status, PhaseStatus::Complete);
    // Reasoning arriving after content would classify as Init on its own.
    let events = tracker.process_chunk(&chunk_of(vec![update(0, "late thought", "", 0)]));
    assert_eq!(tracker.progress(0).reasoning_status, PhaseStatus::Complete);
    match events[0] {
        StreamEvent::ReasoningToken { context, output } => {
            assert_eq!(output, 0);
            assert_eq!(context.reasoning_status, PhaseStatus::Complete);
            assert_eq!(context.content_status, PhaseStatus::Pending);
        }
        other => panic!("unexpected event {:?}", other),
    }
    // A later update without a finish reason keeps the content phase complete too.
    tracker.process_chunk(&chunk_of(vec![update(0, "", "", stop())]));
    tracker.process_chunk(&chunk_of(vec![update(0, "", "more", 0)]));
    assert_eq!(tracker.progress(0).content_status, PhaseStatus::Complete);
}

#[test]
fn completion_events_fire_once_per_output() {
    let mut tracker = StreamTracker::new();
    let first = tracker.process_chunk(&chunk_of(vec![update(0, "", "a", stop())]));
    let second = tracker.process_chunk(&chunk_of(vec![update(0, "", "b", stop())]));
    let count = |events: &Vec<StreamEvent>| {
        events
            .iter()
            .filter(|e| {
                matches!(
                    e,
                    StreamEvent::ReasoningComplete { .. } | StreamEvent::ContentComplete { .. }
                )
            })
            .count()
    };
    assert_eq!(count(&first), 2);
    assert_eq!(count(&second), 0);
}

#[test]
fn finish_reason_without_delta_completes_phases() {
    let mut tracker = StreamTracker::new();
    let mut output = CompletionOutputChunk::default();
    output.index = 2;
    output.finish_reason = FinishReason::ReasonToolCalls.into();
    let events = tracker.process_chunk(&chunk_of(vec![output]));
    let done = CompletionContext::new(3, 2);
    assert_eq!(
        events,
        vec![
            StreamEvent::ReasoningComplete { completion: done },
            StreamEvent::ContentComplete { completion: done },
        ]
    );
}

#[test]
fn total_outputs_is_running_maximum_plus_one() {
    let mut tracker = StreamTracker::new();
    assert_eq!(tracker.total_outputs(), 0);
    let events = tracker.process_chunk(&chunk_of(vec![update(1, "", "x", 0), update(0, "", "y", 0)]));
    assert_eq!(tracker.total_outputs(), 2);
    match events[1] {
        StreamEvent::ContentToken { context, output } => {
            assert_eq!(context.total_choices, 2);
            assert_eq!(output, 0);
        }
        other => panic!("unexpected event {:?}", other),
    }
    tracker.process_chunk(&chunk_of(vec![update(4, "", "z", 0)]));
    assert_eq!(tracker.total_outputs(), 5);
}

#[test]
fn closing_events_report_last_usage_and_citations() {
    let mut tracker = StreamTracker::new();
    assert!(tracker.finish().is_empty());
    let mut last = chunk_of(vec![update(0, "", "done", stop())]);
    let usage = SamplingUsage { completion_tokens: 3, total_tokens: 8, ..Default::default() };
    last.usage = Some(usage);
    last.citations = vec!["https://example.com/a".to_string()];
    tracker.process_chunk(&last);
    assert_eq!(tracker.finish(), vec![StreamEvent::Usage { usage }, StreamEvent::Citations]);
    tracker.process_chunk(&chunk_of(vec![]));
    assert!(tracker.finish().is_empty());
}

#[test]
fn tool_calls_split_by_type_in_order() {
    let calls = vec![
        call("s1", 2),
        call("c1", TOOL_CALL_TYPE_CLIENT_SIDE),
        call("s2", 0),
        call("c2", TOOL_CALL_TYPE_CLIENT_SIDE),
    ];
    let (client, server) = split_tool_calls(calls);
    let ids = |v: &Vec<ToolCall>| v.iter().map(|c| c.id.clone()).collect::<Vec<_>>();
    assert_eq!(ids(&client), vec!["c1", "c2"]);
    assert_eq!(ids(&server), vec!["s1", "s2"]);
}

#[test]
fn token_context_from_completion_flags() {
    let ctx = TokenContext::init(3, 1, true, false);
    assert_eq!(ctx.total_choices, 3);
    assert_eq!(ctx.choice_index, 1);
    assert_eq!(ctx.reasoning_status, PhaseStatus::Complete);
    assert_eq!(ctx.content_status, PhaseStatus::Init);
}
