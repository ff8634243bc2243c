use xai_sdk::api::{
    CompletionMessage, CompletionOutput, CompletionOutputChunk, Content, Delta, FinishReason,
    GetChatCompletionChunk, ToolCall,
};
use xai_sdk::chat::assemble;
use xai_sdk::followup::messages_from_outputs;

fn update(index: i32, content: &str, role: i32, finish: i32) -> CompletionOutputChunk {
    let mut delta = Delta::default();
    delta.content = content.to_string();
    delta.role = role;
    let mut output = CompletionOutputChunk::default();
    output.index = index;
    output.finish_reason = finish;
    output.delta = Some(delta);
    output
}

fn chunk_of(id: &str, outputs: Vec<CompletionOutputChunk>) -> GetChatCompletionChunk {
    let mut chunk = GetChatCompletionChunk::default();
    chunk.id = id.to_string();
    chunk.model = "test-model".to_string();
    chunk.outputs = outputs;
    chunk
}

#[test]
fn assemble_twice_gives_identical_results() {
    let chunks = vec![
        chunk_of("r", vec![update(1, "b", 2, 0), update(0, "a", 2, 0)]),
        chunk_of("r", vec![update(0, "c", 0, 3), update(1, "d", 0, 3)]),
    ];
    let first = assemble(chunks.clone());
    let second = assemble(chunks);
    assert_eq!(format!("{:?}", first), format!("{:?}", second));
}

#[test]
fn outputs_sorted_by_index_whatever_the_arrival_order() {
    let chunks = vec![
        chunk_of("r", vec![update(2, "two", 0, 0)]),
        chunk_of("r", vec![update(0, "zero", 0, 0), update(1, "one", 0, 0)]),
        chunk_of("r", vec![update(2, "!", 0, 0)]),
    ];
    let response = assemble(chunks).unwrap();
    let got: Vec<(i32, String)> = response
        .outputs
        .iter()
        .map(|o| (o.index, o.message.as_ref().unwrap().content.clone()))
        .collect();
    assert_eq!(
        got,
        vec![(0, "zero".to_string()), (1, "one".to_string()), (2, "two!".to_string())]
    );
}

#[test]
fn two_chunks_finish_reason_from_last() {
    let stop: i32 = FinishReason::ReasonStop.into();
    let chunks = vec![
        chunk_of("r", vec![update(0, "Hello", 0, 0)]),
        chunk_of("r", vec![update(0, " World", 0, stop)]),
    ];
    let response = assemble(chunks).unwrap();
    assert_eq!(response.outputs.len(), 1);
    assert_eq!(response.outputs[0].finish_reason, stop);
    assert_eq!(response.outputs[0].message.as_ref().unwrap().content, "Hello World");
}

#[test]
fn unset_role_does_not_clobber_earlier_role() {
    let chunks = vec![
        chunk_of("r", vec![update(0, "a", 2, 0)]),
        chunk_of("r", vec![update(0, "b", 0, 0)]),
        chunk_of("r", vec![update(0, "c", 0, 3)]),
    ];
    let response = assemble(chunks).unwrap();
    assert_eq!(response.outputs[0].message.as_ref().unwrap().role, 2);
}

#[test]
fn identity_from_first_chunk_citations_from_last() {
    let mut first = chunk_of("first-id", vec![update(0, "a", 0, 0)]);
    first.system_fingerprint = "fp-1".to_string();
    first.citations = vec!["early".to_string()];
    let mut last = chunk_of("other-id", vec![update(0, "b", 0, 3)]);
    last.model = "other-model".to_string();
    last.citations = vec!["https://x.ai".to_string()];
    let response = assemble(vec![first, last]).unwrap();
    assert_eq!(response.id, "first-id");
    assert_eq!(response.model, "test-model");
    assert_eq!(response.system_fingerprint, "fp-1");
    assert_eq!(response.citations, vec!["https://x.ai".to_string()]);
}

#[test]
fn tool_calls_and_encrypted_content_accumulate() {
    let call = |id: &str| ToolCall {
        id: id.to_string(),
        tool_type: 1,
        status: 0,
        error_message: String::new(),
        function: None,
    };
    let mut a = update(0, "", 0, 0);
    a.delta.as_mut().unwrap().tool_calls = vec![call("t1")];
    a.delta.as_mut().unwrap().encrypted_content = "ab".to_string();
    let mut b = update(0, "", 0, 4);
    b.delta.as_mut().unwrap().tool_calls = vec![call("t2"), call("t3")];
    b.delta.as_mut().unwrap().encrypted_content = "cd".to_string();
    let response = assemble(vec![chunk_of("r", vec![a]), chunk_of("r", vec![b])]).unwrap();
    let message = response.outputs[0].message.as_ref().unwrap();
    let ids: Vec<&str> = message.tool_calls.iter().map(|c| c.id.as_str()).collect();
    assert_eq!(ids, vec!["t1", "t2", "t3"]);
    assert_eq!(message.encrypted_content, "abcd");
    assert_eq!(response.outputs[0].finish_reason, 4);
}

#[test]
fn follow_up_messages_skip_outputs_without_message() {
    let message = CompletionMessage {
        content: "answer".to_string(),
        reasoning_content: "because".to_string(),
        role: 2,
        tool_calls: vec![],
        encrypted_content: "enc".to_string(),
        citations: vec![],
    };
    let outputs = vec![
        CompletionOutput { finish_reason: 3, index: 0, message: Some(message), logprobs: None },
        CompletionOutput { finish_reason: 3, index: 1, message: None, logprobs: None },
    ];
    let messages = messages_from_outputs(outputs);
    assert_eq!(messages.len(), 1);
    let m = &messages[0];
    assert_eq!(m.content.len(), 1);
    match &m.content[0] {
        Content::Text(text) => assert_eq!(text, "answer"),
    }
    assert_eq!(m.reasoning_content.as_deref(), Some("because"));
    assert_eq!(m.role, 2);
    assert_eq!(m.name, "");
    assert_eq!(m.encrypted_content.as_deref(), Some("enc"));
    assert!(m.tool_call_id.is_none());
}
