use xai_sdk::buffer::OutputBuffers;

#[test]
fn buffered_text_is_handed_back_once_on_finish() {
    let mut buffers = OutputBuffers::new();
    buffers.push_reasoning(1, "think ");
    buffers.push_content(1, "Hello");
    buffers.push_reasoning(1, "more");
    buffers.push_content(1, " World");
    buffers.push_content(0, "other");

    assert!(buffers.finish_output(1, 0).is_none());
    let done = buffers.finish_output(1, 3).unwrap();
    assert_eq!(done.index, 1);
    assert_eq!(done.reasoning, "think more");
    assert_eq!(done.content, "Hello World");
    assert_eq!(done.finish_reason, 3);
    assert!(buffers.finish_output(1, 3).is_none());

    let other = buffers.finish_output(0, 1).unwrap();
    assert_eq!(other.content, "other");
    assert_eq!(other.reasoning, "");
}

#[test]
fn finishing_an_output_without_tokens_hands_back_nothing() {
    let mut buffers = OutputBuffers::new();
    assert!(buffers.finish_output(2, 3).is_none());
    buffers.push_content(2, "late");
    assert!(buffers.finish_output(2, 3).is_none());
}
