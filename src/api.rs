//! Records exchanged with the chat-completion service: streamed chunks, the
//! assembled response, and the request-side message used for follow-up turns.
//!
//! Enumerated fields (finish reason, role, tool-call type) travel as their
//! integer wire codes; code 0 is the "unset" sentinel in each of them.
use vstd::prelude::*;

verus! {

/// Wire code of a finish reason that has not been set yet.
pub const FINISH_REASON_UNSET: i32 = 0;

/// Wire code of a role that has not been set yet.
pub const ROLE_UNSET: i32 = 0;

/// Wire code of a tool call that the calling application must execute itself.
pub const TOOL_CALL_TYPE_CLIENT_SIDE: i32 = 1;

/// Why generation stopped for one output.
#[derive(Clone, Copy, Debug, PartialEq, Eq, Structural)]
pub enum FinishReason {
    ReasonInvalid,
    ReasonMaxLen,
    ReasonMaxContext,
    ReasonStop,
    ReasonToolCalls,
    ReasonTimeLimit,
}

pub open spec fn finish_reason_code(r: FinishReason) -> i32 {
    match r {
        FinishReason::ReasonInvalid => 0,
        FinishReason::ReasonMaxLen => 1,
        FinishReason::ReasonMaxContext => 2,
        FinishReason::ReasonStop => 3,
        FinishReason::ReasonToolCalls => 4,
        FinishReason::ReasonTimeLimit => 5,
    }
}

impl From<FinishReason> for i32 {
    fn from(r: FinishReason) -> (code: i32)
        ensures
            code == finish_reason_code(r),
    {
        match r {
            FinishReason::ReasonInvalid => 0,
            FinishReason::ReasonMaxLen => 1,
            FinishReason::ReasonMaxContext => 2,
            FinishReason::ReasonStop => 3,
            FinishReason::ReasonToolCalls => 4,
            FinishReason::ReasonTimeLimit => 5,
        }
    }
}

impl vstd::std_specs::convert::FromSpecImpl<FinishReason> for i32 {
    open spec fn obeys_from_spec() -> bool {
        true
    }

    open spec fn from_spec(r: FinishReason) -> i32 {
        finish_reason_code(r)
    }
}

/// A point in time, as seconds and nanoseconds since the Unix epoch.
#[derive(Clone, Copy, Debug, PartialEq, Eq, Structural)]
pub struct Timestamp {
    pub seconds: i64,
    pub nanos: i32,
}

/// Token accounting for one request.
#[derive(Clone, Copy, Debug, PartialEq, Eq, Structural)]
pub struct SamplingUsage {
    pub completion_tokens: i32,
    pub reasoning_tokens: i32,
    pub prompt_tokens: i32,
    pub total_tokens: i32,
    pub prompt_text_tokens: i32,
    pub cached_prompt_text_tokens: i32,
    pub prompt_image_tokens: i32,
    pub num_sources_used: i32,
}

impl Default for SamplingUsage {
    fn default() -> (r: SamplingUsage)
        ensures
            r == (SamplingUsage {
                completion_tokens: 0,
                reasoning_tokens: 0,
                prompt_tokens: 0,
                total_tokens: 0,
                prompt_text_tokens: 0,
                cached_prompt_text_tokens: 0,
                prompt_image_tokens: 0,
                num_sources_used: 0,
            }),
    {
        SamplingUsage {
            completion_tokens: 0,
            reasoning_tokens: 0,
            prompt_tokens: 0,
            total_tokens: 0,
            prompt_text_tokens: 0,
            cached_prompt_text_tokens: 0,
            prompt_image_tokens: 0,
            num_sources_used: 0,
        }
    }
}

/// The function a tool call invokes, with its raw argument text.
#[derive(Clone, Debug)]
pub struct FunctionCall {
    pub name: String,
    pub arguments: String,
}

/// One tool invocation requested by the model.
#[derive(Clone, Debug)]
pub struct ToolCall {
    pub id: String,
    /// Wire code of the tool-call type; see [`TOOL_CALL_TYPE_CLIENT_SIDE`].
    pub tool_type: i32,
    pub status: i32,
    pub error_message: String,
    pub function: Option<FunctionCall>,
}

/// A citation that refers to a span of the generated text.
#[derive(Clone, Debug)]
pub struct InlineCitation {
    pub id: String,
    pub start_index: i32,
    pub end_index: i32,
    pub url: String,
}

/// One alternative token with its log probability.
///
/// Log probabilities are kept as the IEEE-754 bit pattern of the 32-bit
/// float the service sends, so that they are carried through unchanged.
#[derive(Clone, Debug)]
pub struct TopLogProb {
    pub token: String,
    pub logprob_bits: u32,
    pub bytes: Vec<u8>,
}

/// One generated token with its log probability and the best alternatives.
#[derive(Clone, Debug)]
pub struct LogProb {
    pub token: String,
    pub logprob_bits: u32,
    pub bytes: Vec<u8>,
    pub top_logprobs: Vec<TopLogProb>,
}

/// Log probabilities of the tokens of one output.
#[derive(Clone, Debug)]
pub struct LogProbs {
    pub content: Vec<LogProb>,
}

/// Incremental content of one output in one chunk.
#[derive(Clone, Debug)]
pub struct Delta {
    pub content: String,
    pub reasoning_content: String,
    /// Wire code of the role; [`ROLE_UNSET`] leaves an earlier role in place.
    pub role: i32,
    pub tool_calls: Vec<ToolCall>,
    pub encrypted_content: String,
    pub citations: Vec<InlineCitation>,
}

impl Default for Delta {
    fn default() -> (r: Delta)
        ensures
            r.content@.len() == 0,
            r.reasoning_content@.len() == 0,
            r.role == ROLE_UNSET,
            r.tool_calls@.len() == 0,
            r.encrypted_content@.len() == 0,
            r.citations@.len() == 0,
    {
        Delta {
            content: String::new(),
            reasoning_content: String::new(),
            role: ROLE_UNSET,
            tool_calls: Vec::new(),
            encrypted_content: String::new(),
            citations: Vec::new(),
        }
    }
}

/// One partial update of a single output, identified by its index.
#[derive(Clone, Debug)]
pub struct CompletionOutputChunk {
    pub delta: Option<Delta>,
    pub logprobs: Option<LogProbs>,
    /// Wire code of the finish reason; [`FINISH_REASON_UNSET`] while in progress.
    pub finish_reason: i32,
    pub index: i32,
}

impl Default for CompletionOutputChunk {
    fn default() -> (r: CompletionOutputChunk)
        ensures
            r.delta is None,
            r.logprobs is None,
            r.finish_reason == FINISH_REASON_UNSET,
            r.index == 0,
    {
        CompletionOutputChunk {
            delta: None,
            logprobs: None,
            finish_reason: FINISH_REASON_UNSET,
            index: 0,
        }
    }
}

/// One message of a streamed chat completion.
#[derive(Clone, Debug)]
pub struct GetChatCompletionChunk {
    pub id: String,
    pub outputs: Vec<CompletionOutputChunk>,
    pub created: Option<Timestamp>,
    pub model: String,
    pub system_fingerprint: String,
    pub usage: Option<SamplingUsage>,
    pub citations: Vec<String>,
}

impl Default for GetChatCompletionChunk {
    fn default() -> (r: GetChatCompletionChunk)
        ensures
            r.id@.len() == 0,
            r.outputs@.len() == 0,
            r.created is None,
            r.model@.len() == 0,
            r.system_fingerprint@.len() == 0,
            r.usage is None,
            r.citations@.len() == 0,
    {
        GetChatCompletionChunk {
            id: String::new(),
            outputs: Vec::new(),
            created: None,
            model: String::new(),
            system_fingerprint: String::new(),
            usage: None,
            citations: Vec::new(),
        }
    }
}

/// The complete message of one output.
#[derive(Clone, Debug)]
pub struct CompletionMessage {
    pub content: String,
    pub reasoning_content: String,
    pub role: i32,
    pub tool_calls: Vec<ToolCall>,
    pub encrypted_content: String,
    pub citations: Vec<InlineCitation>,
}

/// One complete output of a chat completion.
#[derive(Clone, Debug)]
pub struct CompletionOutput {
    pub finish_reason: i32,
    pub index: i32,
    pub message: Option<CompletionMessage>,
    pub logprobs: Option<LogProbs>,
}

/// A complete chat completion.
#[derive(Clone, Debug)]
pub struct GetChatCompletionResponse {
    pub id: String,
    pub outputs: Vec<CompletionOutput>,
    pub created: Option<Timestamp>,
    pub model: String,
    pub system_fingerprint: String,
    pub usage: Option<SamplingUsage>,
    pub citations: Vec<String>,
}

/// One part of a request message's content.
#[derive(Clone, Debug)]
pub enum Content {
    Text(String),
}

/// A message of a chat request, as sent back to the service for a follow-up turn.
#[derive(Clone, Debug)]
pub struct Message {
    pub content: Vec<Content>,
    pub reasoning_content: Option<String>,
    pub role: i32,
    pub name: String,
    pub tool_calls: Vec<ToolCall>,
    pub encrypted_content: Option<String>,
    pub tool_call_id: Option<String>,
}

} // verus!
