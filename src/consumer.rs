//! The caller's bundle of optional stream callbacks.
//!
//! Each callback kind has a small handler trait that every matching closure
//! implements, so a [`Consumer`] can be built from closures:
//! `Consumer::new().on_content_token(|ctx, token| { ... })`.
use vstd::prelude::*;
use crate::api::{GetChatCompletionChunk, InlineCitation, SamplingUsage, ToolCall};
use crate::chat::{CompletionContext, TokenContext};

verus! {

/// Receives reasoning or content tokens.
pub trait TokenHandler: Send + Sync {
    spec fn accepts(&self, context: TokenContext, token: &str) -> bool;

    fn handle(&mut self, context: TokenContext, token: &str)
        requires
            old(self).accepts(context, token),
    ;
}

impl<F: FnMut(TokenContext, &str) + Send + Sync> TokenHandler for F {
    open spec fn accepts(&self, context: TokenContext, token: &str) -> bool {
        self.requires((context, token))
    }

    fn handle(&mut self, context: TokenContext, token: &str) {
        (self)(context, token)
    }
}

/// Receives the completion of a phase of one output.
pub trait CompletionHandler: Send + Sync {
    spec fn accepts(&self, context: CompletionContext) -> bool;

    fn handle(&mut self, context: CompletionContext)
        requires
            old(self).accepts(context),
    ;
}

impl<F: FnMut(CompletionContext) + Send + Sync> CompletionHandler for F {
    open spec fn accepts(&self, context: CompletionContext) -> bool {
        self.requires((context,))
    }

    fn handle(&mut self, context: CompletionContext) {
        (self)(context)
    }
}

/// Receives each raw chunk of the stream.
pub trait ChunkHandler: Send + Sync {
    spec fn accepts(&self, chunk: &GetChatCompletionChunk) -> bool;

    fn handle(&mut self, chunk: &GetChatCompletionChunk)
        requires
            old(self).accepts(chunk),
    ;
}

impl<F: FnMut(&GetChatCompletionChunk) + Send + Sync> ChunkHandler for F {
    open spec fn accepts(&self, chunk: &GetChatCompletionChunk) -> bool {
        self.requires((chunk,))
    }

    fn handle(&mut self, chunk: &GetChatCompletionChunk) {
        (self)(chunk)
    }
}

/// Receives the inline citations of one update.
pub trait InlineCitationsHandler: Send + Sync {
    spec fn accepts(&self, context: TokenContext, citations: &[InlineCitation]) -> bool;

    fn handle(&mut self, context: TokenContext, citations: &[InlineCitation])
        requires
            old(self).accepts(context, citations),
    ;
}

impl<F: FnMut(TokenContext, &[InlineCitation]) + Send + Sync> InlineCitationsHandler for F {
    open spec fn accepts(&self, context: TokenContext, citations: &[InlineCitation]) -> bool {
        self.requires((context, citations))
    }

    fn handle(&mut self, context: TokenContext, citations: &[InlineCitation]) {
        (self)(context, citations)
    }
}

/// Receives the client-side or the server-side tool calls of one update.
pub trait ToolCallsHandler: Send + Sync {
    spec fn accepts(&self, context: TokenContext, calls: &[ToolCall]) -> bool;

    fn handle(&mut self, context: TokenContext, calls: &[ToolCall])
        requires
            old(self).accepts(context, calls),
    ;
}

impl<F: FnMut(TokenContext, &[ToolCall]) + Send + Sync> ToolCallsHandler for F {
    open spec fn accepts(&self, context: TokenContext, calls: &[ToolCall]) -> bool {
        self.requires((context, calls))
    }

    fn handle(&mut self, context: TokenContext, calls: &[ToolCall]) {
        (self)(context, calls)
    }
}

/// Receives the usage of the last chunk once the stream has ended.
pub trait UsageHandler: Send + Sync {
    spec fn accepts(&self, usage: &SamplingUsage) -> bool;

    fn handle(&mut self, usage: &SamplingUsage)
        requires
            old(self).accepts(usage),
    ;
}

impl<F: FnMut(&SamplingUsage) + Send + Sync> UsageHandler for F {
    open spec fn accepts(&self, usage: &SamplingUsage) -> bool {
        self.requires((usage,))
    }

    fn handle(&mut self, usage: &SamplingUsage) {
        (self)(usage)
    }
}

/// Receives the citations of the last chunk once the stream has ended.
pub trait CitationsHandler: Send + Sync {
    spec fn accepts(&self, citations: &[String]) -> bool;

    fn handle(&mut self, citations: &[String])
        requires
            old(self).accepts(citations),
    ;
}

impl<F: FnMut(&[String]) + Send + Sync> CitationsHandler for F {
    open spec fn accepts(&self, citations: &[String]) -> bool {
        self.requires((citations,))
    }

    fn handle(&mut self, citations: &[String]) {
        (self)(citations)
    }
}

/// Optional callbacks for the events of one stream. Unset callbacks are skipped.
pub struct Consumer {
    pub on_chunk: Option<Box<dyn ChunkHandler>>,
    pub on_reason_token: Option<Box<dyn TokenHandler>>,
    pub on_reasoning_complete: Option<Box<dyn CompletionHandler>>,
    pub on_content_token: Option<Box<dyn TokenHandler>>,
    pub on_content_complete: Option<Box<dyn CompletionHandler>>,
    pub on_inline_citations: Option<Box<dyn InlineCitationsHandler>>,
    pub on_client_tool_calls: Option<Box<dyn ToolCallsHandler>>,
    pub on_server_tool_calls: Option<Box<dyn ToolCallsHandler>>,
    pub on_usage: Option<Box<dyn UsageHandler>>,
    pub on_citations: Option<Box<dyn CitationsHandler>>,
}

impl Consumer {
    /// No callback is set.
    pub open spec fn is_empty(&self) -> bool {
        &&& self.on_chunk is None
        &&& self.on_reason_token is None
        &&& self.on_reasoning_complete is None
        &&& self.on_content_token is None
        &&& self.on_content_complete is None
        &&& self.on_inline_citations is None
        &&& self.on_client_tool_calls is None
        &&& self.on_server_tool_calls is None
        &&& self.on_usage is None
        &&& self.on_citations is None
    }

    /// A consumer with no callback set.
    pub fn new() -> (r: Consumer)
        ensures
            r.is_empty(),
    {
        Consumer {
            on_chunk: None,
            on_reason_token: None,
            on_reasoning_complete: None,
            on_content_token: None,
            on_content_complete: None,
            on_inline_citations: None,
            on_client_tool_calls: None,
            on_server_tool_calls: None,
            on_usage: None,
            on_citations: None,
        }
    }

    /// Sets the callback for content tokens.
    pub fn on_content_token<F: FnMut(TokenContext, &str) + Send + Sync + 'static>(self, f: F) -> (r: Consumer)
        ensures
            r.on_content_token is Some,
            r == (Consumer { on_content_token: r.on_content_token, ..self }),
    {
        Consumer { on_content_token: Some(Box::new(f)), ..self }
    }

    /// Sets the callback for reasoning tokens.
    pub fn on_reason_token<F: FnMut(TokenContext, &str) + Send + Sync + 'static>(self, f: F) -> (r: Consumer)
        ensures
            r.on_reason_token is Some,
            r == (Consumer { on_reason_token: r.on_reason_token, ..self }),
    {
        Consumer { on_reason_token: Some(Box::new(f)), ..self }
    }

    /// Sets the callback for raw chunks, called before the events of each chunk.
    pub fn on_chunk<F: FnMut(&GetChatCompletionChunk) + Send + Sync + 'static>(self, f: F) -> (r: Consumer)
        ensures
            r.on_chunk is Some,
            r == (Consumer { on_chunk: r.on_chunk, ..self }),
    {
        Consumer { on_chunk: Some(Box::new(f)), ..self }
    }

    /// Sets the callback for the completion of an output's reasoning phase.
    pub fn on_reasoning_complete<F: FnMut(CompletionContext) + Send + Sync + 'static>(self, f: F) -> (r: Consumer)
        ensures
            r.on_reasoning_complete is Some,
            r == (Consumer { on_reasoning_complete: r.on_reasoning_complete, ..self }),
    {
        Consumer { on_reasoning_complete: Some(Box::new(f)), ..self }
    }

    /// Sets the callback for the completion of an output's content phase.
    pub fn on_content_complete<F: FnMut(CompletionContext) + Send + Sync + 'static>(self, f: F) -> (r: Consumer)
        ensures
            r.on_content_complete is Some,
            r == (Consumer { on_content_complete: r.on_content_complete, ..self }),
    {
        Consumer { on_content_complete: Some(Box::new(f)), ..self }
    }

    /// Sets the callback for inline citations.
    pub fn on_inline_citations<F: FnMut(TokenContext, &[InlineCitation]) + Send + Sync + 'static>(self, f: F) -> (r: Consumer)
        ensures
            r.on_inline_citations is Some,
            r == (Consumer { on_inline_citations: r.on_inline_citations, ..self }),
    {
        Consumer { on_inline_citations: Some(Box::new(f)), ..self }
    }

    /// Sets the callback for tool calls that the caller executes.
    pub fn on_client_tool_calls<F: FnMut(TokenContext, &[ToolCall]) + Send + Sync + 'static>(self, f: F) -> (r: Consumer)
        ensures
            r.on_client_tool_calls is Some,
            r == (Consumer { on_client_tool_calls: r.on_client_tool_calls, ..self }),
    {
        Consumer { on_client_tool_calls: Some(Box::new(f)), ..self }
    }

    /// Sets the callback for tool calls that the server executes.
    pub fn on_server_tool_calls<F: FnMut(TokenContext, &[ToolCall]) + Send + Sync + 'static>(self, f: F) -> (r: Consumer)
        ensures
            r.on_server_tool_calls is Some,
            r == (Consumer { on_server_tool_calls: r.on_server_tool_calls, ..self }),
    {
        Consumer { on_server_tool_calls: Some(Box::new(f)), ..self }
    }

    /// Sets the callback for the final usage of the stream.
    pub fn on_usage<F: FnMut(&SamplingUsage) + Send + Sync + 'static>(self, f: F) -> (r: Consumer)
        ensures
            r.on_usage is Some,
            r == (Consumer { on_usage: r.on_usage, ..self }),
    {
        Consumer { on_usage: Some(Box::new(f)), ..self }
    }

    /// Sets the callback for the final citations of the stream.
    pub fn on_citations<F: FnMut(&[String]) + Send + Sync + 'static>(self, f: F) -> (r: Consumer)
        ensures
            r.on_citations is Some,
            r == (Consumer { on_citations: r.on_citations, ..self }),
    {
        Consumer { on_citations: Some(Box::new(f)), ..self }
    }
}

impl Default for Consumer {
    fn default() -> (r: Consumer)
        ensures
            r.is_empty(),
    {
        Consumer::new()
    }
}

} // verus!
